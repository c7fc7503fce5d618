//! The rules of the game: which moves are legal, when the game ends, who wins.
use vstd::prelude::*;

use crate::bitboard::{cell, on_board};
use crate::bits::{bit_at, group_bits};
use crate::board::{aligned, color_bits, line_pieces, sign, Board};
use crate::gamestate::GameState;
use crate::iterators::try_slide;
use crate::states::{direction_of_step, opponent, step_of, Direction, Move, PlayerColor};

verus! {

broadcast use group_bits;

/// Where a piece on `(x, y)` lands sliding in direction `d`: as many cells as there are pieces
/// on the line through `(x, y)` along that axis.
pub open spec fn slide_target(b: Board, x: int, y: int, d: Direction) -> (int, int) {
    let n = line_pieces(b, x, y, d) as int;
    (x + n * step_of(d).0, y + n * step_of(d).1)
}

/// None of the cells `1 .. n - 1` steps from `(x, y)` in direction `d` is set in `enemy`.
pub open spec fn path_free(enemy: u128, x: int, y: int, d: Direction, n: int) -> bool {
    forall|k: int|
        1 <= k < n ==> !#[trigger] bit_at(enemy, cell(x + k * step_of(d).0, y + k * step_of(d).1))
}

/// `c` may slide its piece on `(x, y)` in direction `d`: the piece is `c`'s, the target is on
/// the board and holds neither an own piece nor an obstacle, and no opposing piece lies on the
/// cells crossed.
pub open spec fn legal_slide(b: Board, c: PlayerColor, x: int, y: int, d: Direction) -> bool {
    let t = slide_target(b, x, y, d);
    &&& on_board(x, y)
    &&& bit_at(color_bits(b, c), cell(x, y))
    &&& on_board(t.0, t.1)
    &&& !bit_at(color_bits(b, c), cell(t.0, t.1))
    &&& !bit_at(b.obstacle_fields.bits, cell(t.0, t.1))
    &&& path_free(color_bits(b, opponent(c)), x, y, d, line_pieces(b, x, y, d) as int)
}

/// A legal slide that lands on an opposing piece.
pub open spec fn capture_slide(b: Board, c: PlayerColor, x: int, y: int, d: Direction) -> bool {
    let t = slide_target(b, x, y, d);
    legal_slide(b, c, x, y, d) && bit_at(color_bits(b, opponent(c)), cell(t.0, t.1))
}

/// `c` may move its piece from `(x, y)` to `(tx, ty)`.
pub open spec fn legal_move(b: Board, c: PlayerColor, x: int, y: int, tx: int, ty: int) -> bool {
    aligned(x, y, tx, ty) && match direction_of_step(sign(tx - x), sign(ty - y)) {
        Some(d) => legal_slide(b, c, x, y, d) && slide_target(b, x, y, d) == (tx, ty),
        None => false,
    }
}

/// The whole line through a cell holds at least the piece on that cell.
pub proof fn lemma_line_count_own(occ: u128, x: int, y: int, dx: int, dy: int, lo: int, hi: int)
    requires
        on_board(x, y),
        bit_at(occ, cell(x, y)),
        lo <= 0 < hi,
    ensures
        crate::board::line_count(occ, x, y, dx, dy, lo, hi) >= 1,
    decreases hi - lo,
{
    if hi - 1 > 0 {
        lemma_line_count_own(occ, x, y, dx, dy, lo, hi - 1);
    } else {
        assert((hi - 1) * dx == 0 && (hi - 1) * dy == 0) by (nonlinear_arith)
            requires
                hi - 1 == 0,
        ;
    }
}

/// A move between two cells is legal exactly when it is a legal slide in some direction that
/// lands on the second cell: generated moves and checked moves agree.
pub proof fn lemma_legal_move_is_slide(s: GameState, c: PlayerColor, x: int, y: int, tx: int, ty: int)
    ensures
        legal_move(s.board, c, x, y, tx, ty) <==> exists|d: Direction|
            #[trigger] legal_slide(s.board, c, x, y, d) && slide_target(s.board, x, y, d) == (tx, ty),
{
    if exists|d: Direction|
        #[trigger] legal_slide(s.board, c, x, y, d) && slide_target(s.board, x, y, d) == (tx, ty) {
        let d = choose|d: Direction|
            #[trigger] legal_slide(s.board, c, x, y, d) && slide_target(s.board, x, y, d) == (tx, ty);
        let ax = crate::board::axis_of(d);
        lemma_line_count_own(
            crate::board::occupied_bits(s.board),
            x,
            y,
            ax.0,
            ax.1,
            -9,
            10,
        );
        let n = line_pieces(s.board, x, y, d) as int;
        assert(n >= 1);
        let st = step_of(d);
        assert(tx - x == n * st.0 && ty - y == n * st.1);
        assert(sign(tx - x) == st.0 && sign(ty - y) == st.1) by (nonlinear_arith)
            requires
                tx - x == n * st.0,
                ty - y == n * st.1,
                n >= 1,
                -1 <= st.0 <= 1,
                -1 <= st.1 <= 1,
        ;
        assert(direction_of_step(st.0, st.1) == Some(d));
        assert(aligned(x, y, tx, ty)) by (nonlinear_arith)
            requires
                tx - x == n * st.0,
                ty - y == n * st.1,
                n >= 1,
                st.0 != 0 || st.1 != 0,
                st.0 == 0 || st.1 == 0 || st.0 == st.1 || st.0 == -st.1,
        ;
    }
}

/// A legal slide lands in its own direction: the signs of the displacement are the step of the
/// direction, so two legal slides of one piece to one cell go the same way.
pub proof fn lemma_slide_direction(b: Board, c: PlayerColor, x: int, y: int, d: Direction)
    requires
        legal_slide(b, c, x, y, d),
    ensures
        direction_of_step(
            sign(slide_target(b, x, y, d).0 - x),
            sign(slide_target(b, x, y, d).1 - y),
        ) == Some(d),
{
    let ax = crate::board::axis_of(d);
    lemma_line_count_own(crate::board::occupied_bits(b), x, y, ax.0, ax.1, -9, 10);
    let n = line_pieces(b, x, y, d) as int;
    let st = step_of(d);
    let t = slide_target(b, x, y, d);
    assert(t.0 - x == n * st.0 && t.1 - y == n * st.1);
    assert(sign(t.0 - x) == st.0 && sign(t.1 - y) == st.1) by (nonlinear_arith)
        requires
            t.0 - x == n * st.0,
            t.1 - y == n * st.1,
            n >= 1,
            -1 <= st.0 <= 1,
            -1 <= st.1 <= 1,
    ;
}

/// Captures are among the legal moves.
pub proof fn lemma_captures_are_moves(s: GameState, c: PlayerColor, x: int, y: int, d: Direction)
    ensures
        capture_slide(s.board, c, x, y, d) ==> legal_slide(s.board, c, x, y, d),
{
}

/// Whether `color` may move its piece from the origin of `action` to its destination; the
/// direction recorded in `action` is not consulted.
pub fn is_move_legal(state: &GameState, action: &Move, color: PlayerColor) -> (r: bool)
    ensures
        r == legal_move(
            state.board,
            color,
            action.x as int,
            action.y as int,
            action.dest_x as int,
            action.dest_y as int,
        ),
{
    let x = action.x;
    let y = action.y;
    let tx = action.dest_x;
    let ty = action.dest_y;
    if x > 9 || y > 9 || tx > 9 || ty > 9 {
        proof {
            if legal_move(state.board, color, x as int, y as int, tx as int, ty as int) {
                lemma_legal_move_is_slide(*state, color, x as int, y as int, tx as int, ty as int);
            }
        }
        return false;
    }
    let ddx: i8 = tx as i8 - x as i8;
    let ddy: i8 = ty as i8 - y as i8;
    let ax: i8 = if ddx < 0 {
        -ddx
    } else {
        ddx
    };
    let ay: i8 = if ddy < 0 {
        -ddy
    } else {
        ddy
    };
    if (ddx == 0 && ddy == 0) || !(ddx == 0 || ddy == 0 || ax == ay) {
        return false;
    }
    let sx: i8 = if ddx > 0 {
        1
    } else if ddx < 0 {
        -1
    } else {
        0
    };
    let sy: i8 = if ddy > 0 {
        1
    } else if ddy < 0 {
        -1
    } else {
        0
    };
    match Direction::from_step(sx, sy) {
        Some(d) => match try_slide(&state.board, color, x, y, d) {
            Some(m) => m.dest_x == tx && m.dest_y == ty,
            None => false,
        },
        None => false,
    }
}

/// The game is over: checked before Red moves, at turn 60 or once either color forms a single
/// swarm.
pub open spec fn finished(s: GameState) -> bool {
    s.turn % 2 == 0 && (s.turn >= 60 || crate::swarm::connected(s.board.red_fields.bits)
        || crate::swarm::connected(s.board.blue_fields.bits))
}

/// The winner of a position, judged as at the end of a round.
pub open spec fn winner(s: GameState) -> Option<PlayerColor> {
    let red = s.board.red_fields.bits;
    let blue = s.board.blue_fields.bits;
    let rs = crate::swarm::greatest(red);
    let bs = crate::swarm::greatest(blue);
    if s.turn % 2 == 1 && s.turn < 60 {
        None
    } else if crate::swarm::connected(red) {
        if crate::swarm::connected(blue) {
            if rs > bs {
                Some(PlayerColor::Red)
            } else if rs == bs {
                None
            } else {
                Some(PlayerColor::Blue)
            }
        } else {
            Some(PlayerColor::Red)
        }
    } else if crate::swarm::connected(blue) {
        Some(PlayerColor::Blue)
    } else if s.turn == 60 {
        if rs > bs {
            Some(PlayerColor::Red)
        } else if rs < bs {
            Some(PlayerColor::Blue)
        } else {
            None
        }
    } else {
        None
    }
}

/// Terminal classification: before turn 60, with neither color forming a single swarm, the game
/// is neither finished nor won; and a finished game is won by Red, by Blue, or drawn.
pub proof fn lemma_terminal_classification(s: GameState)
    ensures
        s.turn < 60 && !crate::swarm::connected(s.board.red_fields.bits)
            && !crate::swarm::connected(s.board.blue_fields.bits) ==> !finished(s) && winner(s)
            is None,
        finished(s) ==> winner(s) == Some(PlayerColor::Red) || winner(s) == Some(PlayerColor::Blue)
            || winner(s) is None,
{
}

pub fn is_finished(state: &GameState) -> (r: bool)
    ensures
        r == finished(*state),
{
    if state.turn % 2 == 1 {
        return false;
    }
    if state.turn >= 60 {
        return true;
    }
    state.is_connected(&PlayerColor::Red) || state.is_connected(&PlayerColor::Blue)
}

pub fn get_winner(state: &GameState) -> (r: Option<PlayerColor>)
    ensures
        r == winner(*state),
{
    if state.turn % 2 == 1 && state.turn < 60 {
        return None;
    }
    if state.is_connected(&PlayerColor::Red) {
        let red_size = state.greatest_swarm_size(&PlayerColor::Red);
        let blue_size = state.greatest_swarm_size(&PlayerColor::Blue);
        if state.is_connected(&PlayerColor::Blue) {
            if red_size > blue_size {
                return Some(PlayerColor::Red);
            }
            if red_size == blue_size {
                return None;
            }
            return Some(PlayerColor::Blue);
        }
        return Some(PlayerColor::Red);
    }
    if state.is_connected(&PlayerColor::Blue) {
        return Some(PlayerColor::Blue);
    }
    if state.turn == 60 {
        let red_size = state.greatest_swarm_size(&PlayerColor::Red);
        let blue_size = state.greatest_swarm_size(&PlayerColor::Blue);
        if red_size > blue_size {
            return Some(PlayerColor::Red);
        }
        if red_size < blue_size {
            return Some(PlayerColor::Blue);
        }
    }
    None
}

} // verus!
