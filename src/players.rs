//! Integer heuristics of the simple players: distance to the greatest swarm, and the spread
//! of a color's pieces.
use vstd::prelude::*;

use crate::bits::{bit_at, group_bits};
use crate::board::color_bits;
use crate::gamerules::{legal_slide, slide_target};
use crate::gamestate::{current_color, GameState};
use crate::states::{Direction, Move};
use crate::iterators::{gen_index, move_key};
use crate::bits::popcount;
use crate::swarm::{greatest, is_swarm_of};
use crate::util::{lists_cells, min_sq_dist, Helper};

verus! {

broadcast use group_bits;

/// Chooses the move that brings a piece closest to the greatest swarm.
pub struct SingleDistancePlayer;

/// Chooses among several moves by their distance to the greatest swarm.
pub struct MultiDistancePlayer;

impl SingleDistancePlayer {
    /// How much closer `action` brings its piece to `swarm`, in squared distance.
    pub fn rate(action: &Move, swarm: &Vec<(u8, u8)>) -> (r: i32)
        ensures
            r as int == min_sq_dist(action.x as int, action.y as int, swarm@, swarm@.len() as int)
                - min_sq_dist(action.dest_x as int, action.dest_y as int, swarm@, swarm@.len() as int),
    {
        let a = Helper::get_distance_to_swarm(action.x, action.y, swarm);
        let b = Helper::get_distance_to_swarm(action.dest_x, action.dest_y, swarm);
        a as i32 - b as i32
    }
}

/// How much closer a move from `(ax, ay)` to `(tx, ty)` brings its piece to the cells `sw`.
pub open spec fn approach(sw: Seq<(u8, u8)>, ax: int, ay: int, tx: int, ty: int) -> int {
    min_sq_dist(ax, ay, sw, sw.len() as int) - min_sq_dist(tx, ty, sw, sw.len() as int)
}

/// `sw` lists the cells of a greatest swarm of the side to move.
pub open spec fn greatest_swarm_cells(s: GameState, sw: Seq<(u8, u8)>) -> bool {
    let own = color_bits(s.board, current_color(s));
    exists|c: u128| #[trigger] lists_cells(sw, c) && popcount(c) == greatest(own) && is_swarm_of(own, c)
}

impl SingleDistancePlayer {
    /// The legal move of the side to move that brings a piece closest to its greatest swarm;
    /// of several equal ones the first in generation order. None when there is no legal move.
    pub fn best_move(state: &GameState) -> (r: Option<Move>)
        ensures
            r.is_none() <==> forall|x: int, y: int, d: Direction|
                !#[trigger] legal_slide(state.board, current_color(*state), x, y, d),
            r.is_some() ==> legal_slide(
                state.board,
                current_color(*state),
                r.unwrap().x as int,
                r.unwrap().y as int,
                r.unwrap().direction,
            ) && slide_target(state.board, r.unwrap().x as int, r.unwrap().y as int, r.unwrap().direction)
                == (r.unwrap().dest_x as int, r.unwrap().dest_y as int),
            r.is_some() ==> exists|sw: Seq<(u8, u8)>|
                #[trigger] greatest_swarm_cells(*state, sw) && forall|x: int, y: int, d: Direction|
                    #[trigger] legal_slide(state.board, current_color(*state), x, y, d) ==> approach(
                        sw,
                        x,
                        y,
                        slide_target(state.board, x, y, d).0,
                        slide_target(state.board, x, y, d).1,
                    ) <= approach(
                        sw,
                        r.unwrap().x as int,
                        r.unwrap().y as int,
                        r.unwrap().dest_x as int,
                        r.unwrap().dest_y as int,
                    ),
            r.is_some() ==> forall|x: int, y: int, d: Direction|
                #[trigger] legal_slide(state.board, current_color(*state), x, y, d) && (forall|
                    sw: Seq<(u8, u8)>,
                | #[trigger] greatest_swarm_cells(*state, sw) ==> approach(
                    sw,
                    x,
                    y,
                    slide_target(state.board, x, y, d).0,
                    slide_target(state.board, x, y, d).1,
                ) == approach(
                    sw,
                    r.unwrap().x as int,
                    r.unwrap().y as int,
                    r.unwrap().dest_x as int,
                    r.unwrap().dest_y as int,
                )) ==> move_key(r.unwrap()) <= crate::bitboard::cell(x, y) * 8 + gen_index(d),
    {
        let moves = state.get_move_list();
        if moves.len() == 0 {
            return None;
        }
        let color = state.get_current_player_color();
        let swarm = Helper::greatest_swarm(state, &color);
        proof {
            let m = moves@[0];
            assert(legal_slide(state.board, current_color(*state), m.x as int, m.y as int, m.direction));
            assert(color_bits(state.board, current_color(*state)) != 0) by {
                if color_bits(state.board, current_color(*state)) == 0 {
                    assert(!bit_at(0u128, crate::bitboard::cell(m.x as int, m.y as int)));
                }
            }
        }
        let mut best = moves[0];
        let mut max_rate = SingleDistancePlayer::rate(&best, &swarm);
        let mut k: usize = 1;
        let ghost mut bi: int = 0;
        while k < moves.len()
            invariant
                1 <= k <= moves@.len(),
                0 <= bi < k,
                moves@[bi] == best,
                forall|j: int|
                    0 <= j < k && max_rate as int == approach(
                        swarm@,
                        #[trigger] moves@[j].x as int,
                        moves@[j].y as int,
                        moves@[j].dest_x as int,
                        moves@[j].dest_y as int,
                    ) ==> bi <= j,
                max_rate as int == approach(
                    swarm@,
                    best.x as int,
                    best.y as int,
                    best.dest_x as int,
                    best.dest_y as int,
                ),
                forall|j: int|
                    0 <= j < k ==> approach(
                        swarm@,
                        #[trigger] moves@[j].x as int,
                        moves@[j].y as int,
                        moves@[j].dest_x as int,
                        moves@[j].dest_y as int,
                    ) <= max_rate as int,
            decreases moves@.len() - k,
        {
            let candidate = moves[k];
            let rate = SingleDistancePlayer::rate(&candidate, &swarm);
            if rate > max_rate {
                max_rate = rate;
                best = candidate;
                proof {
                    bi = k as int;
                }
            }
            k = k + 1;
        }
        proof {
            let j = bi;
            assert(moves@[j] == moves@[j]);
            assert(greatest_swarm_cells(*state, swarm@));
            assert forall|px: int, py: int, d: Direction|
                #[trigger] legal_slide(state.board, current_color(*state), px, py, d) && (forall|
                    sw: Seq<(u8, u8)>,
                | #[trigger] greatest_swarm_cells(*state, sw) ==> approach(
                    sw,
                    px,
                    py,
                    slide_target(state.board, px, py, d).0,
                    slide_target(state.board, px, py, d).1,
                ) == approach(
                    sw,
                    best.x as int,
                    best.y as int,
                    best.dest_x as int,
                    best.dest_y as int,
                )) implies move_key(best) <= crate::bitboard::cell(px, py) * 8 + gen_index(d) by {
                let i = choose|i: int|
                    0 <= i < moves@.len() && moves@[i].x == px && moves@[i].y == py
                        && moves@[i].direction == d;
                assert(moves@[i] == moves@[i]);
                assert(bi <= i);
                if bi < i {
                    assert(move_key(moves@[bi]) < move_key(moves@[i]));
                }
            }
            assert forall|px: int, py: int, d: Direction|
                #[trigger] legal_slide(state.board, current_color(*state), px, py, d) implies approach(
                swarm@,
                px,
                py,
                slide_target(state.board, px, py, d).0,
                slide_target(state.board, px, py, d).1,
            ) <= approach(
                swarm@,
                best.x as int,
                best.y as int,
                best.dest_x as int,
                best.dest_y as int,
            ) by {
                let i = choose|i: int|
                    0 <= i < moves@.len() && moves@[i].x == px && moves@[i].y == py
                        && moves@[i].direction == d;
                assert(moves@[i] == moves@[i]);
            }
        }
        Some(best)
    }
}

/// Sums over the set cells `i < n` of `b`: of `x*x`, of `y*y`, of `x`, of `y`, and their number,
/// with `(x, y) = (i % 10, i / 10)`.
pub open spec fn sums(b: u128, n: int) -> (int, int, int, int, int)
    decreases n,
{
    if n <= 0 {
        (0, 0, 0, 0, 0)
    } else {
        let p = sums(b, n - 1);
        let i = n - 1;
        if bit_at(b, i) {
            let x = i % 10;
            let y = i / 10;
            (p.0 + x * x, p.1 + y * y, p.2 + x, p.3 + y, p.4 + 1)
        } else {
            p
        }
    }
}

proof fn lemma_sums_bounds(b: u128, n: int)
    requires
        0 <= n <= 128,
    ensures
        0 <= sums(b, n).0 <= 81 * n,
        0 <= sums(b, n).1 <= 144 * n,
        0 <= sums(b, n).2 <= 9 * n,
        0 <= sums(b, n).3 <= 12 * n,
        0 <= sums(b, n).4 <= n,
    decreases n,
{
    if n > 0 {
        lemma_sums_bounds(b, n - 1);
        let i = n - 1;
        let x = i % 10;
        let y = i / 10;
        assert(0 <= x <= 9 && 0 <= y <= 12);
        assert(x * x <= 81 && y * y <= 144) by (nonlinear_arith)
            requires
                0 <= x <= 9,
                0 <= y <= 12,
        ;
        assert(0 <= x * x && 0 <= y * y) by (nonlinear_arith)
            requires
                0 <= x,
                0 <= y,
        ;
    }
}

/// The spread after moving a piece from `(ax, ay)` to `(tx, ty)`, given the sums of the
/// pieces before: the sum over both axes of `sum(v*v) - sum(v)^2 / count`.
pub open spec fn spread_after(
    squared_x: int,
    squared_y: int,
    x: int,
    y: int,
    len: int,
    ax: int,
    ay: int,
    tx: int,
    ty: int,
) -> int {
    let sx = squared_x + tx * tx - ax * ax;
    let sy = squared_y - ay * ay + ty * ty;
    let nx = x + tx - ax;
    let ny = y + ty - ay;
    (sx - nx * nx / len) + (sy - ny * ny / len)
}

/// The spread of the side to move after playing from `(ax, ay)` to `(tx, ty)`.
pub open spec fn spread_of_move(s: GameState, ax: int, ay: int, tx: int, ty: int) -> int {
    let p = sums(color_bits(s.board, current_color(s)), 128);
    spread_after(p.0, p.1, p.2, p.3, p.4, ax, ay, tx, ty)
}

/// Moves that spread the pieces least are preferred.
pub struct LogicBasedPlayer;

impl LogicBasedPlayer {
    /// The sums of `x*x`, `y*y`, `x`, `y` over the pieces of the side to move, and their number.
    pub fn get_sums(state: &GameState) -> (r: (i32, i32, i32, i32, i32))
        ensures
            (r.0 as int, r.1 as int, r.2 as int, r.3 as int, r.4 as int) == sums(
                color_bits(state.board, current_color(*state)),
                128,
            ),
    {
        let own = state.board.get_fields_of(&state.get_current_player_color());
        let ghost b = own.bits;
        let mut squared_sum_x: i32 = 0;
        let mut squared_sum_y: i32 = 0;
        let mut sum_x: i32 = 0;
        let mut sum_y: i32 = 0;
        let mut len: i32 = 0;
        let mut i: u8 = 0;
        while i < 128
            invariant
                i <= 128,
                b == own.bits,
                (squared_sum_x as int, squared_sum_y as int, sum_x as int, sum_y as int, len as int)
                    == sums(b, i as int),
            decreases 128 - i,
        {
            proof {
                lemma_sums_bounds(b, i as int);
            }
            if own.is_bit_set(i) {
                let x: i32 = (i % 10) as i32;
                let y: i32 = (i / 10) as i32;
                assert(0 <= x * x <= 81 && 0 <= y * y <= 144) by (nonlinear_arith)
                    requires
                        0 <= x <= 9,
                        0 <= y <= 12,
                ;
                squared_sum_x = squared_sum_x + x * x;
                squared_sum_y = squared_sum_y + y * y;
                sum_x = sum_x + x;
                sum_y = sum_y + y;
                len = len + 1;
            }
            i = i + 1;
        }
        (squared_sum_x, squared_sum_y, sum_x, sum_y, len)
    }

    /// The spread after `action`, from the sums of the pieces before it.
    pub fn easy_rate(squared_x: i32, squared_y: i32, x: i32, y: i32, len: i32, action: &Move) -> (r:
        i32)
        requires
            len > 0,
            0 <= squared_x <= 1_000_000_000,
            0 <= squared_y <= 1_000_000_000,
            -20000 <= x <= 20000,
            -20000 <= y <= 20000,
        ensures
            r as int == spread_after(
                squared_x as int,
                squared_y as int,
                x as int,
                y as int,
                len as int,
                action.x as int,
                action.y as int,
                action.dest_x as int,
                action.dest_y as int,
            ),
    {
        let ax = action.x as i32;
        let ay = action.y as i32;
        let tx = action.dest_x as i32;
        let ty = action.dest_y as i32;
        assert(0 <= ax * ax <= 65025 && 0 <= ay * ay <= 65025 && 0 <= tx * tx <= 65025 && 0 <= ty
            * ty <= 65025) by (nonlinear_arith)
            requires
                0 <= ax <= 255,
                0 <= ay <= 255,
                0 <= tx <= 255,
                0 <= ty <= 255,
        ;
        let sx = squared_x + tx * tx - ax * ax;
        let sy = squared_y - ay * ay + ty * ty;
        let nx = x + tx - ax;
        let ny = y + ty - ay;
        assert(0 <= nx * nx <= 410265025 && 0 <= ny * ny <= 410265025) by (nonlinear_arith)
            requires
                -20255 <= nx <= 20255,
                -20255 <= ny <= 20255,
        ;
        let qx = nx * nx / len;
        let qy = ny * ny / len;
        assert(0 <= qx <= nx * nx && 0 <= qy <= ny * ny) by (nonlinear_arith)
            requires
                len > 0,
                0 <= nx * nx,
                0 <= ny * ny,
                qx == (nx * nx) / (len as int),
                qy == (ny * ny) / (len as int),
        ;
        (sx - qx) + (sy - qy)
    }

    /// The legal move of the side to move that leaves its pieces least spread; of several equal
    /// ones the first in generation order. None when there is no legal move.
    pub fn on_state(state: &GameState) -> (r: Option<Move>)
        ensures
            r.is_none() <==> forall|x: int, y: int, d: Direction|
                !#[trigger] legal_slide(state.board, current_color(*state), x, y, d),
            r.is_some() ==> legal_slide(
                state.board,
                current_color(*state),
                r.unwrap().x as int,
                r.unwrap().y as int,
                r.unwrap().direction,
            ) && slide_target(state.board, r.unwrap().x as int, r.unwrap().y as int, r.unwrap().direction)
                == (r.unwrap().dest_x as int, r.unwrap().dest_y as int),
            r.is_some() ==> forall|x: int, y: int, d: Direction|
                #[trigger] legal_slide(state.board, current_color(*state), x, y, d) ==> spread_of_move(
                    *state,
                    r.unwrap().x as int,
                    r.unwrap().y as int,
                    r.unwrap().dest_x as int,
                    r.unwrap().dest_y as int,
                ) <= spread_of_move(
                    *state,
                    x,
                    y,
                    slide_target(state.board, x, y, d).0,
                    slide_target(state.board, x, y, d).1,
                ),
            r.is_some() ==> forall|x: int, y: int, d: Direction|
                #[trigger] legal_slide(state.board, current_color(*state), x, y, d) && spread_of_move(
                    *state,
                    x,
                    y,
                    slide_target(state.board, x, y, d).0,
                    slide_target(state.board, x, y, d).1,
                ) == spread_of_move(
                    *state,
                    r.unwrap().x as int,
                    r.unwrap().y as int,
                    r.unwrap().dest_x as int,
                    r.unwrap().dest_y as int,
                ) ==> move_key(r.unwrap()) <= crate::bitboard::cell(x, y) * 8 + gen_index(d),
    {
        let moves = state.get_move_list();
        if moves.len() == 0 {
            return None;
        }
        let (squared_x, squared_y, x, y, len) = LogicBasedPlayer::get_sums(state);
        let ghost b = color_bits(state.board, current_color(*state));
        proof {
            lemma_sums_bounds(b, 128);
            let m = moves@[0];
            assert(legal_slide(state.board, current_color(*state), m.x as int, m.y as int, m.direction));
            lemma_own_piece_counted(b, crate::bitboard::cell(m.x as int, m.y as int), 128);
        }
        let mut best = moves[0];
        let mut min_rate = LogicBasedPlayer::easy_rate(squared_x, squared_y, x, y, len, &best);
        let mut k: usize = 1;
        let ghost mut bi: int = 0;
        while k < moves.len()
            invariant
                1 <= k <= moves@.len(),
                len > 0,
                0 <= squared_x <= 1_000_000_000,
                0 <= squared_y <= 1_000_000_000,
                -20000 <= x <= 20000,
                -20000 <= y <= 20000,
                (squared_x as int, squared_y as int, x as int, y as int, len as int) == sums(b, 128),
                b == color_bits(state.board, current_color(*state)),
                0 <= bi < k,
                moves@[bi] == best,
                forall|j: int|
                    0 <= j < k && min_rate as int == spread_of_move(
                        *state,
                        #[trigger] moves@[j].x as int,
                        moves@[j].y as int,
                        moves@[j].dest_x as int,
                        moves@[j].dest_y as int,
                    ) ==> bi <= j,
                min_rate as int == spread_of_move(
                    *state,
                    best.x as int,
                    best.y as int,
                    best.dest_x as int,
                    best.dest_y as int,
                ),
                forall|j: int|
                    0 <= j < k ==> min_rate as int <= spread_of_move(
                        *state,
                        #[trigger] moves@[j].x as int,
                        moves@[j].y as int,
                        moves@[j].dest_x as int,
                        moves@[j].dest_y as int,
                    ),
            decreases moves@.len() - k,
        {
            let candidate = moves[k];
            let rate = LogicBasedPlayer::easy_rate(squared_x, squared_y, x, y, len, &candidate);
            if rate < min_rate {
                min_rate = rate;
                best = candidate;
                proof {
                    bi = k as int;
                }
            }
            k = k + 1;
        }
        proof {
            let j = bi;
            assert(moves@[j] == moves@[j]);
            assert forall|px: int, py: int, d: Direction|
                #[trigger] legal_slide(state.board, current_color(*state), px, py, d) && spread_of_move(
                    *state,
                    px,
                    py,
                    slide_target(state.board, px, py, d).0,
                    slide_target(state.board, px, py, d).1,
                ) == spread_of_move(
                    *state,
                    best.x as int,
                    best.y as int,
                    best.dest_x as int,
                    best.dest_y as int,
                ) implies move_key(best) <= crate::bitboard::cell(px, py) * 8 + gen_index(d) by {
                let i = choose|i: int|
                    0 <= i < moves@.len() && moves@[i].x == px && moves@[i].y == py
                        && moves@[i].direction == d;
                assert(moves@[i] == moves@[i]);
                assert(bi <= i);
                if bi < i {
                    assert(move_key(moves@[bi]) < move_key(moves@[i]));
                }
            }
            assert forall|px: int, py: int, d: Direction|
                #[trigger] legal_slide(state.board, current_color(*state), px, py, d) implies spread_of_move(
                *state,
                best.x as int,
                best.y as int,
                best.dest_x as int,
                best.dest_y as int,
            ) <= spread_of_move(
                *state,
                px,
                py,
                slide_target(state.board, px, py, d).0,
                slide_target(state.board, px, py, d).1,
            ) by {
                let i = choose|i: int|
                    0 <= i < moves@.len() && moves@[i].x == px && moves@[i].y == py
                        && moves@[i].direction == d;
                assert(moves@[i] == moves@[i]);
            }
        }
        Some(best)
    }
}

/// A set cell below `n` is counted.
proof fn lemma_own_piece_counted(b: u128, i: int, n: int)
    requires
        bit_at(b, i),
        0 <= i < n <= 128,
    ensures
        sums(b, n).4 >= 1,
    decreases n,
{
    lemma_sums_bounds(b, n - 1);
    if i < n - 1 {
        lemma_own_piece_counted(b, i, n - 1);
    }
}

} // verus!
