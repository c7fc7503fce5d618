//! Walking the set cells of a bitboard, and generating the moves of a position.
use vstd::prelude::*;

use crate::bitboard::{cell, is_lowest, on_board, Bitboard};
use crate::bits::{bit_at, group_bits, trailing_zeros_u128};
use crate::board::{color_bits, Board};
use crate::gamerules::{capture_slide, legal_slide, path_free, slide_target};
use crate::gamestate::{current_color, GameState};
use crate::states::{opponent, step_of, Direction, Move, PlayerColor};

verus! {

broadcast use group_bits;

/// Yields the coordinates of the set cells of `bits`, lowest index first.
pub struct BitboardIter {
    /// The cells not yet yielded.
    pub bits: u128,
    /// How many cells were yielded, modulo 128.
    pub index: u8,
}

/// Removes the lowest set bit `k` of a nonzero word and returns `k`.
fn pop_lowest(bits: &mut u128) -> (r: u8)
    requires
        *old(bits) != 0,
    ensures
        is_lowest(*old(bits), r as int),
        *final(bits) == *old(bits) & !(1u128 << r as u128),
{
    let k = trailing_zeros_u128(*bits) as u8;
    *bits = *bits & !(1u128 << k as u128);
    k
}

impl BitboardIter {
    pub fn new(bits: u128) -> (r: BitboardIter)
        ensures
            r.bits == bits,
            r.index == 0,
    {
        BitboardIter { bits, index: 0 }
    }

    /// The coordinates of the lowest cell not yet yielded, which is then dropped.
    pub fn next(&mut self) -> (r: Option<(u8, u8)>)
        ensures
            old(self).bits == 0 ==> r.is_none() && *final(self) == *old(self),
            old(self).bits != 0 ==> r.is_some() && is_lowest(
                old(self).bits,
                cell(r.unwrap().0 as int, r.unwrap().1 as int),
            ) && r.unwrap().0 < 10 && final(self).bits == old(self).bits & !(1u128 << cell(
                r.unwrap().0 as int,
                r.unwrap().1 as int,
            ) as u128) && final(self).index == (old(self).index + 1) % 128,
    {
        if self.bits == 0 {
            return None;
        }
        let k = pop_lowest(&mut self.bits);
        self.index = ((self.index as u16 + 1) % 128) as u8;
        Some(Bitboard::coordinates_from_index(k))
    }
}

/// Yields the indices of the set cells of `bits`, lowest first.
pub struct BitboardIndexIter {
    /// The cells not yet yielded.
    pub bits: u128,
    /// How many cells were yielded, modulo 128.
    pub index: u8,
}

impl BitboardIndexIter {
    pub fn new(bits: u128) -> (r: BitboardIndexIter)
        ensures
            r.bits == bits,
            r.index == 0,
    {
        BitboardIndexIter { bits, index: 0 }
    }

    /// The lowest index not yet yielded, which is then dropped.
    pub fn next(&mut self) -> (r: Option<u8>)
        ensures
            old(self).bits == 0 ==> r.is_none() && *final(self) == *old(self),
            old(self).bits != 0 ==> r.is_some() && is_lowest(old(self).bits, r.unwrap() as int)
                && final(self).bits == old(self).bits & !(1u128 << r.unwrap() as u128)
                && final(self).index == (old(self).index + 1) % 128,
    {
        if self.bits == 0 {
            return None;
        }
        let k = pop_lowest(&mut self.bits);
        self.index = ((self.index as u16 + 1) % 128) as u8;
        Some(k)
    }
}

/// `n * s` for a step component `s`.
pub(crate) fn scale(n: i8, s: i8) -> (r: i8)
    requires
        0 <= n <= 19,
        -1 <= s <= 1,
    ensures
        r == n * s,
        -19 <= r <= 19,
{
    let r: i8 = if s > 0 {
        n
    } else if s < 0 {
        -n
    } else {
        0
    };
    assert(r == n * s) by (nonlinear_arith)
        requires
            -1 <= s <= 1,
            s > 0 ==> r == n,
            s < 0 ==> r == -n,
            s == 0 ==> r == 0,
    ;
    r
}

/// Whether no cell `1 .. n - 1` steps from `(x, y)` in direction `d` is set in `enemy`; the
/// cell `n` steps away lies on the board.
fn path_free_exec(enemy: u128, x: u8, y: u8, d: Direction, n: i8) -> (r: bool)
    requires
        on_board(x as int, y as int),
        1 <= n <= 9,
        on_board(x + n * step_of(d).0, y + n * step_of(d).1),
    ensures
        r == path_free(enemy, x as int, y as int, d, n as int),
{
    let (dx, dy) = d.get_multipliers();
    let e = Bitboard::from_bits(enemy);
    let mut k: i8 = 1;
    while k < n
        invariant
            1 <= k <= n <= 9,
            on_board(x as int, y as int),
            on_board(x + n * step_of(d).0, y + n * step_of(d).1),
            (dx as int, dy as int) == step_of(d),
            e.bits == enemy,
            forall|j: int|
                1 <= j < k ==> !#[trigger] bit_at(
                    enemy,
                    cell(x + j * step_of(d).0, y + j * step_of(d).1),
                ),
        decreases n - k,
    {
        let px: i8 = x as i8 + scale(k, dx);
        let py: i8 = y as i8 + scale(k, dy);
        assert(0 <= px < 10 && 0 <= py < 10) by (nonlinear_arith)
            requires
                px == x + k * dx,
                py == y + k * dy,
                1 <= k < n,
                -1 <= dx <= 1,
                -1 <= dy <= 1,
                0 <= x < 10,
                0 <= y < 10,
                0 <= x + n * dx < 10,
                0 <= y + n * dy < 10,
        ;
        if e.is_bit_set((py * 10 + px) as u8) {
            assert(bit_at(enemy, cell(x + k * step_of(d).0, y + k * step_of(d).1)));
            return false;
        }
        k = k + 1;
    }
    true
}

/// The move of `color`'s piece on `(x, y)` in direction `d`, if it is legal.
pub fn try_slide(board: &Board, color: PlayerColor, x: u8, y: u8, d: Direction) -> (r: Option<Move>)
    requires
        x < 10,
        y < 10,
    ensures
        r.is_some() == legal_slide(*board, color, x as int, y as int, d),
        r.is_some() ==> r.unwrap().x == x && r.unwrap().y == y && r.unwrap().direction == d && (
        r.unwrap().dest_x as int, r.unwrap().dest_y as int) == slide_target(
            *board,
            x as int,
            y as int,
            d,
        ),
{
    let (own, other) = match color {
        PlayerColor::Red => (board.red_fields, board.blue_fields),
        PlayerColor::Blue => (board.blue_fields, board.red_fields),
    };
    assert(own.bits == color_bits(*board, color) && other.bits == color_bits(*board, opponent(color)));
    if !own.is_field_set(x, y) {
        return None;
    }
    let n = board.get_distance(x, y, d);
    let (dx, dy) = d.get_multipliers();
    let tx: i8 = x as i8 + scale(n, dx);
    let ty: i8 = y as i8 + scale(n, dy);
    if tx < 0 || tx > 9 || ty < 0 || ty > 9 {
        return None;
    }
    let t: u8 = (ty * 10 + tx) as u8;
    if own.is_bit_set(t) || board.obstacle_fields.is_bit_set(t) {
        return None;
    }
    proof {
        let ax = crate::board::axis_of(d);
        crate::gamerules::lemma_line_count_own(
            crate::board::occupied_bits(*board),
            x as int,
            y as int,
            ax.0,
            ax.1,
            -9,
            10,
        );
    }
    assert(1 <= n <= 9) by (nonlinear_arith)
        requires
            tx == x + n * dx,
            ty == y + n * dy,
            dx != 0 || dy != 0,
            -1 <= dx <= 1,
            -1 <= dy <= 1,
            0 <= x < 10,
            0 <= y < 10,
            0 <= tx < 10,
            0 <= ty < 10,
            n >= 1,
    ;
    if !path_free_exec(other.bits, x, y, d, n) {
        return None;
    }
    Some(Move { x, y, dest_x: tx as u8, dest_y: ty as u8, direction: d })
}

/// The order in which the directions of a piece are tried.
pub open spec fn gen_direction(j: int) -> Direction {
    if j == 0 {
        Direction::Left
    } else if j == 1 {
        Direction::Right
    } else if j == 2 {
        Direction::Up
    } else if j == 3 {
        Direction::Down
    } else if j == 4 {
        Direction::UpRight
    } else if j == 5 {
        Direction::DownLeft
    } else if j == 6 {
        Direction::DownRight
    } else {
        Direction::UpLeft
    }
}

/// The position of a direction in the order in which the directions of a piece are tried.
pub open spec fn gen_index(d: Direction) -> int {
    match d {
        Direction::Left => 0,
        Direction::Right => 1,
        Direction::Up => 2,
        Direction::Down => 3,
        Direction::UpRight => 4,
        Direction::DownLeft => 5,
        Direction::DownRight => 6,
        Direction::UpLeft => 7,
    }
}

/// The place of a move in generation order: by origin index, then by direction.
pub open spec fn move_key(m: Move) -> int {
    cell(m.x as int, m.y as int) * 8 + gen_index(m.direction)
}

/// The moves come in strictly increasing generation order.
pub open spec fn in_generation_order(s: Seq<Move>) -> bool {
    forall|k: int, l: int| 0 <= k < l < s.len() ==> move_key(s[k]) < move_key(s[l])
}

/// No two moves share origin and direction.
pub open spec fn no_repeats(s: Seq<Move>) -> bool {
    forall|k: int, l: int|
        0 <= k < l < s.len() ==> !(s[k].x == s[l].x && s[k].y == s[l].y && s[k].direction
            == s[l].direction)
}

/// Moves in generation order from the board repeat no origin and direction.
pub proof fn lemma_ordered_no_repeats(s: Seq<Move>)
    requires
        in_generation_order(s),
    ensures
        no_repeats(s),
{
}

fn gen_direction_exec(j: usize) -> (r: Direction)
    ensures
        r == gen_direction(j as int),
{
    if j == 0 {
        Direction::Left
    } else if j == 1 {
        Direction::Right
    } else if j == 2 {
        Direction::Up
    } else if j == 3 {
        Direction::Down
    } else if j == 4 {
        Direction::UpRight
    } else if j == 5 {
        Direction::DownLeft
    } else if j == 6 {
        Direction::DownRight
    } else {
        Direction::UpLeft
    }
}

/// A slide that the generator keeps: any legal one, or only captures.
pub open spec fn wanted(b: Board, c: PlayerColor, x: int, y: int, d: Direction, captures_only: bool) -> bool {
    if captures_only {
        capture_slide(b, c, x, y, d)
    } else {
        legal_slide(b, c, x, y, d)
    }
}

/// The entry `m` describes a wanted slide of `c` landing where `m` says.
pub open spec fn sound_entry(b: Board, c: PlayerColor, m: Move, captures_only: bool) -> bool {
    wanted(b, c, m.x as int, m.y as int, m.direction, captures_only) && slide_target(
        b,
        m.x as int,
        m.y as int,
        m.direction,
    ) == (m.dest_x as int, m.dest_y as int)
}

/// Appends the wanted slides of the piece on `(x, y)`.
fn push_slides(
    board: &Board,
    color: PlayerColor,
    x: u8,
    y: u8,
    captures_only: bool,
    result: &mut Vec<Move>,
)
    requires
        x < 10,
        y < 10,
    ensures
        final(result)@.len() >= old(result)@.len(),
        forall|k: int| 0 <= k < old(result)@.len() ==> final(result)@[k] == old(result)@[k],
        forall|k: int|
            old(result)@.len() <= k < final(result)@.len() ==> sound_entry(
                *board,
                color,
                #[trigger] final(result)@[k],
                captures_only,
            ),
        forall|d: Direction|
            #[trigger] wanted(*board, color, x as int, y as int, d, captures_only) ==> exists|k: int|
                old(result)@.len() <= k < final(result)@.len() && final(result)@[k].x == x
                    && final(result)@[k].y == y && final(result)@[k].direction == d,
        forall|k: int|
            old(result)@.len() <= k < final(result)@.len() ==> (#[trigger] final(result)@[k]).x == x
                && final(result)@[k].y == y,
        forall|k: int, l: int|
            old(result)@.len() <= k < l < final(result)@.len() ==> gen_index(
                final(result)@[k].direction,
            ) < gen_index(final(result)@[l].direction),
{
    let ghost start = result@;
    let other = match color {
        PlayerColor::Red => board.blue_fields,
        PlayerColor::Blue => board.red_fields,
    };
    assert(other.bits == color_bits(*board, opponent(color)));
    let mut j: usize = 0;
    while j < 8
        invariant
            x < 10,
            y < 10,
            j <= 8,
            other.bits == color_bits(*board, opponent(color)),
            result@.len() >= start.len(),
            forall|k: int| 0 <= k < start.len() ==> result@[k] == start[k],
            forall|k: int|
                start.len() <= k < result@.len() ==> sound_entry(
                    *board,
                    color,
                    #[trigger] result@[k],
                    captures_only,
                ),
            forall|k: int|
                start.len() <= k < result@.len() ==> (#[trigger] result@[k]).x == x && result@[k].y
                    == y && gen_index(result@[k].direction) < j,
            forall|k: int, l: int|
                start.len() <= k < l < result@.len() ==> gen_index(result@[k].direction) < gen_index(
                    result@[l].direction,
                ),
            forall|i: int|
                0 <= i < j ==> (#[trigger] wanted(
                    *board,
                    color,
                    x as int,
                    y as int,
                    gen_direction(i),
                    captures_only,
                ) ==> exists|k: int|
                    start.len() <= k < result@.len() && result@[k].x == x && result@[k].y == y
                        && result@[k].direction == gen_direction(i)),
        decreases 8 - j,
    {
        let d = gen_direction_exec(j);
        if let Some(m) = try_slide(board, color, x, y, d) {
            let keep = if captures_only {
                other.is_bit_set(m.dest_y * 10 + m.dest_x)
            } else {
                true
            };
            if keep {
                let ghost prev = result@;
                result.push(m);
                proof {
                    let n = result@.len() - 1;
                    assert(result@[n] == m);
                    assert(gen_index(gen_direction(j as int)) == j);
                    assert forall|k: int| 0 <= k < n implies #[trigger] result@[k] == prev[k] by {}
                    assert forall|i: int|
                        0 <= i < j + 1 implies (#[trigger] wanted(
                        *board,
                        color,
                        x as int,
                        y as int,
                        gen_direction(i),
                        captures_only,
                    ) ==> exists|k: int|
                        start.len() <= k < result@.len() && result@[k].x == x && result@[k].y == y
                            && result@[k].direction == gen_direction(i)) by {
                        if i < j && wanted(
                            *board,
                            color,
                            x as int,
                            y as int,
                            gen_direction(i),
                            captures_only,
                        ) {
                            let k = choose|k: int|
                                start.len() <= k < prev.len() && prev[k].x == x && prev[k].y == y
                                    && prev[k].direction == gen_direction(i);
                            assert(result@[k] == prev[k]);
                        }
                        if i == j {
                            assert(result@[n].direction == gen_direction(i));
                        }
                    }
                }
            }
        }
        j = j + 1;
    }
    proof {
        assert forall|d: Direction|
            #[trigger] wanted(*board, color, x as int, y as int, d, captures_only) implies exists|
            k: int,
        |
            start.len() <= k < result@.len() && result@[k].x == x && result@[k].y == y
                && result@[k].direction == d by {
            let i: int = match d {
                Direction::Left => 0,
                Direction::Right => 1,
                Direction::Up => 2,
                Direction::Down => 3,
                Direction::UpRight => 4,
                Direction::DownLeft => 5,
                Direction::DownRight => 6,
                Direction::UpLeft => 7,
            };
            assert(gen_direction(i) == d);
        }
    }
}

/// The wanted slides of every piece of `color`, pieces by ascending index.
fn collect_slides(state: &GameState, color: PlayerColor, captures_only: bool) -> (r: Vec<Move>)
    ensures
        forall|k: int| 0 <= k < r@.len() ==> sound_entry(state.board, color, #[trigger] r@[k], captures_only),
        forall|x: int, y: int, d: Direction|
            #[trigger] wanted(state.board, color, x, y, d, captures_only) ==> exists|k: int|
                0 <= k < r@.len() && r@[k].x == x && r@[k].y == y && r@[k].direction == d,
        in_generation_order(r@),
{
    let mut result: Vec<Move> = Vec::new();
    let own = state.board.get_fields_of(&color);
    let mut i: u8 = 0;
    while i < 100
        invariant
            i <= 100,
            own.bits == color_bits(state.board, color),
            forall|k: int|
                0 <= k < result@.len() ==> sound_entry(
                    state.board,
                    color,
                    #[trigger] result@[k],
                    captures_only,
                ),
            forall|x: int, y: int, d: Direction|
                #[trigger] wanted(state.board, color, x, y, d, captures_only) && cell(x, y) < i
                    ==> exists|k: int|
                    0 <= k < result@.len() && result@[k].x == x && result@[k].y == y
                        && result@[k].direction == d,
            in_generation_order(result@),
            forall|k: int| 0 <= k < result@.len() ==> cell((#[trigger] result@[k]).x as int, result@[k].y as int) < i,
        decreases 100 - i,
    {
        if own.is_bit_set(i) {
            let (x, y) = Bitboard::coordinates_from_index(i);
            let ghost before = result@;
            push_slides(&state.board, color, x, y, captures_only, &mut result);
            proof {
                assert(cell(x as int, y as int) == i);
                assert forall|k: int| 0 <= k < result@.len() implies cell(
                    (#[trigger] result@[k]).x as int,
                    result@[k].y as int,
                ) < i + 1 by {
                    if k < before.len() {
                        assert(result@[k] == before[k]);
                    }
                }
                assert forall|k: int, l: int| 0 <= k < l < result@.len() implies move_key(result@[k])
                    < move_key(result@[l]) by {
                    if l < before.len() {
                        assert(result@[k] == before[k] && result@[l] == before[l]);
                    } else if k < before.len() {
                        assert(result@[k] == before[k]);
                        assert(cell(before[k].x as int, before[k].y as int) < i);
                        assert(result@[l].x == x && result@[l].y == y);
                    } else {
                        assert(result@[l].x == x && result@[l].y == y);
                        assert(result@[k].x == x && result@[k].y == y);
                    }
                }
                assert forall|px: int, py: int, d: Direction|
                    #[trigger] wanted(state.board, color, px, py, d, captures_only) && cell(px, py)
                        < i + 1 implies exists|k: int|
                    0 <= k < result@.len() && result@[k].x == px && result@[k].y == py
                        && result@[k].direction == d by {
                    if cell(px, py) < i {
                        let k = choose|k: int|
                            0 <= k < before.len() && before[k].x == px && before[k].y == py
                                && before[k].direction == d;
                        assert(result@[k] == before[k]);
                    } else {
                        assert(px == x && py == y);
                    }
                }
            }
        } else {
            proof {
                assert forall|px: int, py: int, d: Direction|
                    #[trigger] wanted(state.board, color, px, py, d, captures_only) implies cell(
                    px,
                    py,
                ) != i by {}
            }
        }
        i = i + 1;
    }
    result
}

/// Every legal move of the side to move, pieces by ascending index, directions in the order
/// left, right, up, down, up-right, down-left, down-right, up-left.
pub fn get_possible_moves(state: &GameState) -> (r: Vec<Move>)
    ensures
        forall|k: int|
            #![trigger r@[k]]
            0 <= k < r@.len() ==> legal_slide(
                state.board,
                current_color(*state),
                r@[k].x as int,
                r@[k].y as int,
                r@[k].direction,
            ) && slide_target(state.board, r@[k].x as int, r@[k].y as int, r@[k].direction) == (
            r@[k].dest_x as int,
            r@[k].dest_y as int,
            ),
        forall|x: int, y: int, d: Direction|
            #[trigger] legal_slide(state.board, current_color(*state), x, y, d) ==> exists|k: int|
                0 <= k < r@.len() && r@[k].x == x && r@[k].y == y && r@[k].direction == d,
        in_generation_order(r@),
        no_repeats(r@),
{
    let color = state.get_current_player_color();
    let r = collect_slides(state, color, false);
    assert forall|k: int| #![trigger r@[k]] 0 <= k < r@.len() implies legal_slide(
        state.board,
        current_color(*state),
        r@[k].x as int,
        r@[k].y as int,
        r@[k].direction,
    ) && slide_target(state.board, r@[k].x as int, r@[k].y as int, r@[k].direction) == (
    r@[k].dest_x as int,
    r@[k].dest_y as int,
    ) by {
        assert(sound_entry(state.board, color, r@[k], false));
    }
    assert forall|x: int, y: int, d: Direction|
        #[trigger] legal_slide(state.board, current_color(*state), x, y, d) implies exists|k: int|
        0 <= k < r@.len() && r@[k].x == x && r@[k].y == y && r@[k].direction == d by {
        assert(wanted(state.board, color, x, y, d, false));
    }
    proof {
        lemma_ordered_no_repeats(r@);
    }
    r
}

/// Every legal capture of the side to move, in the order of `get_possible_moves`.
pub fn get_captures(state: &GameState) -> (r: Vec<Move>)
    ensures
        forall|k: int|
            #![trigger r@[k]]
            0 <= k < r@.len() ==> capture_slide(
                state.board,
                current_color(*state),
                r@[k].x as int,
                r@[k].y as int,
                r@[k].direction,
            ) && slide_target(state.board, r@[k].x as int, r@[k].y as int, r@[k].direction) == (
            r@[k].dest_x as int,
            r@[k].dest_y as int,
            ),
        forall|x: int, y: int, d: Direction|
            #[trigger] capture_slide(state.board, current_color(*state), x, y, d) ==> exists|k: int|
                0 <= k < r@.len() && r@[k].x == x && r@[k].y == y && r@[k].direction == d,
        in_generation_order(r@),
        no_repeats(r@),
{
    let color = state.get_current_player_color();
    let r = collect_slides(state, color, true);
    assert forall|k: int| #![trigger r@[k]] 0 <= k < r@.len() implies capture_slide(
        state.board,
        current_color(*state),
        r@[k].x as int,
        r@[k].y as int,
        r@[k].direction,
    ) && slide_target(state.board, r@[k].x as int, r@[k].y as int, r@[k].direction) == (
    r@[k].dest_x as int,
    r@[k].dest_y as int,
    ) by {
        assert(sound_entry(state.board, color, r@[k], true));
    }
    assert forall|x: int, y: int, d: Direction|
        #[trigger] capture_slide(state.board, current_color(*state), x, y, d) implies exists|k: int|
        0 <= k < r@.len() && r@[k].x == x && r@[k].y == y && r@[k].direction == d by {
        assert(wanted(state.board, color, x, y, d, true));
    }
    proof {
        lemma_ordered_no_repeats(r@);
    }
    r
}

/// The cells on which pieces of `color` can capture.
pub fn get_attack_board(state: &GameState, color: &PlayerColor) -> (r: u128)
    ensures
        forall|i: int|
            #![trigger bit_at(r, i)]
            bit_at(r, i) <==> exists|x: int, y: int, d: Direction|
                #[trigger] capture_slide(state.board, *color, x, y, d) && cell(
                    slide_target(state.board, x, y, d).0,
                    slide_target(state.board, x, y, d).1,
                ) == i,
{
    let moves = collect_slides(state, *color, true);
    let mut r: u128 = 0;
    let mut j: usize = 0;
    while j < moves.len()
        invariant
            j <= moves@.len(),
            forall|k: int|
                0 <= k < moves@.len() ==> sound_entry(
                    state.board,
                    *color,
                    #[trigger] moves@[k],
                    true,
                ),
            forall|i: int|
                #![trigger bit_at(r, i)]
                bit_at(r, i) <==> exists|k: int|
                    0 <= k < j && cell(moves@[k].dest_x as int, moves@[k].dest_y as int) == i,
        decreases moves@.len() - j,
    {
        let m = moves[j];
        assert(sound_entry(state.board, *color, moves@[j as int], true));
        let t: u8 = m.dest_y * 10 + m.dest_x;
        let ghost r0 = r;
        r = r | (1u128 << (t as u128));
        proof {
            assert forall|i: int| #![trigger bit_at(r, i)] bit_at(r, i) <==> exists|k: int|
                0 <= k < j + 1 && cell(moves@[k].dest_x as int, moves@[k].dest_y as int) == i by {
                if bit_at(r, i) && !bit_at(r0, i) {
                    assert(cell(moves@[j as int].dest_x as int, moves@[j as int].dest_y as int) == i);
                }
                if exists|k: int|
                    0 <= k < j + 1 && cell(moves@[k].dest_x as int, moves@[k].dest_y as int) == i {
                    let k = choose|k: int|
                        0 <= k < j + 1 && cell(moves@[k].dest_x as int, moves@[k].dest_y as int)
                            == i;
                    if k < j {
                        assert(bit_at(r0, i));
                    }
                }
            }
        }
        j = j + 1;
    }
    proof {
        assert forall|i: int| #![trigger bit_at(r, i)] bit_at(r, i) <==> exists|x: int, y: int, d: Direction|
            #[trigger] capture_slide(state.board, *color, x, y, d) && cell(
                slide_target(state.board, x, y, d).0,
                slide_target(state.board, x, y, d).1,
            ) == i by {
            if bit_at(r, i) {
                let k = choose|k: int|
                    0 <= k < j && cell(moves@[k].dest_x as int, moves@[k].dest_y as int) == i;
                let m = moves@[k];
                assert(sound_entry(state.board, *color, m, true));
                assert(capture_slide(state.board, *color, m.x as int, m.y as int, m.direction));
            }
            if exists|x: int, y: int, d: Direction|
                #[trigger] capture_slide(state.board, *color, x, y, d) && cell(
                    slide_target(state.board, x, y, d).0,
                    slide_target(state.board, x, y, d).1,
                ) == i {
                let (x, y, d) = choose|x: int, y: int, d: Direction|
                    #[trigger] capture_slide(state.board, *color, x, y, d) && cell(
                        slide_target(state.board, x, y, d).0,
                        slide_target(state.board, x, y, d).1,
                    ) == i;
                assert(wanted(state.board, *color, x, y, d, true));
                let k = choose|k: int|
                    0 <= k < moves@.len() && moves@[k].x == x && moves@[k].y == y
                        && moves@[k].direction == d;
                assert(sound_entry(state.board, *color, moves@[k], true));
            }
        }
    }
    r
}

} // verus!
