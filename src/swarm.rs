//! Swarms: the 8-connected groups of one color's pieces, found by flood fill on bitboards.
use vstd::prelude::*;

use crate::bitboard::{cell, is_lowest, Bitboard};
use crate::bits::{
    bit_at, count_bits, group_bits, lemma_bits_ext, lemma_count_bound, lemma_count_disjoint_union,
    lemma_count_subset, lemma_no_bits_zero, popcount,
};
use crate::board::color_bits;
use crate::gamestate::GameState;
use crate::states::PlayerColor;

verus! {

broadcast use group_bits;

/// The cells of column `x = 0`, and index 100 just past the last row: what a shift towards
/// higher `x` moves there came from column `x = 9` of the row below.
pub const LEFT_COLUMN_MASK: u128 = 0x10040100401004010040100401;

/// The cells of column `x = 9`.
pub const RIGHT_COLUMN_MASK: u128 = 0x8020080200802008020080200;

/// One growth step: `b` together with its horizontal, vertical and diagonal neighbours, kept
/// within `s`. The horizontal shifts drop what wraps from one row into the next.
pub open spec fn grow_step(b: u128, s: u128) -> u128 {
    let left = (b << 1u128) & !LEFT_COLUMN_MASK;
    let right = (b >> 1u128) & !RIGHT_COLUMN_MASK;
    let row = b | left | right;
    (row | (row << 10u128) | (row >> 10u128)) & s
}

/// Cells `i` and `j` of the board touch horizontally, vertically or diagonally, or are the
/// same cell.
pub open spec fn adjacent(i: int, j: int) -> bool {
    &&& 0 <= i < 100
    &&& 0 <= j < 100
    &&& -1 <= i % 10 - j % 10 <= 1
    &&& -1 <= i / 10 - j / 10 <= 1
}

/// Cell `i` or a cell beside it in its row is set in `b`.
pub open spec fn row_neighbour(b: u128, i: int) -> bool {
    bit_at(b, i) || (i % 10 != 0 && bit_at(b, i - 1)) || (i % 10 != 9 && bit_at(b, i + 1))
}

proof fn lemma_row_shifts(b: u128, i: u128)
    requires
        i < 100,
    ensures
        (((b << 1u128) & !LEFT_COLUMN_MASK) >> i) & 1u128 == 1u128 <==> (i % 10 != 0 && i >= 1 && (b
            >> ((i - 1) as u128)) & 1u128 == 1u128),
        (((b >> 1u128) & !RIGHT_COLUMN_MASK) >> i) & 1u128 == 1u128 <==> (i % 10 != 9 && (b >> ((i
            + 1) as u128)) & 1u128 == 1u128),
{
    assert((((b << 1u128) & !0x10040100401004010040100401u128) >> i) & 1u128 == 1u128 <==> (i % 10
        != 0 && i >= 1 && (b >> ((i - 1) as u128)) & 1u128 == 1u128)) by (bit_vector)
        requires
            i < 100,
    ;
    assert((((b >> 1u128) & !0x8020080200802008020080200u128) >> i) & 1u128 == 1u128 <==> (i % 10
        != 9 && (b >> ((i + 1) as u128)) & 1u128 == 1u128)) by (bit_vector)
        requires
            i < 100,
    ;
}

proof fn lemma_column_shifts(r: u128, i: u128)
    requires
        i < 128,
    ensures
        ((r << 10u128) >> i) & 1u128 == 1u128 <==> (i >= 10 && (r >> ((i - 10) as u128)) & 1u128
            == 1u128),
        ((r >> 10u128) >> i) & 1u128 == 1u128 <==> (i < 118 && (r >> ((i + 10) as u128)) & 1u128
            == 1u128),
{
    assert(((r << 10u128) >> i) & 1u128 == 1u128 <==> (i >= 10 && (r >> ((i - 10) as u128)) & 1u128
        == 1u128)) by (bit_vector)
        requires
            i < 128,
    ;
    assert(((r >> 10u128) >> i) & 1u128 == 1u128 <==> (i < 118 && (r >> ((i + 10) as u128)) & 1u128
        == 1u128)) by (bit_vector)
        requires
            i < 128,
    ;
}

/// The row part of a growth step: for a word of board cells, a cell is set exactly when it or
/// a cell beside it in its row is set, and nothing beyond the board is set.
proof fn lemma_row_part(b: u128, i: int)
    requires
        crate::bitboard::in_region(b),
        0 <= i < 128,
    ensures
        bit_at(b | ((b << 1u128) & !LEFT_COLUMN_MASK) | ((b >> 1u128) & !RIGHT_COLUMN_MASK), i) == (i
            < 100 && row_neighbour(b, i)),
{
    let left = (b << 1u128) & !LEFT_COLUMN_MASK;
    let right = (b >> 1u128) & !RIGHT_COLUMN_MASK;
    if i < 100 {
        lemma_row_shifts(b, i as u128);
    } else {
        assert(!bit_at(b, i));
        if bit_at(left, i) {
            if i == 100 {
                assert(LEFT_COLUMN_MASK >> 100u128 & 1u128 == 1u128) by (bit_vector);
                assert(!bit_at(left, 100));
            } else {
                let k = i as u128;
                assert(((b << 1u128) >> k) & 1u128 == (b >> ((k - 1) as u128)) & 1u128)
                    by (bit_vector)
                    requires
                        100 < k < 128,
                ;
                assert(!bit_at(b, i - 1));
            }
        }
        if bit_at(right, i) {
            if i < 127 {
                let k = i as u128;
                assert(((b >> 1u128) >> k) & 1u128 == (b >> ((k + 1) as u128)) & 1u128)
                    by (bit_vector)
                    requires
                        100 <= k < 127,
                ;
                assert(!bit_at(b, i + 1));
            } else {
                assert(((b >> 1u128) >> 127u128) & 1u128 == 0) by (bit_vector);
            }
        }
    }
}

proof fn lemma_vertical_part(r: u128, i: int)
    requires
        0 <= i < 128,
    ensures
        bit_at(r | (r << 10u128) | (r >> 10u128), i) == (bit_at(r, i) || (i >= 10 && bit_at(r, i - 10))
            || (i + 10 < 128 && bit_at(r, i + 10))),
{
    broadcast use group_bits;

    lemma_column_shifts(r, i as u128);
}

proof fn lemma_cell_arith(i: int)
    requires
        0 <= i < 128,
    ensures
        i == 10 * (i / 10) + i % 10,
        0 <= i % 10 < 10,
        (i + 10) % 10 == i % 10 && (i + 10) / 10 == i / 10 + 1,
        i >= 10 ==> (i - 10) % 10 == i % 10 && (i - 10) / 10 == i / 10 - 1,
        i % 10 != 0 ==> (i - 1) % 10 == i % 10 - 1 && (i - 1) / 10 == i / 10,
        i % 10 != 9 ==> (i + 1) % 10 == i % 10 + 1 && (i + 1) / 10 == i / 10,
{
}

/// A cell of `b` in the row of `i` or in a row next to it, beside or level with `i`, is exactly
/// a cell of `b` that touches `i`.
proof fn lemma_touching_rows(b: u128, i: int)
    requires
        0 <= i < 100,
        crate::bitboard::in_region(b),
    ensures
        (row_neighbour(b, i) || (i >= 10 && row_neighbour(b, i - 10)) || (i + 10 < 100
            && row_neighbour(b, i + 10))) == exists|j: int| #[trigger] adjacent(i, j) && bit_at(b, j),
{
    lemma_cell_arith(i);
    lemma_cell_arith(i + 10);
    if i >= 10 {
        lemma_cell_arith(i - 10);
    }
    if exists|j: int| #[trigger] adjacent(i, j) && bit_at(b, j) {
        let j = choose|j: int| #[trigger] adjacent(i, j) && bit_at(b, j);
        lemma_cell_arith(j);
        let dy = j / 10 - i / 10;
        let k = if dy == -1 {
            i - 10
        } else if dy == 0 {
            i
        } else {
            i + 10
        };
        assert(k % 10 == i % 10 && k / 10 == j / 10);
        assert(j - k == j % 10 - i % 10);
        lemma_cell_arith(k);
        assert(row_neighbour(b, k));
    }
    if row_neighbour(b, i) {
        if bit_at(b, i) {
            assert(adjacent(i, i));
        } else if i % 10 != 0 && bit_at(b, i - 1) {
            assert(adjacent(i, i - 1));
        } else {
            assert(adjacent(i, i + 1));
        }
    } else if i >= 10 && row_neighbour(b, i - 10) {
        let k = i - 10;
        lemma_cell_arith(k);
        if bit_at(b, k) {
            assert(adjacent(i, k));
        } else if k % 10 != 0 && bit_at(b, k - 1) {
            assert(adjacent(i, k - 1));
        } else {
            assert(adjacent(i, k + 1));
        }
    } else if i + 10 < 100 && row_neighbour(b, i + 10) {
        let k = i + 10;
        lemma_cell_arith(k);
        if bit_at(b, k) {
            assert(adjacent(i, k));
        } else if k % 10 != 0 && bit_at(b, k - 1) {
            assert(adjacent(i, k - 1));
        } else {
            assert(adjacent(i, k + 1));
        }
    }
}

/// A growth step adds exactly the cells of `s` that touch a cell of `b`: growth follows
/// 8-connectivity on the board.
pub proof fn lemma_grow_step_adjacent(b: u128, s: u128, i: int)
    requires
        crate::bitboard::in_region(b),
        0 <= i < 100,
    ensures
        bit_at(grow_step(b, s), i) == (bit_at(s, i) && exists|j: int|
            #[trigger] adjacent(i, j) && bit_at(b, j)),
{
    broadcast use group_bits;

    let row = b | ((b << 1u128) & !LEFT_COLUMN_MASK) | ((b >> 1u128) & !RIGHT_COLUMN_MASK);
    lemma_vertical_part(row, i);
    lemma_row_part(b, i);
    if i >= 10 {
        lemma_row_part(b, i - 10);
    }
    lemma_row_part(b, i + 10);
    lemma_touching_rows(b, i);
    assert(bit_at(grow_step(b, s), i) == (bit_at(row | (row << 10u128) | (row >> 10u128), i)
        && bit_at(s, i)));
}

/// `n` growth steps from `b` within `s`.
pub open spec fn grow(b: u128, s: u128, n: nat) -> u128
    decreases n,
{
    if n == 0 {
        b & s
    } else {
        grow_step(grow(b, s, (n - 1) as nat), s)
    }
}

/// The swarm of `s` that holds cell `i`: growth from `i` until nothing is added.
pub open spec fn component(s: u128, i: int) -> u128 {
    grow(1u128 << (i as u128), s, 128)
}

/// The lowest set bit of a nonzero word.
pub open spec fn lowest(s: u128) -> int {
    choose|i: int| is_lowest(s, i)
}

/// The swarm holding the lowest set cell of `s`.
pub open spec fn first_component(s: u128) -> u128 {
    component(s, lowest(s))
}

/// Sizes of the swarms of `s`, taken lowest cell first, for at most `fuel` swarms.
pub open spec fn sizes(s: u128, fuel: nat) -> Seq<nat>
    decreases fuel,
{
    if fuel == 0 || s == 0 {
        seq![]
    } else {
        seq![popcount(first_component(s))].add(sizes(s & !first_component(s), (fuel - 1) as nat))
    }
}

/// The swarms of `s`, lowest cell first, at most `fuel` of them.
pub open spec fn swarms(s: u128, fuel: nat) -> Seq<u128>
    decreases fuel,
{
    if fuel == 0 || s == 0 {
        seq![]
    } else {
        seq![first_component(s)].add(swarms(s & !first_component(s), (fuel - 1) as nat))
    }
}

/// `c` is one of the swarms of `s`.
pub open spec fn is_swarm_of(s: u128, c: u128) -> bool {
    swarms(s, 128).contains(c)
}

/// Sizes of all swarms of `s`.
pub open spec fn swarm_sizes(s: u128) -> Seq<nat> {
    sizes(s, 128)
}

pub open spec fn seq_sum(q: Seq<nat>) -> nat
    decreases q.len(),
{
    if q.len() == 0 {
        0
    } else {
        q[0] + seq_sum(q.drop_first())
    }
}

pub open spec fn seq_max(q: Seq<nat>) -> nat
    decreases q.len(),
{
    if q.len() == 0 {
        0
    } else {
        let m = seq_max(q.drop_first());
        if q[0] > m {
            q[0]
        } else {
            m
        }
    }
}

/// Size of the greatest swarm of `s`, 0 when `s` is empty.
pub open spec fn greatest(s: u128) -> nat {
    seq_max(swarm_sizes(s))
}

/// All pieces of `s` form one swarm (vacuously so when there are none).
pub open spec fn connected(s: u128) -> bool {
    s == 0 || s & !first_component(s) == 0
}

proof fn lemma_lowest_from(s: u128, n: int)
    requires
        s != 0,
        0 <= n <= 128,
        forall|j: int| 0 <= j < n ==> !bit_at(s, j),
    ensures
        exists|i: int| is_lowest(s, i),
    decreases 128 - n,
{
    if n == 128 {
        lemma_no_bits_zero(s);
    } else if bit_at(s, n) {
        assert(is_lowest(s, n));
    } else {
        lemma_lowest_from(s, n + 1);
    }
}

/// A nonzero word has a lowest set bit, and it is the only one.
pub proof fn lemma_lowest(s: u128, i: int)
    requires
        s != 0,
    ensures
        is_lowest(s, lowest(s)),
        is_lowest(s, i) ==> i == lowest(s),
{
    lemma_lowest_from(s, 0);
    if is_lowest(s, i) {
        let l = lowest(s);
        assert(!(i < l) && !(l < i)) by {
            if i < l {
                assert(!bit_at(s, i));
            }
            if l < i {
                assert(!bit_at(s, l));
            }
        }
    }
}

/// A growth step stays within `s` and keeps what of `b` lies in `s`.
pub proof fn lemma_step_bounds(b: u128, s: u128)
    ensures
        forall|i: int| #[trigger] bit_at(grow_step(b, s), i) ==> bit_at(s, i),
        forall|i: int| bit_at(b, i) && bit_at(s, i) ==> #[trigger] bit_at(grow_step(b, s), i),
{
}

/// Growth stays within `s`, and each step keeps what the previous step had.
pub proof fn lemma_grow_bounds(b: u128, s: u128, n: nat)
    ensures
        forall|i: int| #[trigger] bit_at(grow(b, s, n), i) ==> bit_at(s, i),
        forall|i: int| bit_at(grow(b, s, n), i) ==> #[trigger] bit_at(grow(b, s, n + 1), i),
    decreases n,
{
    lemma_step_bounds(grow(b, s, n), s);
    if n > 0 {
        lemma_grow_bounds(b, s, (n - 1) as nat);
    }
}

/// Once a step adds nothing, growth stays put.
pub proof fn lemma_grow_stable(b: u128, s: u128, m: nat, n: nat)
    requires
        m <= n,
        grow(b, s, m + 1) == grow(b, s, m),
    ensures
        grow(b, s, n) == grow(b, s, m),
    decreases n - m,
{
    if n > m {
        lemma_grow_stable(b, s, m, (n - 1) as nat);
        assert(grow(b, s, n) == grow_step(grow(b, s, (n - 1) as nat), s));
    }
}

/// A step that adds no cell adds nothing.
pub proof fn lemma_same_count_same(b: u128, s: u128, n: nat)
    requires
        popcount(grow(b, s, n + 1)) == popcount(grow(b, s, n)),
    ensures
        grow(b, s, n + 1) == grow(b, s, n),
{
    lemma_grow_bounds(b, s, n);
    let a = grow(b, s, n);
    let c = grow(b, s, n + 1);
    lemma_count_subset(a, c, 128);
    assert forall|i: int| 0 <= i < 128 implies bit_at(a, i) == bit_at(c, i) by {
        if bit_at(c, i) && !bit_at(a, i) {
            assert(exists|i: int| 0 <= i < 128 && bit_at(c, i) && !bit_at(a, i));
        }
    }
    lemma_bits_ext(a, c);
}

pub proof fn lemma_single_count(k: u128, n: int)
    requires
        k < 128,
    ensures
        count_bits(1u128 << k, n) == if n > k {
            1nat
        } else {
            0nat
        },
    decreases n,
{
    if n > 0 {
        lemma_single_count(k, n - 1);
    }
}

/// Splitting `s` into a part `c` and the rest adds up.
pub proof fn lemma_split_count(s: u128, c: u128)
    requires
        forall|i: int| #[trigger] bit_at(c, i) ==> bit_at(s, i),
    ensures
        popcount(s) == popcount(c) + popcount(s & !c),
{
    let r = s & !c;
    assert forall|i: int| 0 <= i < 128 implies !bit_at(c & r, i) by {}
    lemma_no_bits_zero(c & r);
    lemma_count_disjoint_union(c, r, 128);
    assert forall|i: int| 0 <= i < 128 implies bit_at(c | r, i) == bit_at(s, i) by {}
    lemma_bits_ext(c | r, s);
}

/// The swarm of a set cell holds that cell, lies within `s`, and is reached by growth within
/// as many steps as it has cells.
pub proof fn lemma_component(s: u128, i: int, n: nat)
    requires
        bit_at(s, i),
        n <= popcount(grow(1u128 << (i as u128), s, n)),
        grow(1u128 << (i as u128), s, n + 1) == grow(1u128 << (i as u128), s, n),
    ensures
        component(s, i) == grow(1u128 << (i as u128), s, n),
        bit_at(component(s, i), i),
        forall|j: int| #[trigger] bit_at(component(s, i), j) ==> bit_at(s, j),
{
    let seed = 1u128 << (i as u128);
    lemma_count_bound(grow(seed, s, n), 128);
    lemma_grow_stable(seed, s, n, 128);
    lemma_grow_bounds(seed, s, 128);
    lemma_grow_contains(seed, s, 128, i);
}

proof fn lemma_grow_contains(b: u128, s: u128, n: nat, i: int)
    requires
        bit_at(b, i),
        bit_at(s, i),
    ensures
        bit_at(grow(b, s, n), i),
    decreases n,
{
    if n > 0 {
        lemma_grow_contains(b, s, (n - 1) as nat, i);
        lemma_grow_bounds(b, s, (n - 1) as nat);
    }
}

/// Growth either has stopped by step `n` or has added a cell at every step so far.
proof fn lemma_grow_progress(b: u128, s: u128, n: nat)
    requires
        bit_at(b, lowest(b)) && bit_at(s, lowest(b)),
    ensures
        (exists|m: nat| m <= n && #[trigger] grow(b, s, m + 1) == grow(b, s, m)) || popcount(
            grow(b, s, n),
        ) >= n + 1,
    decreases n,
{
    lemma_grow_contains(b, s, n, lowest(b));
    lemma_single_count_pos(grow(b, s, n), lowest(b));
    if n > 0 {
        lemma_grow_progress(b, s, (n - 1) as nat);
        let m = (n - 1) as nat;
        if grow(b, s, m + 1) != grow(b, s, m) {
            lemma_grow_bounds(b, s, m);
            lemma_count_subset(grow(b, s, m), grow(b, s, m + 1), 128);
            if popcount(grow(b, s, m + 1)) == popcount(grow(b, s, m)) {
                lemma_same_count_same(b, s, m);
            }
        } else {
            assert(grow(b, s, m + 1) == grow(b, s, m));
        }
    }
}

/// A swarm is closed: a cell of `s` touching a cell of the swarm of `i` belongs to it.
pub proof fn lemma_component_closed(s: u128, i: int, a: int, c: int)
    requires
        crate::bitboard::in_region(s),
        bit_at(s, i),
        bit_at(component(s, i), a),
        adjacent(a, c),
        bit_at(s, c),
    ensures
        bit_at(component(s, i), c),
{
    let seed = 1u128 << (i as u128);
    assert(crate::bitboard::is_lowest(seed, i));
    lemma_lowest(seed, i);
    lemma_grow_progress(seed, s, 128);
    lemma_count_bound(grow(seed, s, 128), 128);
    let m = choose|m: nat| m <= 128 && #[trigger] grow(seed, s, m + 1) == grow(seed, s, m);
    lemma_grow_stable(seed, s, m, 128);
    lemma_grow_stable(seed, s, m, 129);
    let comp = grow(seed, s, 128);
    lemma_grow_bounds(seed, s, 128);
    assert(crate::bitboard::in_region(comp));
    lemma_grow_step_adjacent(comp, s, c);
    assert(adjacent(c, a));
}

/// Cell `j` is joined to cell `i` by a chain of at most `n` steps between touching cells of
/// `s`, all of them in `s`.
pub open spec fn joined(s: u128, i: int, j: int, n: nat) -> bool
    decreases n,
{
    if n == 0 {
        j == i && bit_at(s, i)
    } else {
        joined(s, i, j, (n - 1) as nat) || (bit_at(s, j) && exists|a: int|
            #[trigger] adjacent(a, j) && joined(s, i, a, (n - 1) as nat))
    }
}

proof fn lemma_joined_in_set(s: u128, i: int, j: int, n: nat)
    requires
        joined(s, i, j, n),
    ensures
        bit_at(s, j),
    decreases n,
{
    if n > 0 && joined(s, i, j, (n - 1) as nat) {
        lemma_joined_in_set(s, i, j, (n - 1) as nat);
    }
}

/// After `n` growth steps from cell `i`, exactly the cells joined to `i` within `n` steps are
/// reached.
proof fn lemma_grow_joined(s: u128, i: int, j: int, n: nat)
    requires
        crate::bitboard::in_region(s),
        0 <= i < 100,
        0 <= j < 100,
    ensures
        bit_at(grow(1u128 << (i as u128), s, n), j) == joined(s, i, j, n),
    decreases n,
{
    let seed = 1u128 << (i as u128);
    if n > 0 {
        let m = (n - 1) as nat;
        let prev = grow(seed, s, m);
        lemma_grow_bounds(seed, s, m);
        assert(crate::bitboard::in_region(prev));
        lemma_grow_step_adjacent(prev, s, j);
        lemma_grow_joined(s, i, j, m);
        if bit_at(grow(seed, s, n), j) {
            if !joined(s, i, j, m) {
                let a = choose|a: int| #[trigger] adjacent(j, a) && bit_at(prev, a);
                lemma_grow_joined(s, i, a, m);
                assert(adjacent(a, j));
            }
        }
        if joined(s, i, j, n) {
            lemma_joined_in_set(s, i, j, n);
            if joined(s, i, j, m) {
            } else {
                let a = choose|a: int| #[trigger] adjacent(a, j) && joined(s, i, a, m);
                lemma_grow_joined(s, i, a, m);
                assert(adjacent(j, a));
            }
        }
    }
}

/// A swarm is 8-connected and nothing more: the swarm of a piece `i` holds exactly the pieces
/// joined to `i` by a chain of touching pieces.
pub proof fn lemma_component_joined(s: u128, i: int, j: int)
    requires
        crate::bitboard::in_region(s),
        bit_at(s, i),
        0 <= j < 100,
    ensures
        bit_at(component(s, i), j) == joined(s, i, j, 128),
{
    lemma_grow_joined(s, i, j, 128);
}

/// The swarms of `s` lie within `s`, cover it, are pairwise disjoint, and none has a piece of
/// `s` beside it that it does not hold.
pub proof fn lemma_swarms_cells(s: u128, fuel: nat)
    requires
        crate::bitboard::in_region(s),
        popcount(s) <= fuel,
    ensures
        forall|k: int, i: int|
            0 <= k < swarms(s, fuel).len() && #[trigger] bit_at(swarms(s, fuel)[k], i) ==> bit_at(s, i),
        forall|i: int|
            #[trigger] bit_at(s, i) ==> exists|k: int|
                0 <= k < swarms(s, fuel).len() && bit_at(swarms(s, fuel)[k], i),
        forall|k: int, l: int, i: int|
            0 <= k < l < swarms(s, fuel).len() && #[trigger] bit_at(swarms(s, fuel)[k], i)
                ==> !#[trigger] bit_at(swarms(s, fuel)[l], i),
        forall|k: int, a: int, c: int|
            0 <= k < swarms(s, fuel).len() && #[trigger] bit_at(swarms(s, fuel)[k], a)
                && #[trigger] adjacent(a, c) && bit_at(s, c) ==> bit_at(swarms(s, fuel)[k], c),
    decreases fuel,
{
    if s == 0 {
        crate::bits::lemma_popcount_zero(s);
        assert(swarms(s, fuel) =~= Seq::<u128>::empty());
    } else {
        crate::bits::lemma_popcount_zero(s);
        lemma_lowest(s, 0);
        let c = first_component(s);
        let rest = s & !c;
        lemma_component_facts(s, lowest(s));
        lemma_split_count(s, c);
        lemma_single_count_pos(c, lowest(s));
        let q = swarms(s, fuel);
        let t = swarms(rest, (fuel - 1) as nat);
        assert(q == seq![c].add(t));
        assert(q.len() == t.len() + 1);
        assert forall|k: int| 1 <= k < q.len() implies #[trigger] q[k] == t[k - 1] by {}
        assert(q[0] == c);
        lemma_swarms_cells(rest, (fuel - 1) as nat);
        assert(crate::bitboard::in_region(rest));
        assert forall|k: int, i: int| 0 <= k < q.len() && #[trigger] bit_at(q[k], i) implies bit_at(
            s,
            i,
        ) by {
            if k > 0 {
                assert(bit_at(t[k - 1], i));
            }
        }
        assert forall|i: int| #[trigger] bit_at(s, i) implies exists|k: int|
            0 <= k < q.len() && bit_at(q[k], i) by {
            if !bit_at(c, i) {
                assert(bit_at(rest, i));
                let k = choose|k: int| 0 <= k < t.len() && bit_at(t[k], i);
                assert(bit_at(q[k + 1], i));
            }
        }
        assert forall|k: int, l: int, i: int|
            0 <= k < l < q.len() && #[trigger] bit_at(q[k], i) implies !#[trigger] bit_at(q[l], i) by {
            if k == 0 {
                if bit_at(q[l], i) {
                    assert(bit_at(t[l - 1], i));
                    assert(bit_at(rest, i));
                }
            } else {
                assert(bit_at(t[k - 1], i));
                if bit_at(q[l], i) {
                    assert(bit_at(t[l - 1], i));
                }
            }
        }
        assert forall|k: int, a: int, x: int|
            0 <= k < q.len() && #[trigger] bit_at(q[k], a) && #[trigger] adjacent(a, x) && bit_at(s, x) implies bit_at(
            q[k],
            x,
        ) by {
            if k == 0 {
                lemma_component_closed(s, lowest(s), a, x);
            } else {
                assert(bit_at(t[k - 1], a));
                assert(bit_at(rest, a));
                if bit_at(c, x) {
                    assert(adjacent(x, a));
                    lemma_component_closed(s, lowest(s), x, a);
                    assert(false);
                }
                assert(bit_at(rest, x));
                assert(bit_at(t[k - 1], x));
            }
        }
    }
}

/// The sizes of the swarms of `s` add up to its number of pieces.
pub proof fn lemma_sizes_sum(s: u128, fuel: nat)
    requires
        popcount(s) <= fuel,
    ensures
        seq_sum(sizes(s, fuel)) == popcount(s),
        forall|k: int| 0 <= k < sizes(s, fuel).len() ==> sizes(s, fuel)[k] >= 1,
    decreases fuel,
{
    if s == 0 {
        crate::bits::lemma_popcount_zero(s);
    } else {
        crate::bits::lemma_popcount_zero(s);
        lemma_lowest(s, 0);
        let c = first_component(s);
        lemma_component_facts(s, lowest(s));
        lemma_split_count(s, c);
        let rest = s & !c;
        lemma_single_count_pos(c, lowest(s));
        lemma_sizes_sum(rest, (fuel - 1) as nat);
        let q = sizes(s, fuel);
        assert(q.drop_first() =~= sizes(rest, (fuel - 1) as nat));
    }
}

pub proof fn lemma_single_count_pos(c: u128, i: int)
    requires
        bit_at(c, i),
    ensures
        popcount(c) >= 1,
{
    crate::bits::lemma_popcount_zero(c);
    if c == 0 {
        assert(!bit_at(0u128, i));
    }
}

/// The swarm of a set cell holds that cell and lies within `s`.
pub proof fn lemma_component_facts(s: u128, i: int)
    requires
        bit_at(s, i),
    ensures
        bit_at(component(s, i), i),
        forall|j: int| #[trigger] bit_at(component(s, i), j) ==> bit_at(s, j),
{
    let seed = 1u128 << (i as u128);
    lemma_grow_bounds(seed, s, 128);
    lemma_grow_contains(seed, s, 128, i);
}

/// Swarm decomposition partitions the pieces: the swarm sizes add up to the number of pieces,
/// and the pieces are connected exactly when there is at most one swarm.
pub proof fn lemma_swarms_partition(s: u128)
    ensures
        seq_sum(swarm_sizes(s)) == popcount(s),
        connected(s) <==> swarm_sizes(s).len() <= 1,
{
    lemma_count_bound(s, 128);
    lemma_sizes_sum(s, 128);
    if s != 0 {
        let c = first_component(s);
        let rest = s & !c;
        lemma_lowest(s, 0);
        lemma_component_facts(s, lowest(s));
        lemma_split_count(s, c);
        lemma_single_count_pos(c, lowest(s));
        lemma_sizes_sum(rest, 127);
        assert(swarm_sizes(s).drop_first() =~= sizes(rest, 127));
        if rest != 0 {
            crate::bits::lemma_popcount_zero(rest);
        } else {
            assert(sizes(rest, 127) =~= Seq::<nat>::empty());
        }
    }
}

proof fn lemma_max_below_sum(q: Seq<nat>)
    requires
        q.len() >= 2,
        forall|k: int| 0 <= k < q.len() ==> q[k] >= 1,
    ensures
        seq_max(q) < seq_sum(q),
    decreases q.len(),
{
    let t = q.drop_first();
    assert forall|k: int| 0 <= k < t.len() implies t[k] >= 1 by {
        assert(t[k] == q[k + 1]);
    }
    if t.len() >= 2 {
        lemma_max_below_sum(t);
    } else {
        assert(t.drop_first().len() == 0);
        assert(seq_max(t.drop_first()) == 0 && seq_sum(t.drop_first()) == 0);
        assert(seq_max(t) == t[0] && seq_sum(t) == t[0]);
    }
    lemma_max_le_sum(t);
}

/// The pieces form one swarm exactly when the greatest swarm holds all of them.
pub proof fn lemma_connected_iff_greatest(s: u128)
    ensures
        connected(s) <==> greatest(s) == popcount(s),
{
    lemma_swarms_partition(s);
    lemma_count_bound(s, 128);
    lemma_sizes_sum(s, 128);
    let q = swarm_sizes(s);
    lemma_max_le_sum(q);
    if q.len() == 1 {
        assert(q.drop_first().len() == 0);
        assert(seq_max(q.drop_first()) == 0 && seq_sum(q.drop_first()) == 0);
        assert(seq_max(q) == q[0] && seq_sum(q) == q[0]);
    } else if q.len() >= 2 {
        lemma_max_below_sum(q);
    }
}

pub proof fn lemma_max_le_sum(q: Seq<nat>)
    ensures
        seq_max(q) <= seq_sum(q),
        forall|k: int| 0 <= k < q.len() ==> q[k] <= seq_max(q),
    decreases q.len(),
{
    if q.len() > 0 {
        lemma_max_le_sum(q.drop_first());
        assert forall|k: int| 0 <= k < q.len() implies q[k] <= seq_max(q) by {
            if k > 0 {
                assert(q[k] == q.drop_first()[k - 1]);
            }
        }
    }
}

pub proof fn lemma_max_concat(a: Seq<nat>, b: Seq<nat>)
    ensures
        seq_max(a + b) == if seq_max(a) > seq_max(b) {
            seq_max(a)
        } else {
            seq_max(b)
        },
    decreases a.len(),
{
    if a.len() == 0 {
        assert(a + b =~= b);
    } else {
        lemma_max_concat(a.drop_first(), b);
        assert((a + b).drop_first() =~= a.drop_first() + b);
    }
}

/// One growth step of `to_extend` within `fields`.
fn extend(to_extend: &mut Bitboard, fields: &Bitboard)
    ensures
        final(to_extend).bits == grow_step(old(to_extend).bits, fields.bits),
{
    let bits = to_extend.bits;
    let left = (bits << 1u128) & !LEFT_COLUMN_MASK;
    let right = (bits >> 1u128) & !RIGHT_COLUMN_MASK;
    let row = bits | left | right;
    to_extend.bits = (row | (row << 10u128) | (row >> 10u128)) & fields.bits;
}

/// The swarm of `fields` holding bit `index`, and the number of growth rounds it took counting
/// the last one, which adds nothing, and one more: growth from the single cell stalls first
/// after `r.1 - 2` steps.
pub(crate) fn grow_swarm(fields: &Bitboard, index: u8) -> (r: (Bitboard, u8))
    requires
        bit_at(fields.bits, index as int),
    ensures
        r.0.bits == component(fields.bits, index as int),
        r.1 >= 2,
        grow(1u128 << index as u128, fields.bits, (r.1 - 1) as nat) == grow(
            1u128 << index as u128,
            fields.bits,
            (r.1 - 2) as nat,
        ),
        forall|j: nat|
            j + 2 < r.1 ==> popcount(#[trigger] grow(1u128 << index as u128, fields.bits, j))
                < popcount(grow(1u128 << index as u128, fields.bits, j + 1)),
{
    let mut swarm = Bitboard::from_bits(1u128 << index as u128);
    let ghost s = fields.bits;
    let ghost i = index as int;
    let ghost seed = 1u128 << (i as u128);
    proof {
        assert forall|j: int| 0 <= j < 128 implies bit_at(swarm.bits, j) == bit_at(seed & s, j) by {}
        lemma_bits_ext(swarm.bits, seed & s);
        lemma_single_count(i as u128, 128);
        assert forall|j: int| 0 <= j < 128 implies bit_at(seed & s, j) == bit_at(seed, j) by {}
        crate::bits::lemma_count_congruent(seed & s, seed, 128);
    }
    let mut current_size: u8 = 1;
    let mut before_size: u8 = 0;
    let mut rounds: u8 = 1;
    let ghost mut steps: nat = 0;
    while current_size > before_size
        invariant
            s == fields.bits,
            bit_at(s, i),
            seed == 1u128 << (i as u128),
            0 <= i < 128,
            swarm.bits == grow(seed, s, steps),
            current_size as nat == popcount(swarm.bits),
            before_size <= current_size <= 128,
            rounds == steps + 1,
            current_size > before_size ==> steps <= current_size - 1,
            current_size > before_size && steps > 0 ==> popcount(grow(seed, s, (steps - 1) as nat))
                < popcount(grow(seed, s, steps)),
            current_size == before_size ==> steps >= 1 && grow(seed, s, steps) == grow(
                seed,
                s,
                (steps - 1) as nat,
            ) && steps - 1 <= current_size,
            forall|j: nat|
                j + 1 < steps ==> popcount(#[trigger] grow(seed, s, j)) < popcount(
                    grow(seed, s, j + 1),
                ),
        decreases 129 - before_size,
    {
        before_size = current_size;
        extend(&mut swarm, fields);
        proof {
            steps = steps + 1;
            lemma_grow_bounds(seed, s, (steps - 1) as nat);
            lemma_count_subset(grow(seed, s, (steps - 1) as nat), grow(seed, s, steps), 128);
            lemma_count_bound(swarm.bits, 128);
        }
        current_size = swarm.count_ones() as u8;
        rounds = rounds + 1;
        proof {
            if current_size == before_size {
                lemma_same_count_same(seed, s, (steps - 1) as nat);
            }
        }
    }
    proof {
        lemma_component(s, i, (steps - 1) as nat);
    }
    (swarm, rounds)
}

impl GameState {
    /// Grows the swarm of `fields` holding cell `(x, y)`, removes it from `fields` and returns
    /// its size.
    fn get_swarm_size(&self, fields: &mut Bitboard, x: u8, y: u8) -> (r: u8)
        requires
            x < 10,
            cell(x as int, y as int) < 128,
            bit_at(old(fields).bits, cell(x as int, y as int)),
        ensures
            r as nat == popcount(component(old(fields).bits, cell(x as int, y as int))),
            final(fields).bits == old(fields).bits & !component(
                old(fields).bits,
                cell(x as int, y as int),
            ),
    {
        let (swarm, _) = grow_swarm(fields, y * 10 + x);
        fields.clear_bits(swarm.bits);
        proof {
            lemma_count_bound(swarm.bits, 128);
        }
        swarm.count_ones() as u8
    }

    /// Whether all pieces of `color` form one swarm.
    pub fn is_connected(&self, color: &PlayerColor) -> (r: bool)
        ensures
            r == connected(color_bits(self.board, *color)),
    {
        let mut fields = self.board.get_fields_of(color);
        if fields.bits == 0 {
            return true;
        }
        let (x, y) = fields.get_first();
        proof {
            lemma_lowest(fields.bits, cell(x as int, y as int));
        }
        let _ = self.get_swarm_size(&mut fields, x, y);
        fields.bits == 0
    }

    /// Size of the greatest swarm of `color`; 0 when `color` has no pieces.
    pub fn greatest_swarm_size(&self, color: &PlayerColor) -> (r: u8)
        ensures
            r as nat == greatest(color_bits(self.board, *color)),
    {
        let mut current_max: u8 = 0;
        let mut fields = self.board.get_fields_of(color);
        let ghost s = fields.bits;
        let ghost mut done: Seq<nat> = seq![];
        proof {
            lemma_count_bound(s, 128);
        }
        while (current_max as u32) < fields.count_ones()
            invariant
                swarm_sizes(s) == done + sizes(fields.bits, (128 - done.len()) as nat),
                done.len() <= 128,
                popcount(fields.bits) + done.len() <= 128,
                current_max as nat == seq_max(done),
                current_max <= 128,
            decreases popcount(fields.bits),
        {
            let ghost f0 = fields.bits;
            let (x, y) = fields.get_first();
            proof {
                crate::bits::lemma_popcount_zero(f0);
                lemma_lowest(f0, cell(x as int, y as int));
                lemma_component_facts(f0, lowest(f0));
                lemma_split_count(f0, first_component(f0));
                lemma_single_count_pos(first_component(f0), lowest(f0));
                lemma_count_bound(first_component(f0), 128);
            }
            let size = self.get_swarm_size(&mut fields, x, y);
            proof {
                let fuel = (128 - done.len()) as nat;
                assert(fuel > 0);
                assert(sizes(f0, fuel) == seq![size as nat].add(
                    sizes(fields.bits, (fuel - 1) as nat),
                ));
                lemma_max_concat(done, seq![size as nat]);
                let d2 = done.push(size as nat);
                assert(d2 =~= done + seq![size as nat]);
                assert(done + sizes(f0, fuel) =~= d2 + sizes(fields.bits, (fuel - 1) as nat));
                assert(seq![size as nat].drop_first() =~= Seq::<nat>::empty());
                let one = seq![size as nat];
                assert(one.len() == 1 && one[0] == size as nat);
                assert(seq_max(one.drop_first()) == 0);
                assert(seq_max(one) == size as nat);
                assert(seq_max(d2) == if seq_max(done) > size as nat {
                    seq_max(done)
                } else {
                    size as nat
                });
                done = d2;
            }
            if size > current_max {
                current_max = size;
            }
        }
        proof {
            let rest = sizes(fields.bits, (128 - done.len()) as nat);
            lemma_sizes_sum(fields.bits, (128 - done.len()) as nat);
            lemma_max_le_sum(rest);
            lemma_max_concat(done, rest);
        }
        current_max
    }
}

} // verus!
