//! Swarm helpers of the heuristic players: distances to a swarm, the greatest swarm, all
//! swarms.
use vstd::prelude::*;

use crate::bitboard::{cell, lemma_valid_bits, Bitboard, VALID_BITS};
use crate::bits::{bit_at, group_bits, lemma_count_bound, popcount};
use crate::board::color_bits;
use crate::gamestate::GameState;
use crate::states::PlayerColor;
use crate::swarm::{
    first_component, greatest, grow, grow_swarm, is_swarm_of, lemma_component_facts,
    lemma_lowest, lemma_max_concat, lemma_max_le_sum, lemma_single_count_pos, lemma_sizes_sum,
    lemma_split_count, lowest, seq_max, sizes, swarms, LEFT_COLUMN_MASK, RIGHT_COLUMN_MASK,
};

verus! {

broadcast use {group_bits, lemma_valid_bits};

/// Squared Euclidean distance between `(x, y)` and cell `c`.
pub open spec fn sq_dist(x: int, y: int, c: (u8, u8)) -> int {
    (c.0 - x) * (c.0 - x) + (c.1 - y) * (c.1 - y)
}

/// The least squared distance from `(x, y)` to the first `n` cells of `sw`, capped at 200.
pub open spec fn min_sq_dist(x: int, y: int, sw: Seq<(u8, u8)>, n: int) -> int
    decreases n,
{
    if n <= 0 {
        200
    } else {
        let m = min_sq_dist(x, y, sw, n - 1);
        let d = sq_dist(x, y, sw[n - 1]);
        if d < m {
            d
        } else {
            m
        }
    }
}

/// `v` lists the set cells of `b`, in ascending index order.
pub open spec fn lists_cells(v: Seq<(u8, u8)>, b: u128) -> bool {
    &&& forall|k: int| 0 <= k < v.len() ==> bit_at(b, cell(v[k].0 as int, v[k].1 as int)) && v[k].0 < 10
    &&& forall|i: int|
        #![trigger bit_at(b, i)]
        bit_at(b, i) ==> exists|k: int| 0 <= k < v.len() && cell(v[k].0 as int, v[k].1 as int) == i
    &&& forall|k: int, l: int|
        0 <= k < l < v.len() ==> cell(v[k].0 as int, v[k].1 as int) < cell(v[l].0 as int, v[l].1 as int)
}

/// The result of scanning the swarms of `s` for the greatest: its size, the swarm (zero when
/// `s` is empty) and the growth rounds it took (zero when `s` is empty).
pub open spec fn is_greatest_scan(s: u128, r: (u8, Bitboard, u8)) -> bool {
    &&& r.0 as nat == greatest(s)
    &&& popcount(r.1.bits) == greatest(s)
    &&& s == 0 ==> r.1.bits == 0 && r.2 == 0
    &&& s != 0 ==> is_swarm_of(s, r.1.bits) && r.2 >= 2
}

/// One step of the decomposition: the first swarm of a nonempty word and the rest.
proof fn lemma_decompose_step(f: u128, fuel: nat)
    requires
        f != 0,
        fuel > 0,
    ensures
        swarms(f, fuel) == seq![first_component(f)].add(
            swarms(f & !first_component(f), (fuel - 1) as nat),
        ),
        sizes(f, fuel) == seq![popcount(first_component(f))].add(
            sizes(f & !first_component(f), (fuel - 1) as nat),
        ),
        popcount(f) == popcount(first_component(f)) + popcount(f & !first_component(f)),
        popcount(first_component(f)) >= 1,
{
    lemma_lowest(f, 0);
    lemma_component_facts(f, lowest(f));
    lemma_split_count(f, first_component(f));
    lemma_single_count_pos(first_component(f), lowest(f));
}

/// Scans the swarms of `fields0` lowest cell first for the greatest one; among swarms of equal
/// size a later one replaces an earlier one only when `ties_replace`. The scan stops once no
/// remaining swarm can be larger.
fn scan_greatest(fields0: Bitboard, ties_replace: bool) -> (r: (u8, Bitboard, u8))
    ensures
        is_greatest_scan(fields0.bits, r),
{
    let ghost s = fields0.bits;
    let mut fields = fields0;
    let mut best_size: u8 = 0;
    let mut best = Bitboard::new();
    let mut best_rounds: u8 = 0;
    let ghost mut done: Seq<nat> = seq![];
    let ghost mut done_w: Seq<u128> = seq![];
    proof {
        lemma_count_bound(s, 128);
    }
    while (best_size as u32) < fields.count_ones()
        invariant
            sizes(s, 128) == done + sizes(fields.bits, (128 - done.len()) as nat),
            swarms(s, 128) == done_w + swarms(fields.bits, (128 - done.len()) as nat),
            done.len() == done_w.len(),
            done.len() <= 128,
            popcount(fields.bits) + done.len() <= 128,
            best_size as nat == seq_max(done),
            best_size <= 128,
            done.len() == 0 ==> best.bits == 0 && best_rounds == 0 && fields.bits == s,
            done.len() > 0 ==> best_size > 0 && done_w.contains(best.bits) && popcount(best.bits)
                == best_size && best_rounds >= 2,
        decreases popcount(fields.bits),
    {
        let ghost f0 = fields.bits;
        let index = fields.get_first_index();
        proof {
            crate::bits::lemma_popcount_zero(f0);
            lemma_lowest(f0, index as int);
            lemma_decompose_step(f0, (128 - done.len()) as nat);
            lemma_count_bound(first_component(f0), 128);
        }
        let (swarm, rounds) = grow_swarm(&fields, index);
        fields.clear_bits(swarm.bits);
        let size = swarm.count_ones() as u8;
        proof {
            let fuel = (128 - done.len()) as nat;
            lemma_max_concat(done, seq![size as nat]);
            let one = seq![size as nat];
            assert(one.drop_first() =~= Seq::<nat>::empty());
            assert(seq_max(one.drop_first()) == 0);
            assert(seq_max(one) == size as nat);
            let d2 = done.push(size as nat);
            assert(d2 =~= done + seq![size as nat]);
            assert(done + sizes(f0, fuel) =~= d2 + sizes(fields.bits, (fuel - 1) as nat));
            let w2 = done_w.push(swarm.bits);
            assert(done_w + swarms(f0, fuel) =~= w2 + swarms(fields.bits, (fuel - 1) as nat));
            assert(w2[w2.len() - 1] == swarm.bits);
            if done.len() > 0 {
                let k = choose|k: int| 0 <= k < done_w.len() && done_w[k] == best.bits;
                assert(w2[k] == best.bits);
            }
            done = d2;
            done_w = w2;
        }
        if size > best_size || (ties_replace && size == best_size) {
            best_size = size;
            best = swarm;
            best_rounds = rounds;
        }
    }
    proof {
        let rest = sizes(fields.bits, (128 - done.len()) as nat);
        lemma_sizes_sum(fields.bits, (128 - done.len()) as nat);
        lemma_max_le_sum(rest);
        lemma_max_concat(done, rest);
        if s != 0 {
            crate::bits::lemma_popcount_zero(s);
            assert(done.len() > 0);
            let k = choose|k: int| 0 <= k < done_w.len() && done_w[k] == best.bits;
            assert(swarms(s, 128)[k] == best.bits);
        } else {
            crate::bits::lemma_popcount_zero(s);
            assert(sizes(s, 128) =~= Seq::<nat>::empty());
            crate::bits::lemma_popcount_zero(best.bits);
        }
    }
    (best_size, best, best_rounds)
}

pub struct Helper;

impl Helper {
    /// The least squared Euclidean distance from `(x, y)` to a cell of `swarm`, at most 200.
    pub fn get_distance_to_swarm(x: u8, y: u8, swarm: &Vec<(u8, u8)>) -> (r: u32)
        ensures
            r as int == min_sq_dist(x as int, y as int, swarm@, swarm@.len() as int),
            r <= 200,
    {
        let mut minimal_distance: u32 = 200;
        let mut k: usize = 0;
        while k < swarm.len()
            invariant
                k <= swarm@.len(),
                minimal_distance as int == min_sq_dist(x as int, y as int, swarm@, k as int),
                minimal_distance <= 200,
            decreases swarm@.len() - k,
        {
            let (ix, iy) = swarm[k];
            let dx: i32 = ix as i32 - x as i32;
            let dy: i32 = iy as i32 - y as i32;
            assert(0 <= dx * dx <= 65025 && 0 <= dy * dy <= 65025) by (nonlinear_arith)
                requires
                    -255 <= dx <= 255,
                    -255 <= dy <= 255,
            ;
            let distance: u32 = (dx * dx + dy * dy) as u32;
            if distance < minimal_distance {
                minimal_distance = distance;
            }
            k = k + 1;
        }
        minimal_distance
    }

    /// The cells of the greatest swarm of `color`; of the first one found among equals.
    pub fn greatest_swarm(state: &GameState, color: &PlayerColor) -> (r: Vec<(u8, u8)>)
        ensures
            exists|c: u128|
                lists_cells(r@, c) && popcount(c) == greatest(color_bits(state.board, *color)) && (
                color_bits(state.board, *color) != 0 ==> is_swarm_of(
                    color_bits(state.board, *color),
                    c,
                )),
    {
        let (_, swarm, _) = scan_greatest(state.board.get_fields_of(color), false);
        swarm.get_fields()
    }

    /// Steps of 8-neighbour growth on the board from `(x, y)`, ignoring what stands in the way,
    /// until a cell of `swarm` is reached; 9 when none is reached in fewer.
    pub fn get_distance_to_swarm_new(x: u8, y: u8, swarm: &Bitboard) -> (r: i8)
        requires
            cell(x as int, y as int) < 100,
        ensures
            r as int == first_hit(
                1u128 << cell(x as int, y as int) as u128,
                VALID_BITS,
                swarm.bits,
                0,
                9,
            ),
    {
        let mut minimal_distance: i8 = 0;
        let idx: u8 = y * 10 + x;
        let mut bits: u128 = 1u128 << idx as u128;
        let ghost seed = bits;
        assert(seed == 1u128 << cell(x as int, y as int) as u128);
        proof {
            assert forall|i: int| 0 <= i < 128 implies bit_at(seed & VALID_BITS, i) == bit_at(seed, i)
                by {}
            crate::bits::lemma_bits_ext(seed & VALID_BITS, seed);
        }
        while minimal_distance < 9
            invariant
                0 <= minimal_distance <= 9,
                seed == 1u128 << cell(x as int, y as int) as u128,
                bits == grow(seed, VALID_BITS, minimal_distance as nat),
                first_hit(seed, VALID_BITS, swarm.bits, 0, 9) == first_hit(
                    seed,
                    VALID_BITS,
                    swarm.bits,
                    minimal_distance as nat,
                    9,
                ),
            decreases 9 - minimal_distance,
        {
            if bits & swarm.bits != 0 {
                assert(first_hit(seed, VALID_BITS, swarm.bits, minimal_distance as nat, 9)
                    == minimal_distance as nat);
                return minimal_distance;
            }
            let left = (bits << 1u128) & !LEFT_COLUMN_MASK;
            let right = (bits >> 1u128) & !RIGHT_COLUMN_MASK;
            let row = bits | left | right;
            bits = (row | (row << 10u128) | (row >> 10u128)) & VALID_BITS;
            minimal_distance = minimal_distance + 1;
        }
        minimal_distance
    }

    /// Steps of 8-neighbour growth on the board from bit `index`, never entering a cell of
    /// `enemy`, until a cell of `swarm` is reached; 55 when growth stops first.
    pub fn get_distance_to_swarm_alt(index: u8, swarm: &Bitboard, enemy: &Bitboard) -> (r: i8)
        requires
            index < 100,
            !bit_at(enemy.bits, index as int),
        ensures
            r as int == first_contact(1u128 << index as u128, enemy.bits, swarm.bits, 0),
    {
        let mut minimal_distance: i8 = 0;
        let mut bits: u128 = 1u128 << index as u128;
        let ghost seed = bits;
        proof {
            crate::swarm::lemma_single_count(index as u128, 128);
        }
        loop
            invariant
                0 <= minimal_distance <= 127,
                seed == 1u128 << index as u128,
                index < 100,
                !bit_at(enemy.bits, index as int),
                bits == reach(seed, enemy.bits, minimal_distance as nat),
                popcount(bits) >= minimal_distance + 1,
                forall|i: int| #[trigger] bit_at(seed, i) ==> bit_at(bits, i),
                forall|i: int|
                    minimal_distance > 0 && #[trigger] bit_at(bits, i) ==> !bit_at(enemy.bits, i),
                first_contact(seed, enemy.bits, swarm.bits, 0) == first_contact(
                    seed,
                    enemy.bits,
                    swarm.bits,
                    minimal_distance as nat,
                ),
            decreases 128 - popcount(bits),
        {
            if bits & swarm.bits != 0 {
                return minimal_distance;
            }
            let before = bits;
            let left = (bits << 1u128) & !LEFT_COLUMN_MASK;
            let right = (bits >> 1u128) & !RIGHT_COLUMN_MASK;
            let row = bits | left | right;
            bits = (row | (row << 10u128) | (row >> 10u128)) & (!enemy.bits & VALID_BITS);
            if !(bits > before) {
                return 55;
            }
            proof {
                let n = minimal_distance as nat;
                crate::swarm::lemma_step_bounds(before, !enemy.bits & VALID_BITS);
                assert forall|i: int| #[trigger] bit_at(before, i) implies bit_at(bits, i) by {
                    if n == 0 {
                        assert(bit_at(seed, i));
                    }
                }
                crate::bits::lemma_count_subset(before, bits, 128);
                crate::bits::lemma_count_bound(bits, 128);
                if forall|i: int| 0 <= i < 128 ==> bit_at(before, i) == bit_at(bits, i) {
                    crate::bits::lemma_bits_ext(before, bits);
                }
                assert(exists|i: int| 0 <= i < 128 && bit_at(bits, i) && !bit_at(before, i));
            }
            minimal_distance = minimal_distance + 1;
        }
    }

    /// The greatest swarm of `color` as a bitboard; the first one found among equals.
    pub fn greatest_swarm_new(state: &GameState, color: &PlayerColor) -> (r: Bitboard)
        ensures
            popcount(r.bits) == greatest(color_bits(state.board, *color)),
            color_bits(state.board, *color) == 0 ==> r.bits == 0,
            color_bits(state.board, *color) != 0 ==> is_swarm_of(
                color_bits(state.board, *color),
                r.bits,
            ),
    {
        let (_, swarm, _) = scan_greatest(state.board.get_fields_of(color), false);
        swarm
    }

    /// The greatest swarm of `color` and the growth rounds it took to find it.
    pub fn greatest_swarm_other(state: &GameState, color: &PlayerColor) -> (r: (Bitboard, u8))
        ensures
            popcount(r.0.bits) == greatest(color_bits(state.board, *color)),
            color_bits(state.board, *color) == 0 ==> r.0.bits == 0 && r.1 == 0,
            color_bits(state.board, *color) != 0 ==> is_swarm_of(
                color_bits(state.board, *color),
                r.0.bits,
            ) && r.1 >= 2,
    {
        let (_, swarm, rounds) = scan_greatest(state.board.get_fields_of(color), false);
        (swarm, rounds)
    }

    /// The size and cells of a greatest swarm of `color`; among equals a later one found
    /// before the scan stops wins.
    pub fn greatest_swarm_pair(state: &GameState, color: &PlayerColor) -> (r: (u8, Vec<(u8, u8)>))
        ensures
            r.0 as nat == greatest(color_bits(state.board, *color)),
            exists|c: u128|
                lists_cells(r.1@, c) && popcount(c) == r.0 as nat && (color_bits(state.board, *color)
                    != 0 ==> is_swarm_of(color_bits(state.board, *color), c)),
    {
        let (size, swarm, _) = scan_greatest(state.board.get_fields_of(color), true);
        (size, swarm.get_fields())
    }

    /// Every swarm of `color`, lowest cell first, with its size.
    pub fn get_swarms(state: &GameState, color: &PlayerColor) -> (r: Vec<(u8, Vec<(u8, u8)>)>)
        ensures
            r@.len() == swarms(color_bits(state.board, *color), 128).len(),
            forall|k: int|
                #![trigger r@[k]]
                0 <= k < r@.len() ==> r@[k].0 as nat == popcount(
                    swarms(color_bits(state.board, *color), 128)[k],
                ) && lists_cells(r@[k].1@, swarms(color_bits(state.board, *color), 128)[k]),
    {
        let mut fields = state.board.get_fields_of(color);
        let ghost s = fields.bits;
        let mut res: Vec<(u8, Vec<(u8, u8)>)> = Vec::new();
        let ghost mut done_w: Seq<u128> = seq![];
        proof {
            lemma_count_bound(s, 128);
        }
        while fields.count_ones() > 0
            invariant
                res@.len() == done_w.len(),
                res@.len() <= 128,
                popcount(fields.bits) + res@.len() <= 128,
                swarms(s, 128) == done_w + swarms(fields.bits, (128 - res@.len()) as nat),
                forall|k: int|
                    #![trigger res@[k]]
                    0 <= k < res@.len() ==> res@[k].0 as nat == popcount(done_w[k])
                        && lists_cells(res@[k].1@, done_w[k]),
            decreases popcount(fields.bits),
        {
            let ghost f0 = fields.bits;
            let ghost fuel = (128 - res@.len()) as nat;
            let index = fields.get_first_index();
            proof {
                crate::bits::lemma_popcount_zero(f0);
                lemma_lowest(f0, index as int);
                lemma_decompose_step(f0, fuel);
                lemma_count_bound(first_component(f0), 128);
            }
            let (swarm, _) = grow_swarm(&fields, index);
            fields.clear_bits(swarm.bits);
            let size = swarm.count_ones() as u8;
            let cells = swarm.get_fields();
            let ghost prev = res@;
            res.push((size, cells));
            proof {
                let w2 = done_w.push(swarm.bits);
                assert(done_w + swarms(f0, fuel) =~= w2 + swarms(fields.bits, (fuel - 1) as nat));
                assert forall|k: int| #![trigger res@[k]] 0 <= k < res@.len() implies res@[k].0 as nat
                    == popcount(w2[k]) && lists_cells(res@[k].1@, w2[k]) by {
                    if k < prev.len() {
                        assert(res@[k] == prev[k]);
                        assert(w2[k] == done_w[k]);
                    }
                }
                done_w = w2;
            }
        }
        proof {
            crate::bits::lemma_popcount_zero(fields.bits);
            assert(swarms(fields.bits, (128 - res@.len()) as nat) =~= Seq::<u128>::empty());
            assert(swarms(s, 128) =~= done_w);
        }
        res
    }
}

/// Growth from `seed` for `n` steps, each step kept on the board and off the cells of `enemy`.
pub open spec fn reach(seed: u128, enemy: u128, n: nat) -> u128
    decreases n,
{
    if n == 0 {
        seed
    } else {
        crate::swarm::grow_step(reach(seed, enemy, (n - 1) as nat), !enemy & VALID_BITS)
    }
}

/// The first `n` from `from` on at which growth from `seed` around `enemy` meets `swarm`; 55
/// when growth stalls first.
pub open spec fn first_contact(seed: u128, enemy: u128, swarm: u128, from: nat) -> int
    decreases 128 - from,
{
    if reach(seed, enemy, from) & swarm != 0 {
        from as int
    } else if from >= 127 || !(reach(seed, enemy, from + 1) > reach(seed, enemy, from)) {
        55
    } else {
        first_contact(seed, enemy, swarm, from + 1)
    }
}

/// The first `n` in `from..limit` at which growth from `seed` within `s` meets `target`;
/// `limit` when there is none.
pub open spec fn first_hit(seed: u128, s: u128, target: u128, from: nat, limit: nat) -> nat
    decreases limit - from,
{
    if from >= limit {
        limit
    } else if grow(seed, s, from) & target != 0 {
        from
    } else {
        first_hit(seed, s, target, from + 1, limit)
    }
}

} // verus!
