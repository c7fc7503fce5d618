//! Integer parts of position scoring: the score of a finished game, mate distances, and the
//! counts the static evaluation weighs.
use vstd::prelude::*;

use crate::bitboard::{cell, Bitboard, VALID_BITS};
use crate::bits::{bit_at, group_bits, popcount};
use crate::board::color_bits;
use crate::gamestate::GameState;
use crate::states::PlayerColor;
use crate::gamerules::{finished, winner};
use crate::swarm::{greatest, lemma_connected_iff_greatest};
use crate::util::{first_hit, Helper};

verus! {

broadcast use group_bits;

/// The score of a won game, before the swarm bonus.
pub const MATE: i32 = 200000;

/// Score of a finished game from Red's view: a win is worth `MATE` plus the difference of the
/// greatest swarms plus 16, a loss the negation of `MATE` plus that difference minus 16, a draw
/// 0.
pub open spec fn mate_value(w: Option<PlayerColor>, diff: int) -> int {
    match w {
        Some(PlayerColor::Red) => MATE + diff + 16,
        Some(PlayerColor::Blue) => -MATE + diff - 16,
        None => 0,
    }
}

/// The score of a finished position from Red's view.
pub fn rate_mate(state: &GameState) -> (r: i32)
    ensures
        finished(*state) && state.turn <= 60 ==> r as int == mate_value(
            winner(*state),
            greatest(state.board.red_fields.bits) - greatest(state.board.blue_fields.bits),
        ),
{
    proof {
        lemma_connected_iff_greatest(state.board.red_fields.bits);
        lemma_connected_iff_greatest(state.board.blue_fields.bits);
    }
    let red_size = state.greatest_swarm_size(&PlayerColor::Red) as i32;
    let blue_size = state.greatest_swarm_size(&PlayerColor::Blue) as i32;
    let red_count = state.board.red_fields.count_ones() as i32;
    let blue_count = state.board.blue_fields.count_ones() as i32;
    proof {
        crate::bits::lemma_count_bound(state.board.red_fields.bits, 128);
        crate::bits::lemma_count_bound(state.board.blue_fields.bits, 128);
    }
    let bonus = red_size - blue_size;
    if red_size == red_count {
        if blue_size == blue_count {
            if red_size < blue_size {
                return -MATE + bonus - 16;
            }
            if red_size == blue_size {
                return 0;
            }
        }
        return MATE + bonus + 16;
    }
    if blue_size == blue_count {
        return -MATE + bonus - 16;
    }
    if red_size > blue_size {
        return MATE + bonus + 16;
    }
    if red_size < blue_size {
        return -MATE + bonus - 16;
    }
    0
}

/// The score of mating at `ply`: earlier mates score higher.
pub fn mate_in(ply: u16) -> (r: i32)
    ensures
        r == MATE - ply,
{
    MATE - ply as i32
}

/// The score of being mated at `ply`.
pub fn mated_in(ply: u16) -> (r: i32)
    ensures
        r == -MATE + ply,
{
    -MATE + ply as i32
}

/// Sum over the cells `i < n` of `own` of the growth distance from `i` to `swarm`.
pub open spec fn distance_sum(own: u128, swarm: u128, n: int) -> int
    decreases n,
{
    if n <= 0 {
        0
    } else {
        distance_sum(own, swarm, n - 1) + if bit_at(own, n - 1) && n - 1 < 100 {
            first_hit(1u128 << ((n - 1) as u128), VALID_BITS, swarm, 0, 9) as int
        } else {
            0
        }
    }
}

proof fn lemma_first_hit_bound(seed: u128, s: u128, target: u128, from: nat, limit: nat)
    ensures
        first_hit(seed, s, target, from, limit) <= if from > limit {
            from
        } else {
            limit
        },
    decreases limit - from,
{
    if from < limit {
        lemma_first_hit_bound(seed, s, target, from + 1, limit);
    }
}

/// Sum over the pieces of `own` on the board of their growth distance to `swarm`, each at
/// most 9.
pub fn get_distance_sum(own: &Bitboard, swarm: &Bitboard) -> (r: u32)
    ensures
        r as int == distance_sum(own.bits, swarm.bits, 128),
{
    let mut total: u32 = 0;
    let mut i: u8 = 0;
    while i < 128
        invariant
            i <= 128,
            total as int == distance_sum(own.bits, swarm.bits, i as int),
            total <= 9 * i,
        decreases 128 - i,
    {
        if i < 100 && own.is_bit_set(i) {
            let d = Helper::get_distance_to_swarm_new(i % 10, i / 10, swarm);
            proof {
                assert(cell((i % 10) as int, (i / 10) as int) == i);
                lemma_first_hit_bound(1u128 << (i as u128), VALID_BITS, swarm.bits, 0, 9);
            }
            total = total + d as u32;
        }
        i = i + 1;
    }
    total
}

/// The counts the evaluation of `color` weighs: the summed distance of its pieces to its
/// greatest swarm, the size of that swarm, its pieces in the centre mask and on the border
/// mask, and its number of pieces.
pub fn texel_counts(state: &GameState, color: &PlayerColor, center: u128, border: u128) -> (r: (
    u32,
    u32,
    u32,
    u32,
    u32,
))
    ensures
        r.1 as nat == greatest(color_bits(state.board, *color)),
        r.2 as nat == popcount(color_bits(state.board, *color) & center),
        r.3 as nat == popcount(color_bits(state.board, *color) & border),
        r.4 as nat == popcount(color_bits(state.board, *color)),
        exists|swarm: u128|
            popcount(swarm) == greatest(color_bits(state.board, *color)) && r.0 as int
                == distance_sum(color_bits(state.board, *color), swarm, 128) && (color_bits(
                state.board,
                *color,
            ) != 0 ==> crate::swarm::is_swarm_of(color_bits(state.board, *color), swarm)) && (
            color_bits(state.board, *color) == 0 ==> swarm == 0),
{
    let swarm = Helper::greatest_swarm_new(state, color);
    let fishes = state.board.get_fields_of(color);
    let dist = get_distance_sum(&fishes, &swarm);
    let mut c = fishes;
    c.mask(center);
    let mut b = fishes;
    b.mask(border);
    (dist, swarm.count_ones(), c.count_ones(), b.count_ones(), fishes.count_ones())
}

} // verus!
