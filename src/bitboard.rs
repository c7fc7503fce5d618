//! A 10x10 grid as a 128-bit word: cell `(x, y)` is bit `y * 10 + x`.
use vstd::prelude::*;

use crate::bits::{bit_at, count_ones_u128, lemma_and_single, popcount, trailing_zeros_u128};

verus! {

/// Bit index of cell `(x, y)`.
pub open spec fn cell(x: int, y: int) -> int {
    y * 10 + x
}

/// The cell `(x, y)` lies on the board.
pub open spec fn on_board(x: int, y: int) -> bool {
    0 <= x < 10 && 0 <= y < 10
}

/// Coordinates of bit index `i`.
pub open spec fn coords(i: int) -> (int, int) {
    (i % 10, i / 10)
}

/// `i` is the lowest set bit of `b`.
pub open spec fn is_lowest(b: u128, i: int) -> bool {
    bit_at(b, i) && forall|j: int| 0 <= j < i ==> !bit_at(b, j)
}

/// The bits of the 100 cells of the board.
pub const VALID_BITS: u128 = 0xFFFFFFFFFFFFFFFFFFFFFFFFF;

/// The valid bits are exactly the indices below 100.
pub broadcast proof fn lemma_valid_bits(i: int)
    ensures
        #[trigger] bit_at(VALID_BITS, i) == (0 <= i < 100),
{
    if 0 <= i < 128 {
        let j = i as u128;
        assert(((0xFFFFFFFFFFFFFFFFFFFFFFFFFu128 >> j) & 1u128 == 1u128) == (j < 100)) by (bit_vector)
            requires
                j < 128,
        ;
    }
}

/// No bit at index 100 or above is set.
pub open spec fn in_region(b: u128) -> bool {
    forall|i: int| 100 <= i < 128 ==> !bit_at(b, i)
}

#[derive(Clone, Copy, PartialEq, Eq, Debug, Structural)]
pub struct Bitboard {
    pub bits: u128,
}

impl Bitboard {
    pub fn new() -> (r: Bitboard)
        ensures
            r.bits == 0,
    {
        Bitboard { bits: 0 }
    }

    pub fn index_from_coordinates(x: u8, y: u8) -> (r: u8)
        requires
            y * 10 + x < 256,
        ensures
            r as int == cell(x as int, y as int),
    {
        y * 10 + x
    }

    pub fn set_field(&mut self, x: u8, y: u8)
        requires
            cell(x as int, y as int) < 128,
        ensures
            final(self).bits == old(self).bits | (1u128 << cell(x as int, y as int) as u128),
    {
        self.set_bit(Bitboard::index_from_coordinates(x, y));
    }

    pub fn set_bit(&mut self, index: u8)
        requires
            index < 128,
        ensures
            final(self).bits == old(self).bits | (1u128 << index as u128),
    {
        self.bits = self.bits | (1u128 << index as u128);
    }

    pub fn set_bits(&mut self, bits: u128)
        ensures
            final(self).bits == old(self).bits | bits,
    {
        self.bits = self.bits | bits;
    }

    pub fn clear_bit(&mut self, index: u8)
        requires
            index < 128,
        ensures
            final(self).bits == old(self).bits & !(1u128 << index as u128),
    {
        self.bits = self.bits & !(1u128 << index as u128);
    }

    pub fn clear_bits(&mut self, bits: u128)
        ensures
            final(self).bits == old(self).bits & !bits,
    {
        self.bits = self.bits & !bits;
    }

    pub fn is_bit_set(&self, index: u8) -> (r: bool)
        requires
            index < 128,
        ensures
            r == bit_at(self.bits, index as int),
    {
        let i = index as u128;
        let b = self.bits;
        proof {
            lemma_and_single(b, i);
        }
        self.bits & (1u128 << i) != 0
    }

    pub fn is_field_set(&self, x: u8, y: u8) -> (r: bool)
        requires
            cell(x as int, y as int) < 128,
        ensures
            r == bit_at(self.bits, cell(x as int, y as int)),
    {
        self.is_bit_set(Bitboard::index_from_coordinates(x, y))
    }

    pub fn clear_field(&mut self, x: u8, y: u8)
        requires
            cell(x as int, y as int) < 128,
        ensures
            final(self).bits == old(self).bits & !(1u128 << cell(x as int, y as int) as u128),
    {
        self.clear_bit(Bitboard::index_from_coordinates(x, y));
    }

    pub fn are_bits_set(&self, bitfield: u128) -> (r: bool)
        ensures
            r == (self.bits & bitfield != 0),
    {
        self.bits & bitfield != 0
    }

    pub fn count_ones(&self) -> (r: u32)
        ensures
            r as nat == popcount(self.bits),
    {
        count_ones_u128(self.bits)
    }

    pub fn coordinates_from_index(index: u8) -> (r: (u8, u8))
        ensures
            (r.0 as int, r.1 as int) == coords(index as int),
    {
        (index % 10, index / 10)
    }

    pub fn mask(&mut self, mask: u128)
        ensures
            final(self).bits == old(self).bits & mask,
    {
        self.bits = self.bits & mask;
    }

    /// Coordinates of the lowest set bit; of index 128 for an empty board.
    pub fn get_first(&self) -> (r: (u8, u8))
        ensures
            self.bits != 0 ==> is_lowest(self.bits, cell(r.0 as int, r.1 as int)),
            self.bits != 0 ==> r.0 < 10,
            self.bits == 0 ==> r == (8u8, 12u8),
    {
        Bitboard::coordinates_from_index(self.get_first_index())
    }

    /// Index of the lowest set bit; 128 for an empty board.
    pub fn get_first_index(&self) -> (r: u8)
        ensures
            self.bits != 0 ==> is_lowest(self.bits, r as int),
            self.bits == 0 ==> r == 128,
    {
        trailing_zeros_u128(self.bits) as u8
    }

    /// Coordinates of every set bit, in ascending index order.
    pub fn get_fields(&self) -> (r: Vec<(u8, u8)>)
        ensures
            forall|k: int|
                0 <= k < r@.len() ==> bit_at(self.bits, cell(r@[k].0 as int, r@[k].1 as int))
                    && r@[k].0 < 10,
            forall|i: int|
                #![trigger bit_at(self.bits, i)]
                bit_at(self.bits, i) ==> exists|k: int|
                    0 <= k < r@.len() && cell(r@[k].0 as int, r@[k].1 as int) == i,
            forall|k: int, l: int|
                0 <= k < l < r@.len() ==> cell(r@[k].0 as int, r@[k].1 as int) < cell(
                    r@[l].0 as int,
                    r@[l].1 as int,
                ),
    {
        let mut r: Vec<(u8, u8)> = Vec::new();
        let mut i: u8 = 0;
        while i < 128
            invariant
                i <= 128,
                forall|k: int|
                    0 <= k < r@.len() ==> bit_at(self.bits, cell(r@[k].0 as int, r@[k].1 as int))
                        && r@[k].0 < 10 && cell(r@[k].0 as int, r@[k].1 as int) < i,
                forall|j: int|
                    #![trigger bit_at(self.bits, j)]
                    0 <= j < i && bit_at(self.bits, j) ==> exists|k: int|
                        0 <= k < r@.len() && cell(r@[k].0 as int, r@[k].1 as int) == j,
                forall|k: int, l: int|
                    0 <= k < l < r@.len() ==> cell(r@[k].0 as int, r@[k].1 as int) < cell(
                        r@[l].0 as int,
                        r@[l].1 as int,
                    ),
            decreases 128 - i,
        {
            if self.is_bit_set(i) {
                let c = Bitboard::coordinates_from_index(i);
                let ghost prev = r@;
                r.push(c);
                proof {
                    let n = r@.len() - 1;
                    assert(cell(r@[n].0 as int, r@[n].1 as int) == i);
                    assert forall|j: int|
                        #![trigger bit_at(self.bits, j)]
                        0 <= j < i + 1 && bit_at(self.bits, j) implies exists|k: int|
                            0 <= k < r@.len() && cell(r@[k].0 as int, r@[k].1 as int) == j by {
                        if j < i {
                            let k = choose|k: int|
                                0 <= k < prev.len() && cell(prev[k].0 as int, prev[k].1 as int)
                                    == j;
                            assert(r@[k] == prev[k]);
                        } else {
                            assert(cell(r@[n].0 as int, r@[n].1 as int) == j);
                        }
                    }
                }
            }
            i = i + 1;
        }
        r
    }

    /// Iterates over the coordinates of the set cells.
    pub fn iter(&self) -> (r: crate::iterators::BitboardIter)
        ensures
            r.bits == self.bits,
            r.index == 0,
    {
        crate::iterators::BitboardIter::new(self.bits)
    }

    pub fn from_bits(bits: u128) -> (r: Bitboard)
        ensures
            r.bits == bits,
    {
        Bitboard { bits }
    }
}

impl core::ops::BitAnd for Bitboard {
    type Output = Self;

    fn bitand(self, rhs: Self) -> (r: Self)
        ensures
            r.bits == self.bits & rhs.bits,
    {
        Bitboard { bits: self.bits & rhs.bits }
    }
}

impl vstd::std_specs::ops::BitAndSpecImpl for Bitboard {
    open spec fn obeys_bitand_spec() -> bool {
        true
    }

    open spec fn bitand_req(self, rhs: Self) -> bool {
        true
    }

    open spec fn bitand_spec(self, rhs: Self) -> Self {
        Bitboard { bits: self.bits & rhs.bits }
    }
}

impl core::ops::BitOr for Bitboard {
    type Output = Self;

    fn bitor(self, rhs: Self) -> (r: Self)
        ensures
            r.bits == self.bits | rhs.bits,
    {
        Bitboard { bits: self.bits | rhs.bits }
    }
}

impl vstd::std_specs::ops::BitOrSpecImpl for Bitboard {
    open spec fn obeys_bitor_spec() -> bool {
        true
    }

    open spec fn bitor_req(self, rhs: Self) -> bool {
        true
    }

    open spec fn bitor_spec(self, rhs: Self) -> Self {
        Bitboard { bits: self.bits | rhs.bits }
    }
}

impl core::ops::Not for Bitboard {
    type Output = Self;

    fn not(self) -> (r: Self)
        ensures
            r.bits == !self.bits,
    {
        Bitboard { bits: !self.bits }
    }
}

impl vstd::std_specs::ops::NotSpecImpl for Bitboard {
    open spec fn obeys_not_spec() -> bool {
        true
    }

    open spec fn not_req(self) -> bool {
        true
    }

    open spec fn not_spec(self) -> Self {
        Bitboard { bits: !self.bits }
    }
}

} // verus!
