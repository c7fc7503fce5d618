//! The board as three disjoint bitboards: red pieces, blue pieces, obstacles.
use vstd::prelude::*;

use crate::bitboard::{cell, in_region, lemma_valid_bits, on_board, Bitboard, VALID_BITS};
use crate::bits::{bit_at, group_bits};
use crate::states::{Direction, Field, FieldType, PlayerColor};

verus! {

broadcast use {group_bits, lemma_valid_bits};

#[derive(Clone, Copy, PartialEq, Eq, Debug, Structural)]
pub struct Board {
    pub red_fields: Bitboard,
    pub blue_fields: Bitboard,
    pub obstacle_fields: Bitboard,
}

/// The word of the cells holding field kind `t`; for `Free`, the cells of the board that hold
/// none of the others.
pub open spec fn type_bits(b: Board, t: FieldType) -> u128 {
    match t {
        FieldType::RedPlayer => b.red_fields.bits,
        FieldType::BluePlayer => b.blue_fields.bits,
        FieldType::Obstacle => b.obstacle_fields.bits,
        FieldType::Free => !(b.obstacle_fields.bits | b.blue_fields.bits | b.red_fields.bits)
            & VALID_BITS,
    }
}

/// Cell `i` holds field kind `t`.
pub open spec fn is_type(b: Board, i: int, t: FieldType) -> bool {
    bit_at(type_bits(b, t), i)
}

/// The word of a color's pieces.
pub open spec fn color_bits(b: Board, c: PlayerColor) -> u128 {
    match c {
        PlayerColor::Red => b.red_fields.bits,
        PlayerColor::Blue => b.blue_fields.bits,
    }
}

/// The word of all pieces of either color.
pub open spec fn occupied_bits(b: Board) -> u128 {
    b.red_fields.bits | b.blue_fields.bits
}

/// What occupies cell `(x, y)`.
pub open spec fn field_at(b: Board, x: int, y: int) -> FieldType {
    let i = cell(x, y);
    if bit_at(b.red_fields.bits, i) {
        FieldType::RedPlayer
    } else if bit_at(b.blue_fields.bits, i) {
        FieldType::BluePlayer
    } else if bit_at(b.obstacle_fields.bits, i) {
        FieldType::Obstacle
    } else {
        FieldType::Free
    }
}

/// The three bitboards are pairwise disjoint.
pub open spec fn disjoint(b: Board) -> bool {
    &&& b.red_fields.bits & b.blue_fields.bits == 0
    &&& b.red_fields.bits & b.obstacle_fields.bits == 0
    &&& b.blue_fields.bits & b.obstacle_fields.bits == 0
}

/// The three bitboards are pairwise disjoint and use only the bits of the 100 cells.
pub open spec fn well_formed(b: Board) -> bool {
    &&& b.red_fields.bits & b.blue_fields.bits == 0
    &&& b.red_fields.bits & b.obstacle_fields.bits == 0
    &&& b.blue_fields.bits & b.obstacle_fields.bits == 0
    &&& in_region(b.red_fields.bits)
    &&& in_region(b.blue_fields.bits)
    &&& in_region(b.obstacle_fields.bits)
}

/// Number of set cells of `occ` at `(x + k*dx, y + k*dy)` for `lo <= k < hi`, on the board.
pub open spec fn line_count(occ: u128, x: int, y: int, dx: int, dy: int, lo: int, hi: int) -> nat
    decreases hi - lo,
{
    if hi <= lo {
        0
    } else {
        line_count(occ, x, y, dx, dy, lo, hi - 1) + if on_board(x + (hi - 1) * dx, y + (hi - 1) * dy)
            && bit_at(occ, cell(x + (hi - 1) * dx, y + (hi - 1) * dy)) {
            1nat
        } else {
            0nat
        }
    }
}

/// The axis of a direction, as the step of its positive sense.
pub open spec fn axis_of(d: Direction) -> (int, int) {
    match d {
        Direction::Up | Direction::Down => (0, 1),
        Direction::Right | Direction::Left => (1, 0),
        Direction::UpRight | Direction::DownLeft => (1, 1),
        Direction::DownRight | Direction::UpLeft => (1, -1),
    }
}

/// Number of pieces (either color) on the whole line through `(x, y)` along the axis of `d`:
/// the length of a move from `(x, y)` in direction `d`.
pub open spec fn line_pieces(b: Board, x: int, y: int, d: Direction) -> nat {
    line_count(occupied_bits(b), x, y, axis_of(d).0, axis_of(d).1, -9, 10)
}

pub open spec fn sign(v: int) -> int {
    if v > 0 {
        1
    } else if v < 0 {
        -1
    } else {
        0
    }
}

pub open spec fn abs(v: int) -> int {
    if v < 0 {
        -v
    } else {
        v
    }
}

/// Two distinct cells on one row, column or diagonal.
pub open spec fn aligned(x: int, y: int, xn: int, yn: int) -> bool {
    (x != xn || y != yn) && (x == xn || y == yn || abs(xn - x) == abs(yn - y))
}

/// Number of steps from `(x, y)` to `(xn, yn)` along their line.
pub open spec fn steps_between(x: int, y: int, xn: int, yn: int) -> int {
    if abs(xn - x) > abs(yn - y) {
        abs(xn - x)
    } else {
        abs(yn - y)
    }
}

/// Some cell strictly between two aligned cells holds field kind `t`.
pub open spec fn type_between(b: Board, x: int, y: int, xn: int, yn: int, t: FieldType) -> bool {
    exists|k: int|
        1 <= k < steps_between(x, y, xn, yn) && #[trigger] is_type(
            b,
            cell(x + k * sign(xn - x), y + k * sign(yn - y)),
            t,
        )
}

/// Counts the set cells of `occ` on the whole line through `(x, y)` with step `(dx, dy)`.
pub(crate) fn count_on_line(occ: u128, x: u8, y: u8, dx: i8, dy: i8) -> (r: u8)
    requires
        x < 10,
        y < 10,
        -1 <= dx <= 1,
        -1 <= dy <= 1,
    ensures
        r as nat == line_count(occ, x as int, y as int, dx as int, dy as int, -9, 10),
        r <= 19,
{
    let mut k: i8 = -9;
    let mut n: u8 = 0;
    while k < 10
        invariant
            x < 10,
            y < 10,
            -1 <= dx <= 1,
            -1 <= dy <= 1,
            -9 <= k <= 10,
            n as nat == line_count(occ, x as int, y as int, dx as int, dy as int, -9, k as int),
            n <= k + 9,
        decreases 10 - k,
    {
        let kx: i16 = if dx > 0 {
            k as i16
        } else if dx < 0 {
            -(k as i16)
        } else {
            0
        };
        let ky: i16 = if dy > 0 {
            k as i16
        } else if dy < 0 {
            -(k as i16)
        } else {
            0
        };
        assert(kx == k * dx && ky == k * dy) by (nonlinear_arith)
            requires
                -1 <= dx <= 1,
                -1 <= dy <= 1,
                dx > 0 ==> kx == k,
                dx < 0 ==> kx == -k,
                dx == 0 ==> kx == 0,
                dy > 0 ==> ky == k,
                dy < 0 ==> ky == -k,
                dy == 0 ==> ky == 0,
        ;
        let px: i16 = x as i16 + kx;
        let py: i16 = y as i16 + ky;
        if 0 <= px && px < 10 && 0 <= py && py < 10 {
            let bit: u8 = (py * 10 + px) as u8;
            let b = Bitboard::from_bits(occ);
            if b.is_bit_set(bit) {
                n = n + 1;
            }
        }
        k = k + 1;
    }
    n
}

impl Board {
    /// Builds a board from a grid indexed `[x][y]`.
    pub fn new(fields: [[FieldType; 10]; 10]) -> (r: Board)
        ensures
            well_formed(r),
            forall|x: int, y: int| on_board(x, y) ==> field_at(r, x, y) == fields@[x]@[y],
    {
        let mut red = Bitboard::new();
        let mut blue = Bitboard::new();
        let mut obstacles = Bitboard::new();
        proof {
            crate::bits::lemma_and_zero(0);
        }
        let mut x: u8 = 0;
        while x < 10
            invariant
                x <= 10,
                red.bits & blue.bits == 0,
                red.bits & obstacles.bits == 0,
                blue.bits & obstacles.bits == 0,
                forall|i: int|
                    #![trigger bit_at(red.bits, i)]
                    bit_at(red.bits, i) == (0 <= i < 100 && i % 10 < x && fields@[i % 10]@[i / 10]
                        == FieldType::RedPlayer),
                forall|i: int|
                    #![trigger bit_at(blue.bits, i)]
                    bit_at(blue.bits, i) == (0 <= i < 100 && i % 10 < x && fields@[i % 10]@[i
                        / 10] == FieldType::BluePlayer),
                forall|i: int|
                    #![trigger bit_at(obstacles.bits, i)]
                    bit_at(obstacles.bits, i) == (0 <= i < 100 && i % 10 < x && fields@[i % 10]@[i
                        / 10] == FieldType::Obstacle),
            decreases 10 - x,
        {
            let mut y: u8 = 0;
            while y < 10
                invariant
                    x < 10,
                    y <= 10,
                    red.bits & blue.bits == 0,
                    red.bits & obstacles.bits == 0,
                    blue.bits & obstacles.bits == 0,
                    forall|i: int|
                        #![trigger bit_at(red.bits, i)]
                        bit_at(red.bits, i) == (0 <= i < 100 && (i % 10 < x || (i % 10 == x && i
                            / 10 < y)) && fields@[i % 10]@[i / 10] == FieldType::RedPlayer),
                    forall|i: int|
                        #![trigger bit_at(blue.bits, i)]
                        bit_at(blue.bits, i) == (0 <= i < 100 && (i % 10 < x || (i % 10 == x && i
                            / 10 < y)) && fields@[i % 10]@[i / 10] == FieldType::BluePlayer),
                    forall|i: int|
                        #![trigger bit_at(obstacles.bits, i)]
                        bit_at(obstacles.bits, i) == (0 <= i < 100 && (i % 10 < x || (i % 10 == x
                            && i / 10 < y)) && fields@[i % 10]@[i / 10] == FieldType::Obstacle),
                decreases 10 - y,
            {
                let t = fields[x as usize][y as usize];
                let ghost idx = cell(x as int, y as int);
                assert(idx % 10 == x && idx / 10 == y);
                let ghost (r0, b0, o0) = (red.bits, blue.bits, obstacles.bits);
                match t {
                    FieldType::RedPlayer => {
                        red.set_field(x, y);
                    },
                    FieldType::BluePlayer => {
                        blue.set_field(x, y);
                    },
                    FieldType::Obstacle => {
                        obstacles.set_field(x, y);
                    },
                    FieldType::Free => {},
                }
                proof {
                    assert forall|i: int| 0 <= i < 128 implies !bit_at(red.bits & blue.bits, i)
                        && !bit_at(red.bits & obstacles.bits, i) && !bit_at(
                        blue.bits & obstacles.bits,
                        i,
                    ) by {
                        assert(!bit_at(r0 & b0, i));
                        assert(!bit_at(r0 & o0, i));
                        assert(!bit_at(b0 & o0, i));
                    }
                    crate::bits::lemma_no_bits_zero(red.bits & blue.bits);
                    crate::bits::lemma_no_bits_zero(red.bits & obstacles.bits);
                    crate::bits::lemma_no_bits_zero(blue.bits & obstacles.bits);
                }
                y = y + 1;
            }
            x = x + 1;
        }
        let r = Board { red_fields: red, blue_fields: blue, obstacle_fields: obstacles };
        proof {
            assert forall|px: int, py: int| on_board(px, py) implies field_at(r, px, py)
                == fields@[px]@[py] by {
                let i = cell(px, py);
                assert(i % 10 == px && i / 10 == py);
            }
        }
        r
    }

    /// Whether a cell strictly between two aligned cells holds field kind `type_searched`.
    pub fn is_field_between(&self, x: u8, y: u8, x_n: u8, y_n: u8, type_searched: FieldType) -> (r:
        bool)
        requires
            on_board(x as int, y as int),
            on_board(x_n as int, y_n as int),
            aligned(x as int, y as int, x_n as int, y_n as int),
        ensures
            r == type_between(*self, x as int, y as int, x_n as int, y_n as int, type_searched),
    {
        let ddx: i8 = x_n as i8 - x as i8;
        let ddy: i8 = y_n as i8 - y as i8;
        let sx: i8 = if ddx > 0 {
            1
        } else if ddx < 0 {
            -1
        } else {
            0
        };
        let sy: i8 = if ddy > 0 {
            1
        } else if ddy < 0 {
            -1
        } else {
            0
        };
        let ax: i8 = if ddx < 0 {
            -ddx
        } else {
            ddx
        };
        let ay: i8 = if ddy < 0 {
            -ddy
        } else {
            ddy
        };
        let n: i8 = if ax > ay {
            ax
        } else {
            ay
        };
        let ghost steps = steps_between(x as int, y as int, x_n as int, y_n as int);
        assert(n == steps);
        assert(sx != 0 ==> n == ax);
        assert(sy != 0 ==> n == ay);
        let mut k: i8 = 1;
        while k < n
            invariant
                1 <= k <= n,
                n == steps,
                n <= 9,
                sx as int == sign(x_n - x),
                sy as int == sign(y_n - y),
                sx != 0 ==> n == ax,
                sy != 0 ==> n == ay,
                ax as int == abs(x_n - x),
                ay as int == abs(y_n - y),
                on_board(x as int, y as int),
                on_board(x_n as int, y_n as int),
                aligned(x as int, y as int, x_n as int, y_n as int),
                forall|j: int|
                    1 <= j < k ==> !#[trigger] is_type(
                        *self,
                        cell(x + j * sign(x_n - x), y + j * sign(y_n - y)),
                        type_searched,
                    ),
            decreases n - k,
        {
            let px: i8 = if sx > 0 {
                x as i8 + k
            } else if sx < 0 {
                x as i8 - k
            } else {
                x as i8
            };
            let py: i8 = if sy > 0 {
                y as i8 + k
            } else if sy < 0 {
                y as i8 - k
            } else {
                y as i8
            };
            proof {
                assert(px == x + k * sign(x_n - x));
                assert(py == y + k * sign(y_n - y));
            }
            let bit: u8 = (py * 10 + px) as u8;
            let field: u128 = 1u128 << (bit as u128);
            proof {
                crate::bits::lemma_and_single(type_bits(*self, type_searched), bit as u128);
            }
            if self.is_type_in(field, type_searched) {
                assert(is_type(*self, cell(px as int, py as int), type_searched));
                return true;
            }
            k = k + 1;
        }
        false
    }

    pub fn is_field(&self, x: u8, y: u8, fieldtype: FieldType) -> (r: bool)
        requires
            cell(x as int, y as int) < 128,
        ensures
            r == is_type(*self, cell(x as int, y as int), fieldtype),
    {
        let i: u8 = x + y * 10;
        let field: u128 = 1u128 << (i as u128);
        proof {
            crate::bits::lemma_and_single(type_bits(*self, fieldtype), i as u128);
        }
        let r = self.is_type_in(field, fieldtype);
        r
    }

    pub fn is_type_in(&self, mask: u128, fieldtype: FieldType) -> (r: bool)
        ensures
            r == (type_bits(*self, fieldtype) & mask != 0),
    {
        let b = match fieldtype {
            FieldType::RedPlayer => self.red_fields,
            FieldType::BluePlayer => self.blue_fields,
            FieldType::Obstacle => self.obstacle_fields,
            FieldType::Free => Bitboard::from_bits(
                !(self.obstacle_fields.bits | self.blue_fields.bits | self.red_fields.bits)
                    & VALID_BITS,
            ),
        };
        b.are_bits_set(mask)
    }

    /// The board as a grid indexed `[x][y]`.
    pub fn get_fields(&self) -> (r: [[FieldType; 10]; 10])
        ensures
            forall|x: int, y: int| on_board(x, y) ==> r@[x]@[y] == field_at(*self, x, y),
    {
        let mut fields = [[FieldType::Free;10];10];
        let mut x: u8 = 0;
        while x < 10
            invariant
                x <= 10,
                forall|px: int, py: int|
                    0 <= px < x && 0 <= py < 10 ==> fields@[px]@[py] == field_at(*self, px, py),
            decreases 10 - x,
        {
            let mut row = [FieldType::Free;10];
            let mut y: u8 = 0;
            while y < 10
                invariant
                    x < 10,
                    y <= 10,
                    forall|py: int| 0 <= py < y ==> row@[py] == field_at(*self, x as int, py),
                decreases 10 - y,
            {
                row[y as usize] = self.get_fieldtype(x, y).unwrap();
                y = y + 1;
            }
            fields[x as usize] = row;
            x = x + 1;
        }
        fields
    }

    /// Number of pieces on the whole line through `(x, y)` along the axis of `direction`.
    pub fn get_distance(&self, x: u8, y: u8, direction: Direction) -> (r: i8)
        requires
            x < 10,
            y < 10,
        ensures
            r as int == line_pieces(*self, x as int, y as int, direction),
            0 <= r <= 19,
    {
        let (dx, dy): (i8, i8) = match direction {
            Direction::Up | Direction::Down => (0, 1),
            Direction::Right | Direction::Left => (1, 0),
            Direction::UpRight | Direction::DownLeft => (1, 1),
            Direction::DownRight | Direction::UpLeft => (1, -1),
        };
        count_on_line(self.red_fields.bits | self.blue_fields.bits, x, y, dx, dy) as i8
    }

    /// Makes cell `(x, y)` hold `fieldtype`, leaving every other cell as it was.
    pub fn set_field(&mut self, x: u8, y: u8, fieldtype: FieldType)
        requires
            on_board(x as int, y as int),
        ensures
            field_at(*final(self), x as int, y as int) == fieldtype,
            forall|px: int, py: int|
                on_board(px, py) && (px, py) != (x as int, y as int) ==> field_at(
                    *final(self),
                    px,
                    py,
                ) == field_at(*old(self), px, py),
            well_formed(*old(self)) ==> well_formed(*final(self)),
            disjoint(*old(self)) ==> disjoint(*final(self)),
    {
        let index: u8 = y * 10 + x;
        let bit: u128 = 1u128 << (index as u128);
        let ghost old_board = *self;
        self.red_fields.bits = self.red_fields.bits & !bit;
        self.blue_fields.bits = self.blue_fields.bits & !bit;
        self.obstacle_fields.bits = self.obstacle_fields.bits & !bit;
        match fieldtype {
            FieldType::RedPlayer => {
                self.red_fields.set_bits(bit);
            },
            FieldType::BluePlayer => {
                self.blue_fields.set_bits(bit);
            },
            FieldType::Obstacle => {
                self.obstacle_fields.set_bits(bit);
            },
            FieldType::Free => {},
        }
        proof {
            assert forall|px: int, py: int|
                on_board(px, py) && (px, py) != (x as int, y as int) implies field_at(
                *self,
                px,
                py,
            ) == field_at(old_board, px, py) by {
                assert(cell(px, py) != index);
            }
            if disjoint(old_board) {
                let s = *self;
                assert forall|i: int| 0 <= i < 128 implies !bit_at(
                    s.red_fields.bits & s.blue_fields.bits,
                    i,
                ) && !bit_at(s.red_fields.bits & s.obstacle_fields.bits, i) && !bit_at(
                    s.blue_fields.bits & s.obstacle_fields.bits,
                    i,
                ) by {
                    assert(!bit_at(old_board.red_fields.bits & old_board.blue_fields.bits, i));
                    assert(!bit_at(old_board.red_fields.bits & old_board.obstacle_fields.bits, i));
                    assert(!bit_at(old_board.blue_fields.bits & old_board.obstacle_fields.bits, i));
                }
                crate::bits::lemma_no_bits_zero(s.red_fields.bits & s.blue_fields.bits);
                crate::bits::lemma_no_bits_zero(s.red_fields.bits & s.obstacle_fields.bits);
                crate::bits::lemma_no_bits_zero(s.blue_fields.bits & s.obstacle_fields.bits);
            }
        }
    }

    pub fn get_fields_of(&self, color: &PlayerColor) -> (r: Bitboard)
        ensures
            r.bits == color_bits(*self, *color),
    {
        match color {
            PlayerColor::Red => self.red_fields,
            PlayerColor::Blue => self.blue_fields,
        }
    }

    pub fn get_field(&self, x: u8, y: u8) -> (r: Option<Field>)
        ensures
            on_board(x as int, y as int) ==> r == Some(
                Field { x, y, fieldtype: field_at(*self, x as int, y as int) },
            ),
            !on_board(x as int, y as int) ==> r.is_none(),
    {
        match self.get_fieldtype(x, y) {
            Some(fieldtype) => Some(Field { x, y, fieldtype }),
            None => None,
        }
    }

    pub fn get_fieldtype(&self, x: u8, y: u8) -> (r: Option<FieldType>)
        ensures
            on_board(x as int, y as int) ==> r == Some(field_at(*self, x as int, y as int)),
            !on_board(x as int, y as int) ==> r.is_none(),
    {
        if x > 9 || y > 9 {
            return None;
        }
        let index: u8 = y * 10 + x;
        if self.red_fields.is_bit_set(index) {
            return Some(FieldType::RedPlayer);
        }
        if self.blue_fields.is_bit_set(index) {
            return Some(FieldType::BluePlayer);
        }
        if self.obstacle_fields.is_bit_set(index) {
            return Some(FieldType::Obstacle);
        }
        Some(FieldType::Free)
    }
}

} // verus!
