//! The search-side view of a position: compact moves, scored moves, Zobrist keys, and a board
//! that applies and takes back moves in place.
use vstd::prelude::*;

use crate::bitboard::{cell, on_board};
use crate::bits::{bit_at, group_bits};
use crate::board::color_bits;
use crate::gamerules::{is_move_legal, legal_move, legal_slide, capture_slide, slide_target};
use crate::gamestate::{current_color, GameState};
use crate::iterators::get_captures as state_captures;
use crate::states::{opponent, Direction, Move, PlayerColor};

verus! {

broadcast use group_bits;

/// Seed of the generator of the Zobrist keys.
pub const ZOBRIST_SEED: u64 = 0xd7f70d9969c5a4fe;

/// Multiplier applied to each output of the generator.
pub const PRNG_MULTIPLIER: u64 = 2685821657736338717;

/// Marks a move as not null.
pub const NULL_IDENTIFIER: u16 = 0x8000;

/// One xorshift step of the generator state.
pub open spec fn xorshift(s: u64) -> u64 {
    let a = s ^ (s >> 12u64);
    let b = a ^ (a << 25u64);
    b ^ (b >> 27u64)
}

/// A xorshift-multiply pseudo-random generator.
pub struct PRNG {
    pub seed: u64,
}

impl PRNG {
    /// A generator started from `s`; a zero seed yields only zeros.
    pub fn init(s: u64) -> (r: PRNG)
        ensures
            r.seed == s,
    {
        PRNG { seed: s }
    }

    /// Advances the state by one xorshift step and returns it times the multiplier.
    pub fn rand(&mut self) -> (r: u64)
        ensures
            final(self).seed == xorshift(old(self).seed),
            r == xorshift(old(self).seed).wrapping_mul(PRNG_MULTIPLIER),
    {
        let s = self.seed;
        let a = s ^ (s >> 12u64);
        let b = a ^ (a << 25u64);
        self.seed = b ^ (b >> 27u64);
        self.seed.wrapping_mul(PRNG_MULTIPLIER)
    }
}

/// The Zobrist key with number `n`: the first output of the generator seeded from the fixed
/// seed mixed with `n`.
pub open spec fn zobrist_key(n: u64) -> u64 {
    xorshift(ZOBRIST_SEED ^ n.wrapping_mul(0x9e3779b97f4a7c15u64)).wrapping_mul(PRNG_MULTIPLIER)
}

/// Key number of a piece of color `c` on square `sq`.
pub open spec fn square_key_number(sq: u8, c: PlayerColor) -> u64 {
    (2 * sq + if c == PlayerColor::Red {
        0u64
    } else {
        1u64
    }) as u64
}

/// Key number of turn `t`.
pub open spec fn turn_key_number(t: u8) -> u64 {
    (256 + t) as u64
}

fn key(n: u64) -> (r: u64)
    ensures
        r == zobrist_key(n),
{
    let mut g = PRNG::init(ZOBRIST_SEED ^ n.wrapping_mul(0x9e3779b97f4a7c15u64));
    g.rand()
}

/// The Zobrist key of a piece of `color` on `sq`.
pub fn z_square(sq: SQ, color: PlayerColor) -> (r: u64)
    ensures
        r == zobrist_key(square_key_number(sq.0, color)),
{
    let c: u64 = match color {
        PlayerColor::Red => 0,
        PlayerColor::Blue => 1,
    };
    key(2 * (sq.0 as u64) + c)
}

/// The Zobrist key of turn `turn`.
pub fn z_turn(turn: u8) -> (r: u64)
    ensures
        r == zobrist_key(turn_key_number(turn)),
{
    key(256 + turn as u64)
}

/// XOR of the keys of the pieces on squares `0..n`.
pub open spec fn pieces_hash(red: u128, blue: u128, n: int) -> u64
    decreases n,
{
    if n <= 0 {
        0
    } else {
        let h = pieces_hash(red, blue, n - 1);
        let sq = (n - 1) as u8;
        let hr = if bit_at(red, n - 1) {
            h ^ zobrist_key(square_key_number(sq, PlayerColor::Red))
        } else {
            h
        };
        if bit_at(blue, n - 1) {
            hr ^ zobrist_key(square_key_number(sq, PlayerColor::Blue))
        } else {
            hr
        }
    }
}

/// The Zobrist hash of a position: the key of its turn and the keys of its pieces on the board.
pub open spec fn full_hash(s: GameState) -> u64 {
    zobrist_key(turn_key_number(s.turn)) ^ pieces_hash(
        s.board.red_fields.bits,
        s.board.blue_fields.bits,
        100,
    )
}

proof fn lemma_xor_u64()
    ensures
        forall|a: u64, x: u64, y: u64| #[trigger] ((a ^ x) ^ y) == (a ^ y) ^ x,
        forall|a: u64| #[trigger] (a ^ 0u64) == a,
        forall|a: u64, x: u64| #[trigger] ((a ^ x) ^ x) == a,
{
    assert(forall|a: u64, x: u64, y: u64| #[trigger] ((a ^ x) ^ y) == (a ^ y) ^ x) by (bit_vector);
    assert(forall|a: u64| #[trigger] (a ^ 0u64) == a) by (bit_vector);
    assert(forall|a: u64, x: u64| #[trigger] ((a ^ x) ^ x) == a) by (bit_vector);
}

/// Flipping one square of one color toggles that square's key in the hash.
proof fn lemma_hash_flip(red: u128, blue: u128, k: u128, c: PlayerColor, n: int)
    requires
        k < 100,
    ensures
        pieces_hash(
            if c == PlayerColor::Red {
                red ^ (1u128 << k)
            } else {
                red
            },
            if c == PlayerColor::Blue {
                blue ^ (1u128 << k)
            } else {
                blue
            },
            n,
        ) == pieces_hash(red, blue, n) ^ if 0 <= k < n {
            zobrist_key(square_key_number(k as u8, c))
        } else {
            0u64
        },
    decreases n,
{
    lemma_xor_u64();
    if n > 0 {
        lemma_hash_flip(red, blue, k, c, n - 1);
    }
}

/// A square by bit index; 100 stands for no square.
#[derive(Clone, Copy, PartialEq, Eq, Hash, Debug, Structural)]
pub struct SQ(pub u8);

impl SQ {
    /// The square lies on the board.
    pub fn is_okay(self) -> (r: bool)
        ensures
            r == (self.0 < 100),
    {
        self.0 < 100
    }
}

/// Origin index of a packed move.
pub open spec fn src_of(data: u16) -> u16 {
    data & 0x7f
}

/// Destination index of a packed move.
pub open spec fn dest_of(data: u16) -> u16 {
    (data & !NULL_IDENTIFIER) >> 7u16
}

/// The packing of a move from square `from` to square `to`.
pub open spec fn pack(from: u16, to: u16) -> u16 {
    from | (to << 7u16) | NULL_IDENTIFIER
}

proof fn lemma_pack(from: u16, to: u16)
    requires
        from < 128,
        to < 128,
    ensures
        src_of(pack(from, to)) == from,
        dest_of(pack(from, to)) == to,
        pack(from, to) != 0,
        (pack(from, to) & !NULL_IDENTIFIER) & 0x7f == from,
{
    assert(((from | (to << 7u16) | 0x8000u16) & 0x7fu16) == from && (((from | (to << 7u16)
        | 0x8000u16) & !0x8000u16) >> 7u16) == to && (from | (to << 7u16) | 0x8000u16) != 0 && (((
    from | (to << 7u16) | 0x8000u16) & !0x8000u16) & 0x7fu16) == from) by (bit_vector)
        requires
            from < 128,
            to < 128,
    ;
}

proof fn lemma_unpack(data: u16)
    ensures
        src_of(data) < 128,
        dest_of(data) < 256,
        (data & !NULL_IDENTIFIER) & 0x7f == src_of(data),
        data == 0 ==> src_of(data) == 0 && dest_of(data) == 0,
{
    assert((data & 0x7fu16) < 128 && ((data & !0x8000u16) >> 7u16) < 256 && ((data & !0x8000u16)
        & 0x7fu16) == (data & 0x7fu16) && (data == 0 ==> (data & 0x7fu16) == 0 && ((data
        & !0x8000u16) >> 7u16) == 0)) by (bit_vector);
}

/// `m` is a move the side to move of `b` may play.
#[verifier::opaque]
pub open spec fn legal_packed(b: Board, m: BitMove) -> bool {
    m.data != 0 && dest_of(m.data) < 100 && legal_move(
        b.state.board,
        current_color(b.state),
        src_of(m.data) as int % 10,
        src_of(m.data) as int / 10,
        dest_of(m.data) as int % 10,
        dest_of(m.data) as int / 10,
    )
}

/// A packed legal slide is a legal packed move.
pub proof fn lemma_packed_slide_legal(b: Board, m: BitMove)
    requires
        packs_slide(b.state, m.data, false),
    ensures
        legal_packed(b, m),
{
    reveal(legal_packed);
    let (x, y, d) = choose|x: int, y: int, d: Direction|
        #[trigger] crate::iterators::wanted(b.state.board, current_color(b.state), x, y, d, false)
            && src_of(m.data) == cell(x, y) && dest_of(m.data) == cell(
            slide_target(b.state.board, x, y, d).0,
            slide_target(b.state.board, x, y, d).1,
        );
    let t = slide_target(b.state.board, x, y, d);
    crate::gamerules::lemma_legal_move_is_slide(b.state, current_color(b.state), x, y, t.0, t.1);
    lemma_unpack(m.data);
    assert(cell(x, y) % 10 == x && cell(x, y) / 10 == y);
    assert(cell(t.0, t.1) % 10 == t.0 && cell(t.0, t.1) / 10 == t.1);
}

/// A move packed in 16 bits: origin index in bits 0..7, destination index in bits 7..14, and
/// bit 15 set for every move but the null move. The direction is not kept.
#[derive(Clone, Copy, PartialEq, Eq, Debug, Structural)]
pub struct BitMove {
    pub data: u16,
}

impl BitMove {
    pub fn from_move(m: &Move) -> (r: BitMove)
        requires
            on_board(m.x as int, m.y as int),
            on_board(m.dest_x as int, m.dest_y as int),
        ensures
            src_of(r.data) == cell(m.x as int, m.y as int),
            dest_of(r.data) == cell(m.dest_x as int, m.dest_y as int),
            r.data != 0,
    {
        BitMove::from_indices(m.x, m.y, m.dest_x, m.dest_y)
    }

    pub fn from_indices(x: u8, y: u8, dest_x: u8, dest_y: u8) -> (r: BitMove)
        requires
            on_board(x as int, y as int),
            on_board(dest_x as int, dest_y as int),
        ensures
            src_of(r.data) == cell(x as int, y as int),
            dest_of(r.data) == cell(dest_x as int, dest_y as int),
            r.data != 0,
    {
        let from: u16 = x as u16 + y as u16 * 10;
        let to: u16 = dest_x as u16 + dest_y as u16 * 10;
        proof {
            lemma_pack(from, to);
        }
        BitMove { data: from | (to << 7u16) | NULL_IDENTIFIER }
    }

    /// The origin and destination as a move; the direction is given as `Up`.
    pub fn to_partial_move(&self) -> (r: Move)
        ensures
            r.x as int == src_of(self.data) % 10,
            r.y as int == src_of(self.data) / 10,
            r.dest_x as int == dest_of(self.data) % 10,
            r.dest_y as int == dest_of(self.data) / 10,
            r.direction == Direction::Up,
    {
        let data = self.data & !NULL_IDENTIFIER;
        proof {
            lemma_unpack(self.data);
        }
        let from = (data & 0x7f) as u8;
        let to = (data >> 7u16) as u8;
        Move { x: from % 10, y: from / 10, dest_x: to % 10, dest_y: to / 10, direction: Direction::Up }
    }

    /// A number in `0..10000` naming the origin and destination pair.
    pub fn from_to_key(&self) -> (r: u16)
        requires
            dest_of(self.data) < 100,
        ensures
            r == src_of(self.data) + dest_of(self.data) * 100,
    {
        proof {
            lemma_unpack(self.data);
        }
        let data = self.data & !NULL_IDENTIFIER;
        let from = data & 0x7f;
        let to = data >> 7u16;
        from + to * 100
    }

    pub fn new(input: u16) -> (r: BitMove)
        ensures
            r.data == input,
    {
        BitMove { data: input }
    }

    pub fn null() -> (r: BitMove)
        ensures
            r.data == 0,
    {
        BitMove { data: 0 }
    }

    pub fn get_raw(self) -> (r: u16)
        ensures
            r == self.data,
    {
        self.data
    }

    pub fn is_null(self) -> (r: bool)
        ensures
            r == (self.data == 0),
    {
        self.data == 0
    }

    pub fn get_dest(&self) -> (r: SQ)
        ensures
            r.0 as int == dest_of(self.data) as int % 256,
    {
        proof {
            lemma_unpack(self.data);
        }
        let data = self.data & !NULL_IDENTIFIER;
        SQ((data >> 7u16) as u8)
    }

    pub fn get_src(&self) -> (r: SQ)
        ensures
            r.0 as int == src_of(self.data),
    {
        proof {
            lemma_unpack(self.data);
        }
        SQ((self.data & 0x7f) as u8)
    }
}

/// A move with a score.
#[derive(Clone, Copy, PartialEq, Eq, Debug, Structural)]
pub struct ScoringMove {
    pub bit_move: BitMove,
    pub score: i16,
}

impl ScoringMove {
    pub fn new(m: BitMove) -> (r: ScoringMove)
        ensures
            r == (ScoringMove { bit_move: m, score: 0 }),
    {
        ScoringMove { bit_move: m, score: 0 }
    }

    pub fn new_score(m: BitMove, score: i16) -> (r: ScoringMove)
        ensures
            r == (ScoringMove { bit_move: m, score }),
    {
        ScoringMove { bit_move: m, score }
    }

    /// The null move with `score`.
    pub fn blank(score: i16) -> (r: ScoringMove)
        ensures
            r == (ScoringMove { bit_move: BitMove { data: 0 }, score }),
    {
        ScoringMove { bit_move: BitMove::null(), score }
    }

    pub fn bitmove(self) -> (r: BitMove)
        ensures
            r == self.bit_move,
    {
        self.bit_move
    }

    pub fn score(self) -> (r: i16)
        ensures
            r == self.score,
    {
        self.score
    }

    /// The same move with the score negated, wrapping at the bottom of the range.
    pub fn negate(self) -> (r: ScoringMove)
        ensures
            r.bit_move == self.bit_move,
            self.score != i16::MIN ==> r.score == -self.score,
            self.score == i16::MIN ==> r.score == i16::MIN,
    {
        let s = if self.score == i16::MIN {
            i16::MIN
        } else {
            -self.score
        };
        ScoringMove { bit_move: self.bit_move, score: s }
    }

    /// The same score with another move.
    pub fn swap_move(self, mov: BitMove) -> (r: ScoringMove)
        ensures
            r == (ScoringMove { bit_move: mov, score: self.score }),
    {
        ScoringMove { bit_move: mov, score: self.score }
    }

    /// The null move with score zero.
    pub fn null() -> (r: ScoringMove)
        ensures
            r == (ScoringMove { bit_move: BitMove { data: 0 }, score: 0 }),
    {
        ScoringMove { bit_move: BitMove::null(), score: 0 }
    }
}

impl Default for ScoringMove {
    fn default() -> (r: ScoringMove)
        ensures
            r == (ScoringMove { bit_move: BitMove { data: 0 }, score: 0 }),
    {
        ScoringMove::null()
    }
}

/// A position for search, with its Zobrist hash kept up to date.
#[derive(Clone, Copy, PartialEq, Eq, Debug, Structural)]
pub struct Board {
    pub state: GameState,
    pub zobrist: u64,
}

/// The word of a bit index.
pub open spec fn bit_of(i: u16) -> u128 {
    1u128 << (i as u128)
}

/// The search board after `c` plays the packed move `data`.
pub open spec fn applied(b: Board, data: u16, c: PlayerColor) -> Board {
    let pre = bit_of(src_of(data));
    let dest = bit_of(dest_of(data));
    let own = color_bits(b.state.board, c);
    let other = color_bits(b.state.board, opponent(c));
    let killing = other & dest != 0;
    let own2 = (own & !pre) | dest;
    let other2 = if killing {
        other & !dest
    } else {
        other
    };
    let z = b.zobrist ^ zobrist_key(turn_key_number(b.state.turn)) ^ zobrist_key(
        turn_key_number((b.state.turn + 1) as u8),
    ) ^ zobrist_key(square_key_number(src_of(data) as u8, c)) ^ zobrist_key(
        square_key_number(dest_of(data) as u8, c),
    );
    let z2 = if killing {
        z ^ zobrist_key(square_key_number(dest_of(data) as u8, opponent(c)))
    } else {
        z
    };
    Board {
        state: GameState {
            turn: (b.state.turn + 1) as u8,
            board: crate::board::Board {
                red_fields: crate::bitboard::Bitboard {
                    bits: if c == PlayerColor::Red {
                        own2
                    } else {
                        other2
                    },
                },
                blue_fields: crate::bitboard::Bitboard {
                    bits: if c == PlayerColor::Red {
                        other2
                    } else {
                        own2
                    },
                },
                obstacle_fields: b.state.board.obstacle_fields,
            },
        },
        zobrist: z2,
    }
}

/// Whether playing `data` for `c` captures a piece.
pub open spec fn captures_piece(b: Board, data: u16, c: PlayerColor) -> bool {
    color_bits(b.state.board, opponent(c)) & bit_of(dest_of(data)) != 0
}

/// The search board after taking back the packed move `data` of `c`.
pub open spec fn undone(b: Board, data: u16, killing: bool, c: PlayerColor) -> Board {
    let pre = bit_of(src_of(data));
    let dest = bit_of(dest_of(data));
    let own = color_bits(b.state.board, c);
    let other = color_bits(b.state.board, opponent(c));
    let own2 = (own & !dest) | pre;
    let other2 = if killing {
        other | dest
    } else {
        other
    };
    let z = b.zobrist ^ zobrist_key(turn_key_number(b.state.turn)) ^ zobrist_key(
        turn_key_number((b.state.turn - 1) as u8),
    ) ^ zobrist_key(square_key_number(dest_of(data) as u8, c)) ^ zobrist_key(
        square_key_number(src_of(data) as u8, c),
    );
    let z2 = if killing {
        z ^ zobrist_key(square_key_number(dest_of(data) as u8, opponent(c)))
    } else {
        z
    };
    Board {
        state: GameState {
            turn: (b.state.turn - 1) as u8,
            board: crate::board::Board {
                red_fields: crate::bitboard::Bitboard {
                    bits: if c == PlayerColor::Red {
                        own2
                    } else {
                        other2
                    },
                },
                blue_fields: crate::bitboard::Bitboard {
                    bits: if c == PlayerColor::Red {
                        other2
                    } else {
                        own2
                    },
                },
                obstacle_fields: b.state.board.obstacle_fields,
            },
        },
        zobrist: z2,
    }
}

/// Taking back a move restores the position it was played from: the same bitboards, the same
/// turn and the same hash, for every move of a piece of the mover onto a cell that holds none
/// of the mover's pieces.
pub proof fn lemma_apply_undo(b: Board, data: u16, c: PlayerColor)
    requires
        b.state.turn < 255,
        src_of(data) < 100,
        dest_of(data) < 100,
        bit_at(color_bits(b.state.board, c), src_of(data) as int),
        !bit_at(color_bits(b.state.board, c), dest_of(data) as int),
    ensures
        undone(applied(b, data, c), data, captures_piece(b, data, c), c) == b,
{
    let p = src_of(data) as u128;
    let d = dest_of(data) as u128;
    let own = color_bits(b.state.board, c);
    let other = color_bits(b.state.board, opponent(c));
    crate::bits::lemma_and_single(own, p);
    crate::bits::lemma_and_single(own, d);
    crate::bits::lemma_and_single(other, d);
    assert(p != d);
    assert((((own & !(1u128 << p)) | (1u128 << d)) & !(1u128 << d)) | (1u128 << p) == own)
        by (bit_vector)
        requires
            own & (1u128 << p) != 0,
            own & (1u128 << d) == 0,
            p < 128,
            d < 128,
            p != d,
    ;
    if captures_piece(b, data, c) {
        assert((other & !(1u128 << d)) | (1u128 << d) == other) by (bit_vector)
            requires
                other & (1u128 << d) != 0,
                d < 128,
        ;
    }
    let a = applied(b, data, c);
    let z0 = b.zobrist;
    let t0 = zobrist_key(turn_key_number(b.state.turn));
    let t1 = zobrist_key(turn_key_number((b.state.turn + 1) as u8));
    let sp = zobrist_key(square_key_number(src_of(data) as u8, c));
    let sd = zobrist_key(square_key_number(dest_of(data) as u8, c));
    let so = zobrist_key(square_key_number(dest_of(data) as u8, opponent(c)));
    assert(((z0 ^ t0 ^ t1 ^ sp ^ sd ^ so) ^ t1 ^ t0 ^ sd ^ sp ^ so) == z0 && ((z0 ^ t0 ^ t1 ^ sp
        ^ sd) ^ t1 ^ t0 ^ sd ^ sp) == z0) by (bit_vector);
    assert(((a.state.turn - 1) as u8) == b.state.turn);
}

/// Playing a move of a piece of the mover onto a cell without one of its pieces keeps the
/// stored hash equal to the hash of the position.
pub proof fn lemma_apply_keeps_hash(b: Board, data: u16, c: PlayerColor)
    requires
        b.zobrist == full_hash(b.state),
        b.state.turn < 255,
        src_of(data) < 100,
        dest_of(data) < 100,
        bit_at(color_bits(b.state.board, c), src_of(data) as int),
        !bit_at(color_bits(b.state.board, c), dest_of(data) as int),
    ensures
        applied(b, data, c).zobrist == full_hash(applied(b, data, c).state),
{
    let p = src_of(data) as u128;
    let d = dest_of(data) as u128;
    let red = b.state.board.red_fields.bits;
    let blue = b.state.board.blue_fields.bits;
    let own = color_bits(b.state.board, c);
    let other = color_bits(b.state.board, opponent(c));
    crate::bits::lemma_and_single(own, p);
    crate::bits::lemma_and_single(own, d);
    crate::bits::lemma_and_single(other, d);
    assert(p != d);
    assert((own & !(1u128 << p)) | (1u128 << d) == (own ^ (1u128 << p)) ^ (1u128 << d))
        by (bit_vector)
        requires
            own & (1u128 << p) != 0,
            own & (1u128 << d) == 0,
            p < 128,
            d < 128,
    ;
    let killing = captures_piece(b, data, c);
    if killing {
        assert(other & !(1u128 << d) == other ^ (1u128 << d)) by (bit_vector)
            requires
                other & (1u128 << d) != 0,
                d < 128,
        ;
    }
    let own1 = own ^ (1u128 << p);
    let own2 = own1 ^ (1u128 << d);
    let (r1, b1) = if c == PlayerColor::Red { (own1, blue) } else { (red, own1) };
    let (r2, b2) = if c == PlayerColor::Red { (own2, blue) } else { (red, own2) };
    lemma_hash_flip(red, blue, p, c, 100);
    lemma_hash_flip(r1, b1, d, c, 100);
    let ph = pieces_hash(red, blue, 100);
    let kp = zobrist_key(square_key_number(p as u8, c));
    let kd = zobrist_key(square_key_number(d as u8, c));
    let ko = zobrist_key(square_key_number(d as u8, opponent(c)));
    let t0 = zobrist_key(turn_key_number(b.state.turn));
    let t1 = zobrist_key(turn_key_number((b.state.turn + 1) as u8));
    assert(pieces_hash(r2, b2, 100) == (ph ^ kp) ^ kd);
    if killing {
        let (r3, b3) = if c == PlayerColor::Red { (own2, blue ^ (1u128 << d)) } else { (
            red ^ (1u128 << d),
            own2,
        ) };
        lemma_hash_flip(r2, b2, d, opponent(c), 100);
        assert(pieces_hash(r3, b3, 100) == ((ph ^ kp) ^ kd) ^ ko);
        assert(((((t0 ^ ph) ^ t0) ^ t1) ^ kp) ^ kd ^ ko == t1 ^ (((ph ^ kp) ^ kd) ^ ko))
            by (bit_vector);
    } else {
        assert(((((t0 ^ ph) ^ t0) ^ t1) ^ kp) ^ kd == t1 ^ ((ph ^ kp) ^ kd)) by (bit_vector);
    }
}

impl Board {
    pub fn from_state(state: &GameState) -> (r: Board)
        ensures
            r.state == *state,
            r.zobrist == full_hash(*state),
    {
        let zob = Board::full_zobrist(state);
        Board { state: *state, zobrist: zob }
    }

    pub fn is_finished(&self) -> (r: bool)
        ensures
            r == crate::gamerules::finished(self.state),
    {
        crate::gamerules::is_finished(&self.state)
    }

    pub fn winner(&self) -> (r: Option<PlayerColor>)
        ensures
            r == crate::gamerules::winner(self.state),
    {
        crate::gamerules::get_winner(&self.state)
    }

    /// The hash of a position: the turn key and the key of every piece on its square.
    fn full_zobrist(state: &GameState) -> (r: u64)
        ensures
            r == full_hash(*state),
    {
        let mut zob = z_turn(state.turn);
        let mut i: u8 = 0;
        let ghost t = zobrist_key(turn_key_number(state.turn));
        proof {
            assert(t ^ 0u64 == t) by (bit_vector);
        }
        while i < 100
            invariant
                i <= 100,
                t == zobrist_key(turn_key_number(state.turn)),
                zob == t ^ pieces_hash(state.board.red_fields.bits, state.board.blue_fields.bits, i as int),
            decreases 100 - i,
        {
            let ghost h = pieces_hash(state.board.red_fields.bits, state.board.blue_fields.bits, i as int);
            let ghost kr = zobrist_key(square_key_number(i, PlayerColor::Red));
            let ghost kb = zobrist_key(square_key_number(i, PlayerColor::Blue));
            proof {
                assert((t ^ h) ^ kr == t ^ (h ^ kr) && ((t ^ h) ^ kr) ^ kb == t ^ ((h ^ kr) ^ kb) && (t
                    ^ h) ^ kb == t ^ (h ^ kb)) by (bit_vector);
            }
            if state.board.red_fields.is_bit_set(i) {
                zob = zob ^ z_square(SQ(i), PlayerColor::Red);
            }
            if state.board.blue_fields.is_bit_set(i) {
                zob = zob ^ z_square(SQ(i), PlayerColor::Blue);
            }
            i = i + 1;
        }
        zob
    }

    /// Plays `mov` for `color` and returns whether it captured a piece.
    pub fn apply_move(&mut self, mov: &BitMove, color: &PlayerColor) -> (r: bool)
        requires
            old(self).state.turn < 255,
            src_of(mov.data) < 100,
            dest_of(mov.data) < 100,
        ensures
            r == captures_piece(*old(self), mov.data, *color),
            *final(self) == applied(*old(self), mov.data, *color),
    {
        proof {
            lemma_unpack(mov.data);
        }
        let turn = self.state.turn;
        self.zobrist = self.zobrist ^ z_turn(turn);
        self.state.turn = turn + 1;
        self.zobrist = self.zobrist ^ z_turn(turn + 1);
        let pre_index: u16 = mov.data & 0x7f;
        let dest_index: u16 = (mov.data & !NULL_IDENTIFIER) >> 7u16;
        let pre_bit: u128 = 1u128 << (pre_index as u128);
        let dest_bit: u128 = 1u128 << (dest_index as u128);
        let opp = color.get_opponent_color();
        let (own, other) = match color {
            PlayerColor::Red => (self.state.board.red_fields.bits, self.state.board.blue_fields.bits),
            PlayerColor::Blue => (self.state.board.blue_fields.bits, self.state.board.red_fields.bits),
        };
        let killing = other & dest_bit != 0;
        let own2 = (own & !pre_bit) | dest_bit;
        self.zobrist = self.zobrist ^ z_square(SQ(pre_index as u8), *color);
        self.zobrist = self.zobrist ^ z_square(SQ(dest_index as u8), *color);
        let other2 = if killing {
            self.zobrist = self.zobrist ^ z_square(SQ(dest_index as u8), opp);
            other & !dest_bit
        } else {
            other
        };
        match color {
            PlayerColor::Red => {
                self.state.board.red_fields.bits = own2;
                self.state.board.blue_fields.bits = other2;
            },
            PlayerColor::Blue => {
                self.state.board.blue_fields.bits = own2;
                self.state.board.red_fields.bits = other2;
            },
        }
        killing
    }

    /// Takes back `mov` of `color`, restoring a piece it captured when `killing`.
    pub fn undo_move(&mut self, mov: &BitMove, killing: bool, color: &PlayerColor)
        requires
            old(self).state.turn > 0,
            src_of(mov.data) < 100,
            dest_of(mov.data) < 100,
        ensures
            *final(self) == undone(*old(self), mov.data, killing, *color),
    {
        proof {
            lemma_unpack(mov.data);
        }
        let turn = self.state.turn;
        self.zobrist = self.zobrist ^ z_turn(turn);
        self.state.turn = turn - 1;
        self.zobrist = self.zobrist ^ z_turn(turn - 1);
        let pre_index: u16 = mov.data & 0x7f;
        let dest_index: u16 = (mov.data & !NULL_IDENTIFIER) >> 7u16;
        let pre_bit: u128 = 1u128 << (pre_index as u128);
        let dest_bit: u128 = 1u128 << (dest_index as u128);
        let opp = color.get_opponent_color();
        let (own, other) = match color {
            PlayerColor::Red => (self.state.board.red_fields.bits, self.state.board.blue_fields.bits),
            PlayerColor::Blue => (self.state.board.blue_fields.bits, self.state.board.red_fields.bits),
        };
        let own2 = (own & !dest_bit) | pre_bit;
        self.zobrist = self.zobrist ^ z_square(SQ(dest_index as u8), *color);
        self.zobrist = self.zobrist ^ z_square(SQ(pre_index as u8), *color);
        let other2 = if killing {
            self.zobrist = self.zobrist ^ z_square(SQ(dest_index as u8), opp);
            other | dest_bit
        } else {
            other
        };
        match color {
            PlayerColor::Red => {
                self.state.board.red_fields.bits = own2;
                self.state.board.blue_fields.bits = other2;
            },
            PlayerColor::Blue => {
                self.state.board.blue_fields.bits = own2;
                self.state.board.red_fields.bits = other2;
            },
        }
    }

    /// Every capture of the side to move, packed.
    pub fn get_captures(&self) -> (r: Vec<BitMove>)
        ensures
            forall|k: int|
                0 <= k < r@.len() ==> #[trigger] packs_slide(self.state, r@[k].data, true),
            forall|x: int, y: int, d: Direction|
                #[trigger] capture_slide(self.state.board, current_color(self.state), x, y, d)
                    ==> exists|k: int|
                    0 <= k < r@.len() && src_of(r@[k].data) == cell(x, y) && dest_of(r@[k].data)
                        == cell(
                        slide_target(self.state.board, x, y, d).0,
                        slide_target(self.state.board, x, y, d).1,
                    ),
            no_repeated_squares(r@),
            packed_in_generation_order(r@),
    {
        let moves = state_captures(&self.state);
        let r = pack_all(&self.state, &moves, true);
        proof {
            assert(forall|k: int|
                0 <= k < r@.len() ==> src_of(#[trigger] r@[k].data) == cell(
                    moves@[k].x as int,
                    moves@[k].y as int,
                ) && dest_of(r@[k].data) == cell(moves@[k].dest_x as int, moves@[k].dest_y as int));
            assert forall|k: int| 0 <= k < r@.len() implies #[trigger] packs_slide(
                self.state,
                r@[k].data,
                true,
            ) by {
                let m = moves@[k];
                assert(r@[k] == r@[k]);
                assert(capture_slide(self.state.board, current_color(self.state), m.x as int, m.y as int, m.direction));
                assert(slide_target(self.state.board, m.x as int, m.y as int, m.direction) == (
                m.dest_x as int,
                m.dest_y as int,
                ));
                assert(crate::iterators::wanted(
                    self.state.board,
                    current_color(self.state),
                    m.x as int,
                    m.y as int,
                    m.direction,
                    true,
                ));
                assert(src_of(r@[k].data) == cell(m.x as int, m.y as int));
            }
            assert forall|x: int, y: int, d: Direction|
                #[trigger] capture_slide(self.state.board, current_color(self.state), x, y, d) implies exists|k: int|
                0 <= k < r@.len() && src_of(r@[k].data) == cell(x, y) && dest_of(r@[k].data)
                    == cell(slide_target(self.state.board, x, y, d).0, slide_target(self.state.board, x, y, d).1) by {
                let k = choose|k: int|
                    0 <= k < moves@.len() && moves@[k].x == x && moves@[k].y == y
                        && moves@[k].direction == d;
                assert(r@[k] == r@[k]);
                let m = moves@[k];
                assert(slide_target(self.state.board, m.x as int, m.y as int, m.direction) == (
                m.dest_x as int,
                m.dest_y as int,
                ));
                assert(0 <= k < r@.len() && src_of(r@[k].data) == cell(x, y) && dest_of(r@[k].data)
                    == cell(slide_target(self.state.board, x, y, d).0, slide_target(self.state.board, x, y, d).1));
            }
        }
        r
    }

    /// Every legal move of the side to move, packed, with score zero.
    pub fn get_root_moves(&self) -> (r: Vec<ScoringMove>)
        ensures
            forall|k: int|
                0 <= k < r@.len() ==> (#[trigger] r@[k]).score == 0 && packs_slide(
                    self.state,
                    r@[k].bit_move.data,
                    false,
                ),
            forall|x: int, y: int, d: Direction|
                #[trigger] legal_slide(self.state.board, current_color(self.state), x, y, d)
                    ==> exists|k: int|
                    0 <= k < r@.len() && src_of(r@[k].bit_move.data) == cell(x, y) && dest_of(
                        r@[k].bit_move.data,
                    ) == cell(
                        slide_target(self.state.board, x, y, d).0,
                        slide_target(self.state.board, x, y, d).1,
                    ),
            forall|k: int, l: int|
                0 <= k < l < r@.len() ==> !(src_of(r@[k].bit_move.data) == src_of(r@[l].bit_move.data)
                    && dest_of(r@[k].bit_move.data) == dest_of(r@[l].bit_move.data)),
            exists|order: Seq<Move>|
                order.len() == r@.len() && crate::iterators::in_generation_order(order) && forall|
                    k: int,
                |
                    0 <= k < r@.len() ==> src_of(#[trigger] r@[k].bit_move.data) == cell(
                        order[k].x as int,
                        order[k].y as int,
                    ) && dest_of(r@[k].bit_move.data) == cell(
                        order[k].dest_x as int,
                        order[k].dest_y as int,
                    ),
    {
        let moves = crate::iterators::get_possible_moves(&self.state);
        let packed = pack_all(&self.state, &moves, false);
        let mut r: Vec<ScoringMove> = Vec::new();
        let mut j: usize = 0;
        while j < packed.len()
            invariant
                j <= packed@.len(),
                r@.len() == j,
                forall|k: int| 0 <= k < j ==> #[trigger] r@[k] == ScoringMove::new_spec(packed@[k]),
            decreases packed@.len() - j,
        {
            r.push(ScoringMove::new(packed[j]));
            j = j + 1;
        }
        proof {
            assert forall|k: int| 0 <= k < r@.len() implies src_of(#[trigger] r@[k].bit_move.data)
                == cell(moves@[k].x as int, moves@[k].y as int) && dest_of(r@[k].bit_move.data)
                == cell(moves@[k].dest_x as int, moves@[k].dest_y as int) by {
                assert(r@[k] == ScoringMove::new_spec(packed@[k]));
                assert(packed@[k] == packed@[k]);
            }
            assert forall|k: int| 0 <= k < r@.len() implies (#[trigger] r@[k]).score == 0 && packs_slide(
                self.state,
                r@[k].bit_move.data,
                false,
            ) by {
                assert(r@[k] == ScoringMove::new_spec(packed@[k]));
                assert(packed@[k] == packed@[k]);
                let m = moves@[k];
                assert(legal_slide(self.state.board, current_color(self.state), m.x as int, m.y as int, m.direction));
                assert(slide_target(self.state.board, m.x as int, m.y as int, m.direction) == (
                m.dest_x as int,
                m.dest_y as int,
                ));
                assert(crate::iterators::wanted(
                    self.state.board,
                    current_color(self.state),
                    m.x as int,
                    m.y as int,
                    m.direction,
                    false,
                ));
            }
            assert forall|x: int, y: int, d: Direction|
                #[trigger] legal_slide(self.state.board, current_color(self.state), x, y, d) implies exists|k: int|
                0 <= k < r@.len() && src_of(r@[k].bit_move.data) == cell(x, y) && dest_of(
                    r@[k].bit_move.data,
                ) == cell(slide_target(self.state.board, x, y, d).0, slide_target(self.state.board, x, y, d).1) by {
                let k = choose|k: int|
                    0 <= k < moves@.len() && moves@[k].x == x && moves@[k].y == y
                        && moves@[k].direction == d;
                assert(r@[k] == ScoringMove::new_spec(packed@[k]));
                assert(packed@[k] == packed@[k]);
                let m = moves@[k];
                assert(slide_target(self.state.board, m.x as int, m.y as int, m.direction) == (
                m.dest_x as int,
                m.dest_y as int,
                ));
            }
        }
        r
    }

    /// Whether the side to move may play `action`.
    pub fn is_legal(&self, action: &BitMove) -> (r: bool)
        ensures
            r == legal_packed(*self, *action),
    {
        reveal(legal_packed);
        if action.is_null() {
            return false;
        }
        proof {
            lemma_unpack(action.data);
        }
        let data = action.data & !NULL_IDENTIFIER;
        let to: u16 = data >> 7u16;
        if to >= 100 {
            return false;
        }
        let m = action.to_partial_move();
        is_move_legal(&self.state, &m, self.state.get_current_player_color())
    }

    pub fn zobrist(&self) -> (r: u64)
        ensures
            r == self.zobrist,
    {
        self.zobrist
    }

    /// An empty board at a turn that never occurs in play.
    pub fn null() -> (r: Board)
        ensures
            r.zobrist == 0,
            r.state.turn == 244,
            r.state.board.red_fields.bits == 0,
            r.state.board.blue_fields.bits == 0,
            r.state.board.obstacle_fields.bits == 0,
    {
        let bits = crate::bitboard::Bitboard { bits: 0 };
        Board {
            zobrist: 0,
            state: GameState {
                turn: 244,
                board: crate::board::Board {
                    red_fields: bits,
                    blue_fields: bits,
                    obstacle_fields: bits,
                },
            },
        }
    }
}

impl ScoringMove {
    pub open spec fn new_spec(m: BitMove) -> ScoringMove {
        ScoringMove { bit_move: m, score: 0 }
    }
}

/// `data` packs a legal slide of the side to move of `s`, a capture when `captures_only`.
pub open spec fn packs_slide(s: GameState, data: u16, captures_only: bool) -> bool {
    exists|x: int, y: int, d: Direction|
        #[trigger] crate::iterators::wanted(s.board, current_color(s), x, y, d, captures_only)
            && src_of(data) == cell(x, y) && dest_of(data) == cell(
            slide_target(s.board, x, y, d).0,
            slide_target(s.board, x, y, d).1,
        )
}

/// The packed moves are, one for one, moves in generation order: by origin, then direction.
pub open spec fn packed_in_generation_order(ms: Seq<BitMove>) -> bool {
    exists|order: Seq<Move>|
        order.len() == ms.len() && crate::iterators::in_generation_order(order) && forall|k: int|
            0 <= k < ms.len() ==> src_of(#[trigger] ms[k].data) == cell(
                order[k].x as int,
                order[k].y as int,
            ) && dest_of(ms[k].data) == cell(order[k].dest_x as int, order[k].dest_y as int)
}

/// No two packed moves share origin and destination.
pub open spec fn no_repeated_squares(s: Seq<BitMove>) -> bool {
    forall|k: int, l: int|
        0 <= k < l < s.len() ==> !(src_of(s[k].data) == src_of(s[l].data) && dest_of(s[k].data)
            == dest_of(s[l].data))
}

/// Packs generated moves of the side to move, keeping their order.
pub(crate) fn pack_all(state: &GameState, moves: &Vec<Move>, captures_only: bool) -> (r: Vec<BitMove>)
    requires
        forall|k: int|
            0 <= k < moves@.len() ==> crate::iterators::sound_entry(
                state.board,
                current_color(*state),
                #[trigger] moves@[k],
                captures_only,
            ),
        crate::iterators::no_repeats(moves@),
    ensures
        r@.len() == moves@.len(),
        no_repeated_squares(r@),
        forall|k: int|
            #![trigger r@[k]]
            0 <= k < r@.len() ==> src_of(r@[k].data) == cell(moves@[k].x as int, moves@[k].y as int)
                && dest_of(r@[k].data) == cell(moves@[k].dest_x as int, moves@[k].dest_y as int),
{
    let mut r: Vec<BitMove> = Vec::new();
    let mut j: usize = 0;
    while j < moves.len()
        invariant
            j <= moves@.len(),
            r@.len() == j,
            forall|k: int|
                0 <= k < moves@.len() ==> crate::iterators::sound_entry(
                    state.board,
                    current_color(*state),
                    #[trigger] moves@[k],
                    captures_only,
                ),
            forall|k: int|
                #![trigger r@[k]]
                0 <= k < j ==> src_of(r@[k].data) == cell(moves@[k].x as int, moves@[k].y as int)
                    && dest_of(r@[k].data) == cell(
                    moves@[k].dest_x as int,
                    moves@[k].dest_y as int,
                ),
        decreases moves@.len() - j,
    {
        let m = moves[j];
        assert(crate::iterators::sound_entry(state.board, current_color(*state), moves@[j as int], captures_only));
        r.push(BitMove::from_move(&m));
        j = j + 1;
    }
    proof {
        assert forall|k: int, l: int| 0 <= k < l < r@.len() implies !(src_of(r@[k].data) == src_of(
            r@[l].data,
        ) && dest_of(r@[k].data) == dest_of(r@[l].data)) by {
            assert(r@[k] == r@[k] && r@[l] == r@[l]);
            let mk = moves@[k];
            let ml = moves@[l];
            assert(crate::iterators::sound_entry(state.board, current_color(*state), mk, captures_only));
            assert(crate::iterators::sound_entry(state.board, current_color(*state), ml, captures_only));
            if src_of(r@[k].data) == src_of(r@[l].data) && dest_of(r@[k].data) == dest_of(r@[l].data) {
                assert(mk.x == ml.x && mk.y == ml.y);
                assert(mk.dest_x == ml.dest_x && mk.dest_y == ml.dest_y);
                crate::gamerules::lemma_slide_direction(
                    state.board,
                    current_color(*state),
                    mk.x as int,
                    mk.y as int,
                    mk.direction,
                );
                crate::gamerules::lemma_slide_direction(
                    state.board,
                    current_color(*state),
                    ml.x as int,
                    ml.y as int,
                    ml.direction,
                );
            }
        }
    }
    r
}

} // verus!
