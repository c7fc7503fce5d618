//! Move-ordering statistics of the search: history tables with a self-limiting update.
use vstd::prelude::*;

use crate::engine::{dest_of, src_of, BitMove, SQ};
use crate::states::{FieldType, PlayerColor};

verus! {

/// Bound on a bonus of the butterfly history.
pub const BUTTERFLY_D: i32 = 324;

/// Bound on a bonus of a piece-to history.
pub const PIECE_TO_D: i32 = 936;

/// Scale of every bonus.
pub const HISTORY_W: i32 = 32;

/// Rust's division of `a` by a positive `d`, rounding toward zero.
pub open spec fn trunc_div(a: int, d: int) -> int {
    if a >= 0 {
        a / d
    } else {
        -((-a) / d)
    }
}

pub open spec fn abs_i(v: int) -> int {
    if v < 0 {
        -v
    } else {
        v
    }
}

/// An entry after a bonus: it moves by `bonus * w` and decays in proportion to `|bonus| / d`,
/// so that it stays within `d * w` in magnitude.
pub open spec fn gravity(before: int, bonus: int, d: int, w: int) -> int {
    before + bonus * w - trunc_div(before * abs_i(bonus), d)
}

/// The update keeps an entry within `d * w` in magnitude.
pub proof fn lemma_gravity_bounded(before: int, bonus: int, d: int, w: int)
    requires
        d > 0,
        w > 0,
        abs_i(before) <= d * w,
        abs_i(bonus) <= d,
    ensures
        abs_i(gravity(before, bonus, d, w)) <= d * w,
{
    let s = abs_i(bonus);
    let b = abs_i(before);
    let t = (b * s) / d;
    assert(0 <= b * s) by (nonlinear_arith)
        requires
            0 <= b,
            0 <= s,
    ;
    assert(d * t <= b * s && b * s < d * t + d) by (nonlinear_arith)
        requires
            d > 0,
            0 <= b * s,
            t == (b * s) / d,
    ;
    assert(b * s <= b * d) by (nonlinear_arith)
        requires
            0 <= b,
            s <= d,
    ;
    assert(b * (d - s) <= d * w * (d - s)) by (nonlinear_arith)
        requires
            b <= d * w,
            0 <= d - s,
    ;
    assert(d * (b - t) < d * (w * (d - s) + 1)) by (nonlinear_arith)
        requires
            b * s < d * t + d,
            b * (d - s) <= d * w * (d - s),
    ;
    assert(b - t < w * (d - s) + 1) by (nonlinear_arith)
        requires
            d * (b - t) < d * (w * (d - s) + 1),
            d > 0,
    ;
    assert(t <= b) by (nonlinear_arith)
        requires
            d * t <= b * s,
            b * s <= b * d,
            d > 0,
    ;
    assert(-(s * w) <= bonus * w <= s * w) by (nonlinear_arith)
        requires
            -s <= bonus <= s,
            w > 0,
    ;
    assert(s * w <= d * w && w * (d - s) == d * w - s * w) by (nonlinear_arith)
        requires
            s <= d,
            w > 0,
    ;
    if before >= 0 {
        assert(before * s == b * s);
        assert(trunc_div(before * s, d) == t);
        assert(gravity(before, bonus, d, w) == b + bonus * w - t);
    } else {
        assert(before * s == -(b * s)) by (nonlinear_arith)
            requires
                b == -before,
        ;
        if before * s < 0 {
            assert(trunc_div(before * s, d) == -t);
        } else {
            assert(b * s == 0);
            assert(t == 0);
            assert(trunc_div(before * s, d) == 0);
        }
        assert(gravity(before, bonus, d, w) == -b + bonus * w + t);
    }
}

fn gravity_exec(before: i16, bonus: i32, d: i32) -> (r: i16)
    requires
        0 < d <= 1000,
        abs_i(before as int) <= d * HISTORY_W,
        abs_i(bonus as int) <= d,
    ensures
        r as int == gravity(before as int, bonus as int, d as int, HISTORY_W as int),
{
    let b: i32 = before as i32;
    let s: i32 = if bonus < 0 {
        -bonus
    } else {
        bonus
    };
    let mag: i32 = if b < 0 {
        -b
    } else {
        b
    };
    assert(0 <= mag * s <= 32000000) by (nonlinear_arith)
        requires
            0 <= mag <= 32000,
            0 <= s <= 1000,
    ;
    let q: i32 = (mag * s) / d;
    let t: i32 = if b < 0 {
        -q
    } else {
        q
    };
    proof {
        lemma_gravity_bounded(before as int, bonus as int, d as int, HISTORY_W as int);
        assert(0 <= q <= mag * s) by (nonlinear_arith)
            requires
                0 <= mag * s,
                d > 0,
                q == (mag * s) / (d as int),
        ;
        if b < 0 {
            assert(b * s == -(mag * s)) by (nonlinear_arith)
                requires
                    mag == -b,
            ;
        } else {
            assert(b * s == mag * s);
        }
        assert(t == trunc_div(b * abs_i(bonus as int), d as int));
    }
    (b + bonus * HISTORY_W - t) as i16
}

/// The bonus for a move that caused a cutoff at `depth`: `d*d + 2*d - 2`, none beyond depth 17.
pub fn stat_bonus(depth: i16) -> (r: i32)
    ensures
        r as int == if depth > 17 {
            0
        } else {
            depth * depth + 2 * depth - 2
        },
{
    if depth > 17 {
        0
    } else {
        let d = depth as i32;
        assert(0 <= d * d <= 1073741824) by (nonlinear_arith)
            requires
                -32768 <= d <= 17,
        ;
        d * d + 2 * d - 2
    }
}

/// Index of a color in the tables.
pub open spec fn color_index(c: PlayerColor) -> int {
    if c == PlayerColor::Red {
        0
    } else {
        1
    }
}

/// Index of a field kind in the tables.
pub open spec fn piece_index(t: FieldType) -> int {
    match t {
        FieldType::RedPlayer => 0,
        FieldType::BluePlayer => 1,
        FieldType::Obstacle => 2,
        FieldType::Free => 3,
    }
}

fn piece_index_exec(t: FieldType) -> (r: usize)
    ensures
        r as int == piece_index(t),
{
    match t {
        FieldType::RedPlayer => 0,
        FieldType::BluePlayer => 1,
        FieldType::Obstacle => 2,
        FieldType::Free => 3,
    }
}

/// A move that names two squares of the board.
pub open spec fn on_board_move(m: BitMove) -> bool {
    src_of(m.data) < 100 && dest_of(m.data) < 100
}

/// History of quiet moves by color and origin-destination pair.
pub struct ButterflyHistory {
    pub a: Vec<i16>,
}

impl ButterflyHistory {
    /// Every entry is within bounds.
    pub open spec fn wf(&self) -> bool {
        &&& self.a@.len() == 20000
        &&& forall|i: int| 0 <= i < 20000 ==> abs_i(#[trigger] self.a@[i] as int) <= BUTTERFLY_D * HISTORY_W
    }

    /// The entry of `c` and `m`.
    pub open spec fn entry(&self, c: PlayerColor, m: BitMove) -> i16 {
        self.a@[color_index(c) * 10000 + src_of(m.data) + dest_of(m.data) * 100]
    }

    /// An all-zero table.
    pub fn new() -> (r: ButterflyHistory)
        ensures
            r.wf(),
            forall|i: int| 0 <= i < 20000 ==> r.a@[i] == 0,
    {
        ButterflyHistory { a: vec![0i16; 20000] }
    }

    pub fn get(&self, c: PlayerColor, m: BitMove) -> (r: i16)
        requires
            self.wf(),
            on_board_move(m),
        ensures
            r == self.entry(c, m),
    {
        let base: usize = match c {
            PlayerColor::Red => 0,
            PlayerColor::Blue => 10000,
        };
        self.a[base + m.from_to_key() as usize]
    }

    /// Adds `bonus` to the entry of `c` and `m` by the self-limiting update.
    pub fn update(&mut self, c: PlayerColor, m: BitMove, bonus: i32)
        requires
            old(self).wf(),
            on_board_move(m),
            abs_i(bonus as int) <= BUTTERFLY_D,
        ensures
            final(self).wf(),
            final(self).entry(c, m) as int == gravity(
                old(self).entry(c, m) as int,
                bonus as int,
                BUTTERFLY_D as int,
                HISTORY_W as int,
            ),
            forall|i: int|
                0 <= i < 20000 && i != color_index(c) * 10000 + src_of(m.data) + dest_of(m.data)
                    * 100 ==> final(self).a@[i] == old(self).a@[i],
    {
        let base: usize = match c {
            PlayerColor::Red => 0,
            PlayerColor::Blue => 10000,
        };
        let idx = base + m.from_to_key() as usize;
        let before = self.a[idx];
        assert(abs_i(self.a@[idx as int] as int) <= BUTTERFLY_D * HISTORY_W);
        let after = gravity_exec(before, bonus, BUTTERFLY_D);
        proof {
            lemma_gravity_bounded(before as int, bonus as int, BUTTERFLY_D as int, HISTORY_W as int);
        }
        self.a.set(idx, after);
    }
}

/// History of moves by moved piece and destination square.
pub struct PieceToHistory {
    pub a: Vec<i16>,
}

impl PieceToHistory {
    /// Every entry is within bounds.
    pub open spec fn wf(&self) -> bool {
        &&& self.a@.len() == 400
        &&& forall|i: int| 0 <= i < 400 ==> abs_i(#[trigger] self.a@[i] as int) <= PIECE_TO_D * HISTORY_W
    }

    /// The entry of piece kind `p` landing on `sq`.
    pub open spec fn entry(&self, p: FieldType, sq: SQ) -> i16 {
        self.a@[piece_index(p) * 100 + sq.0]
    }

    /// An all-zero table.
    pub fn new() -> (r: PieceToHistory)
        ensures
            r.wf(),
            forall|i: int| 0 <= i < 400 ==> r.a@[i] == 0,
    {
        PieceToHistory { a: vec![0i16; 400] }
    }

    pub fn get(&self, p: FieldType, sq: SQ) -> (r: i16)
        requires
            self.wf(),
            sq.0 < 100,
        ensures
            r == self.entry(p, sq),
    {
        self.a[piece_index_exec(p) * 100 + sq.0 as usize]
    }

    /// Adds `bonus` to the entry of `p` and `sq` by the self-limiting update.
    pub fn update(&mut self, p: FieldType, sq: SQ, bonus: i32)
        requires
            old(self).wf(),
            sq.0 < 100,
            abs_i(bonus as int) <= PIECE_TO_D,
        ensures
            final(self).wf(),
            final(self).entry(p, sq) as int == gravity(
                old(self).entry(p, sq) as int,
                bonus as int,
                PIECE_TO_D as int,
                HISTORY_W as int,
            ),
            forall|i: int|
                0 <= i < 400 && i != piece_index(p) * 100 + sq.0 ==> final(self).a@[i] == old(
                    self,
                ).a@[i],
    {
        let idx = piece_index_exec(p) * 100 + sq.0 as usize;
        let before = self.a[idx];
        assert(abs_i(self.a@[idx as int] as int) <= PIECE_TO_D * HISTORY_W);
        let after = gravity_exec(before, bonus, PIECE_TO_D);
        proof {
            lemma_gravity_bounded(before as int, bonus as int, PIECE_TO_D as int, HISTORY_W as int);
        }
        self.a.set(idx, after);
    }
}

/// Piece-to histories for each previous moved piece and its destination.
pub struct ContinuationHistory {
    pub a: Vec<PieceToHistory>,
}

impl ContinuationHistory {
    /// Every table is well formed.
    pub open spec fn wf(&self) -> bool {
        &&& self.a@.len() == 400
        &&& forall|i: int| 0 <= i < 400 ==> (#[trigger] self.a@[i]).wf()
    }

    /// Tables for every piece kind and square, all zero.
    pub fn new() -> (r: ContinuationHistory)
        ensures
            r.wf(),
            forall|i: int, j: int| 0 <= i < 400 && 0 <= j < 400 ==> (#[trigger] r.a@[i].a@[j]) == 0,
    {
        let mut a: Vec<PieceToHistory> = Vec::new();
        let mut i: usize = 0;
        while i < 400
            invariant
                i <= 400,
                a@.len() == i,
                forall|j: int| 0 <= j < i ==> (#[trigger] a@[j]).wf(),
                forall|j: int, k: int| 0 <= j < i && 0 <= k < 400 ==> (#[trigger] a@[j].a@[k]) == 0,
            decreases 400 - i,
        {
            a.push(PieceToHistory::new());
            i = i + 1;
        }
        ContinuationHistory { a }
    }

    /// Resets every table to zero.
    pub fn clear(&mut self)
        ensures
            final(self).wf(),
            forall|i: int, j: int|
                0 <= i < 400 && 0 <= j < 400 ==> (#[trigger] final(self).a@[i].a@[j]) == 0,
    {
        *self = ContinuationHistory::new();
    }

    /// The table for a previous move of piece kind `p` to `sq`.
    pub fn get(&self, p: FieldType, sq: SQ) -> (r: &PieceToHistory)
        requires
            self.wf(),
            sq.0 < 100,
        ensures
            *r == self.a@[piece_index(p) * 100 + sq.0],
            r.wf(),
    {
        &self.a[piece_index_exec(p) * 100 + sq.0 as usize]
    }
}

} // verus!
