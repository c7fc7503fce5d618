//! The starting position: both armies on the rim, two obstacles in the centre.
use vstd::prelude::*;

use crate::bitboard::on_board;
use crate::board::{abs, field_at, well_formed, Board};
use crate::gamestate::GameState;
use crate::states::FieldType;

verus! {

/// Relies on `rand::Rng::gen_range` of the thread-local generator: a number in `0..n`, which
/// panics for an empty range.
#[verifier::external_body]
fn random_below(n: usize) -> (r: usize)
    requires
        n > 0,
    ensures
        r < n,
{
    rand::Rng::gen_range(&mut rand::thread_rng(), 0, n)
}

/// A cell of the central 6x6 region, where obstacles may stand.
pub open spec fn central(c: (i8, i8)) -> bool {
    2 <= c.0 < 8 && 2 <= c.1 < 8
}

/// Two cells on one row, column or diagonal.
pub open spec fn in_line(a: (i8, i8), b: (i8, i8)) -> bool {
    a.0 == b.0 || a.1 == b.1 || abs(a.0 - b.0) == abs(a.1 - b.1)
}

/// What stands on `(x, y)` at the start, with obstacles on `o1` and `o2`: Red on the left and
/// right rims, Blue on the bottom and top rims, corners empty.
pub open spec fn start_field(x: int, y: int, o1: (i8, i8), o2: (i8, i8)) -> FieldType {
    if (x == 0 || x == 9) && 1 <= y <= 8 {
        FieldType::RedPlayer
    } else if (y == 0 || y == 9) && 1 <= x <= 8 {
        FieldType::BluePlayer
    } else if (x == o1.0 && y == o1.1) || (x == o2.0 && y == o2.1) {
        FieldType::Obstacle
    } else {
        FieldType::Free
    }
}

/// A starting position with obstacles on `o1` and `o2`.
pub open spec fn is_start(s: GameState, o1: (i8, i8), o2: (i8, i8)) -> bool {
    &&& s.turn == 0
    &&& well_formed(s.board)
    &&& central(o1) && central(o2) && !in_line(o1, o2)
    &&& forall|x: int, y: int| on_board(x, y) ==> field_at(s.board, x, y) == start_field(x, y, o1, o2)
}

fn start_field_exec(x: i8, y: i8, o1: (i8, i8), o2: (i8, i8)) -> (r: FieldType)
    ensures
        r == start_field(x as int, y as int, o1, o2),
{
    if (x == 0 || x == 9) && 1 <= y && y <= 8 {
        FieldType::RedPlayer
    } else if (y == 0 || y == 9) && 1 <= x && x <= 8 {
        FieldType::BluePlayer
    } else if (x == o1.0 && y == o1.1) || (x == o2.0 && y == o2.1) {
        FieldType::Obstacle
    } else {
        FieldType::Free
    }
}

/// The central cells in row-major order of `x` then `y`.
pub fn blockable_fields() -> (r: Vec<(i8, i8)>)
    ensures
        r@.len() == 36,
        forall|k: int| 0 <= k < 36 ==> central(#[trigger] r@[k]),
        forall|k: int| 0 <= k < 36 ==> #[trigger] r@[k] == ((2 + k / 6) as i8, (2 + k % 6) as i8),
{
    let mut r: Vec<(i8, i8)> = Vec::new();
    let mut i: i8 = 2;
    while i < 8
        invariant
            2 <= i <= 8,
            r@.len() == 6 * (i - 2),
            forall|k: int| 0 <= k < r@.len() ==> central(#[trigger] r@[k]),
            forall|k: int|
                0 <= k < r@.len() ==> #[trigger] r@[k] == ((2 + k / 6) as i8, (2 + k % 6) as i8),
        decreases 8 - i,
    {
        let mut j: i8 = 2;
        while j < 8
            invariant
                2 <= i < 8,
                2 <= j <= 8,
                r@.len() == 6 * (i - 2) + (j - 2),
                forall|k: int| 0 <= k < r@.len() ==> central(#[trigger] r@[k]),
                forall|k: int|
                    0 <= k < r@.len() ==> #[trigger] r@[k] == ((2 + k / 6) as i8, (2 + k % 6) as i8),
            decreases 8 - j,
        {
            r.push((i, j));
            j = j + 1;
        }
        i = i + 1;
    }
    r
}

/// The cells of `cells` not in line with `obs`, in their order.
pub fn not_in_line(cells: &Vec<(i8, i8)>, obs: (i8, i8)) -> (r: Vec<(i8, i8)>)
    requires
        forall|k: int| 0 <= k < cells@.len() ==> central(#[trigger] cells@[k]),
        central(obs),
    ensures
        forall|k: int| 0 <= k < r@.len() ==> central(#[trigger] r@[k]) && !in_line(r@[k], obs),
        forall|k: int|
            0 <= k < cells@.len() && !in_line(#[trigger] cells@[k], obs) ==> r@.contains(cells@[k]),
{
    let mut r: Vec<(i8, i8)> = Vec::new();
    let mut k: usize = 0;
    while k < cells.len()
        invariant
            k <= cells@.len(),
            central(obs),
            forall|j: int| 0 <= j < cells@.len() ==> central(#[trigger] cells@[j]),
            forall|j: int| 0 <= j < r@.len() ==> central(#[trigger] r@[j]) && !in_line(r@[j], obs),
            forall|j: int|
                0 <= j < k && !in_line(#[trigger] cells@[j], obs) ==> r@.contains(cells@[j]),
        decreases cells@.len() - k,
    {
        let c = cells[k];
        let dx: i8 = if c.0 > obs.0 {
            c.0 - obs.0
        } else {
            obs.0 - c.0
        };
        let dy: i8 = if c.1 > obs.1 {
            c.1 - obs.1
        } else {
            obs.1 - c.1
        };
        if !(c.0 == obs.0 || c.1 == obs.1 || dx == dy) {
            let ghost prev = r@;
            r.push(c);
            proof {
                assert forall|j: int|
                    0 <= j < k + 1 && !in_line(#[trigger] cells@[j], obs) implies r@.contains(
                    cells@[j],
                ) by {
                    if j < k {
                        let w = choose|w: int| 0 <= w < prev.len() && prev[w] == cells@[j];
                        assert(r@[w] == prev[w]);
                    } else {
                        assert(r@[r@.len() - 1] == cells@[j]);
                    }
                }
            }
        }
        k = k + 1;
    }
    r
}

/// The position with both armies on their rims and obstacles on `o1` and `o2`, Red to move.
pub fn start_state(o1: (i8, i8), o2: (i8, i8)) -> (r: GameState)
    requires
        central(o1),
        central(o2),
        !in_line(o1, o2),
    ensures
        is_start(r, o1, o2),
{
    let mut fields = [[FieldType::Free;10];10];
    let mut x: i8 = 0;
    while x < 10
        invariant
            0 <= x <= 10,
            forall|px: int, py: int|
                0 <= px < x && 0 <= py < 10 ==> fields@[px]@[py] == start_field(px, py, o1, o2),
        decreases 10 - x,
    {
        let mut row = [FieldType::Free;10];
        let mut y: i8 = 0;
        while y < 10
            invariant
                0 <= x < 10,
                0 <= y <= 10,
                forall|py: int| 0 <= py < y ==> row@[py] == start_field(x as int, py, o1, o2),
            decreases 10 - y,
        {
            row[y as usize] = start_field_exec(x, y, o1, o2);
            y = y + 1;
        }
        fields[x as usize] = row;
        x = x + 1;
    }
    GameState { turn: 0, board: Board::new(fields) }
}

/// A random starting position: the first obstacle on a central cell drawn uniformly, the
/// second on a central cell drawn uniformly among those not in line with the first.
pub fn get_random_state() -> (r: GameState)
    ensures
        exists|o1: (i8, i8), o2: (i8, i8)| is_start(r, o1, o2),
{
    let cells = blockable_fields();
    let first = cells[random_below(cells.len())];
    let rest = not_in_line(&cells, first);
    let ghost w: (i8, i8) = (if first.0 < 6 {
        (first.0 + 2) as i8
    } else {
        (first.0 - 2) as i8
    }, if first.1 < 7 {
        (first.1 + 1) as i8
    } else {
        (first.1 - 1) as i8
    });
    proof {
        let k = 6 * (w.0 - 2) + (w.1 - 2);
        assert(k / 6 == w.0 - 2 && k % 6 == w.1 - 2);
        assert(cells@[k] == w);
        assert(!in_line(w, first));
        assert(rest@.contains(w));
    }
    let second = rest[random_below(rest.len())];
    start_state(first, second)
}

} // verus!
