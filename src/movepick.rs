//! Move ordering for the search: the move from the transposition table first, then the two
//! killer moves of the ply, then the counter move, then every other generated move in
//! generation order.
use vstd::prelude::*;

use crate::bitboard::cell;
use crate::engine::{
    dest_of, lemma_packed_slide_legal, legal_packed, no_repeated_squares, pack_all,
    packed_in_generation_order, packs_slide,
    src_of, BitMove, Board,
};
use crate::gamerules::{legal_slide, slide_target};
use crate::gamestate::current_color;
use crate::iterators::get_possible_moves;
use crate::states::Direction;

verus! {

/// The stage a move picker is at.
#[derive(Clone, Copy, PartialEq, Eq, Debug, Structural)]
pub enum Pick {
    MainSearch,
    KillerOne,
    KillerTwo,
    CounterMove,
    InitAnything,
    Anything,
}

/// Hands out the moves of a position in search order, each at most once.
pub struct MovePicker {
    pub pick: Pick,
    pub board: Board,
    pub moves: Vec<BitMove>,
    pub cur: usize,
    pub ttm: BitMove,
    pub killers: [BitMove; 2],
    pub cm: BitMove,
}

/// The first killer is handed out when it is a legal move other than the table move.
pub open spec fn killer_one_ok(p: MovePicker) -> bool {
    let k = p.killers@[0];
    k.data != 0 && k != p.ttm && legal_packed(p.board, k)
}

/// The second killer is handed out when it is a legal move other than the moves before it.
pub open spec fn killer_two_ok(p: MovePicker) -> bool {
    let k = p.killers@[1];
    k.data != 0 && k != p.ttm && k != p.killers@[0] && legal_packed(p.board, k)
}

/// The counter move is handed out when it is a legal move other than the moves before it.
pub open spec fn counter_ok(p: MovePicker) -> bool {
    let k = p.cm;
    k.data != 0 && k != p.ttm && k != p.killers@[0] && k != p.killers@[1] && legal_packed(
        p.board,
        k,
    )
}

pub open spec fn if_seq(c: bool, m: BitMove) -> Seq<BitMove> {
    if c {
        seq![m]
    } else {
        seq![]
    }
}

/// The moves still to come before the generated ones.
pub open spec fn front(p: MovePicker) -> Seq<BitMove> {
    let k0 = if_seq(killer_one_ok(p), p.killers@[0]);
    let k1 = if_seq(killer_two_ok(p), p.killers@[1]);
    let c = if_seq(counter_ok(p), p.cm);
    match p.pick {
        Pick::MainSearch => if_seq(legal_packed(p.board, p.ttm), p.ttm) + k0 + k1 + c,
        Pick::KillerOne => k0 + k1 + c,
        Pick::KillerTwo => k1 + c,
        Pick::CounterMove => c,
        _ => seq![],
    }
}

/// The moves offered before the generated ones: the table move, the killers, the counter move.
pub open spec fn early_moves(p: MovePicker) -> (BitMove, BitMove, BitMove, BitMove) {
    (p.ttm, p.killers@[0], p.killers@[1], p.cm)
}

/// A generated move that was already handed out, or could have been, before the generated
/// ones.
pub open spec fn handed_early(e: (BitMove, BitMove, BitMove, BitMove), m: BitMove) -> bool {
    m == e.0 || m == e.1 || m == e.2 || m == e.3
}

/// The first index from `from` on of a move of `ms` not handed out early; `ms.len()` if none.
pub open spec fn next_index(e: (BitMove, BitMove, BitMove, BitMove), ms: Seq<BitMove>, from: int) -> int
    decreases ms.len() - from,
{
    if from >= ms.len() {
        ms.len() as int
    } else if !handed_early(e, ms[from]) {
        from
    } else {
        next_index(e, ms, from + 1)
    }
}

/// `ms` is the list of legal moves of the side to move of `b`, packed, in generation order and
/// without repeats.
#[verifier::opaque]
pub open spec fn generated_list(b: Board, ms: Seq<BitMove>) -> bool {
    &&& no_repeated_squares(ms)
    &&& forall|j: int| 0 <= j < ms.len() ==> packs_slide(b.state, #[trigger] ms[j].data, false)
    &&& forall|x: int, y: int, d: Direction|
        #[trigger] legal_slide(b.state.board, current_color(b.state), x, y, d) ==> exists|j: int|
            0 <= j < ms.len() && src_of(ms[j].data) == cell(x, y) && dest_of(ms[j].data) == cell(
                slide_target(b.state.board, x, y, d).0,
                slide_target(b.state.board, x, y, d).1,
            )
    &&& packed_in_generation_order(ms)
}

impl MovePicker {
    /// Once generated, the moves are the legal moves of the board in generation order.
    pub open spec fn wf(&self) -> bool {
        self.pick == Pick::Anything ==> self.cur <= self.moves@.len() && generated_list(
            self.board,
            self.moves@,
        )
    }

    /// A picker for `board` with table move `ttm`, the killers of the ply and the counter move.
    pub fn main_search(board: &Board, ttm: BitMove, killers: [BitMove; 2], counter_move: BitMove) -> (r:
        MovePicker)
        ensures
            r.wf(),
            r.board == *board,
            r.ttm == ttm,
            r.killers == killers,
            r.cm == counter_move,
            r.pick == (if ttm.data == 0 {
                Pick::KillerOne
            } else {
                Pick::MainSearch
            }),
    {
        let pick = if ttm.is_null() {
            Pick::KillerOne
        } else {
            Pick::MainSearch
        };
        MovePicker { pick, board: *board, moves: Vec::new(), cur: 0, ttm, killers, cm: counter_move }
    }

    /// The legal moves of the board, packed, in generation order.
    fn generate(board: &Board) -> (r: Vec<BitMove>)
        ensures
            generated_list(*board, r@),
    {
        let moves = get_possible_moves(&board.state);
        let r = pack_all(&board.state, &moves, false);
        proof {
            reveal(generated_list);
            assert forall|j: int| 0 <= j < r@.len() implies packs_slide(
                board.state,
                #[trigger] r@[j].data,
                false,
            ) by {
                assert(r@[j] == r@[j]);
                let m = moves@[j];
                assert(crate::iterators::sound_entry(board.state.board, current_color(board.state), m, false));
            }
            assert forall|x: int, y: int, d: Direction|
                #[trigger] legal_slide(board.state.board, current_color(board.state), x, y, d) implies exists|
                j: int,
            |
                0 <= j < r@.len() && src_of(r@[j].data) == cell(x, y) && dest_of(r@[j].data) == cell(
                    slide_target(board.state.board, x, y, d).0,
                    slide_target(board.state.board, x, y, d).1,
                ) by {
                let j = choose|j: int|
                    0 <= j < moves@.len() && moves@[j].x == x && moves@[j].y == y
                        && moves@[j].direction == d;
                assert(r@[j] == r@[j]);
                let m = moves@[j];
                assert(slide_target(board.state.board, m.x as int, m.y as int, m.direction) == (
                m.dest_x as int,
                m.dest_y as int,
                ));
                assert(0 <= j < r@.len() && src_of(r@[j].data) == cell(x, y) && dest_of(r@[j].data)
                    == cell(
                    slide_target(board.state.board, x, y, d).0,
                    slide_target(board.state.board, x, y, d).1,
                ));
            }
            assert(forall|k: int|
                0 <= k < r@.len() ==> src_of(#[trigger] r@[k].data) == cell(
                    moves@[k].x as int,
                    moves@[k].y as int,
                ) && dest_of(r@[k].data) == cell(moves@[k].dest_x as int, moves@[k].dest_y as int));
        }
        r
    }

    /// The next move: the table move if legal; then each legal killer and the legal counter
    /// move, skipping any already handed out; then each generated move, in generation order,
    /// other than those; None when all were handed out.
    pub fn next(&mut self) -> (r: Option<BitMove>)
        requires
            old(self).wf(),
        ensures
            final(self).wf(),
            final(self).board == old(self).board,
            final(self).ttm == old(self).ttm,
            final(self).killers == old(self).killers,
            final(self).cm == old(self).cm,
            front(*old(self)).len() > 0 ==> r == Some(front(*old(self))[0]) && front(*final(self))
                == front(*old(self)).drop_first(),
            front(*old(self)).len() == 0 ==> final(self).pick == Pick::Anything && (old(self).pick
                == Pick::Anything ==> final(self).moves@ == old(self).moves@) && ({
                let start = if old(self).pick == Pick::Anything {
                    old(self).cur as int
                } else {
                    0
                };
                let j = next_index(early_moves(*old(self)), final(self).moves@, start);
                &&& j < final(self).moves@.len() ==> r == Some(final(self).moves@[j])
                    && final(self).cur == j + 1
                &&& j >= final(self).moves@.len() ==> r is None && final(self).cur
                    == final(self).moves@.len()
            }),
            r is Some ==> legal_packed(old(self).board, r.unwrap()),
    {
        let ghost f0 = front(*self);
        if self.pick == Pick::MainSearch {
            self.pick = Pick::KillerOne;
            if self.board.is_legal(&self.ttm) {
                assert(front(*self) =~= f0.drop_first());
                return Some(self.ttm);
            }
            assert(front(*self) =~= f0);
        }
        let ghost f1 = front(*self);
        if self.pick == Pick::KillerOne {
            self.pick = Pick::KillerTwo;
            let k = self.killers[0];
            if !k.is_null() && k != self.ttm && self.board.is_legal(&k) {
                assert(front(*self) =~= f1.drop_first());
                return Some(k);
            }
            assert(front(*self) =~= f1);
        }
        let ghost f2 = front(*self);
        if self.pick == Pick::KillerTwo {
            self.pick = Pick::CounterMove;
            let k = self.killers[1];
            if !k.is_null() && k != self.ttm && k != self.killers[0] && self.board.is_legal(&k) {
                assert(front(*self) =~= f2.drop_first());
                return Some(k);
            }
            assert(front(*self) =~= f2);
        }
        let ghost f3 = front(*self);
        if self.pick == Pick::CounterMove {
            self.pick = Pick::InitAnything;
            let k = self.cm;
            if !k.is_null() && k != self.ttm && k != self.killers[0] && k != self.killers[1]
                && self.board.is_legal(&k) {
                assert(front(*self) =~= f3.drop_first());
                return Some(k);
            }
            assert(f3 =~= Seq::<BitMove>::empty());
        }
        if self.pick != Pick::Anything {
            self.moves = MovePicker::generate(&self.board);
            self.cur = 0;
            self.pick = Pick::Anything;
        }
        self.next_generated()
    }

    /// The next generated move from the cursor on that was not offered before them.
    fn next_generated(&mut self) -> (r: Option<BitMove>)
        requires
            old(self).wf(),
            old(self).pick == Pick::Anything,
        ensures
            final(self).wf(),
            final(self).pick == Pick::Anything,
            final(self).board == old(self).board,
            final(self).ttm == old(self).ttm,
            final(self).killers == old(self).killers,
            final(self).cm == old(self).cm,
            final(self).moves@ == old(self).moves@,
            ({
                let j = next_index(early_moves(*old(self)), old(self).moves@, old(self).cur as int);
                &&& j < old(self).moves@.len() ==> r == Some(old(self).moves@[j]) && final(self).cur
                    == j + 1
                &&& j >= old(self).moves@.len() ==> r is None && final(self).cur
                    == old(self).moves@.len()
            }),
            r is Some ==> legal_packed(old(self).board, r.unwrap()),
    {
        while self.cur < self.moves.len()
            invariant
                self.wf(),
                self.pick == Pick::Anything,
                self.board == old(self).board,
                self.ttm == old(self).ttm,
                self.killers == old(self).killers,
                self.cm == old(self).cm,
                self.moves@ == old(self).moves@,
                old(self).cur <= self.cur,
                next_index(early_moves(*old(self)), self.moves@, old(self).cur as int) == next_index(
                    early_moves(*old(self)),
                    self.moves@,
                    self.cur as int,
                ),
            decreases self.moves@.len() - self.cur,
        {
            let m = self.moves[self.cur];
            self.cur = self.cur + 1;
            if m != self.ttm && m != self.killers[0] && m != self.killers[1] && m != self.cm {
                proof {
                    reveal(generated_list);
                    assert(packs_slide(self.board.state, self.moves@[self.cur - 1].data, false));
                    lemma_packed_slide_legal(self.board, m);
                    assert(m == self.moves@[self.cur - 1]);
                    assert(!handed_early(early_moves(*old(self)), self.moves@[self.cur - 1]));
                    assert(next_index(early_moves(*old(self)), self.moves@, self.cur - 1) == self.cur
                        - 1);
                }
                return Some(m);
            }
        }
        None
    }
}

} // verus!
