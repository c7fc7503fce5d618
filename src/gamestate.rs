//! A position: the board and the number of turns played.
use vstd::prelude::*;

use crate::bitboard::{cell, on_board};
use crate::bits::{bit_at, group_bits};
use crate::board::{color_bits, well_formed, Board};
use crate::iterators::{self, BitboardIndexIter, BitboardIter};
use crate::gamerules::{legal_slide, slide_target};
use crate::states::{Direction, Field, Move, PlayerColor, Room, WelcomeMessage};

verus! {

broadcast use group_bits;

#[derive(Clone, Copy, PartialEq, Eq, Debug, Structural)]
pub struct GameState {
    pub turn: u8,
    pub board: Board,
}

/// The side to move: Red on even turns, Blue on odd ones.
pub open spec fn current_color(s: GameState) -> PlayerColor {
    if s.turn % 2 == 0 {
        PlayerColor::Red
    } else {
        PlayerColor::Blue
    }
}

/// Cell `i` holds a piece of color `c` after `m` was played by `c` on board `b`.
pub open spec fn after_move_own(b: Board, m: Move, c: PlayerColor, i: int) -> bool {
    (bit_at(color_bits(b, c), i) && i != cell(m.x as int, m.y as int)) || i == cell(
        m.dest_x as int,
        m.dest_y as int,
    )
}

/// Cell `i` holds a piece of the opponent of `c` after `m` was played by `c` on board `b`.
pub open spec fn after_move_other(b: Board, m: Move, c: PlayerColor, i: int) -> bool {
    bit_at(color_bits(b, crate::states::opponent(c)), i) && i != cell(m.x as int, m.y as int) && i
        != cell(m.dest_x as int, m.dest_y as int)
}

/// The board that results from `c` moving the piece at the origin of `m` to its destination.
pub open spec fn moved(b: Board, m: Move, c: PlayerColor, r: Board) -> bool {
    &&& r.obstacle_fields == b.obstacle_fields
    &&& forall|i: int|
        0 <= i < 128 ==> (#[trigger] bit_at(color_bits(r, c), i) == after_move_own(b, m, c, i))
    &&& forall|i: int|
        0 <= i < 128 ==> (#[trigger] bit_at(color_bits(r, crate::states::opponent(c)), i)
            == after_move_other(b, m, c, i))
}

impl GameState {
    pub fn new(board: Board, turn: u8) -> (r: GameState)
        ensures
            r == (GameState { board, turn }),
    {
        GameState { board, turn }
    }

    /// Every legal move of the side to move.
    pub fn get_move_list(&self) -> (r: Vec<Move>)
        ensures
            forall|k: int|
                #![trigger r@[k]]
                0 <= k < r@.len() ==> legal_slide(
                    self.board,
                    current_color(*self),
                    r@[k].x as int,
                    r@[k].y as int,
                    r@[k].direction,
                ) && slide_target(self.board, r@[k].x as int, r@[k].y as int, r@[k].direction) == (
                r@[k].dest_x as int,
                r@[k].dest_y as int,
                ),
            forall|x: int, y: int, d: Direction|
                #[trigger] legal_slide(self.board, current_color(*self), x, y, d) ==> exists|k: int|
                    0 <= k < r@.len() && r@[k].x == x && r@[k].y == y && r@[k].direction == d,
            crate::iterators::in_generation_order(r@),
            crate::iterators::no_repeats(r@),
    {
        iterators::get_possible_moves(self)
    }

    /// Cells that pieces of `color` can capture on.
    pub fn get_attack_board(&self, color: &PlayerColor) -> (r: u128)
        ensures
            forall|i: int|
                #![trigger bit_at(r, i)]
                bit_at(r, i) <==> exists|x: int, y: int, d: Direction|
                    #[trigger] crate::gamerules::capture_slide(self.board, *color, x, y, d) && cell(
                        slide_target(self.board, x, y, d).0,
                        slide_target(self.board, x, y, d).1,
                    ) == i,
    {
        iterators::get_attack_board(self, color)
    }

    /// Every legal capture of the side to move.
    pub fn get_captures(&self) -> (r: Vec<Move>)
        ensures
            forall|k: int|
                #![trigger r@[k]]
                0 <= k < r@.len() ==> crate::gamerules::capture_slide(
                    self.board,
                    current_color(*self),
                    r@[k].x as int,
                    r@[k].y as int,
                    r@[k].direction,
                ) && slide_target(self.board, r@[k].x as int, r@[k].y as int, r@[k].direction) == (
                r@[k].dest_x as int,
                r@[k].dest_y as int,
                ),
            forall|x: int, y: int, d: Direction|
                #[trigger] crate::gamerules::capture_slide(self.board, current_color(*self), x, y, d)
                    ==> exists|k: int|
                    0 <= k < r@.len() && r@[k].x == x && r@[k].y == y && r@[k].direction == d,
            crate::iterators::in_generation_order(r@),
            crate::iterators::no_repeats(r@),
    {
        iterators::get_captures(self)
    }

    /// The cell a move lands on, if it lies on the board.
    pub fn get_destination(&self, action: &Move) -> (r: Option<Field>)
        ensures
            r == (if on_board(action.dest_x as int, action.dest_y as int) {
                Some(
                    Field {
                        x: action.dest_x,
                        y: action.dest_y,
                        fieldtype: crate::board::field_at(
                            self.board,
                            action.dest_x as int,
                            action.dest_y as int,
                        ),
                    },
                )
            } else {
                None
            }),
    {
        self.board.get_field(action.dest_x, action.dest_y)
    }

    /// Where a piece on `(x, y)` would land sliding in `direction`, on the board or not.
    pub fn get_destination_coordinates(&self, x: u8, y: u8, direction: Direction) -> (r: (i8, i8))
        requires
            x < 10,
            y < 10,
        ensures
            (r.0 as int, r.1 as int) == slide_target(self.board, x as int, y as int, direction),
    {
        let distance = self.board.get_distance(x, y, direction);
        let m = direction.get_multipliers();
        let x_n: i8 = x as i8 + iterators::scale(distance, m.0);
        let y_n: i8 = y as i8 + iterators::scale(distance, m.1);
        (x_n, y_n)
    }

    /// Plays `action` for `color`: the piece leaves its origin, lands on the destination and
    /// removes any opposing piece there; the turn counter advances.
    pub fn perform(&mut self, action: &Move, color: &PlayerColor)
        requires
            old(self).turn < 255,
            on_board(action.x as int, action.y as int),
            on_board(action.dest_x as int, action.dest_y as int),
        ensures
            final(self).turn == old(self).turn + 1,
            moved(old(self).board, *action, *color, final(self).board),
            well_formed(old(self).board) && !bit_at(
                old(self).board.obstacle_fields.bits,
                cell(action.dest_x as int, action.dest_y as int),
            ) ==> well_formed(final(self).board),
            crate::board::disjoint(old(self).board) && !bit_at(
                old(self).board.obstacle_fields.bits,
                cell(action.dest_x as int, action.dest_y as int),
            ) ==> crate::board::disjoint(final(self).board),
    {
        let ghost b0 = self.board;
        self.turn = self.turn + 1;
        let pre: u8 = action.x + action.y * 10;
        let dest: u8 = action.dest_x + action.dest_y * 10;
        let pre_bit: u128 = 1u128 << (pre as u128);
        let dest_bit: u128 = 1u128 << (dest as u128);
        self.board.red_fields.bits = self.board.red_fields.bits & !pre_bit;
        self.board.blue_fields.bits = self.board.blue_fields.bits & !pre_bit;
        match color {
            PlayerColor::Red => {
                self.board.red_fields.bits = self.board.red_fields.bits | dest_bit;
                self.board.blue_fields.bits = self.board.blue_fields.bits & !dest_bit;
            },
            PlayerColor::Blue => {
                self.board.blue_fields.bits = self.board.blue_fields.bits | dest_bit;
                self.board.red_fields.bits = self.board.red_fields.bits & !dest_bit;
            },
        }
        proof {
            let b = self.board;
            if crate::board::disjoint(b0) && !bit_at(b0.obstacle_fields.bits, dest as int) {
                assert forall|i: int| 0 <= i < 128 implies !bit_at(
                    b.red_fields.bits & b.blue_fields.bits,
                    i,
                ) && !bit_at(b.red_fields.bits & b.obstacle_fields.bits, i) && !bit_at(
                    b.blue_fields.bits & b.obstacle_fields.bits,
                    i,
                ) by {
                    assert(!bit_at(b0.red_fields.bits & b0.blue_fields.bits, i));
                    assert(!bit_at(b0.red_fields.bits & b0.obstacle_fields.bits, i));
                    assert(!bit_at(b0.blue_fields.bits & b0.obstacle_fields.bits, i));
                }
                crate::bits::lemma_no_bits_zero(b.red_fields.bits & b.blue_fields.bits);
                crate::bits::lemma_no_bits_zero(b.red_fields.bits & b.obstacle_fields.bits);
                crate::bits::lemma_no_bits_zero(b.blue_fields.bits & b.obstacle_fields.bits);
            }
        }
    }

    /// Iterates over the cells of `color`'s pieces.
    pub fn get_own_fields(&self, color: &PlayerColor) -> (r: BitboardIter)
        ensures
            r.bits == color_bits(self.board, *color),
    {
        BitboardIter::new(self.board.get_fields_of(color).bits)
    }

    /// Iterates over the bit indices of `color`'s pieces.
    pub fn get_own_indices(&self, color: &PlayerColor) -> (r: BitboardIndexIter)
        ensures
            r.bits == color_bits(self.board, *color),
    {
        BitboardIndexIter::new(self.board.get_fields_of(color).bits)
    }

    pub fn get_current_player_color(&self) -> (r: PlayerColor)
        ensures
            r == current_color(*self),
    {
        if self.turn % 2 == 0 {
            PlayerColor::Red
        } else {
            PlayerColor::Blue
        }
    }
}

/// Playing a legal move keeps the board well formed: the three bitboards stay pairwise
/// disjoint and no bit at index 100 or above gets set.
pub proof fn lemma_legal_move_keeps_well_formed(b: Board, c: PlayerColor, m: Move, r: Board)
    requires
        well_formed(b),
        legal_slide(b, c, m.x as int, m.y as int, m.direction),
        slide_target(b, m.x as int, m.y as int, m.direction) == (m.dest_x as int, m.dest_y as int),
        moved(b, m, c, r),
    ensures
        well_formed(r),
        r.red_fields.bits & r.blue_fields.bits == 0,
        r.red_fields.bits & r.obstacle_fields.bits == 0,
        r.blue_fields.bits & r.obstacle_fields.bits == 0,
        forall|i: int| 100 <= i < 128 ==> !bit_at(r.red_fields.bits | r.blue_fields.bits | r.obstacle_fields.bits, i),
{
    let d = cell(m.dest_x as int, m.dest_y as int);
    assert(0 <= d < 100);
    assert forall|i: int| 0 <= i < 128 implies !bit_at(r.red_fields.bits & r.blue_fields.bits, i)
        && !bit_at(r.red_fields.bits & r.obstacle_fields.bits, i) && !bit_at(
        r.blue_fields.bits & r.obstacle_fields.bits,
        i,
    ) by {
        assert(!bit_at(b.red_fields.bits & b.blue_fields.bits, i));
        assert(!bit_at(b.red_fields.bits & b.obstacle_fields.bits, i));
        assert(!bit_at(b.blue_fields.bits & b.obstacle_fields.bits, i));
        assert(bit_at(color_bits(r, c), i) == after_move_own(b, m, c, i));
        assert(bit_at(color_bits(r, crate::states::opponent(c)), i) == after_move_other(b, m, c, i));
    }
    crate::bits::lemma_no_bits_zero(r.red_fields.bits & r.blue_fields.bits);
    crate::bits::lemma_no_bits_zero(r.red_fields.bits & r.obstacle_fields.bits);
    crate::bits::lemma_no_bits_zero(r.blue_fields.bits & r.obstacle_fields.bits);
    assert forall|i: int| 100 <= i < 128 implies !bit_at(r.red_fields.bits, i) && !bit_at(
        r.blue_fields.bits,
        i,
    ) by {
        assert(bit_at(color_bits(r, c), i) == after_move_own(b, m, c, i));
        assert(bit_at(color_bits(r, crate::states::opponent(c)), i) == after_move_other(b, m, c, i));
    }
}

/// A position received from the match server.
pub struct Memento {
    pub state: GameState,
}

/// A player that a match client drives: it is told of each event and asked for a move.
pub trait ClientListener {
    /// A new position was received.
    fn on_update_state(&mut self, state: &GameState) {
    }

    /// The server assigned this player its color.
    fn on_welcome_message(&mut self, welcome_message: &WelcomeMessage) {
    }

    /// The server asks for a move in `state`.
    fn on_move_request(&mut self, state: &GameState) -> Move;

    /// The player joined a room.
    fn on_join(&mut self, room: &Room) {
    }

    /// Nothing is happening; a short piece of work may be done.
    fn on_idle(&mut self) {
    }
}

} // verus!
