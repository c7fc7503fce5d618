//! How a finished game is recorded: the winner as seen from the player order of a match.
use vstd::prelude::*;

use crate::gamerules::{get_winner, winner};
use crate::gamestate::GameState;
use crate::states::PlayerColor;

verus! {

/// The winner of game `id`, by seat: the first player plays Red in even-numbered games.
#[derive(Clone, Copy, PartialEq, Eq, Debug, Structural)]
pub enum Winner {
    One,
    Two,
    Draw,
}

/// The seat of the player that played `color` in game `index`.
pub open spec fn seat_of(color: PlayerColor, index: u32) -> Winner {
    if (color == PlayerColor::Red) == (index % 2 == 0) {
        Winner::One
    } else {
        Winner::Two
    }
}

impl Winner {
    pub fn get_winner(color: &PlayerColor, index: u32) -> (r: Winner)
        ensures
            r == seat_of(*color, index),
    {
        if *color == PlayerColor::Blue {
            if index % 2 == 0 {
                return Winner::Two;
            }
            return Winner::One;
        }
        if index % 2 == 0 {
            Winner::One
        } else {
            Winner::Two
        }
    }

    /// The label used in result files: "ONE ", "TWO " or "DRAW".
    pub fn name(&self) -> (r: &'static str)
        ensures
            r@ == (match *self {
                Winner::One => "ONE "@,
                Winner::Two => "TWO "@,
                Winner::Draw => "DRAW"@,
            }),
    {
        proof {
            reveal_strlit("ONE ");
            reveal_strlit("TWO ");
            reveal_strlit("DRAW");
        }
        match self {
            Winner::One => "ONE ",
            Winner::Two => "TWO ",
            Winner::Draw => "DRAW",
        }
    }
}

/// The outcome of game `id`.
#[derive(Clone, Copy, PartialEq, Eq, Debug, Structural)]
pub struct EndState {
    pub id: u32,
    pub winner: Winner,
    pub color: Option<PlayerColor>,
}

impl EndState {
    pub fn get_end(state: &GameState, id: u32) -> (r: EndState)
        ensures
            r.id == id,
            r.color == winner(*state),
            r.winner == match winner(*state) {
                Some(c) => seat_of(c, id),
                None => Winner::Draw,
            },
    {
        match get_winner(state) {
            Some(c) => EndState { id, winner: Winner::get_winner(&c, id), color: Some(c) },
            None => EndState { id, winner: Winner::Draw, color: None },
        }
    }
}

} // verus!
