//! Small records kept by the searches: position keys, table entry kinds and counters.
use vstd::prelude::*;

use crate::gamestate::GameState;
use crate::states::Move;

verus! {

/// The part of a position that a search table is keyed by.
#[derive(Clone, Copy, PartialEq, Eq, Hash, Debug, Structural)]
pub struct MinimalState {
    pub red_fields: u128,
    pub blue_fields: u128,
    pub turn: u8,
}

impl MinimalState {
    pub fn from_state(state: &GameState) -> (r: MinimalState)
        ensures
            r.red_fields == state.board.red_fields.bits,
            r.blue_fields == state.board.blue_fields.bits,
            r.turn == state.turn,
    {
        MinimalState {
            red_fields: state.board.red_fields.bits,
            blue_fields: state.board.blue_fields.bits,
            turn: state.turn,
        }
    }

    /// A key that no position of a game has: turn 255.
    pub fn empty() -> (r: MinimalState)
        ensures
            r == (MinimalState { red_fields: 0, blue_fields: 0, turn: 255 }),
    {
        MinimalState { red_fields: 0, blue_fields: 0, turn: 255 }
    }
}

/// What a stored search value means relative to the true value.
#[derive(Clone, Copy, PartialEq, Eq, Debug, Structural)]
pub enum EntryType {
    Exact,
    UpperBound,
    LowerBound,
}

/// Counters of an alpha-beta search.
#[derive(Clone, Copy, PartialEq, Eq, Debug, Structural)]
pub struct SearchStatistics {
    pub nodes: usize,
    pub re_searched: usize,
    pub probed: usize,
    pub aspire_probed: usize,
    pub aspire_re: usize,
}

impl SearchStatistics {
    pub fn new() -> (r: SearchStatistics)
        ensures
            r == (SearchStatistics {
                nodes: 0,
                re_searched: 0,
                probed: 0,
                aspire_probed: 0,
                aspire_re: 0,
            }),
    {
        SearchStatistics { nodes: 0, re_searched: 0, probed: 0, aspire_probed: 0, aspire_re: 0 }
    }
}

/// Size and depth range of a search tree.
#[derive(Clone, Copy, PartialEq, Eq, Debug, Structural)]
pub struct TreeStatistics {
    pub nodes: i32,
    pub min_depth: i32,
    pub max_depth: i32,
}

impl TreeStatistics {
    pub fn filled(nodes: i32, max_depth: i32, min_depth: i32) -> (r: TreeStatistics)
        ensures
            r == (TreeStatistics { nodes, min_depth, max_depth }),
    {
        TreeStatistics { nodes, min_depth, max_depth }
    }

    /// A tree of one node.
    pub fn empty() -> (r: TreeStatistics)
        ensures
            r == (TreeStatistics { nodes: 1, min_depth: 0, max_depth: 0 }),
    {
        TreeStatistics { nodes: 1, min_depth: 0, max_depth: 0 }
    }
}

/// An edge of a search tree: the child's key, the move leading there, and whether the child
/// was created yet.
#[derive(Clone, Copy, PartialEq, Eq, Debug, Structural)]
pub struct ChildEdge {
    pub index: MinimalState,
    pub action: Move,
    pub added: bool,
}

impl ChildEdge {
    pub fn new(index: MinimalState, action: Move, added: bool) -> (r: ChildEdge)
        ensures
            r == (ChildEdge { index, action, added }),
    {
        ChildEdge { index, action, added }
    }
}

} // verus!
