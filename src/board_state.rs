//! The phases a board on screen goes through during a game, and which
//! changes between them are allowed.

use vstd::prelude::*;

verus! {

/// The phase of a board on screen.
#[derive(Clone, Copy, Debug, PartialEq, Eq, Structural)]
pub enum BoardState {
    /// A new turn: the piece is shown and the player's decision awaited.
    Initialize,
    /// Waiting for the player's move.
    Waiting,
    /// The piece slides over the columns.
    Sliding,
    /// The piece slides to a column, then drops.
    SlideThenPlay,
    /// The piece drops.
    Playing,
    /// The game is won; a line is shown.
    Win,
    /// The board is full and nobody won.
    Finished,
}

/// The phase that `action` leads to from `from`, and the phase that is left,
/// or `None` when the change is not allowed.
pub open spec fn transition(from: BoardState, action: BoardState) -> Option<(BoardState, BoardState)> {
    if from == BoardState::Initialize && action == BoardState::Waiting {
        Some((BoardState::Waiting, BoardState::Initialize))
    } else if from == BoardState::Waiting && action != BoardState::Initialize {
        Some((action, BoardState::Waiting))
    } else if from == BoardState::Sliding && (action == BoardState::Waiting || action
        == BoardState::Sliding || action == BoardState::SlideThenPlay) {
        Some((action, BoardState::Sliding))
    } else if from == BoardState::Sliding && action == BoardState::Playing {
        Some((BoardState::SlideThenPlay, BoardState::Sliding))
    } else if from == BoardState::SlideThenPlay && (action == BoardState::Playing || action
        == BoardState::Waiting) {
        Some((action, BoardState::SlideThenPlay))
    } else if from == BoardState::Playing && (action == BoardState::Initialize || action
        == BoardState::Win || action == BoardState::Finished) {
        Some((action, BoardState::Playing))
    } else if (from == BoardState::Win || from == BoardState::Finished) && action
        == BoardState::Initialize {
        Some((BoardState::Initialize, from))
    } else {
        None
    }
}

impl BoardState {
    /// Moves to the phase that `action` leads to, if the change is allowed,
    /// and returns the phase left; otherwise changes nothing and returns
    /// `None`.
    pub fn new_action(&mut self, action: BoardState) -> (r: Option<BoardState>)
        ensures
            transition(*old(self), action) matches Some((next, left)) ==> *final(self) == next && r
                == Some(left),
            transition(*old(self), action) is None ==> *final(self) == *old(self) && r is None,
    {
        match (*self, action) {
            (BoardState::Initialize, BoardState::Waiting) => {
                *self = BoardState::Waiting;
                Some(BoardState::Initialize)
            },
            (BoardState::Waiting, BoardState::Initialize) => None,
            (BoardState::Waiting, next) => {
                *self = next;
                Some(BoardState::Waiting)
            },
            (
                BoardState::Sliding,
                next @ (BoardState::Waiting | BoardState::Sliding | BoardState::SlideThenPlay),
            ) => {
                *self = next;
                Some(BoardState::Sliding)
            },
            (BoardState::Sliding, BoardState::Playing) => {
                *self = BoardState::SlideThenPlay;
                Some(BoardState::Sliding)
            },
            (BoardState::SlideThenPlay, next @ (BoardState::Playing | BoardState::Waiting)) => {
                *self = next;
                Some(BoardState::SlideThenPlay)
            },
            (
                BoardState::Playing,
                next @ (BoardState::Initialize | BoardState::Win | BoardState::Finished),
            ) => {
                *self = next;
                Some(BoardState::Playing)
            },
            (left @ (BoardState::Win | BoardState::Finished), BoardState::Initialize) => {
                *self = BoardState::Initialize;
                Some(left)
            },
            _ => None,
        }
    }

    /// The game on the board is over.
    pub fn finished(&self) -> (r: bool)
        ensures
            r == (*self == BoardState::Win || *self == BoardState::Finished),
    {
        *self == BoardState::Win || *self == BoardState::Finished
    }
}

} // verus!
