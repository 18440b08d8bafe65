//! What a player reports about its next move, and the human player.

use crate::game::Game;
use vstd::prelude::*;

verus! {

/// Where a player stands with its decision.
#[derive(Clone, Copy, Debug, PartialEq, Eq, Structural)]
pub enum Intent {
    /// A decision is being computed; poll again later.
    Waiting,
    /// The column chosen.
    Ready(u8),
    /// No decision is pending.
    Idle,
}

/// A player whose moves come from outside, such as clicks on the board.
pub struct Human;

impl Human {
    /// Moves of this player are taken from input.
    pub fn process_intent(&self) -> (r: bool)
        ensures
            r,
    {
        true
    }

    /// Nothing to prepare: the move will come from input.
    pub fn start_process(&mut self, _state: Game)
        ensures
            *final(self) == *old(self),
    {
    }

    /// Never has a decision of its own.
    pub fn intent(&self) -> (r: Intent)
        ensures
            r == Intent::Idle,
    {
        Intent::Idle
    }
}

} // verus!
