//! A player that drops its piece into a random column that has room.

use crate::behaviour::Intent;
use crate::chance::choose_column;
use crate::game::{is_open, Game, Player};
use rand::rngs::StdRng;
use vstd::prelude::*;

verus! {

/// Stands for "no column pending"; no column has this index.
const INVALID: u8 = 7;

/// Column chosen when no column has room.
const FALLBACK: u8 = 3;

/// A column that a random player may pick on board `g`: one with room when
/// there is one, else the fallback column.
pub open spec fn fair_pick(g: Seq<Option<Player>>, c: int) -> bool {
    &&& 0 <= c < 7
    &&& (exists|k: int| is_open(g, k)) ==> is_open(g, c)
    &&& !(exists|k: int| is_open(g, k)) ==> c == 3
}

/// A player that picks uniformly among the columns that have room.
pub struct Random {
    generator: StdRng,
    last_gen: u8,
}

impl Random {
    /// The column chosen and not yet reported, if any.
    pub closed spec fn pending(&self) -> Option<u8> {
        if self.last_gen == INVALID {
            None
        } else {
            Some(self.last_gen)
        }
    }

    /// A player drawing its choices from `generator`, with nothing pending.
    pub fn new(generator: StdRng) -> (r: Random)
        ensures
            r.pending() is None,
    {
        Random { generator, last_gen: INVALID }
    }

    /// Moves of this player are not taken from input.
    pub fn process_intent(&self) -> (r: bool)
        ensures
            !r,
    {
        false
    }

    /// Picks a column for `state`: one with room, drawn uniformly; the
    /// fallback column when every column is full.
    pub fn start_process(&mut self, state: Game)
        requires
            state.wf(),
        ensures
            final(self).pending() matches Some(c) && fair_pick(state@.grid, c as int),
            forall|k: int|
                is_open(state@.grid, k) && (forall|j: int| is_open(state@.grid, j) ==> j == k)
                    ==> final(self).pending() == Some(k as u8),
    {
        let possibilities = state.open_columns();
        let col = match choose_column(&possibilities, &mut self.generator) {
            Some(c) => c as u8,
            None => FALLBACK,
        };
        self.last_gen = col;
    }

    /// Reports the pending column once; afterwards reports `Idle` until the
    /// next `start_process`.
    pub fn intent(&mut self) -> (r: Intent)
        ensures
            final(self).pending() is None,
            old(self).pending() is None ==> r == Intent::Idle,
            old(self).pending() matches Some(c) ==> r == Intent::Ready(c),
    {
        if self.last_gen == INVALID {
            Intent::Idle
        } else {
            let col = self.last_gen;
            self.last_gen = INVALID;
            Intent::Ready(col)
        }
    }
}

} // verus!
