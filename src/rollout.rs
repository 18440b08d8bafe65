//! A player that scores each column by random playouts (Monte-Carlo
//! search) and picks a best one.
//!
//! Scores are integers. A playout that ends in a win after `d` plies of a
//! search of depth `deep` scores `deep - d` when the searching player won
//! and `-5 * (deep - d)` when the opponent did; one that runs out of depth
//! scores 0. A column's score is the sum over its playouts. A column that
//! wins at once scores one more than any sum of playouts can reach; a full
//! column scores below any such sum.

use crate::behaviour::Intent;
use crate::chance::choose_column;
use crate::game::{is_open, lemma_height_props, winning_line, Game, GameView, PlayResult, Player};
use rand::rngs::StdRng;
use vstd::prelude::*;

verus! {

/// Weight of a playout won by the searching player.
const WIN_SCORE: i64 = 1;

/// Weight of a playout lost by the searching player.
const LOSE_SCORE: i64 = -5;

/// Dropping a piece into column `col` of `g` wins at once.
pub open spec fn wins_now(g: GameView, col: int) -> bool {
    is_open(g.grid, col) && winning_line(g, col) is Some
}

/// Score of a column that wins at once, for `iter` playouts of depth `deep`.
pub open spec fn win_score(iter: int, deep: int) -> int {
    iter * deep + 1
}

/// Score of a full column, for `iter` playouts of depth `deep`.
pub open spec fn illegal_score(iter: int, deep: int) -> int {
    -10 * (iter * deep) - 1
}

/// `v` is a score that column `c` of `g` can get from `iter` playouts of
/// depth `deep`.
pub open spec fn scored(g: GameView, iter: int, deep: int, c: int, v: int) -> bool {
    &&& !is_open(g.grid, c) ==> v == illegal_score(iter, deep)
    &&& wins_now(g, c) ==> v == win_score(iter, deep)
    &&& is_open(g.grid, c) && !wins_now(g, c) ==> -5 * (iter * deep) <= v <= iter * deep
}

/// Column `c` has a score no other of `s` exceeds.
pub open spec fn is_best(s: Seq<i64>, c: int) -> bool {
    forall|k: int| 0 <= k < s.len() ==> s[k] <= s[c]
}

/// The columns of best score in `scores`, in increasing order.
pub fn best_columns(scores: &[i64; 7]) -> (r: Vec<usize>)
    ensures
        r@.len() > 0,
        forall|i: int| 0 <= i < r@.len() ==> #[trigger] r@[i] < 7 && is_best(scores@, r@[i] as int),
        forall|i: int, j: int| 0 <= i < j < r@.len() ==> r@[i] < r@[j],
        forall|c: int| 0 <= c < 7 && is_best(scores@, c) ==> r@.contains(c as usize),
{
    let mut top: i64 = scores[0];
    let mut i: usize = 1;
    while i < 7
        invariant
            1 <= i <= 7,
            exists|k: int| 0 <= k < i && scores@[k] == top,
            forall|k: int| 0 <= k < i ==> scores@[k] <= top,
        decreases 7 - i,
    {
        if scores[i] > top {
            top = scores[i];
        }
        i += 1;
    }
    let mut r: Vec<usize> = Vec::new();
    let mut c: usize = 0;
    while c < 7
        invariant
            c <= 7,
            exists|k: int| 0 <= k < 7 && scores@[k] == top,
            forall|k: int| 0 <= k < 7 ==> scores@[k] <= top,
            forall|i: int| 0 <= i < r@.len() ==> #[trigger] r@[i] < c && scores@[r@[i] as int] == top,
            forall|i: int, j: int| 0 <= i < j < r@.len() ==> r@[i] < r@[j],
            forall|k: int| 0 <= k < c && scores@[k] == top ==> r@.contains(k as usize),
        decreases 7 - c,
    {
        if scores[c] == top {
            let ghost prev = r@;
            r.push(c);
            proof {
                assert(r@[r@.len() - 1] == c);
                assert forall|i: int| 0 <= i < prev.len() implies r@[i] == prev[i] by {}
                assert forall|k: int| 0 <= k < c && scores@[k] == top implies r@.contains(
                    k as usize,
                ) by {
                    let j = choose|j: int| 0 <= j < prev.len() && prev[j] == k as usize;
                    assert(r@[j] == k as usize);
                }
            }
        }
        c += 1;
    }
    proof {
        let k = choose|k: int| 0 <= k < 7 && scores@[k] == top;
        assert(r@.contains(k as usize));
    }
    r
}

/// One random playout from `start`: up to `deep - 1` plies, each in a
/// column with room drawn uniformly, stopping at the first win.
fn playout(start: Game, whoami: Player, deep: u16, rng: &mut StdRng) -> (s: i64)
    requires
        start.wf(),
    ensures
        -5 * deep <= s <= deep,
{
    let mut game = start;
    let mut d: u16 = 1;
    while d < deep
        invariant
            game.wf(),
            1 <= d,
        decreases deep - d,
    {
        let options = game.open_columns();
        let col = match choose_column(&options, rng) {
            Some(c) => c,
            None => {
                break;
            },
        };
        if let PlayResult::Win(_) = game.play_col(col) {
            let weight = (deep - d) as i64;
            // The turn has passed: if it is back to the searching player,
            // the opponent made the line.
            if game.player_turn() == whoami {
                return LOSE_SCORE * weight;
            } else {
                return WIN_SCORE * weight;
            }
        }
        d += 1;
    }
    0
}

/// A player that searches with random playouts. Its search runs apart from
/// the caller; this value tracks whether one is outstanding.
#[derive(Clone, Copy)]
pub struct Rollout {
    iter: u16,
    deep: u16,
    searching: bool,
}

/// What a poll answers, and whether a search is still outstanding after
/// it, given whether one was before and what the search has produced
/// (`None` while it runs).
pub open spec fn poll(searching: bool, done: Option<u8>) -> (Intent, bool) {
    if !searching {
        (Intent::Idle, false)
    } else {
        match done {
            None => (Intent::Waiting, true),
            Some(c) => (Intent::Ready(c), false),
        }
    }
}

/// The answers to a series of polls, starting with `searching`.
pub open spec fn polls(searching: bool, done: Seq<Option<u8>>) -> Seq<Intent>
    decreases done.len(),
{
    if done.len() == 0 {
        Seq::empty()
    } else {
        let (first, next) = poll(searching, done[0]);
        seq![first] + polls(next, done.drop_first())
    }
}

/// After a search starts, every poll before it finishes answers `Waiting`,
/// the first poll that sees its column answers `Ready` with it, and every
/// later poll answers `Idle`, until the next search starts.
pub proof fn lemma_ready_once(done: Seq<Option<u8>>, k: int, c: u8)
    requires
        0 <= k < done.len(),
        forall|i: int| 0 <= i < k ==> done[i] is None,
        done[k] == Some(c),
    ensures
        polls(true, done).len() == done.len(),
        forall|i: int| 0 <= i < k ==> polls(true, done)[i] == Intent::Waiting,
        polls(true, done)[k] == Intent::Ready(c),
        forall|i: int| k < i < done.len() ==> polls(true, done)[i] == Intent::Idle,
    decreases k,
{
    let rest = done.drop_first();
    if k == 0 {
        lemma_idle_after(rest);
    } else {
        lemma_ready_once(rest, k - 1, c);
    }
}

/// With no search outstanding, every poll answers `Idle`.
proof fn lemma_idle_after(done: Seq<Option<u8>>)
    ensures
        polls(false, done).len() == done.len(),
        forall|i: int| 0 <= i < done.len() ==> polls(false, done)[i] == Intent::Idle,
    decreases done.len(),
{
    if done.len() > 0 {
        lemma_idle_after(done.drop_first());
    }
}

impl Rollout {
    /// Playouts run for each column.
    pub closed spec fn iterations(&self) -> int {
        self.iter as int
    }

    /// Plies a playout may span, the first move included.
    pub closed spec fn depth(&self) -> int {
        self.deep as int
    }

    /// A search has been started and its column not yet reported.
    pub closed spec fn searching(&self) -> bool {
        self.searching
    }

    /// Moves of this player are not taken from input.
    pub fn process_intent(&self) -> (r: bool)
        ensures
            !r,
    {
        false
    }

    /// Scores every column of `state` for the player to move: a full column
    /// gets the illegal score, a column that wins at once the win score, and
    /// any other the sum of `iterations` random playouts after that move.
    fn column_scores(&self, state: Game, rng: &mut StdRng) -> (scores: [i64; 7])
        requires
            state.wf(),
        ensures
            forall|c: int|
                0 <= c < 7 ==> scored(
                    state@,
                    self.iterations(),
                    self.depth(),
                    c,
                    #[trigger] scores@[c] as int,
                ),
    {
        let whoami = state.player_turn();
        proof {
            assert(0 <= (self.iter as int) * (self.deep as int) <= 65535 * 65535) by (nonlinear_arith)
                requires
                    self.iter <= 65535,
                    self.deep <= 65535,
            ;
        }
        let span: i64 = self.iter as i64 * self.deep as i64;
        let mut scores: [i64; 7] = [0; 7];
        let mut col: usize = 0;
        while col < 7
            invariant
                state.wf(),
                col <= 7,
                whoami == state@.mover,
                span == self.iterations() * self.depth(),
                0 <= span <= 65535 * 65535,
                forall|c: int|
                    0 <= c < col ==> scored(
                        state@,
                        self.iterations(),
                        self.depth(),
                        c,
                        #[trigger] scores@[c] as int,
                    ),
            decreases 7 - col,
        {
            let mut start = state;
            let outcome = start.play_col(col);
            let score: i64 = match outcome {
                PlayResult::Error => -10 * span - 1,
                PlayResult::Win(_) => span + 1,
                PlayResult::Pass => {
                    let mut total: i64 = 0;
                    let mut n: u16 = 0;
                    while n < self.iter
                        invariant
                            start.wf(),
                            n <= self.iter,
                            -5 * (n * self.deep) <= total <= n * self.deep,
                            self.iter * self.deep <= 65535 * 65535,
                        decreases self.iter - n,
                    {
                        let s = playout(start, whoami, self.deep, rng);
                        proof {
                            assert((n + 1) * self.deep == n * self.deep + self.deep) by (nonlinear_arith);
                            assert((n + 1) * self.deep <= self.iter * self.deep) by (nonlinear_arith)
                                requires
                                    n + 1 <= self.iter,
                            ;
                        }
                        total = total + s;
                        n += 1;
                    }
                    total
                },
            };
            let ghost before = scores@;
            scores[col] = score;
            proof {
                assert forall|c: int| 0 <= c < col implies scores@[c] == before[c] by {}
                assert(scores@[col as int] == score);
                lemma_height_props(state@.grid, col as int);
                match outcome {
                    PlayResult::Error => {
                        assert(!is_open(state@.grid, col as int));
                    },
                    PlayResult::Win(_) => {
                        assert(wins_now(state@, col as int));
                    },
                    PlayResult::Pass => {
                        assert(is_open(state@.grid, col as int));
                        assert(!wins_now(state@, col as int));
                    },
                }
                assert(scored(state@, self.iterations(), self.depth(), col as int, score as int));
            }
            col += 1;
        }
        scores
    }

    /// Searches `state` for the player to move and returns the column
    /// chosen: a best-scoring column, ties broken uniformly at random. It
    /// has room whenever some column has, and wins at once whenever some
    /// column does.
    pub fn search(&self, state: Game, rng: &mut StdRng) -> (col: u8)
        requires
            state.wf(),
        ensures
            col < 7,
            (exists|c: int| is_open(state@.grid, c)) ==> is_open(state@.grid, col as int),
            (exists|c: int| 0 <= c < 7 && wins_now(state@, c)) ==> wins_now(state@, col as int),
            forall|k: int|
                0 <= k < 7 && wins_now(state@, k) && (forall|j: int|
                    0 <= j < 7 && wins_now(state@, j) ==> j == k) ==> col == k,
    {
        let scores = self.column_scores(state, rng);
        let best = best_columns(&scores);
        let pick = choose_column(&best, rng);
        let col: usize = match pick {
            Some(c) => c,
            None => 0,
        };
        proof {
            let it = self.iterations();
            let dp = self.depth();
            let j = choose|j: int| 0 <= j < best@.len() && best@[j] == col;
            assert(col < 7 && is_best(scores@, col as int));
            if exists|c: int| is_open(state@.grid, c) {
                let c = choose|c: int| is_open(state@.grid, c);
                assert(scores@[c] <= scores@[col as int]);
            }
            if exists|c: int| 0 <= c < 7 && wins_now(state@, c) {
                let c = choose|c: int| 0 <= c < 7 && wins_now(state@, c);
                assert(scores@[c] <= scores@[col as int]);
            }
        }
        col as u8
    }

    /// Records that a search has been started.
    pub fn start_process(&mut self)
        ensures
            final(self).searching(),
            final(self).iterations() == old(self).iterations(),
            final(self).depth() == old(self).depth(),
    {
        self.searching = true;
    }

    /// Answers a poll, given what the search has produced so far (`None`
    /// while it runs): `Idle` with no search outstanding, `Waiting` while it
    /// runs, and `Ready` with its column once, when it has finished.
    pub fn intent(&mut self, done: Option<u8>) -> (r: Intent)
        ensures
            (r, final(self).searching()) == poll(old(self).searching(), done),
            final(self).iterations() == old(self).iterations(),
            final(self).depth() == old(self).depth(),
    {
        if !self.searching {
            return Intent::Idle;
        }
        match done {
            None => Intent::Waiting,
            Some(col) => {
                self.searching = false;
                Intent::Ready(col)
            },
        }
    }
}

impl Default for Rollout {
    /// 250 playouts per column, 5 plies deep, no search outstanding.
    fn default() -> (r: Self)
        ensures
            r.iterations() == 250,
            r.depth() == 5,
            !r.searching(),
    {
        Rollout { iter: 250, deep: 5, searching: false }
    }
}

} // verus!
