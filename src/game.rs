//! The board of a connect-four game: seven columns of six cells, the player
//! to move, and who opened the current game.

use vstd::prelude::*;

verus! {

/// Number of cells on the board.
pub const CELLS: usize = 42;

/// One of the two players, and the colour of the pieces they drop.
#[derive(Clone, Copy, Debug, PartialEq, Eq, Structural)]
pub enum Player {
    Red,
    Yellow,
}

/// The outcome of dropping a piece.
///
/// `Win` holds the two ends of the completed line as
/// `[start_col, start_row, end_col, end_row]`.
#[derive(Clone, Copy, Debug)]
pub enum PlayResult {
    Win([u8; 4]),
    Error,
    Pass,
}

/// Who opened the current game, then who moves now.
#[derive(Clone, Copy, Debug, PartialEq, Eq, Structural)]
enum Memory {
    RedRed,
    RedYellow,
    YellowRed,
    YellowYellow,
}

pub open spec fn other(p: Player) -> Player {
    match p {
        Player::Red => Player::Yellow,
        Player::Yellow => Player::Red,
    }
}

impl Memory {
    spec fn starter(self) -> Player {
        match self {
            Memory::RedRed | Memory::RedYellow => Player::Red,
            Memory::YellowRed | Memory::YellowYellow => Player::Yellow,
        }
    }

    spec fn mover(self) -> Player {
        match self {
            Memory::RedRed | Memory::YellowRed => Player::Red,
            Memory::RedYellow | Memory::YellowYellow => Player::Yellow,
        }
    }

    /// The same game, with the other player to move.
    fn passed(self) -> (r: Memory)
        ensures
            r.starter() == self.starter(),
            r.mover() == other(self.mover()),
    {
        match self {
            Memory::RedRed => Memory::RedYellow,
            Memory::RedYellow => Memory::RedRed,
            Memory::YellowRed => Memory::YellowYellow,
            Memory::YellowYellow => Memory::YellowRed,
        }
    }

    /// A new game, opened by the player who did not open this one.
    fn reopened(self) -> (r: Memory)
        ensures
            r.starter() == other(self.starter()),
            r.mover() == r.starter(),
    {
        match self {
            Memory::RedRed | Memory::RedYellow => Memory::YellowYellow,
            Memory::YellowRed | Memory::YellowYellow => Memory::RedRed,
        }
    }

    fn player(self) -> (r: Player)
        ensures
            r == self.mover(),
    {
        match self {
            Memory::RedYellow | Memory::YellowYellow => Player::Yellow,
            Memory::RedRed | Memory::YellowRed => Player::Red,
        }
    }
}

/// The abstract state of a game: the cells in column-major order
/// (`col * 6 + row`, row 0 at the bottom), the player to move and the
/// player who moved first in this game.
pub struct GameView {
    pub grid: Seq<Option<Player>>,
    pub mover: Player,
    pub starter: Player,
}

/// Index of the cell at `(col, row)`.
pub open spec fn idx(col: int, row: int) -> int {
    col * 6 + row
}

pub open spec fn on_board(col: int, row: int) -> bool {
    0 <= col < 7 && 0 <= row < 6
}

/// Pieces never float: in every column the occupied cells start at row 0
/// and are contiguous.
pub open spec fn stacked(g: Seq<Option<Player>>) -> bool {
    forall|c: int, r1: int, r2: int|
        0 <= c < 7 && 0 <= r1 <= r2 < 6 && (#[trigger] g[idx(c, r2)]) is Some ==> (#[trigger] g[idx(
            c,
            r1,
        )]) is Some
}

/// Row of the first empty cell of column `col` at or above `row`
/// (6 when there is none).
pub open spec fn first_empty(g: Seq<Option<Player>>, col: int, row: int) -> int
    decreases 6 - row,
{
    if row >= 6 || g[idx(col, row)] is None {
        row
    } else {
        first_empty(g, col, row + 1)
    }
}

/// Number of pieces in column `col`, counted from the bottom up to the
/// first empty cell.
pub open spec fn height(g: Seq<Option<Player>>, col: int) -> int {
    first_empty(g, col, 0)
}

/// `p` has a piece at `(col, row)`.
pub open spec fn holds(g: Seq<Option<Player>>, col: int, row: int, p: Player) -> bool {
    on_board(col, row) && g[idx(col, row)] == Some(p)
}

/// How many cells in a row, at most `n`, starting one step from `(col, row)`
/// in direction `(dc, dr)`, hold a piece of `p`.
pub open spec fn ray(
    g: Seq<Option<Player>>,
    col: int,
    row: int,
    dc: int,
    dr: int,
    p: Player,
    n: nat,
) -> nat
    decreases n,
{
    if n == 0 {
        0
    } else if holds(g, col + dc, row + dr, p) {
        1 + ray(g, col + dc, row + dr, dc, dr, p, (n - 1) as nat)
    } else {
        0
    }
}

/// The four line directions, in the order they are examined: vertical,
/// rising diagonal, horizontal, falling diagonal.
pub open spec fn direction(i: int) -> (int, int) {
    if i == 0 {
        (0, -1)
    } else if i == 1 {
        (1, 1)
    } else if i == 2 {
        (1, 0)
    } else {
        (1, -1)
    }
}

/// Ends of a line, as `(start_col, start_row, end_col, end_row)`.
pub type Line = (int, int, int, int);

/// The line of four through a piece of `p` at `(col, row)` in direction
/// `i`, if any. Up to three matching cells are counted backward (`b`), then
/// up to `3 - b` forward (`f`); `b + f == 3` means four in a row, from `b`
/// steps back to `f` steps ahead.
pub open spec fn line_in(g: Seq<Option<Player>>, col: int, row: int, p: Player, i: int) -> Option<
    Line,
> {
    let (dc, dr) = direction(i);
    let b = ray(g, col, row, -dc, -dr, p, 3);
    let f = ray(g, col, row, dc, dr, p, (3 - b) as nat);
    if b + f == 3 {
        Some((col - dc * b, row - dr * b, col + dc * f, row + dr * f))
    } else {
        None
    }
}

/// The first line of four through a piece of `p` at `(col, row)`, looking
/// at directions `i..4` in order.
pub open spec fn line_through(g: Seq<Option<Player>>, col: int, row: int, p: Player, i: int) -> Option<
    Line,
>
    decreases 4 - i,
{
    if i >= 4 || i < 0 {
        None
    } else if line_in(g, col, row, p, i) is Some {
        line_in(g, col, row, p, i)
    } else {
        line_through(g, col, row, p, i + 1)
    }
}

/// `r` is the result that `play_col` gives when the winning line found is `w`.
pub open spec fn reports(r: PlayResult, w: Option<Line>) -> bool {
    match r {
        PlayResult::Win(l) => w == Some((l[0] as int, l[1] as int, l[2] as int, l[3] as int)),
        PlayResult::Pass => w is None,
        PlayResult::Error => false,
    }
}

/// The state after the player to move drops a piece into column `col`.
pub open spec fn after_move(g: GameView, col: int) -> GameView {
    GameView {
        grid: g.grid.update(idx(col, height(g.grid, col)), Some(g.mover)),
        mover: other(g.mover),
        starter: g.starter,
    }
}

/// The line that dropping a piece into column `col` completes, if any.
pub open spec fn winning_line(g: GameView, col: int) -> Option<Line> {
    line_through(after_move(g, col).grid, col, height(g.grid, col), g.mover, 0)
}

/// `after` is the state that a restart of `before` leads to: an empty board,
/// opened by the player who did not open `before`'s game.
pub open spec fn restarted(before: GameView, after: GameView) -> bool {
    &&& after.grid == empty_grid()
    &&& after.starter == other(before.starter)
    &&& after.mover == after.starter
}

/// A restart leaves an empty board, and the player who opens the new game
/// is the one who did not open the game before; over three restarts in a
/// row the opener changes every time.
pub proof fn lemma_restarts_alternate(g0: GameView, g1: GameView, g2: GameView, g3: GameView)
    requires
        restarted(g0, g1),
        restarted(g1, g2),
        restarted(g2, g3),
    ensures
        g1.grid == empty_grid() && g2.grid == empty_grid() && g3.grid == empty_grid(),
        g1.starter != g0.starter,
        g2.starter != g1.starter,
        g3.starter != g2.starter,
        g2.starter == g0.starter,
        g3.starter == g1.starter,
        g1.mover == g1.starter && g2.mover == g2.starter && g3.mover == g3.starter,
{
}

/// Column `col` is on the board and has room for a piece.
pub open spec fn is_open(g: Seq<Option<Player>>, col: int) -> bool {
    0 <= col < 7 && height(g, col) < 6
}

/// `cols` lists, in increasing order, exactly the columns that have room.
pub open spec fn lists_open(g: Seq<Option<Player>>, cols: Seq<usize>) -> bool {
    &&& forall|i: int| 0 <= i < cols.len() ==> is_open(g, #[trigger] cols[i] as int)
    &&& forall|i: int, j: int| 0 <= i < j < cols.len() ==> cols[i] < cols[j]
    &&& forall|c: int| is_open(g, c) ==> cols.contains(c as usize)
}

/// A board with no pieces.
pub open spec fn empty_grid() -> Seq<Option<Player>> {
    Seq::new(42, |i: int| None)
}

/// A column's height is between 0 and 6; the cells below it are occupied
/// and the cell at it, if any, is empty.
pub proof fn lemma_height_props(g: Seq<Option<Player>>, col: int)
    ensures
        0 <= height(g, col) <= 6,
        forall|r: int| 0 <= r < height(g, col) ==> (#[trigger] g[idx(col, r)]) is Some,
        height(g, col) < 6 ==> g[idx(col, height(g, col))] is None,
{
    lemma_first_empty_props(g, col, 0);
}

proof fn lemma_first_empty_props(g: Seq<Option<Player>>, col: int, row: int)
    requires
        0 <= row <= 6,
    ensures
        row <= first_empty(g, col, row) <= 6,
        forall|r: int| row <= r < first_empty(g, col, row) ==> (#[trigger] g[idx(col, r)]) is Some,
        first_empty(g, col, row) < 6 ==> g[idx(col, first_empty(g, col, row))] is None,
    decreases 6 - row,
{
    if row < 6 && g[idx(col, row)] is Some {
        lemma_first_empty_props(g, col, row + 1);
    }
}

/// Dropping a piece onto a column that is not full keeps the board
/// stacked, raises that column by one and leaves the other columns alone.
proof fn lemma_drop(g: Seq<Option<Player>>, col: int, p: Player)
    requires
        g.len() == 42,
        stacked(g),
        0 <= col < 7,
        height(g, col) < 6,
    ensures
        stacked(g.update(idx(col, height(g, col)), Some(p))),
        height(g.update(idx(col, height(g, col)), Some(p)), col) == height(g, col) + 1,
        forall|c: int|
            0 <= c < 7 && c != col ==> height(g.update(idx(col, height(g, col)), Some(p)), c)
                == height(g, c),
{
    let h = height(g, col);
    let g2 = g.update(idx(col, h), Some(p));
    lemma_height_props(g, col);
    assert forall|c: int, r1: int, r2: int|
        0 <= c < 7 && 0 <= r1 <= r2 < 6 && (#[trigger] g2[idx(c, r2)]) is Some implies (#[trigger] g2[idx(
            c,
            r1,
        )]) is Some by {
        if c == col && r2 == h {
            if r1 < h {
                assert(g[idx(col, r1)] is Some);
            }
        } else if c == col && r2 > h {
            assert(g[idx(col, r2)] is Some);
            assert(g[idx(col, h)] is Some);
        } else {
            assert(g[idx(c, r2)] is Some);
            assert(g[idx(c, r1)] is Some);
        }
    }
    assert forall|r: int| 0 <= r < h + 1 implies (#[trigger] g2[idx(col, r)]) is Some by {
        if r < h {
            assert(g[idx(col, r)] is Some);
        }
    }
    if h + 1 < 6 {
        if g[idx(col, h + 1)] is Some {
            assert(g[idx(col, h)] is Some);
        }
    }
    lemma_height_char(g2, col, h + 1);
    assert forall|c: int| 0 <= c < 7 && c != col implies height(g2, c) == height(g, c) by {
        lemma_height_props(g, c);
        let hc = height(g, c);
        assert forall|r: int| 0 <= r < hc implies (#[trigger] g2[idx(c, r)]) is Some by {
            assert(g[idx(c, r)] is Some);
        }
        lemma_height_char(g2, c, hc);
    }
}

/// Length of the run of `p`'s pieces through `(col, row)` along direction
/// `i`, the cell itself included. Seven steps exceed every line of the
/// board, so the run is counted whole.
pub open spec fn run_len(g: Seq<Option<Player>>, col: int, row: int, p: Player, i: int) -> int {
    let (dc, dr) = direction(i);
    (ray(g, col, row, -dc, -dr, p, 7) + ray(g, col, row, dc, dr, p, 7) + 1) as int
}

/// The two ends of the run of `p`'s pieces through `(col, row)` along
/// direction `i`.
pub open spec fn run_ends(g: Seq<Option<Player>>, col: int, row: int, p: Player, i: int) -> Line {
    let (dc, dr) = direction(i);
    let b = ray(g, col, row, -dc, -dr, p, 7);
    let f = ray(g, col, row, dc, dr, p, 7);
    (col - dc * b, row - dr * b, col + dc * f, row + dr * f)
}

/// A bounded count is the longer count, cut at the bound.
proof fn lemma_ray_bound(
    g: Seq<Option<Player>>,
    col: int,
    row: int,
    dc: int,
    dr: int,
    p: Player,
    n: nat,
    m: nat,
)
    requires
        n <= m,
    ensures
        ray(g, col, row, dc, dr, p, n) == if ray(g, col, row, dc, dr, p, m) < n {
            ray(g, col, row, dc, dr, p, m)
        } else {
            n as nat
        },
    decreases n,
{
    if n > 0 && holds(g, col + dc, row + dr, p) {
        lemma_ray_bound(g, col + dc, row + dr, dc, dr, p, (n - 1) as nat, (m - 1) as nat);
    }
}

/// In one direction, the scan finds a line exactly when the run through
/// the cell is four or longer, and a run of exactly four is found end to end.
proof fn lemma_line_in(g: Seq<Option<Player>>, col: int, row: int, p: Player, i: int)
    requires
        0 <= i < 4,
    ensures
        line_in(g, col, row, p, i) is Some <==> run_len(g, col, row, p, i) >= 4,
        run_len(g, col, row, p, i) == 4 ==> line_in(g, col, row, p, i) == Some(
            run_ends(g, col, row, p, i),
        ),
{
    let (dc, dr) = direction(i);
    let b = ray(g, col, row, -dc, -dr, p, 3);
    lemma_ray_bound(g, col, row, -dc, -dr, p, 3, 7);
    lemma_ray_bound(g, col, row, dc, dr, p, (3 - b) as nat, 7);
}

/// Scanning directions `k..4` finds a line exactly when one of them has
/// one, and the line found is that of the first such direction.
proof fn lemma_line_through(g: Seq<Option<Player>>, col: int, row: int, p: Player, k: int)
    requires
        0 <= k <= 4,
    ensures
        line_through(g, col, row, p, k) is Some <==> exists|i: int|
            k <= i < 4 && (#[trigger] line_in(g, col, row, p, i)) is Some,
        forall|i: int|
            k <= i < 4 && (#[trigger] line_in(g, col, row, p, i)) is Some && (forall|j: int|
                k <= j < i ==> (#[trigger] line_in(g, col, row, p, j)) is None) ==> line_through(
                g,
                col,
                row,
                p,
                k,
            ) == line_in(g, col, row, p, i),
    decreases 4 - k,
{
    if k < 4 {
        lemma_line_through(g, col, row, p, k + 1);
    }
}

/// Dropping a piece into a column that is not full wins exactly when, in
/// some direction, the mover's run through the new piece reaches four.
/// So a move that makes at most three in a row in every direction passes.
/// When the move makes a run of exactly four in some direction, and less
/// than four in the directions examined before it (vertical, rising
/// diagonal, horizontal, falling diagonal), the line reported runs from
/// one end of that run to the other.
pub proof fn lemma_four_in_a_row(g: GameView, col: int)
    requires
        g.grid.len() == 42,
        stacked(g.grid),
        0 <= col < 7,
        height(g.grid, col) < 6,
    ensures
        ({
            let a = after_move(g, col).grid;
            let h = height(g.grid, col);
            &&& winning_line(g, col) is Some <==> exists|i: int|
                0 <= i < 4 && #[trigger] run_len(a, col, h, g.mover, i) >= 4
            &&& forall|i: int|
                0 <= i < 4 && #[trigger] run_len(a, col, h, g.mover, i) == 4 && (forall|j: int|
                    0 <= j < i ==> #[trigger] run_len(a, col, h, g.mover, j) < 4) ==> winning_line(
                    g,
                    col,
                ) == Some(run_ends(a, col, h, g.mover, i))
        }),
{
    let a = after_move(g, col).grid;
    let h = height(g.grid, col);
    let p = g.mover;
    assert forall|i: int| 0 <= i < 4 implies (#[trigger] line_in(a, col, h, p, i) is Some
        <==> run_len(a, col, h, p, i) >= 4) && (run_len(a, col, h, p, i) == 4 ==> line_in(
        a,
        col,
        h,
        p,
        i,
    ) == Some(run_ends(a, col, h, p, i))) by {
        lemma_line_in(a, col, h, p, i);
    }
    lemma_line_through(a, col, h, p, 0);
    if exists|i: int| 0 <= i < 4 && #[trigger] run_len(a, col, h, p, i) >= 4 {
        let i = choose|i: int| 0 <= i < 4 && #[trigger] run_len(a, col, h, p, i) >= 4;
        assert(line_in(a, col, h, p, i) is Some);
    }
    if exists|i: int| 0 <= i < 4 && (#[trigger] line_in(a, col, h, p, i)) is Some {
        let i = choose|i: int| 0 <= i < 4 && (#[trigger] line_in(a, col, h, p, i)) is Some;
        assert(run_len(a, col, h, p, i) >= 4);
    }
    assert forall|i: int|
        0 <= i < 4 && #[trigger] run_len(a, col, h, p, i) == 4 && (forall|j: int|
            0 <= j < i ==> #[trigger] run_len(a, col, h, p, j) < 4) implies winning_line(g, col)
        == Some(run_ends(a, col, h, p, i)) by {
        assert forall|j: int| 0 <= j < i implies (#[trigger] line_in(a, col, h, p, j)) is None by {
            assert(run_len(a, col, h, p, j) < 4);
        }
        assert(line_in(a, col, h, p, i) == Some(run_ends(a, col, h, p, i)));
    }
}

/// `h` is the height of column `col` exactly when the cells below `h` are
/// occupied and the cell at `h`, if any, is empty.
pub proof fn lemma_height_char(g: Seq<Option<Player>>, col: int, h: int)
    requires
        0 <= h <= 6,
        forall|r: int| 0 <= r < h ==> (#[trigger] g[idx(col, r)]) is Some,
        h < 6 ==> g[idx(col, h)] is None,
    ensures
        height(g, col) == h,
{
    lemma_first_empty_from(g, col, 0, h);
}

proof fn lemma_first_empty_from(g: Seq<Option<Player>>, col: int, row: int, h: int)
    requires
        0 <= row <= h <= 6,
        forall|r: int| row <= r < h ==> (#[trigger] g[idx(col, r)]) is Some,
        h < 6 ==> g[idx(col, h)] is None,
    ensures
        first_empty(g, col, row) == h,
    decreases h - row,
{
    if row < h {
        assert(g[idx(col, row)] is Some);
        lemma_first_empty_from(g, col, row + 1, h);
    }
}

/// A game of connect four on a board of 7 columns and 6 rows.
#[derive(Clone, Copy)]
pub struct Game {
    player_turn: Memory,
    grid: [Option<Player>; CELLS],
}

impl View for Game {
    type V = GameView;

    closed spec fn view(&self) -> GameView {
        GameView {
            grid: self.grid@,
            mover: self.player_turn.mover(),
            starter: self.player_turn.starter(),
        }
    }
}

impl Game {
    pub const COL: usize = 7;

    pub const ROW: usize = 6;

    /// The board holds 42 cells and no piece floats.
    pub open spec fn wf(&self) -> bool {
        self@.grid.len() == 42 && stacked(self@.grid)
    }

    /// `p` has a piece at `(col, row)`; false off the board.
    fn holds_at(&self, col: i64, row: i64, p: Player) -> (b: bool)
        requires
            self.wf(),
        ensures
            b == holds(self@.grid, col as int, row as int, p),
    {
        if 0 <= col && col < 7 && 0 <= row && row < 6 {
            match self.grid[(col * 6 + row) as usize] {
                Some(q) => q == p,
                None => false,
            }
        } else {
            false
        }
    }

    /// Counts, up to `n`, the pieces of `p` in a row from one step after
    /// `(col, row)` in direction `(dc, dr)`; also returns the last cell
    /// counted (`(col, row)` itself when none is).
    fn reach(&self, col: i64, row: i64, dc: i64, dr: i64, p: Player, n: i64) -> (res: (i64, i64, i64))
        requires
            self.wf(),
            0 <= col < 7,
            0 <= row < 6,
            -1 <= dc <= 1,
            -1 <= dr <= 1,
            0 <= n <= 3,
        ensures
            0 <= res.0 <= n,
            res.0 == ray(self@.grid, col as int, row as int, dc as int, dr as int, p, n as nat),
            res.1 == col + dc * res.0,
            res.2 == row + dr * res.0,
            on_board(res.1 as int, res.2 as int),
    {
        let mut k: i64 = 0;
        let mut c: i64 = col;
        let mut r: i64 = row;
        while k < n && self.holds_at(c + dc, r + dr, p)
            invariant
                self.wf(),
                0 <= k <= n <= 3,
                -1 <= dc <= 1,
                -1 <= dr <= 1,
                on_board(c as int, r as int),
                c == col + dc * k,
                r == row + dr * k,
                ray(self@.grid, col as int, row as int, dc as int, dr as int, p, n as nat) == k + ray(
                    self@.grid,
                    c as int,
                    r as int,
                    dc as int,
                    dr as int,
                    p,
                    (n - k) as nat,
                ),
            decreases n - k,
        {
            proof {
                assert(col + dc * (k + 1) == col + dc * k + dc) by (nonlinear_arith);
                assert(row + dr * (k + 1) == row + dr * k + dr) by (nonlinear_arith);
            }
            k += 1;
            c += dc;
            r += dr;
        }
        (k, c, r)
    }

    /// The direction examined in turn `i`.
    fn dir(i: usize) -> (d: (i64, i64))
        requires
            i < 4,
        ensures
            (d.0 as int, d.1 as int) == direction(i as int),
    {
        if i == 0 {
            (0, -1)
        } else if i == 1 {
            (1, 1)
        } else if i == 2 {
            (1, 0)
        } else {
            (1, -1)
        }
    }

    /// The line of four through the piece of `p` at `(col, row)` in
    /// direction `i`, as `[start_col, start_row, end_col, end_row]`.
    fn line_in_dir(&self, col: usize, row: usize, p: Player, i: usize) -> (r: Option<[u8; 4]>)
        requires
            self.wf(),
            col < 7,
            row < 6,
            i < 4,
        ensures
            r is None <==> line_in(self@.grid, col as int, row as int, p, i as int) is None,
            r matches Some(l) ==> line_in(self@.grid, col as int, row as int, p, i as int) == Some(
                (l[0] as int, l[1] as int, l[2] as int, l[3] as int),
            ),
    {
        let c = col as i64;
        let w = row as i64;
        let (dx, dy) = Self::dir(i);
        let (b, bc, br) = self.reach(c, w, -dx, -dy, p, 3);
        let (f, fc, fr) = self.reach(c, w, dx, dy, p, 3 - b);
        if b + f == 3 {
            proof {
                assert((-dx) * b == -(dx * b)) by (nonlinear_arith);
                assert((-dy) * b == -(dy * b)) by (nonlinear_arith);
            }
            let line: [u8; 4] = [bc as u8, br as u8, fc as u8, fr as u8];
            Some(line)
        } else {
            None
        }
    }

    /// Looks for a line of four through the piece of `p` at `(col, row)`.
    fn connected(&self, col: usize, row: usize, p: Player) -> (r: PlayResult)
        requires
            self.wf(),
            col < 7,
            row < 6,
        ensures
            reports(r, line_through(self@.grid, col as int, row as int, p, 0)),
    {
        let mut i: usize = 0;
        while i < 4
            invariant
                self.wf(),
                i <= 4,
                col < 7,
                row < 6,
                line_through(self@.grid, col as int, row as int, p, 0) == line_through(
                    self@.grid,
                    col as int,
                    row as int,
                    p,
                    i as int,
                ),
            decreases 4 - i,
        {
            if let Some(line) = self.line_in_dir(col, row, p, i) {
                return PlayResult::Win(line);
            }
            i += 1;
        }
        PlayResult::Pass
    }

    /// Number of pieces in column `col`.
    pub fn col_height(&self, col: usize) -> (h: usize)
        requires
            self.wf(),
            col < 7,
        ensures
            h == height(self@.grid, col as int),
            h <= 6,
    {
        let base = col * Self::ROW;
        let mut h: usize = 0;
        while h < Self::ROW && self.grid[base + h].is_some()
            invariant
                self.wf(),
                col < 7,
                base == col * 6,
                h <= 6,
                forall|r: int| 0 <= r < h ==> (#[trigger] self@.grid[idx(col as int, r)]) is Some,
            decreases 6 - h,
        {
            h += 1;
        }
        proof {
            lemma_height_char(self@.grid, col as int, h as int);
        }
        h
    }

    /// Drops a piece of the player to move into column `col`.
    ///
    /// On a full column nothing changes and the result is `Error`. Otherwise
    /// the piece lands on the lowest empty cell, the other player is to move,
    /// and the result is `Win` with the ends of the line of four that the
    /// piece completes, or `Pass`.
    pub fn play_col(&mut self, col: usize) -> (r: PlayResult)
        requires
            old(self).wf(),
            col < 7,
        ensures
            final(self).wf(),
            height(old(self)@.grid, col as int) == 6 ==> r is Error && final(self)@ == old(self)@,
            height(old(self)@.grid, col as int) < 6 ==> final(self)@ == after_move(
                old(self)@,
                col as int,
            ) && reports(r, winning_line(old(self)@, col as int)),
            height(old(self)@.grid, col as int) < 6 ==> height(final(self)@.grid, col as int)
                == height(old(self)@.grid, col as int) + 1,
            forall|c: int|
                0 <= c < 7 ==> height(final(self)@.grid, c) >= height(old(self)@.grid, c),
    {
        let h = self.col_height(col);
        if h == Self::ROW {
            return PlayResult::Error;
        }
        proof {
            lemma_drop(self@.grid, col as int, self@.mover);
        }
        let p = self.player_turn.player();
        self.grid[col * Self::ROW + h] = Some(p);
        let connect = self.connected(col, h, p);
        self.player_turn = self.player_turn.passed();
        proof {
            assert(self@.grid =~= after_move(old(self)@, col as int).grid);
        }
        connect
    }

    /// Whether column `col` is full.
    pub fn col_full(&self, col: usize) -> (r: bool)
        requires
            self.wf(),
            col < 7,
        ensures
            r == (height(self@.grid, col as int) == 6),
    {
        self.col_height(col) == Self::ROW
    }

    /// A copy of all cells, column by column from the bottom.
    pub fn grid(&self) -> (r: [Option<Player>; CELLS])
        ensures
            r@ == self@.grid,
    {
        self.grid
    }

    /// The player to move.
    pub fn player_turn(&self) -> (r: Player)
        ensures
            r == self@.mover,
    {
        self.player_turn.player()
    }

    /// Empties the board for a new game, which the player who did not open
    /// the last one opens.
    pub fn restart(&mut self)
        ensures
            final(self).wf(),
            restarted(old(self)@, final(self)@),
    {
        self.grid = [None; CELLS];
        self.player_turn = self.player_turn.reopened();
        proof {
            assert(self@.grid =~= empty_grid());
        }
    }
    /// Whether every column is full.
    pub fn grid_full(&self) -> (r: bool)
        requires
            self.wf(),
        ensures
            r == (forall|c: int| 0 <= c < 7 ==> height(self@.grid, c) == 6),
    {
        let mut c: usize = 0;
        while c < Self::COL
            invariant
                self.wf(),
                c <= 7,
                forall|k: int| 0 <= k < c ==> height(self@.grid, k) == 6,
            decreases 7 - c,
        {
            if !self.col_full(c) {
                return false;
            }
            c += 1;
        }
        true
    }

    /// The columns that have room for a piece, in increasing order.
    pub fn open_columns(&self) -> (r: Vec<usize>)
        requires
            self.wf(),
        ensures
            lists_open(self@.grid, r@),
    {
        let mut r: Vec<usize> = Vec::new();
        let mut c: usize = 0;
        while c < Self::COL
            invariant
                self.wf(),
                c <= 7,
                forall|i: int| 0 <= i < r@.len() ==> is_open(self@.grid, #[trigger] r@[i] as int),
                forall|i: int| 0 <= i < r@.len() ==> #[trigger] r@[i] < c,
                forall|i: int, j: int| 0 <= i < j < r@.len() ==> r@[i] < r@[j],
                forall|k: int| 0 <= k < c && is_open(self@.grid, k) ==> r@.contains(k as usize),
            decreases 7 - c,
        {
            if !self.col_full(c) {
                let ghost prev = r@;
                r.push(c);
                proof {
                    lemma_height_props(self@.grid, c as int);
                    assert(r@[r@.len() - 1] == c);
                    assert forall|i: int| 0 <= i < prev.len() implies r@[i] == prev[i] by {}
                    assert forall|k: int|
                        0 <= k < c && is_open(self@.grid, k) implies r@.contains(k as usize) by {
                        let j = choose|j: int| 0 <= j < prev.len() && prev[j] == k as usize;
                        assert(r@[j] == k as usize);
                    }
                }
            }
            c += 1;
        }
        r
    }
}

impl Default for Game {
    /// An empty board; red opens.
    fn default() -> (r: Self)
        ensures
            r.wf(),
            r@.grid == empty_grid(),
            r@.mover == Player::Red,
            r@.starter == Player::Red,
    {
        let r = Game { player_turn: Memory::RedRed, grid: [None; CELLS] };
        proof {
            assert(r@.grid =~= empty_grid());
        }
        r
    }
}

} // verus!
