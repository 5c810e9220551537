//! The Minesweeper game engine: a rectangular grid of cells, deferred mine
//! placement on the first reveal, flood-fill reveal, chord reveal, flagging,
//! and win/loss detection.
//!
//! Every operation is specified against `GameModel`, the mathematical view of
//! an engine: the cell sequence, the status machine and the aggregate
//! counters. `GameModel::inv` is the engine invariant that every public
//! operation preserves; among other things it ties the counters to the cell
//! sequence, the `Won` status to "every safe cell is revealed", and every
//! numbered hint to the true count of adjacent mines.

use std::collections::VecDeque;

use vstd::prelude::*;
use vstd::arithmetic::div_mod::lemma_fundamental_div_mod;
use crate::difficulty::DifficultySettings;

verus! {

/// The state machine of a game: `Ready` (no mines placed, timer not started),
/// `Running` (after the first reveal), and the terminal `Won` / `Lost`.
#[derive(Clone, Copy, Debug, PartialEq, Eq, Structural)]
pub enum GameStatus {
    Ready,
    Running,
    Won,
    Lost,
}

/// Read-only projection of one cell, as shown to a renderer. The `mine` and
/// `adjacent` fields are only meaningful once mines have been placed; before
/// that the board is mine-free.
#[derive(Clone, Copy, Debug, PartialEq, Eq, Structural)]
pub struct CellView {
    pub revealed: bool,
    pub flagged: bool,
    pub mine: bool,
    pub adjacent: u8,
}

/// Mathematical view of a `Game`.
pub struct GameModel {
    pub settings: DifficultySettings,
    pub cells: Seq<CellView>,
    pub status: GameStatus,
    pub mines_placed: bool,
    pub revealed_safe: int,
    pub flagged: int,
    pub started_at: Option<u64>,
    pub finished_at: Option<u64>,
    pub rng: u64,
}

/// The game engine. All mutation goes through `reveal`, `chord_reveal`,
/// `toggle_flag`, `start_with_mines` and `reset`; all reading through `cell`,
/// `status`, `settings`, `flags_left` and `elapsed_ms`.
pub struct Game {
    settings: DifficultySettings,
    cells: Vec<CellView>,
    status: GameStatus,
    mines_placed: bool,
    revealed_safe_cells: usize,
    flagged_cells: usize,
    started_at_ms: Option<u64>,
    finished_at_ms: Option<u64>,
    rng_state: u64,
}

impl View for Game {
    type V = GameModel;

    closed spec fn view(&self) -> GameModel {
        GameModel {
            settings: self.settings,
            cells: self.cells@,
            status: self.status,
            mines_placed: self.mines_placed,
            revealed_safe: self.revealed_safe_cells as int,
            flagged: self.flagged_cells as int,
            started_at: self.started_at_ms,
            finished_at: self.finished_at_ms,
            rng: self.rng_state,
        }
    }
}

// ---------------------------------------------------------------------------
// Counting cells
// ---------------------------------------------------------------------------

/// Number of cells of `s` satisfying `p`.
pub open spec fn count_if(s: Seq<CellView>, p: spec_fn(CellView) -> bool) -> int
    decreases s.len(),
{
    if s.len() == 0 {
        0
    } else {
        count_if(s.drop_last(), p) + (if p(s.last()) {
            1int
        } else {
            0int
        })
    }
}

/// The predicate "is a mine", as a function value, so that every mention of
/// the mine count refers to one and the same predicate.
pub open spec fn mine_p() -> spec_fn(CellView) -> bool {
    |c: CellView| c.mine
}

/// The predicate "is flagged".
pub open spec fn flag_p() -> spec_fn(CellView) -> bool {
    |c: CellView| c.flagged
}

/// The predicate "is a revealed safe cell".
pub open spec fn safe_revealed_p() -> spec_fn(CellView) -> bool {
    |c: CellView| c.revealed && !c.mine
}

/// The predicate "is not yet revealed".
pub open spec fn unrevealed_p() -> spec_fn(CellView) -> bool {
    |c: CellView| !c.revealed
}

/// Number of mines on the board.
pub open spec fn count_mines(s: Seq<CellView>) -> int {
    count_if(s, mine_p())
}

/// Number of flagged cells.
pub open spec fn count_flagged(s: Seq<CellView>) -> int {
    count_if(s, flag_p())
}

/// Number of revealed non-mine cells.
pub open spec fn count_revealed_safe(s: Seq<CellView>) -> int {
    count_if(s, safe_revealed_p())
}

/// Number of unrevealed cells; used as a termination measure for flood fill.
pub open spec fn count_unrevealed(s: Seq<CellView>) -> int {
    count_if(s, unrevealed_p())
}

pub proof fn lemma_count_if_bound(s: Seq<CellView>, p: spec_fn(CellView) -> bool)
    ensures
        0 <= count_if(s, p) <= s.len(),
    decreases s.len(),
{
    if s.len() > 0 {
        lemma_count_if_bound(s.drop_last(), p);
    }
}

/// Updating one cell changes a count exactly by the difference of the
/// predicate on the new and the old cell.
pub proof fn lemma_count_if_update(
    s: Seq<CellView>,
    p: spec_fn(CellView) -> bool,
    i: int,
    v: CellView,
)
    requires
        0 <= i < s.len(),
    ensures
        count_if(s.update(i, v), p) == count_if(s, p) + (if p(v) {
            1int
        } else {
            0int
        }) - (if p(s[i]) {
            1int
        } else {
            0int
        }),
    decreases s.len(),
{
    let t = s.update(i, v);
    if i == s.len() - 1 {
        assert(t.drop_last() =~= s.drop_last());
    } else {
        assert(t.drop_last() =~= s.drop_last().update(i, v));
        lemma_count_if_update(s.drop_last(), p, i, v);
    }
}

/// A count is zero when no cell satisfies the predicate.
pub proof fn lemma_count_if_zero(s: Seq<CellView>, p: spec_fn(CellView) -> bool)
    requires
        forall|i: int| 0 <= i < s.len() ==> !p(#[trigger] s[i]),
    ensures
        count_if(s, p) == 0,
    decreases s.len(),
{
    if s.len() > 0 {
        lemma_count_if_zero(s.drop_last(), p);
    }
}

/// Two boards whose cells agree under `p` have the same count.
pub proof fn lemma_count_if_congruent(
    s1: Seq<CellView>,
    s2: Seq<CellView>,
    p: spec_fn(CellView) -> bool,
)
    requires
        s1.len() == s2.len(),
        forall|i: int| 0 <= i < s1.len() ==> p(#[trigger] s1[i]) == p(#[trigger] s2[i]),
    ensures
        count_if(s1, p) == count_if(s2, p),
    decreases s1.len(),
{
    if s1.len() > 0 {
        lemma_count_if_congruent(s1.drop_last(), s2.drop_last(), p);
    }
}

/// Counts of two mutually exclusive predicates sum to at most the board size.
pub proof fn lemma_count_if_disjoint(
    s: Seq<CellView>,
    p: spec_fn(CellView) -> bool,
    q: spec_fn(CellView) -> bool,
)
    requires
        forall|c: CellView| !(#[trigger] p(c) && q(c)),
    ensures
        count_if(s, p) + count_if(s, q) <= s.len(),
    decreases s.len(),
{
    if s.len() > 0 {
        lemma_count_if_disjoint(s.drop_last(), p, q);
    }
}

// ---------------------------------------------------------------------------
// The grid and its neighborhoods
// ---------------------------------------------------------------------------

/// Column of the cell at row-major index `i` on a grid `w` cells wide.
pub open spec fn xof(i: int, w: int) -> int {
    i % w
}

/// Row of the cell at row-major index `i` on a grid `w` cells wide.
pub open spec fn yof(i: int, w: int) -> int {
    i / w
}

/// Whether `x`, `y` is a position of a `w` by `h` grid.
pub open spec fn in_grid(w: int, h: int, x: int, y: int) -> bool {
    0 <= x < w && 0 <= y < h
}

/// Whether distinct cells `i` and `j` touch (Moore neighborhood: the up to 8
/// cells whose column and row each differ by at most one).
pub open spec fn is_neighbor(w: int, h: int, i: int, j: int) -> bool {
    &&& 0 <= i < w * h
    &&& 0 <= j < w * h
    &&& i != j
    &&& -1 <= xof(i, w) - xof(j, w) <= 1
    &&& -1 <= yof(i, w) - yof(j, w) <= 1
}

/// Number of cells `j` below `n` that neighbor `i` and satisfy `p`.
pub open spec fn count_nbr_if(
    s: Seq<CellView>,
    w: int,
    h: int,
    i: int,
    n: int,
    p: spec_fn(CellView) -> bool,
) -> int
    decreases n,
{
    if n <= 0 {
        0
    } else {
        count_nbr_if(s, w, h, i, n - 1, p) + (if is_neighbor(w, h, i, n - 1) && p(s[n - 1]) {
            1int
        } else {
            0int
        })
    }
}

/// Number of mines among the neighbors of cell `i`: what a correct hint shows.
pub open spec fn mine_nbrs(s: Seq<CellView>, w: int, h: int, i: int) -> int {
    count_nbr_if(s, w, h, i, s.len() as int, mine_p())
}

/// Number of flags among the neighbors of cell `i`: what chording compares
/// with the hint.
pub open spec fn flag_nbrs(s: Seq<CellView>, w: int, h: int, i: int) -> int {
    count_nbr_if(s, w, h, i, s.len() as int, flag_p())
}

pub proof fn lemma_count_nbr_if_bound(
    s: Seq<CellView>,
    w: int,
    h: int,
    i: int,
    n: int,
    p: spec_fn(CellView) -> bool,
)
    ensures
        0 <= count_nbr_if(s, w, h, i, n, p) <= (if n >= 0 {
            n
        } else {
            0int
        }),
    decreases n,
{
    if n > 0 {
        lemma_count_nbr_if_bound(s, w, h, i, n - 1, p);
    }
}

/// Neighbor counts depend only on how the cells look under `p`.
pub proof fn lemma_count_nbr_if_congruent(
    s1: Seq<CellView>,
    s2: Seq<CellView>,
    w: int,
    h: int,
    i: int,
    n: int,
    p: spec_fn(CellView) -> bool,
)
    requires
        s1.len() == s2.len(),
        n <= s1.len(),
        forall|k: int| 0 <= k < s1.len() ==> p(#[trigger] s1[k]) == p(#[trigger] s2[k]),
    ensures
        count_nbr_if(s1, w, h, i, n, p) == count_nbr_if(s2, w, h, i, n, p),
    decreases n,
{
    if n > 0 {
        lemma_count_nbr_if_congruent(s1, s2, w, h, i, n - 1, p);
    }
}

/// A neighbor of `i` is one of the eight indices around `i`.
pub proof fn lemma_neighbor_values(w: int, h: int, i: int, j: int)
    requires
        1 <= w,
        1 <= h,
        is_neighbor(w, h, i, j),
    ensures
        j == i - w - 1 || j == i - w || j == i - w + 1 || j == i - 1 || j == i + 1 || j == i + w
            - 1 || j == i + w || j == i + w + 1,
{
    let x = xof(i, w);
    let y = yof(i, w);
    let a = xof(j, w);
    let b = yof(j, w);
    lemma_fundamental_div_mod(i, w);
    lemma_fundamental_div_mod(j, w);
    assert(i == w * y + x && j == w * b + a);
    assert(j == i + w * (b - y) + (a - x)) by (nonlinear_arith)
        requires
            i == w * y + x,
            j == w * b + a,
    ;
    if b - y == -1 {
        assert(w * (b - y) == -w) by (nonlinear_arith)
            requires
                b - y == -1,
        ;
    } else if b - y == 0 {
        assert(w * (b - y) == 0) by (nonlinear_arith)
            requires
                b - y == 0,
        ;
    } else {
        assert(b - y == 1);
        assert(w * (b - y) == w) by (nonlinear_arith)
            requires
                b - y == 1,
        ;
    }
}

/// The indicator of candidate index `c` lying in `[0, n)`.
pub open spec fn cand_ind(c: int, n: int) -> int {
    if 0 <= c < n {
        1int
    } else {
        0int
    }
}

/// How many of the eight candidate neighbor indices of `i` lie in `[0, n)`.
pub open spec fn cand_count(w: int, i: int, n: int) -> int {
    cand_ind(i - w - 1, n) + cand_ind(i - w, n) + cand_ind(i - w + 1, n) + cand_ind(i - 1, n)
        + cand_ind(i + 1, n) + cand_ind(i + w - 1, n) + cand_ind(i + w, n) + cand_ind(i + w + 1, n)
}

proof fn lemma_count_nbr_le_cand(
    s: Seq<CellView>,
    w: int,
    h: int,
    i: int,
    n: int,
    p: spec_fn(CellView) -> bool,
)
    requires
        1 <= w,
        1 <= h,
    ensures
        count_nbr_if(s, w, h, i, n, p) <= cand_count(w, i, n),
    decreases n,
{
    if n > 0 {
        lemma_count_nbr_le_cand(s, w, h, i, n - 1, p);
        if is_neighbor(w, h, i, n - 1) && p(s[n - 1]) {
            lemma_neighbor_values(w, h, i, n - 1);
        }
    }
}

/// A cell has at most eight neighbors, so every neighbor count is at most 8.
pub proof fn lemma_count_nbr_le_8(
    s: Seq<CellView>,
    w: int,
    h: int,
    i: int,
    n: int,
    p: spec_fn(CellView) -> bool,
)
    requires
        1 <= w,
        1 <= h,
    ensures
        count_nbr_if(s, w, h, i, n, p) <= 8,
{
    lemma_count_nbr_le_cand(s, w, h, i, n, p);
}

/// A valid board has at least one mine and one safe cell, so both sides are
/// positive.
pub proof fn lemma_valid_dims(settings: DifficultySettings)
    requires
        settings.valid(),
    ensures
        1 <= settings.width,
        1 <= settings.height,
{
    assert(1 <= settings.width && 1 <= settings.height) by (nonlinear_arith)
        requires
            0 < (settings.width as int) * (settings.height as int),
    ;
}

// ---------------------------------------------------------------------------
// The model and its invariant
// ---------------------------------------------------------------------------

impl GameModel {
    pub open spec fn width(self) -> int {
        self.settings.width as int
    }

    pub open spec fn height(self) -> int {
        self.settings.height as int
    }

    pub open spec fn mines(self) -> int {
        self.settings.mines as int
    }

    /// Total number of cells.
    pub open spec fn total(self) -> int {
        self.width() * self.height()
    }

    /// Row-major index of position `x`, `y`.
    pub open spec fn idx(self, x: int, y: int) -> int {
        y * self.width() + x
    }

    pub open spec fn in_bounds(self, x: int, y: int) -> bool {
        in_grid(self.width(), self.height(), x, y)
    }

    /// Whether mutating operations are still accepted.
    pub open spec fn playing(self) -> bool {
        self.status == GameStatus::Ready || self.status == GameStatus::Running
    }

    /// The engine invariant.
    pub open spec fn inv(self) -> bool {
        &&& self.settings.valid()
        &&& self.cells.len() == self.total()
        &&& self.flagged == count_flagged(self.cells)
        &&& self.revealed_safe == count_revealed_safe(self.cells)
        &&& (self.mines_placed <==> self.status != GameStatus::Ready)
        &&& (self.started_at is Some <==> self.mines_placed)
        &&& (self.finished_at is Some <==> (self.status == GameStatus::Won || self.status
            == GameStatus::Lost))
        &&& (!self.mines_placed ==> forall|i: int|
            0 <= i < self.cells.len() ==> !(#[trigger] self.cells[i]).mine
                && !self.cells[i].revealed && self.cells[i].adjacent == 0)
        &&& (self.mines_placed ==> count_mines(self.cells) == self.mines())
        &&& self.hints_ok()
        &&& (self.status == GameStatus::Won ==> self.revealed_safe == self.total()
            - self.mines())
        &&& (self.playing() ==> self.revealed_safe < self.total() - self.mines())
        &&& (self.status == GameStatus::Won ==> forall|i: int|
            0 <= i < self.cells.len() && (#[trigger] self.cells[i]).mine
                ==> self.cells[i].flagged)
        &&& (self.status == GameStatus::Lost ==> forall|i: int|
            0 <= i < self.cells.len() && (#[trigger] self.cells[i]).mine
                ==> self.cells[i].revealed)
        &&& (self.status != GameStatus::Lost ==> forall|i: int|
            0 <= i < self.cells.len() && (#[trigger] self.cells[i]).mine
                ==> !self.cells[i].revealed)
        &&& (self.status != GameStatus::Lost ==> forall|i: int|
            0 <= i < self.cells.len() ==> !((#[trigger] self.cells[i]).revealed
                && self.cells[i].flagged))
    }

    /// Hint integrity: once mines are placed, every safe cell's `adjacent`
    /// field is the true number of neighboring mines, and mines carry 0.
    pub open spec fn hints_ok(self) -> bool {
        &&& (self.mines_placed ==> forall|i: int|
            0 <= i < self.cells.len() && !(#[trigger] self.cells[i]).mine
                ==> self.cells[i].adjacent == mine_nbrs(
                self.cells,
                self.width(),
                self.height(),
                i,
            ))
        &&& (forall|i: int|
            0 <= i < self.cells.len() && (#[trigger] self.cells[i]).mine ==> self.cells[i].adjacent
                == 0)
    }
}

// ---------------------------------------------------------------------------
// Randomness
// ---------------------------------------------------------------------------

/// Seed used by `Game::new`; `Game::new_seeded` lets a caller inject entropy.
pub const DEFAULT_RNG_SEED: u64 = 0x517c_c1b7_2722_0a95;

/// One step of the xorshift64 pseudo-random generator.
pub open spec fn xorshift64_step(v0: u64) -> u64 {
    let v1 = v0 ^ (v0 << 7);
    let v2 = v1 ^ (v1 >> 9);
    v2 ^ (v2 << 8)
}

/// Advances the xorshift64 state and reduces it below `max_exclusive`.
/// Deterministic in the state: the engine never reads a clock or an entropy
/// source itself.
pub fn random_usize(state: &mut u64, max_exclusive: usize) -> (r: usize)
    requires
        max_exclusive > 0,
    ensures
        *final(state) == xorshift64_step(*old(state)),
        r < max_exclusive,
        r as int == xorshift64_step(*old(state)) as int % max_exclusive as int,
{
    let mut v: u64 = *state;
    v = v ^ (v << 7u64);
    v = v ^ (v >> 9u64);
    v = v ^ (v << 8u64);
    *state = v;
    (v % (max_exclusive as u64)) as usize
}

// ---------------------------------------------------------------------------
// Construction and read-only access
// ---------------------------------------------------------------------------

/// The blank cell every board starts from.
pub open spec fn blank_cell() -> CellView {
    CellView { revealed: false, flagged: false, mine: false, adjacent: 0 }
}

/// What a freshly constructed board looks like: everything blank, counters
/// zero, timer unset, status `Ready`.
pub open spec fn fresh_model(settings: DifficultySettings, rng: u64) -> GameModel {
    GameModel {
        settings,
        cells: Seq::new((settings.width * settings.height) as nat, |i: int| blank_cell()),
        status: GameStatus::Ready,
        mines_placed: false,
        revealed_safe: 0,
        flagged: 0,
        started_at: None,
        finished_at: None,
        rng,
    }
}

impl Game {
    /// A fresh board for `settings`, with the given pseudo-random seed.
    pub fn new_seeded(settings: DifficultySettings, seed: u64) -> (g: Game)
        requires
            settings.valid(),
        ensures
            g.wf(),
            g@ == fresh_model(settings, seed),
    {
        proof {
            lemma_valid_dims(settings);
        }
        let total = settings.width * settings.height;
        let mut cells: Vec<CellView> = Vec::new();
        let mut i: usize = 0;
        while i < total
            invariant
                i <= total,
                cells@.len() == i,
                forall|k: int| 0 <= k < i ==> cells@[k] == blank_cell(),
            decreases total - i,
        {
            cells.push(CellView { revealed: false, flagged: false, mine: false, adjacent: 0 });
            i = i + 1;
        }
        let g = Game {
            settings,
            cells,
            status: GameStatus::Ready,
            mines_placed: false,
            revealed_safe_cells: 0,
            flagged_cells: 0,
            started_at_ms: None,
            finished_at_ms: None,
            rng_state: seed,
        };
        proof {
            assert(g@.cells =~= fresh_model(settings, seed).cells);
            lemma_count_if_zero(g@.cells, flag_p());
            lemma_count_if_zero(g@.cells, safe_revealed_p());
            lemma_count_if_zero(g@.cells, mine_p());
        }
        g
    }

    /// A fresh board for `settings`, with the built-in seed.
    pub fn new(settings: DifficultySettings) -> (g: Game)
        requires
            settings.valid(),
        ensures
            g.wf(),
            g@ == fresh_model(settings, DEFAULT_RNG_SEED),
    {
        Game::new_seeded(settings, DEFAULT_RNG_SEED)
    }

    /// The engine invariant, as a predicate on the engine itself.
    pub open spec fn wf(self) -> bool {
        self@.inv()
    }

    /// Replaces the whole state with a fresh board of the given settings;
    /// legal in every state. The pseudo-random stream carries over, so
    /// successive games differ.
    pub fn reset(&mut self, settings: DifficultySettings)
        requires
            settings.valid(),
        ensures
            final(self).wf(),
            final(self)@ == fresh_model(settings, old(self)@.rng),
    {
        let seed = self.rng_state;
        *self = Game::new_seeded(settings, seed);
    }

    /// The settings this board was built from.
    pub fn settings(&self) -> (s: &DifficultySettings)
        ensures
            s == self@.settings,
    {
        &self.settings
    }

    /// The current state of the status machine.
    pub fn status(&self) -> (st: GameStatus)
        ensures
            st == self@.status,
    {
        self.status
    }

    /// Mine count minus flag count; negative when the caller over-flags
    /// (deliberately not clamped, so a renderer can warn).
    pub fn flags_left(&self) -> (n: i32)
        requires
            self.wf(),
        ensures
            n as int == self@.mines() - self@.flagged,
    {
        proof {
            lemma_count_if_bound(self@.cells, flag_p());
        }
        self.settings.mines as i32 - self.flagged_cells as i32
    }

    /// Elapsed play time: 0 before the first reveal, frozen once finished,
    /// clamped at 0 against a caller-supplied `now_ms` that runs behind the
    /// recorded start.
    pub fn elapsed_ms(&self, now_ms: u64) -> (e: u64)
        ensures
            e as int == (match (self@.started_at, self@.finished_at) {
                (Some(start), Some(end)) => if end >= start {
                    end - start
                } else {
                    0int
                },
                (Some(start), None) => if now_ms >= start {
                    now_ms - start
                } else {
                    0int
                },
                _ => 0int,
            }),
    {
        match (self.started_at_ms, self.finished_at_ms) {
            (Some(start), Some(end)) => if end >= start {
                end - start
            } else {
                0
            },
            (Some(start), None) => if now_ms >= start {
                now_ms - start
            } else {
                0
            },
            _ => 0,
        }
    }

    /// Row-major index of `x`, `y`, or `None` when out of bounds.
    fn index(&self, x: usize, y: usize) -> (r: Option<usize>)
        requires
            self@.settings.valid(),
            self@.cells.len() == self@.total(),
        ensures
            r is Some <==> self@.in_bounds(x as int, y as int),
            r is Some ==> r->0 as int == self@.idx(x as int, y as int) && r->0
                < self@.cells.len(),
    {
        if x >= self.settings.width || y >= self.settings.height {
            return None;
        }
        proof {
            assert((y as int) * (self@.width()) + (x as int) < self@.width() * self@.height())
                by (nonlinear_arith)
                requires
                    0 <= (x as int) < self@.width(),
                    0 <= (y as int) < self@.height(),
            ;
        }
        Some(y * self.settings.width + x)
    }

    /// The view of the cell at `x`, `y`, or `None` when out of bounds. No
    /// side effects.
    pub fn cell(&self, x: usize, y: usize) -> (r: Option<CellView>)
        requires
            self.wf(),
        ensures
            r is Some <==> self@.in_bounds(x as int, y as int),
            r is Some ==> r->0 == self@.cells[self@.idx(x as int, y as int)],
    {
        let idx = match self.index(x, y) {
            Some(i) => i,
            None => { return None; },
        };
        Some(self.cells[idx])
    }

    /// Whether cells `a` and `b` are neighbors on this board.
    fn is_adjacent(&self, a: usize, b: usize) -> (r: bool)
        requires
            self@.settings.valid(),
            a < self@.total(),
            b < self@.total(),
        ensures
            r == is_neighbor(self@.width(), self@.height(), a as int, b as int),
    {
        proof {
            lemma_valid_dims(self@.settings);
        }
        let w = self.settings.width;
        let ax = a % w;
        let ay = a / w;
        let bx = b % w;
        let by = b / w;
        a != b && ax + 1 >= bx && bx + 1 >= ax && ay + 1 >= by && by + 1 >= ay
    }
}

// ---------------------------------------------------------------------------
// Flagging
// ---------------------------------------------------------------------------

/// The model after toggling the flag of the (unrevealed, in-bounds) cell at
/// `x`, `y`.
pub open spec fn spec_toggle_flag(m: GameModel, x: int, y: int) -> GameModel {
    let i = m.idx(x, y);
    let c = m.cells[i];
    GameModel {
        cells: m.cells.update(i, CellView { flagged: !c.flagged, ..c }),
        flagged: m.flagged + (if c.flagged {
            -1int
        } else {
            1int
        }),
        ..m
    }
}

/// Toggling a flag twice on the same cell restores the original model:
/// flagging is an involution on unrevealed cells, and `flagged_cells` returns
/// to its original value.
pub proof fn lemma_toggle_flag_twice(m: GameModel, x: int, y: int)
    requires
        m.inv(),
        m.in_bounds(x, y),
    ensures
        spec_toggle_flag(spec_toggle_flag(m, x, y), x, y) == m,
{
    let i = m.idx(x, y);
    lemma_valid_dims(m.settings);
    assert(0 <= i < m.cells.len()) by (nonlinear_arith)
        requires
            0 <= x < m.width(),
            0 <= y < m.height(),
            i == y * m.width() + x,
            m.cells.len() == m.width() * m.height(),
    ;
    let m2 = spec_toggle_flag(spec_toggle_flag(m, x, y), x, y);
    assert(m2.cells =~= m.cells);
}

impl Game {
    /// Flips the flag on an unrevealed cell. Returns `false`, changing
    /// nothing, when the game is over, the position is out of bounds, or the
    /// cell is already revealed. There is no limit on the number of flags.
    pub fn toggle_flag(&mut self, x: usize, y: usize) -> (changed: bool)
        requires
            old(self).wf(),
        ensures
            final(self).wf(),
            changed == (old(self)@.playing() && old(self)@.in_bounds(x as int, y as int) && !old(self)@.cells[old(self)@.idx(x as int, y as int)].revealed),
            !changed ==> final(self)@ == old(self)@,
            changed ==> final(self)@ == spec_toggle_flag(old(self)@, x as int, y as int),
    {
        if self.status == GameStatus::Won || self.status == GameStatus::Lost {
            return false;
        }
        let idx = match self.index(x, y) {
            Some(i) => i,
            None => { return false; },
        };
        let c = self.cells[idx];
        if c.revealed {
            return false;
        }
        proof {
            lemma_count_if_update(
                self@.cells,
                flag_p(),
                idx as int,
                CellView { flagged: !c.flagged, ..c },
            );
            lemma_count_if_update(
                self@.cells,
                safe_revealed_p(),
                idx as int,
                CellView { flagged: !c.flagged, ..c },
            );
            lemma_count_if_update(
                self@.cells,
                mine_p(),
                idx as int,
                CellView { flagged: !c.flagged, ..c },
            );
            lemma_count_if_bound(self@.cells, flag_p());
            lemma_count_if_bound(
                self@.cells.update(idx as int, CellView { flagged: !c.flagged, ..c }),
                flag_p(),
            );
        }
        if c.flagged {
            self.cells.set(idx, CellView { flagged: false, ..c });
            self.flagged_cells = self.flagged_cells - 1;
        } else {
            self.cells.set(idx, CellView { flagged: true, ..c });
            self.flagged_cells = self.flagged_cells + 1;
        }
        proof {
            let oldm = old(self)@;
            let newm = self@;
            if oldm.mines_placed {
                assert forall|i: int|
                    0 <= i < newm.cells.len() && !(#[trigger] newm.cells[i]).mine implies newm.cells[i].adjacent
                    == mine_nbrs(newm.cells, newm.width(), newm.height(), i) by {
                    lemma_count_nbr_if_congruent(
                        oldm.cells,
                        newm.cells,
                        newm.width(),
                        newm.height(),
                        i,
                        oldm.cells.len() as int,
                        mine_p(),
                    );
                }
            }
        }
        true
    }
}

// ---------------------------------------------------------------------------
// Board preparation: adjacency hints and mine placement
// ---------------------------------------------------------------------------

/// Everything of the model but the cell sequence agrees.
pub open spec fn same_except_cells(a: GameModel, b: GameModel) -> bool {
    &&& a.settings == b.settings
    &&& a.status == b.status
    &&& a.mines_placed == b.mines_placed
    &&& a.revealed_safe == b.revealed_safe
    &&& a.flagged == b.flagged
    &&& a.started_at == b.started_at
    &&& a.finished_at == b.finished_at
    &&& a.rng == b.rng
}

impl Game {
    /// Number of mines among the neighbors of `idx`.
    fn count_nbrs_mine(&self, idx: usize) -> (c: usize)
        requires
            self@.settings.valid(),
            self@.cells.len() == self@.total(),
            idx < self@.cells.len(),
        ensures
            c as int == mine_nbrs(self@.cells, self@.width(), self@.height(), idx as int),
            c <= 8,
    {
        proof {
            lemma_valid_dims(self@.settings);
            lemma_count_nbr_le_8(
                self@.cells,
                self@.width(),
                self@.height(),
                idx as int,
                self@.cells.len() as int,
                mine_p(),
            );
        }
        let n = self.cells.len();
        let mut c: usize = 0;
        let mut k: usize = 0;
        while k < n
            invariant
                k <= n,
                c <= k,
                n == self@.cells.len(),
                self@.settings.valid(),
                self@.cells.len() == self@.total(),
                idx < self@.cells.len(),
                c as int == count_nbr_if(
                    self@.cells,
                    self@.width(),
                    self@.height(),
                    idx as int,
                    k as int,
                    mine_p(),
                ),
            decreases n - k,
        {
            if self.is_adjacent(idx, k) && self.cells[k].mine {
                c = c + 1;
            }
            k = k + 1;
        }
        c
    }

    /// Number of flags among the neighbors of `idx`.
    fn count_nbrs_flagged(&self, idx: usize) -> (c: usize)
        requires
            self@.settings.valid(),
            self@.cells.len() == self@.total(),
            idx < self@.cells.len(),
        ensures
            c as int == flag_nbrs(self@.cells, self@.width(), self@.height(), idx as int),
            c <= 8,
    {
        proof {
            lemma_valid_dims(self@.settings);
            lemma_count_nbr_le_8(
                self@.cells,
                self@.width(),
                self@.height(),
                idx as int,
                self@.cells.len() as int,
                flag_p(),
            );
        }
        let n = self.cells.len();
        let mut c: usize = 0;
        let mut k: usize = 0;
        while k < n
            invariant
                k <= n,
                c <= k,
                n == self@.cells.len(),
                self@.settings.valid(),
                self@.cells.len() == self@.total(),
                idx < self@.cells.len(),
                c as int == count_nbr_if(
                    self@.cells,
                    self@.width(),
                    self@.height(),
                    idx as int,
                    k as int,
                    flag_p(),
                ),
            decreases n - k,
        {
            if self.is_adjacent(idx, k) && self.cells[k].flagged {
                c = c + 1;
            }
            k = k + 1;
        }
        c
    }

    /// Rewrites every `adjacent` field from the current mine layout: mines
    /// carry 0, every other cell the exact count of neighboring mines.
    fn recompute_adjacency(&mut self)
        requires
            old(self)@.settings.valid(),
            old(self)@.cells.len() == old(self)@.total(),
        ensures
            same_except_cells(final(self)@, old(self)@),
            final(self)@.cells.len() == old(self)@.cells.len(),
            forall|i: int|
                0 <= i < old(self)@.cells.len() ==> (#[trigger] final(self)@.cells[i]).mine == old(self)@.cells[i].mine && final(self)@.cells[i].revealed == old(self)@.cells[i].revealed
                    && final(self)@.cells[i].flagged == old(self)@.cells[i].flagged,
            forall|i: int|
                0 <= i < final(self)@.cells.len() && (#[trigger] final(self)@.cells[i]).mine
                    ==> final(self)@.cells[i].adjacent == 0,
            forall|i: int|
                0 <= i < final(self)@.cells.len() && !(#[trigger] final(self)@.cells[i]).mine
                    ==> final(self)@.cells[i].adjacent == mine_nbrs(
                    final(self)@.cells,
                    final(self)@.width(),
                    final(self)@.height(),
                    i,
                ),
    {
        let n = self.cells.len();
        let mut idx: usize = 0;
        while idx < n
            invariant
                idx <= n,
                n == self@.cells.len(),
                self@.settings.valid(),
                self@.cells.len() == self@.total(),
                same_except_cells(self@, old(self)@),
                forall|i: int|
                    0 <= i < n ==> (#[trigger] self@.cells[i]).mine == old(self)@.cells[i].mine
                        && self@.cells[i].revealed == old(self)@.cells[i].revealed
                        && self@.cells[i].flagged == old(self)@.cells[i].flagged,
                forall|i: int|
                    0 <= i < idx && (#[trigger] self@.cells[i]).mine ==> self@.cells[i].adjacent
                        == 0,
                forall|i: int|
                    0 <= i < idx && !(#[trigger] self@.cells[i]).mine ==> self@.cells[i].adjacent
                        == mine_nbrs(self@.cells, self@.width(), self@.height(), i),
            decreases n - idx,
        {
            let ghost pre = self@.cells;
            let c = self.cells[idx];
            if c.mine {
                self.cells.set(idx, CellView { adjacent: 0, ..c });
            } else {
                let cnt = self.count_nbrs_mine(idx);
                self.cells.set(idx, CellView { adjacent: cnt as u8, ..c });
            }
            proof {
                let cur = self@.cells;
                assert forall|i: int|
                    0 <= i < idx + 1 && !(#[trigger] cur[i]).mine implies cur[i].adjacent
                    == mine_nbrs(cur, self@.width(), self@.height(), i) by {
                    lemma_count_nbr_if_congruent(
                        pre,
                        cur,
                        self@.width(),
                        self@.height(),
                        i,
                        pre.len() as int,
                        mine_p(),
                    );
                }
            }
            idx = idx + 1;
        }
    }

    /// Places `settings.mines` mines on cells other than `excluded_idx` by a
    /// partial Fisher-Yates shuffle over the remaining indices, then rebuilds
    /// the hints. This is what makes the first click always safe.
    fn place_mines(&mut self, excluded_idx: usize)
        requires
            old(self)@.settings.valid(),
            old(self)@.cells.len() == old(self)@.total(),
            excluded_idx < old(self)@.cells.len(),
            forall|i: int|
                0 <= i < old(self)@.cells.len() ==> !(#[trigger] old(self)@.cells[i]).mine && !old(self)@.cells[i].revealed,
        ensures
            final(self)@.settings == old(self)@.settings,
            final(self)@.status == old(self)@.status,
            final(self)@.mines_placed == old(self)@.mines_placed,
            final(self)@.revealed_safe == old(self)@.revealed_safe,
            final(self)@.flagged == old(self)@.flagged,
            final(self)@.started_at == old(self)@.started_at,
            final(self)@.finished_at == old(self)@.finished_at,
            final(self)@.cells.len() == old(self)@.cells.len(),
            forall|i: int|
                0 <= i < old(self)@.cells.len() ==> !(#[trigger] final(self)@.cells[i]).revealed
                    && final(self)@.cells[i].flagged == old(self)@.cells[i].flagged,
            count_mines(final(self)@.cells) == final(self)@.mines(),
            !final(self)@.cells[excluded_idx as int].mine,
            forall|i: int|
                0 <= i < final(self)@.cells.len() && (#[trigger] final(self)@.cells[i]).mine
                    ==> final(self)@.cells[i].adjacent == 0,
            forall|i: int|
                0 <= i < final(self)@.cells.len() && !(#[trigger] final(self)@.cells[i]).mine
                    ==> final(self)@.cells[i].adjacent == mine_nbrs(
                    final(self)@.cells,
                    final(self)@.width(),
                    final(self)@.height(),
                    i,
                ),
    {
        let total = self.cells.len();
        let mut candidates: Vec<usize> = Vec::new();
        let mut k: usize = 0;
        while k < total
            invariant
                k <= total,
                excluded_idx < total,
                candidates@.len() == k - (if excluded_idx < k {
                    1int
                } else {
                    0int
                }),
                forall|j1: int, j2: int|
                    0 <= j1 < j2 < candidates@.len() ==> #[trigger] candidates@[j1]
                        < #[trigger] candidates@[j2],
                forall|j: int|
                    0 <= j < candidates@.len() ==> (#[trigger] candidates@[j]) < k
                        && candidates@[j] != excluded_idx,
            decreases total - k,
        {
            if k != excluded_idx {
                candidates.push(k);
            }
            k = k + 1;
        }
        proof {
            lemma_count_if_zero(self@.cells, mine_p());
        }
        let mines = self.settings.mines;
        let mut i: usize = 0;
        while i < mines
            invariant
                i <= mines,
                mines == self@.settings.mines,
                self@.settings == old(self)@.settings,
                self@.status == old(self)@.status,
                self@.mines_placed == old(self)@.mines_placed,
                self@.revealed_safe == old(self)@.revealed_safe,
                self@.flagged == old(self)@.flagged,
                self@.started_at == old(self)@.started_at,
                self@.finished_at == old(self)@.finished_at,
                total == self@.cells.len(),
                self@.cells.len() == self@.total(),
                self@.settings.valid(),
                excluded_idx < total,
                candidates@.len() == total - 1,
                forall|j1: int, j2: int|
                    0 <= j1 < candidates@.len() && 0 <= j2 < candidates@.len() && j1 != j2
                        ==> #[trigger] candidates@[j1] != #[trigger] candidates@[j2],
                forall|j: int|
                    0 <= j < candidates@.len() ==> (#[trigger] candidates@[j]) < total
                        && candidates@[j] != excluded_idx,
                forall|c: int|
                    0 <= c < total ==> ((#[trigger] self@.cells[c]).mine <==> (exists|j: int|
                        0 <= j < i && candidates@[j] == c)),
                count_mines(self@.cells) == i,
                forall|i2: int|
                    0 <= i2 < total ==> !(#[trigger] self@.cells[i2]).revealed
                        && self@.cells[i2].flagged == old(self)@.cells[i2].flagged
                        && self@.cells[i2].adjacent == old(self)@.cells[i2].adjacent,
            decreases mines - i,
        {
            proof {
                // mines < total, so i < mines <= total - 1 == candidates.len()
                assert(mines < total);
            }
            let remaining = candidates.len() - i;
            let r = random_usize(&mut self.rng_state, remaining);
            let pick = i + r;
            let ghost cand0 = candidates@;
            let ghost pre = self@.cells;
            let a = candidates[i];
            let b = candidates[pick];
            candidates.set(i, b);
            candidates.set(pick, a);
            let mine_idx = candidates[i];
            let c = self.cells[mine_idx];
            proof {
                // the prefix already turned into mines is untouched by the swap
                assert(forall|j: int| 0 <= j < i ==> candidates@[j] == cand0[j]);
                // mine_idx is not among the first i entries, so it is not yet a mine
                if self@.cells[mine_idx as int].mine {
                    let j = choose|j: int| 0 <= j < i && cand0[j] == mine_idx;
                    assert(cand0[j] != cand0[pick as int]);
                    assert(false);
                }
                lemma_count_if_update(
                    self@.cells,
                    mine_p(),
                    mine_idx as int,
                    CellView { mine: true, ..c },
                );
            }
            self.cells.set(mine_idx, CellView { mine: true, ..c });
            proof {
                let cur = self@.cells;
                assert(candidates@[i as int] == mine_idx);
                assert forall|cc: int| 0 <= cc < total implies ((#[trigger] cur[cc]).mine <==> (
                exists|j: int| 0 <= j < i + 1 && candidates@[j] == cc)) by {
                    if cur[cc].mine {
                        if cc == mine_idx {
                            assert(0 <= i < i + 1 && candidates@[i as int] == cc);
                        } else {
                            assert(pre[cc].mine);
                            let j = choose|j: int| 0 <= j < i && cand0[j] == cc;
                            assert(candidates@[j] == cand0[j]);
                            assert(0 <= j < i + 1 && candidates@[j] == cc);
                        }
                    } else {
                        assert(cc != mine_idx);
                        assert(!pre[cc].mine);
                        assert forall|j: int| 0 <= j < i + 1 implies candidates@[j] != cc by {
                            if j < i {
                                assert(candidates@[j] == cand0[j]);
                                assert(cand0[j] != cc) by {
                                    if cand0[j] == cc {
                                        assert(pre[cc].mine);
                                    }
                                }
                            } else {
                                assert(candidates@[j] == mine_idx);
                            }
                        }
                    }
                }
            }
            i = i + 1;
        }
        let ghost mid = self@.cells;
        self.recompute_adjacency();
        proof {
            lemma_count_if_congruent(mid, self@.cells, mine_p());
            assert(!mid[excluded_idx as int].mine);
            assert(!self@.cells[excluded_idx as int].mine);
        }
    }
}

// ---------------------------------------------------------------------------
// Endgame sweeps
// ---------------------------------------------------------------------------

impl Game {
    /// Marks every mine revealed, for display after a loss. Nothing else
    /// changes.
    fn reveal_all_mines(&mut self)
        ensures
            same_except_cells(final(self)@, old(self)@),
            final(self)@.cells.len() == old(self)@.cells.len(),
            forall|i: int|
                0 <= i < old(self)@.cells.len() ==> #[trigger] final(self)@.cells[i] == (if old(self)@.cells[i].mine {
                    CellView { revealed: true, ..old(self)@.cells[i] }
                } else {
                    old(self)@.cells[i]
                }),
            count_revealed_safe(final(self)@.cells) == count_revealed_safe(old(self)@.cells),
            count_flagged(final(self)@.cells) == count_flagged(old(self)@.cells),
            count_mines(final(self)@.cells) == count_mines(old(self)@.cells),
    {
        let n = self.cells.len();
        let mut k: usize = 0;
        while k < n
            invariant
                k <= n,
                n == self@.cells.len(),
                same_except_cells(self@, old(self)@),
                forall|i: int|
                    0 <= i < k ==> #[trigger] self@.cells[i] == (if old(self)@.cells[i].mine {
                        CellView { revealed: true, ..old(self)@.cells[i] }
                    } else {
                        old(self)@.cells[i]
                    }),
                forall|i: int| k <= i < n ==> #[trigger] self@.cells[i] == old(self)@.cells[i],
            decreases n - k,
        {
            let c = self.cells[k];
            if c.mine {
                self.cells.set(k, CellView { revealed: true, ..c });
            }
            k = k + 1;
        }
        proof {
            lemma_count_if_congruent(final(self)@.cells, old(self)@.cells, safe_revealed_p());
            lemma_count_if_congruent(final(self)@.cells, old(self)@.cells, flag_p());
            lemma_count_if_congruent(final(self)@.cells, old(self)@.cells, mine_p());
        }
    }

    /// Flags every still-unflagged mine, adjusting the flag counter; invoked
    /// when the game is won. Nothing else changes.
    fn flag_all_mines(&mut self)
        requires
            old(self)@.flagged == count_flagged(old(self)@.cells),
        ensures
            final(self)@.settings == old(self)@.settings,
            final(self)@.status == old(self)@.status,
            final(self)@.mines_placed == old(self)@.mines_placed,
            final(self)@.revealed_safe == old(self)@.revealed_safe,
            final(self)@.started_at == old(self)@.started_at,
            final(self)@.finished_at == old(self)@.finished_at,
            final(self)@.rng == old(self)@.rng,
            final(self)@.cells.len() == old(self)@.cells.len(),
            forall|i: int|
                0 <= i < old(self)@.cells.len() ==> #[trigger] final(self)@.cells[i] == (if old(self)@.cells[i].mine && !old(self)@.cells[i].flagged {
                    CellView { flagged: true, ..old(self)@.cells[i] }
                } else {
                    old(self)@.cells[i]
                }),
            final(self)@.flagged == count_flagged(final(self)@.cells),
            count_revealed_safe(final(self)@.cells) == count_revealed_safe(old(self)@.cells),
            count_mines(final(self)@.cells) == count_mines(old(self)@.cells),
    {
        let n = self.cells.len();
        let mut k: usize = 0;
        while k < n
            invariant
                k <= n,
                n == self@.cells.len(),
                self@.settings == old(self)@.settings,
                self@.status == old(self)@.status,
                self@.mines_placed == old(self)@.mines_placed,
                self@.revealed_safe == old(self)@.revealed_safe,
                self@.started_at == old(self)@.started_at,
                self@.finished_at == old(self)@.finished_at,
                self@.rng == old(self)@.rng,
                self@.flagged == count_flagged(self@.cells),
                forall|i: int|
                    0 <= i < k ==> #[trigger] self@.cells[i] == (if old(self)@.cells[i].mine
                        && !old(self)@.cells[i].flagged {
                        CellView { flagged: true, ..old(self)@.cells[i] }
                    } else {
                        old(self)@.cells[i]
                    }),
                forall|i: int| k <= i < n ==> #[trigger] self@.cells[i] == old(self)@.cells[i],
            decreases n - k,
        {
            let c = self.cells[k];
            if c.mine && !c.flagged {
                proof {
                    lemma_count_if_update(
                        self@.cells,
                        flag_p(),
                        k as int,
                        CellView { flagged: true, ..c },
                    );
                    lemma_count_if_bound(self@.cells, flag_p());
                    lemma_count_if_bound(
                        self@.cells.update(k as int, CellView { flagged: true, ..c }),
                        flag_p(),
                    );
                }
                self.cells.set(k, CellView { flagged: true, ..c });
                self.flagged_cells = self.flagged_cells + 1;
            }
            k = k + 1;
        }
        proof {
            lemma_count_if_congruent(final(self)@.cells, old(self)@.cells, safe_revealed_p());
            lemma_count_if_congruent(final(self)@.cells, old(self)@.cells, mine_p());
        }
    }

    /// Starts a game from a caller-chosen mine layout instead of the random
    /// one: the deterministic substitution point for tests and solvers.
    /// Succeeds only from `Ready`, with exactly `settings.mines` distinct
    /// in-bounds indices; on success the game is `Running` with the clock
    /// started at `now_ms`, and rejects otherwise without changing anything.
    pub fn start_with_mines(&mut self, mine_indices: &Vec<usize>, now_ms: u64) -> (started: bool)
        requires
            old(self).wf(),
        ensures
            final(self).wf(),
            started == (old(self)@.status == GameStatus::Ready && mine_indices@.len() == old(self)@.mines() && (forall|j: int|
                0 <= j < mine_indices@.len() ==> (#[trigger] mine_indices@[j]) < old(self)@.total())
                && mine_indices@.no_duplicates()),
            !started ==> final(self)@ == old(self)@,
            started ==> final(self)@.status == GameStatus::Running && final(self)@.mines_placed
                && final(self)@.started_at == Some(now_ms) && final(self)@.finished_at is None
                && final(self)@.settings == old(self)@.settings,
            started ==> forall|i: int|
                0 <= i < final(self)@.cells.len() ==> ((#[trigger] final(self)@.cells[i]).mine
                    <==> mine_indices@.contains(i as usize)),
            started ==> forall|i: int|
                0 <= i < final(self)@.cells.len() ==> !(#[trigger] final(self)@.cells[i]).revealed
                    && final(self)@.cells[i].flagged == old(self)@.cells[i].flagged,
    {
        if !(self.status == GameStatus::Ready) {
            return false;
        }
        if mine_indices.len() != self.settings.mines {
            return false;
        }
        let total = self.cells.len();
        let n = mine_indices.len();
        let mut j: usize = 0;
        while j < n
            invariant
                j <= n,
                n == mine_indices@.len(),
                total == old(self)@.cells.len(),
                old(self).wf(),
                self@ == old(self)@,
                forall|t: int| 0 <= t < j ==> (#[trigger] mine_indices@[t]) < total,
            decreases n - j,
        {
            if mine_indices[j] >= total {
                return false;
            }
            j = j + 1;
        }
        let mut j1: usize = 0;
        while j1 < n
            invariant
                j1 <= n,
                n == mine_indices@.len(),
                total == old(self)@.cells.len(),
                old(self).wf(),
                self@ == old(self)@,
                forall|t: int| 0 <= t < n ==> (#[trigger] mine_indices@[t]) < total,
                forall|t1: int, t2: int|
                    0 <= t1 < j1 && t1 < t2 < n ==> #[trigger] mine_indices@[t1]
                        != #[trigger] mine_indices@[t2],
            decreases n - j1,
        {
            let mut j2: usize = j1 + 1;
            while j2 < n
                invariant
                    j1 < j2 <= n || (j1 < n && j2 == j1 + 1),
                    j1 < n,
                    j1 + 1 <= j2 <= n,
                    n == mine_indices@.len(),
                    total == old(self)@.cells.len(),
                    old(self).wf(),
                    self@ == old(self)@,
                    forall|t: int| 0 <= t < n ==> (#[trigger] mine_indices@[t]) < total,
                    forall|t1: int, t2: int|
                        0 <= t1 < j1 && t1 < t2 < n ==> #[trigger] mine_indices@[t1]
                            != #[trigger] mine_indices@[t2],
                    forall|t2: int|
                        j1 < t2 < j2 ==> #[trigger] mine_indices@[t2] != mine_indices@[j1 as int],
                decreases n - j2,
            {
                if mine_indices[j2] == mine_indices[j1] {
                    return false;
                }
                j2 = j2 + 1;
            }
            j1 = j1 + 1;
        }
        // the layout is valid: place it
        proof {
            assert(forall|i: int|
                0 <= i < total ==> !(#[trigger] self@.cells[i]).mine && !self@.cells[i].revealed);
            lemma_count_if_zero(self@.cells, mine_p());
            lemma_count_if_zero(self@.cells, safe_revealed_p());
        }
        let mut t: usize = 0;
        while t < n
            invariant
                t <= n,
                n == mine_indices@.len(),
                n == self@.settings.mines,
                total == self@.cells.len(),
                self@.cells.len() == self@.total(),
                self@.settings.valid(),
                self@.settings == old(self)@.settings,
                self@.status == old(self)@.status,
                self@.mines_placed == old(self)@.mines_placed,
                self@.revealed_safe == old(self)@.revealed_safe,
                self@.flagged == old(self)@.flagged,
                self@.started_at == old(self)@.started_at,
                self@.finished_at == old(self)@.finished_at,
                self@.rng == old(self)@.rng,
                mine_indices@.no_duplicates(),
                forall|q: int| 0 <= q < n ==> (#[trigger] mine_indices@[q]) < total,
                forall|c: int|
                    0 <= c < total ==> ((#[trigger] self@.cells[c]).mine <==> (exists|q: int|
                        0 <= q < t && mine_indices@[q] == c)),
                count_mines(self@.cells) == t,
                forall|i2: int|
                    0 <= i2 < total ==> !(#[trigger] self@.cells[i2]).revealed
                        && self@.cells[i2].flagged == old(self)@.cells[i2].flagged,
            decreases n - t,
        {
            let mine_idx = mine_indices[t];
            let c = self.cells[mine_idx];
            proof {
                if self@.cells[mine_idx as int].mine {
                    let q = choose|q: int| 0 <= q < t && mine_indices@[q] == mine_idx;
                    assert(mine_indices@[q] == mine_indices@[t as int]);
                    assert(false);
                }
                lemma_count_if_update(
                    self@.cells,
                    mine_p(),
                    mine_idx as int,
                    CellView { mine: true, ..c },
                );
            }
            self.cells.set(mine_idx, CellView { mine: true, ..c });
            proof {
                let cur = self@.cells;
                assert forall|cc: int| 0 <= cc < total implies ((#[trigger] cur[cc]).mine <==> (
                exists|q: int| 0 <= q < t + 1 && mine_indices@[q] == cc)) by {
                    if cur[cc].mine {
                        if cc == mine_idx {
                            assert(0 <= t < t + 1 && mine_indices@[t as int] == cc);
                        }
                    }
                }
            }
            t = t + 1;
        }
        let ghost mid = self@.cells;
        self.recompute_adjacency();
        proof {
            lemma_count_if_congruent(mid, self@.cells, mine_p());
            lemma_count_if_congruent(mid, self@.cells, flag_p());
            lemma_count_if_congruent(self@.cells, old(self)@.cells, flag_p());
            lemma_count_if_zero(self@.cells, safe_revealed_p());
        }
        self.mines_placed = true;
        self.started_at_ms = Some(now_ms);
        self.status = GameStatus::Running;
        proof {
            // the board cannot already be won: there is at least one safe cell
            assert(self@.revealed_safe == 0);
            assert(self@.total() - self@.mines() > 0);
        }
        true
    }
}

// ---------------------------------------------------------------------------
// Flood fill
// ---------------------------------------------------------------------------

/// A count is at least one as soon as one neighbor below `n` satisfies `p`.
pub proof fn lemma_count_nbr_if_ge_one(
    s: Seq<CellView>,
    w: int,
    h: int,
    i: int,
    j: int,
    n: int,
    p: spec_fn(CellView) -> bool,
)
    requires
        0 <= j < n <= s.len(),
        is_neighbor(w, h, i, j),
        p(s[j]),
    ensures
        count_nbr_if(s, w, h, i, n, p) >= 1,
    decreases n,
{
    if j == n - 1 {
        lemma_count_nbr_if_bound(s, w, h, i, n - 1, p);
    } else {
        lemma_count_nbr_if_ge_one(s, w, h, i, j, n - 1, p);
    }
}

/// Cell `j` was revealed by the step from `pre` to `cur` and carries a zero
/// hint.
pub open spec fn newly_zero(pre: Seq<CellView>, cur: Seq<CellView>, j: int) -> bool {
    0 <= j < cur.len() && cur[j].revealed && !pre[j].revealed && cur[j].adjacent == 0
}

/// "No further": every cell revealed by the step from `pre` to `cur` is the
/// starting cell or touches a zero-hint cell that the same step revealed.
pub open spec fn spreads_from(
    pre: Seq<CellView>,
    cur: Seq<CellView>,
    w: int,
    h: int,
    start: int,
) -> bool {
    forall|i: int|
        0 <= i < cur.len() && (#[trigger] cur[i]).revealed && !pre[i].revealed ==> i == start || (
        exists|m: int| is_neighbor(w, h, m, i) && newly_zero(pre, cur, m))
}

/// "The entire region": every zero-hint cell revealed by the step from `pre`
/// to `cur` has all its unflagged neighbors revealed, so a connected
/// zero-hint region opens together with its numbered border.
pub open spec fn zero_region_closed(pre: Seq<CellView>, cur: Seq<CellView>, w: int, h: int) -> bool {
    forall|i: int| #![trigger newly_zero(pre, cur, i)]
        newly_zero(pre, cur, i) ==> forall|j: int|
            #![trigger is_neighbor(w, h, i, j)]
            is_neighbor(w, h, i, j) && !cur[j].flagged ==> cur[j].revealed
}

impl Game {
    /// Breadth-first reveal from `start_idx`: reveals the cell; wherever a
    /// revealed cell shows a zero hint, its unrevealed, unflagged neighbors
    /// are revealed in turn. Mines are never touched: a zero hint is exact,
    /// so no neighbor of a zero-hint cell is a mine.
    #[verifier::rlimit(100)]
    fn reveal_flood_fill(&mut self, start_idx: usize)
        requires
            old(self)@.settings.valid(),
            old(self)@.cells.len() == old(self)@.total(),
            old(self)@.mines_placed,
            old(self)@.status == GameStatus::Running,
            old(self)@.revealed_safe == count_revealed_safe(old(self)@.cells),
            old(self)@.hints_ok(),
            start_idx < old(self)@.cells.len(),
            !old(self)@.cells[start_idx as int].mine,
            !old(self)@.cells[start_idx as int].flagged,
            forall|i: int|
                0 <= i < old(self)@.cells.len() && (#[trigger] old(self)@.cells[i]).mine ==> !old(self)@.cells[i].revealed,
            forall|i: int|
                0 <= i < old(self)@.cells.len() ==> !((#[trigger] old(self)@.cells[i]).revealed
                    && old(self)@.cells[i].flagged),
        ensures
            final(self)@.settings == old(self)@.settings,
            final(self)@.status == old(self)@.status,
            final(self)@.mines_placed == old(self)@.mines_placed,
            final(self)@.flagged == old(self)@.flagged,
            final(self)@.started_at == old(self)@.started_at,
            final(self)@.finished_at == old(self)@.finished_at,
            final(self)@.rng == old(self)@.rng,
            final(self)@.cells.len() == old(self)@.cells.len(),
            final(self)@.revealed_safe == count_revealed_safe(final(self)@.cells),
            forall|i: int|
                0 <= i < old(self)@.cells.len() ==> (#[trigger] final(self)@.cells[i]).flagged
                    == old(self)@.cells[i].flagged && final(self)@.cells[i].mine == old(self)@.cells[i].mine && final(self)@.cells[i].adjacent == old(self)@.cells[i].adjacent,
            forall|i: int|
                0 <= i < old(self)@.cells.len() && (#[trigger] old(self)@.cells[i]).revealed
                    ==> final(self)@.cells[i].revealed,
            final(self)@.cells[start_idx as int].revealed,
            forall|i: int|
                0 <= i < final(self)@.cells.len() && (#[trigger] final(self)@.cells[i]).mine
                    ==> !final(self)@.cells[i].revealed,
            forall|i: int|
                0 <= i < final(self)@.cells.len() ==> !((#[trigger] final(self)@.cells[i]).revealed
                    && final(self)@.cells[i].flagged),
            spreads_from(
                old(self)@.cells,
                final(self)@.cells,
                old(self)@.width(),
                old(self)@.height(),
                start_idx as int,
            ),
            zero_region_closed(
                old(self)@.cells,
                final(self)@.cells,
                old(self)@.width(),
                old(self)@.height(),
            ),
    {
        let ghost w = old(self)@.width();
        let ghost h = old(self)@.height();
        let ghost pre = old(self)@.cells;
        let n = self.cells.len();
        let mut queue: VecDeque<usize> = VecDeque::new();
        queue.push_back(start_idx);
        proof {
            assert(queue@[0] == start_idx);
        }
        while queue.len() != 0
            invariant
                n == self@.cells.len(),
                self@.settings == old(self)@.settings,
                self@.status == old(self)@.status,
                self@.mines_placed == old(self)@.mines_placed,
                self@.flagged == old(self)@.flagged,
                self@.started_at == old(self)@.started_at,
                self@.finished_at == old(self)@.finished_at,
                self@.rng == old(self)@.rng,
                self@.settings.valid(),
                self@.cells.len() == self@.total(),
                w == self@.width(),
                h == self@.height(),
                pre == old(self)@.cells,
                pre.len() == n,
                start_idx < n,
                old(self)@.hints_ok(),
                old(self)@.mines_placed,
                !pre[start_idx as int].mine,
                !pre[start_idx as int].flagged,
                self@.revealed_safe == count_revealed_safe(self@.cells),
                forall|i: int|
                    0 <= i < n ==> (#[trigger] self@.cells[i]).flagged == pre[i].flagged
                        && self@.cells[i].mine == pre[i].mine && self@.cells[i].adjacent
                        == pre[i].adjacent,
                forall|i: int|
                    0 <= i < n && (#[trigger] pre[i]).revealed ==> self@.cells[i].revealed,
                forall|i: int|
                    0 <= i < n && (#[trigger] self@.cells[i]).mine ==> !self@.cells[i].revealed,
                forall|i: int|
                    0 <= i < n ==> !((#[trigger] self@.cells[i]).revealed
                        && self@.cells[i].flagged),
                // every queue entry is an in-bounds, unflagged non-mine, and is
                // either the start or justified by a newly revealed zero cell
                forall|qi: int|
                    0 <= qi < queue@.len() ==> (#[trigger] queue@[qi]) < n
                        && !self@.cells[queue@[qi] as int].mine
                        && !self@.cells[queue@[qi] as int].flagged && (queue@[qi] == start_idx || (
                    exists|m: int|
                        is_neighbor(w, h, m, queue@[qi] as int) && newly_zero(
                            pre,
                            self@.cells,
                            m,
                        ))),
                self@.cells[start_idx as int].revealed || queue@.contains(start_idx),
                spreads_from(pre, self@.cells, w, h, start_idx as int),
                // closure up to the pending queue
                forall|i: int| #![trigger newly_zero(pre, self@.cells, i)]
                    newly_zero(pre, self@.cells, i) ==> forall|j: int|
                        #![trigger is_neighbor(w, h, i, j)]
                        is_neighbor(w, h, i, j) && !self@.cells[j].flagged
                            ==> self@.cells[j].revealed || queue@.contains(j as usize),
            decreases count_unrevealed(self@.cells), queue@.len(),
        {
            proof {
                lemma_count_if_bound(self@.cells, unrevealed_p());
            }
            let ghost q0 = queue@;
            let ghost cells0 = self@.cells;
            let idx = queue.pop_front().unwrap();
            proof {
                assert(q0[0] == idx);
                assert(idx < n && !self@.cells[idx as int].mine
                    && !self@.cells[idx as int].flagged);
                assert(forall|qi: int| 0 <= qi < queue@.len() ==> queue@[qi] == q0[qi + 1]);
            }
            if !self.cells[idx].revealed && !self.cells[idx].flagged {
                let c = self.cells[idx];
                proof {
                    lemma_count_if_update(
                        self@.cells,
                        safe_revealed_p(),
                        idx as int,
                        CellView { revealed: true, ..c },
                    );
                    lemma_count_if_update(
                        self@.cells,
                        unrevealed_p(),
                        idx as int,
                        CellView { revealed: true, ..c },
                    );
                    lemma_count_if_bound(
                        self@.cells.update(idx as int, CellView { revealed: true, ..c }),
                        safe_revealed_p(),
                    );
                    lemma_count_if_bound(
                        self@.cells.update(idx as int, CellView { revealed: true, ..c }),
                        unrevealed_p(),
                    );
                }
                self.cells.set(idx, CellView { revealed: true, ..c });
                if !self.cells[idx].mine {
                    self.revealed_safe_cells = self.revealed_safe_cells + 1;
                }
                proof {
                    let cur = self@.cells;
                    // the popped cell is now revealed; re-justify the queue and
                    // the closure against the shorter queue and updated board
                    assert forall|qi: int| 0 <= qi < queue@.len() implies (#[trigger] queue@[qi])
                        < n && !cur[queue@[qi] as int].mine && !cur[queue@[qi] as int].flagged && (
                    queue@[qi] == start_idx || (exists|m: int|
                        is_neighbor(w, h, m, queue@[qi] as int) && newly_zero(pre, cur, m))) by {
                        assert(queue@[qi] == q0[qi + 1]);
                        if q0[qi + 1] != start_idx {
                            let m = choose|m: int|
                                is_neighbor(w, h, m, q0[qi + 1] as int) && newly_zero(
                                    pre,
                                    cells0,
                                    m,
                                );
                            assert(is_neighbor(w, h, m, queue@[qi] as int) && newly_zero(
                                pre,
                                cur,
                                m,
                            ));
                        }
                    }
                    assert forall|i: int| #![trigger newly_zero(pre, cur, i)]
                        newly_zero(pre, cur, i) && i != idx implies forall|j: int|
                        #![trigger is_neighbor(w, h, i, j)]
                        is_neighbor(w, h, i, j) && !cur[j].flagged ==> cur[j].revealed
                            || queue@.contains(j as usize) by {
                        assert(newly_zero(pre, cells0, i));
                        assert forall|j: int|
                            #![trigger is_neighbor(w, h, i, j)]
                            is_neighbor(w, h, i, j) && !cur[j].flagged implies cur[j].revealed
                            || queue@.contains(j as usize) by {
                            if !cells0[j].revealed && q0.contains(j as usize) {
                                let qi = choose|qi: int|
                                    0 <= qi < q0.len() && q0[qi] == j as usize;
                                if qi == 0 {
                                    assert(j == idx);
                                } else {
                                    assert(queue@[qi - 1] == q0[qi]);
                                }
                            }
                        }
                    }
                    if !cur[start_idx as int].revealed {
                        let qi = choose|qi: int|
                            0 <= qi < q0.len() && q0[qi] == start_idx;
                        if qi == 0 {
                            assert(idx == start_idx);
                            assert(false);
                        } else {
                            assert(queue@[qi - 1] == q0[qi]);
                        }
                    }
                    assert forall|i: int|
                        0 <= i < n && (#[trigger] cur[i]).revealed && !pre[i].revealed implies i
                        == start_idx as int || (exists|m: int|
                        is_neighbor(w, h, m, i) && newly_zero(pre, cur, m)) by {
                        if i == idx {
                            if idx != start_idx {
                                let m = choose|m: int|
                                    is_neighbor(w, h, m, idx as int) && newly_zero(
                                        pre,
                                        cells0,
                                        m,
                                    );
                                assert(newly_zero(pre, cur, m));
                            }
                        } else {
                            assert(cells0[i].revealed);
                            if i != start_idx {
                                let m = choose|m: int|
                                    is_neighbor(w, h, m, i) && newly_zero(pre, cells0, m);
                                assert(newly_zero(pre, cur, m));
                            }
                        }
                    }
                }
                if self.cells[idx].adjacent == 0 {
                    let mut k: usize = 0;
                    while k < n
                        invariant
                            k <= n,
                            n == self@.cells.len(),
                            self@.settings == old(self)@.settings,
                            self@.status == old(self)@.status,
                            self@.mines_placed == old(self)@.mines_placed,
                            self@.flagged == old(self)@.flagged,
                            self@.started_at == old(self)@.started_at,
                            self@.finished_at == old(self)@.finished_at,
                            self@.rng == old(self)@.rng,
                            self@.settings.valid(),
                            self@.cells.len() == self@.total(),
                            w == self@.width(),
                            h == self@.height(),
                            pre == old(self)@.cells,
                            pre.len() == n,
                            start_idx < n,
                            old(self)@.hints_ok(),
                            old(self)@.mines_placed,
                            idx < n,
                            !pre[start_idx as int].mine,
                            !pre[start_idx as int].flagged,
                            self@.cells[idx as int].revealed,
                            !self@.cells[idx as int].mine,
                            self@.cells[idx as int].adjacent == 0,
                            newly_zero(pre, self@.cells, idx as int),
                            self@.revealed_safe == count_revealed_safe(self@.cells),
                            count_unrevealed(self@.cells) == count_unrevealed(cells0) - 1,
                            forall|i: int|
                                0 <= i < n ==> (#[trigger] self@.cells[i]).flagged
                                    == pre[i].flagged && self@.cells[i].mine == pre[i].mine
                                    && self@.cells[i].adjacent == pre[i].adjacent,
                            forall|i: int|
                                0 <= i < n && (#[trigger] pre[i]).revealed
                                    ==> self@.cells[i].revealed,
                            forall|i: int|
                                0 <= i < n && (#[trigger] self@.cells[i]).mine
                                    ==> !self@.cells[i].revealed,
                            forall|i: int|
                                0 <= i < n ==> !((#[trigger] self@.cells[i]).revealed
                                    && self@.cells[i].flagged),
                            forall|qi: int|
                                0 <= qi < queue@.len() ==> (#[trigger] queue@[qi]) < n
                                    && !self@.cells[queue@[qi] as int].mine
                                    && !self@.cells[queue@[qi] as int].flagged && (queue@[qi]
                                    == start_idx || (exists|m: int|
                                    is_neighbor(w, h, m, queue@[qi] as int) && newly_zero(
                                        pre,
                                        self@.cells,
                                        m,
                                    ))),
                            self@.cells[start_idx as int].revealed || queue@.contains(start_idx),
                            spreads_from(pre, self@.cells, w, h, start_idx as int),
                            forall|i: int| #![trigger newly_zero(pre, self@.cells, i)]
                                newly_zero(pre, self@.cells, i) && i != idx ==> forall|j: int|
                                    #![trigger is_neighbor(w, h, i, j)]
                                    is_neighbor(w, h, i, j) && !self@.cells[j].flagged
                                        ==> self@.cells[j].revealed || queue@.contains(j as usize),
                            forall|j: int|
                                #![trigger is_neighbor(w, h, idx as int, j)]
                                is_neighbor(w, h, idx as int, j) && j < k
                                    && !self@.cells[j].flagged ==> self@.cells[j].revealed
                                    || queue@.contains(j as usize),
                        decreases n - k,
                    {
                        let ghost qprev = queue@;
                        let mut pushed = false;
                        if self.is_adjacent(idx, k) && !self.cells[k].revealed
                            && !self.cells[k].flagged {
                            proof {
                                if self@.cells[k as int].mine {
                                    assert(mine_p()(self@.cells[k as int]));
                                    lemma_count_nbr_if_ge_one(
                                        self@.cells,
                                        w,
                                        h,
                                        idx as int,
                                        k as int,
                                        n as int,
                                        mine_p(),
                                    );
                                    lemma_count_nbr_if_congruent(
                                        self@.cells,
                                        pre,
                                        w,
                                        h,
                                        idx as int,
                                        n as int,
                                        mine_p(),
                                    );
                                    assert(pre[idx as int].adjacent == mine_nbrs(pre, w, h, idx as int));
                                    assert(false);
                                }
                            }
                            queue.push_back(k);
                            pushed = true;
                            proof {
                                assert(queue@ == qprev.push(k));
                                assert(queue@[queue@.len() - 1] == k);
                                assert(is_neighbor(w, h, idx as int, k as int));
                                assert(newly_zero(pre, self@.cells, idx as int));
                            }
                        }
                        proof {
                            // pushing preserves membership and entry facts
                            if pushed {
                                assert(forall|qi: int|
                                    0 <= qi < qprev.len() ==> queue@[qi] == qprev[qi]);
                                assert forall|x: usize| qprev.contains(x) implies #[trigger] queue@.contains(
                                    x,
                                ) by {
                                    let qi = choose|qi: int|
                                        0 <= qi < qprev.len() && qprev[qi] == x;
                                    assert(queue@[qi] == x);
                                }
                            } else {
                                assert(queue@ == qprev);
                            }
                        }
                        k = k + 1;
                    }
                }
            } else {
                proof {
                    let cur = self@.cells;
                    assert forall|qi: int| 0 <= qi < queue@.len() implies (#[trigger] queue@[qi])
                        < n && !cur[queue@[qi] as int].mine && !cur[queue@[qi] as int].flagged && (
                    queue@[qi] == start_idx || (exists|m: int|
                        is_neighbor(w, h, m, queue@[qi] as int) && newly_zero(pre, cur, m))) by {
                        assert(queue@[qi] == q0[qi + 1]);
                    }
                    assert forall|i: int| #![trigger newly_zero(pre, cur, i)]
                        newly_zero(pre, cur, i) implies forall|j: int|
                        #![trigger is_neighbor(w, h, i, j)]
                        is_neighbor(w, h, i, j) && !cur[j].flagged ==> cur[j].revealed
                            || queue@.contains(j as usize) by {
                        assert forall|j: int|
                            #![trigger is_neighbor(w, h, i, j)]
                            is_neighbor(w, h, i, j) && !cur[j].flagged implies cur[j].revealed
                            || queue@.contains(j as usize) by {
                            if !cur[j].revealed && q0.contains(j as usize) {
                                let qi = choose|qi: int|
                                    0 <= qi < q0.len() && q0[qi] == j as usize;
                                if qi == 0 {
                                    assert(j == idx);
                                    assert(cur[idx as int].revealed);
                                } else {
                                    assert(queue@[qi - 1] == q0[qi]);
                                }
                            }
                        }
                    }
                    if !cur[start_idx as int].revealed {
                        let qi = choose|qi: int|
                            0 <= qi < q0.len() && q0[qi] == start_idx;
                        if qi == 0 {
                            assert(idx == start_idx);
                            assert(cur[idx as int].revealed || cur[idx as int].flagged);
                            assert(false);
                        } else {
                            assert(queue@[qi - 1] == q0[qi]);
                        }
                    }
                }
            }
        }
        proof {
            assert forall|i: int| #![trigger newly_zero(pre, self@.cells, i)]
                newly_zero(pre, self@.cells, i) implies forall|j: int|
                #![trigger is_neighbor(w, h, i, j)]
                is_neighbor(w, h, i, j) && !self@.cells[j].flagged
                    ==> self@.cells[j].revealed by {
                assert forall|j: int|
                    #![trigger is_neighbor(w, h, i, j)]
                    is_neighbor(w, h, i, j) && !self@.cells[j].flagged implies self@.cells[j].revealed by {
                    assert(!queue@.contains(j as usize));
                }
            }
        }
    }
}

// ---------------------------------------------------------------------------
// Revealing
// ---------------------------------------------------------------------------

/// The board `of` with the mine layout and hints of `layout`: revealed and
/// flag bits from `of`, mine and adjacency from `layout`. With this, what a
/// reveal did to the cells can be stated even when the reveal itself placed
/// the mines.
pub open spec fn with_layout(of: Seq<CellView>, layout: Seq<CellView>) -> Seq<CellView> {
    Seq::new(
        of.len(),
        |i: int|
            CellView {
                revealed: of[i].revealed,
                flagged: of[i].flagged,
                mine: layout[i].mine,
                adjacent: layout[i].adjacent,
            },
    )
}

impl Game {
    /// Reveals the cell at `x`, `y`. Rejected (returning `false`, changing
    /// nothing) when the game is over, the position is out of bounds, or the
    /// cell is flagged or already revealed. The first accepted reveal of a
    /// game places the mines away from the clicked cell and starts the clock
    /// at `now_ms`. Revealing a mine loses the game and exposes every mine;
    /// otherwise a flood fill runs from the cell, and if every safe cell is
    /// now revealed the game is won and every remaining mine auto-flagged.
    pub fn reveal_cell(&mut self, x: usize, y: usize, now_ms: u64) -> (accepted: bool)
        requires
            old(self).wf(),
        ensures
            final(self).wf(),
            final(self)@.settings == old(self)@.settings,
            accepted == (old(self)@.playing() && old(self)@.in_bounds(x as int, y as int) && !old(self)@.cells[old(self)@.idx(x as int, y as int)].flagged && !old(self)@.cells[old(self)@.idx(x as int, y as int)].revealed),
            !accepted ==> final(self)@ == old(self)@,
            // the first accepted reveal places exactly `mines` mines, never on
            // the clicked cell, and starts the game
            accepted && old(self)@.status == GameStatus::Ready ==> final(self)@.mines_placed
                && count_mines(final(self)@.cells) == old(self)@.mines() && final(self)@.started_at
                == Some(now_ms),
            accepted ==> !(final(self)@.status == GameStatus::Ready) && final(self)@.mines_placed
                && count_mines(final(self)@.cells) == old(self)@.mines(),
            accepted ==> final(self)@.cells[old(self)@.idx(x as int, y as int)].revealed,
            // revealing loses exactly when the clicked cell holds a mine; the
            // first click never does
            accepted ==> (final(self)@.status == GameStatus::Lost <==> final(self)@.cells[old(self)@.idx(x as int, y as int)].mine),
            accepted && old(self)@.status == GameStatus::Ready ==> !final(self)@.cells[old(self)@.idx(x as int, y as int)].mine && final(self)@.status != GameStatus::Lost,
            // the game is won exactly when every safe cell is revealed
            accepted && final(self)@.status != GameStatus::Lost ==> (final(self)@.status
                == GameStatus::Won <==> final(self)@.revealed_safe == final(self)@.total() - final(self)@.mines()),
            accepted && (final(self)@.status == GameStatus::Won || final(self)@.status
                == GameStatus::Lost) ==> final(self)@.finished_at == Some(now_ms),
            accepted && old(self)@.status == GameStatus::Running ==> forall|i: int|
                0 <= i < final(self)@.cells.len() ==> (#[trigger] final(self)@.cells[i]).mine
                    == old(self)@.cells[i].mine && final(self)@.cells[i].adjacent == old(self)@.cells[i].adjacent,
            accepted ==> forall|i: int|
                0 <= i < final(self)@.cells.len() && (#[trigger] old(self)@.cells[i]).revealed
                    ==> final(self)@.cells[i].revealed,
            // flags change only by the automatic flagging of mines on a win
            accepted ==> forall|i: int|
                0 <= i < final(self)@.cells.len() ==> (#[trigger] final(self)@.cells[i]).flagged
                    == old(self)@.cells[i].flagged || (final(self)@.status == GameStatus::Won
                    && final(self)@.cells[i].mine),
            // a safe click opens exactly the flood-fill region: the connected
            // zero-hint area plus its numbered border, and no further
            accepted && final(self)@.status != GameStatus::Lost ==> spreads_from(
                with_layout(old(self)@.cells, final(self)@.cells),
                final(self)@.cells,
                old(self)@.width(),
                old(self)@.height(),
                old(self)@.idx(x as int, y as int),
            ),
            accepted && final(self)@.status != GameStatus::Lost ==> zero_region_closed(
                with_layout(old(self)@.cells, final(self)@.cells),
                final(self)@.cells,
                old(self)@.width(),
                old(self)@.height(),
            ),
    {
        if self.status == GameStatus::Won || self.status == GameStatus::Lost {
            return false;
        }
        let idx = match self.index(x, y) {
            Some(i) => i,
            None => { return false; },
        };
        if self.cells[idx].flagged || self.cells[idx].revealed {
            return false;
        }
        if !self.mines_placed {
            proof {
                lemma_count_if_zero(self@.cells, safe_revealed_p());
            }
            self.place_mines(idx);
            self.mines_placed = true;
            self.started_at_ms = Some(now_ms);
            self.status = GameStatus::Running;
            proof {
                lemma_count_if_congruent(self@.cells, old(self)@.cells, flag_p());
                lemma_count_if_zero(self@.cells, safe_revealed_p());
            }
        }
        let ghost mid = self@;
        if self.cells[idx].mine {
            let c = self.cells[idx];
            proof {
                lemma_count_if_update(
                    self@.cells,
                    safe_revealed_p(),
                    idx as int,
                    CellView { revealed: true, ..c },
                );
                lemma_count_if_update(
                    self@.cells,
                    flag_p(),
                    idx as int,
                    CellView { revealed: true, ..c },
                );
                lemma_count_if_update(
                    self@.cells,
                    mine_p(),
                    idx as int,
                    CellView { revealed: true, ..c },
                );
            }
            self.cells.set(idx, CellView { revealed: true, ..c });
            self.status = GameStatus::Lost;
            self.finished_at_ms = Some(now_ms);
            self.reveal_all_mines();
            proof {
                let cur = self@.cells;
                assert forall|i: int|
                    0 <= i < cur.len() && !(#[trigger] cur[i]).mine implies cur[i].adjacent
                    == mine_nbrs(cur, self@.width(), self@.height(), i) by {
                    lemma_count_nbr_if_congruent(
                        mid.cells,
                        cur,
                        self@.width(),
                        self@.height(),
                        i,
                        mid.cells.len() as int,
                        mine_p(),
                    );
                }
            }
            return true;
        }
        self.reveal_flood_fill(idx);
        proof {
            let cur = self@.cells;
            assert forall|i: int|
                0 <= i < cur.len() && !(#[trigger] cur[i]).mine implies cur[i].adjacent
                == mine_nbrs(cur, self@.width(), self@.height(), i) by {
                lemma_count_nbr_if_congruent(
                    mid.cells,
                    cur,
                    self@.width(),
                    self@.height(),
                    i,
                    mid.cells.len() as int,
                    mine_p(),
                );
            }
            lemma_count_if_congruent(mid.cells, cur, mine_p());
            lemma_count_if_congruent(mid.cells, cur, flag_p());
            lemma_count_if_disjoint(cur, safe_revealed_p(), mine_p());
        }
        let ghost flooded = self@;
        if self.revealed_safe_cells == self.cells.len() - self.settings.mines {
            self.status = GameStatus::Won;
            self.finished_at_ms = Some(now_ms);
            self.flag_all_mines();
            proof {
                let cur = self@.cells;
                assert forall|i: int|
                    0 <= i < cur.len() && !(#[trigger] cur[i]).mine implies cur[i].adjacent
                    == mine_nbrs(cur, self@.width(), self@.height(), i) by {
                    lemma_count_nbr_if_congruent(
                        flooded.cells,
                        cur,
                        self@.width(),
                        self@.height(),
                        i,
                        flooded.cells.len() as int,
                        mine_p(),
                    );
                }
                lemma_count_if_congruent(flooded.cells, cur, mine_p());
            }
        }
        proof {
            // the flood-fill pre-board is the old board wearing the final
            // mine layout
            let pre = with_layout(old(self)@.cells, self@.cells);
            assert(pre =~= mid.cells);
            let cur = self@.cells;
            if self@.status == GameStatus::Won {
                // auto-flagging mines does not disturb the opened region:
                // a zero-hint cell has no mine neighbors, so its neighbors'
                // flags are untouched
                assert forall|i: int| #![trigger newly_zero(pre, cur, i)]
                    newly_zero(pre, cur, i) implies forall|j: int|
                    #![trigger is_neighbor(self@.width(), self@.height(), i, j)]
                    is_neighbor(self@.width(), self@.height(), i, j) && !cur[j].flagged
                        ==> cur[j].revealed by {
                    assert(newly_zero(pre, flooded.cells, i));
                }
                assert forall|i: int|
                    0 <= i < cur.len() && (#[trigger] cur[i]).revealed && !pre[i].revealed implies i
                    == idx as int || (exists|m: int|
                    is_neighbor(self@.width(), self@.height(), m, i) && newly_zero(
                        pre,
                        cur,
                        m,
                    )) by {
                    assert(flooded.cells[i].revealed && !pre[i].revealed);
                    if i != idx as int {
                        let m = choose|m: int|
                            is_neighbor(self@.width(), self@.height(), m, i) && newly_zero(
                                pre,
                                flooded.cells,
                                m,
                            );
                        assert(newly_zero(pre, cur, m));
                    }
                }
            }
        }
        true
    }
}

// ---------------------------------------------------------------------------
// Chord reveal
// ---------------------------------------------------------------------------

/// A cell a chord may act on: revealed, safe and numbered, with the number
/// of flagged neighbors matching its hint exactly (both under- and
/// over-flagged neighborhoods are rejected).
pub open spec fn chord_target_ok(m: GameModel, x: int, y: int) -> bool {
    &&& m.playing()
    &&& m.in_bounds(x, y)
    &&& m.cells[m.idx(x, y)].revealed
    &&& !m.cells[m.idx(x, y)].mine
    &&& m.cells[m.idx(x, y)].adjacent > 0
    &&& flag_nbrs(m.cells, m.width(), m.height(), m.idx(x, y)) == m.cells[m.idx(x, y)].adjacent
}

/// When a chord at `x`, `y` is accepted: the cell qualifies and at least one
/// neighbor is still coverable, so the chord is not a no-op.
pub open spec fn chord_allowed(m: GameModel, x: int, y: int) -> bool {
    &&& chord_target_ok(m, x, y)
    &&& exists|j: int|
        #[trigger] is_neighbor(m.width(), m.height(), m.idx(x, y), j) && !m.cells[j].revealed
            && !m.cells[j].flagged
}

impl Game {
    /// Chord reveal at `x`, `y`: when the flags around a revealed numbered
    /// cell match its hint exactly, reveals every unflagged, unrevealed
    /// neighbor, flood-filling from each; an exposed mine loses at once and
    /// stops the sweep. Rejected (returning `false`, changing nothing) in
    /// every other situation, including a mismatched flag count or a chord
    /// with nothing left to open.
    #[verifier::rlimit(100)]
    pub fn chord_reveal(&mut self, x: usize, y: usize, now_ms: u64) -> (accepted: bool)
        requires
            old(self).wf(),
        ensures
            final(self).wf(),
            final(self)@.settings == old(self)@.settings,
            accepted == chord_allowed(old(self)@, x as int, y as int),
            !accepted ==> final(self)@ == old(self)@,
            // chording loses exactly when some coverable neighbor is a mine
            accepted ==> (final(self)@.status == GameStatus::Lost <==> exists|j: int|
                #[trigger] is_neighbor(
                    old(self)@.width(),
                    old(self)@.height(),
                    old(self)@.idx(x as int, y as int),
                    j,
                ) && old(self)@.cells[j].mine && !old(self)@.cells[j].revealed && !old(self)@.cells[j].flagged),
            accepted && (final(self)@.status == GameStatus::Won || final(self)@.status
                == GameStatus::Lost) ==> final(self)@.finished_at == Some(now_ms),
            // the game is won exactly when every safe cell is revealed
            accepted && final(self)@.status != GameStatus::Lost ==> (final(self)@.status
                == GameStatus::Won <==> final(self)@.revealed_safe == final(self)@.total() - final(self)@.mines()),
            forall|i: int|
                0 <= i < final(self)@.cells.len() ==> (#[trigger] final(self)@.cells[i]).mine
                    == old(self)@.cells[i].mine && final(self)@.cells[i].adjacent == old(self)@.cells[i].adjacent,
            forall|i: int|
                0 <= i < final(self)@.cells.len() && (#[trigger] old(self)@.cells[i]).revealed
                    ==> final(self)@.cells[i].revealed,
            accepted ==> forall|i: int|
                0 <= i < final(self)@.cells.len() ==> (#[trigger] final(self)@.cells[i]).flagged
                    == old(self)@.cells[i].flagged || (final(self)@.status == GameStatus::Won
                    && final(self)@.cells[i].mine),
            // short of a loss, every coverable neighbor is now revealed ...
            accepted && final(self)@.status != GameStatus::Lost ==> forall|j: int|
                #[trigger] is_neighbor(
                    old(self)@.width(),
                    old(self)@.height(),
                    old(self)@.idx(x as int, y as int),
                    j,
                ) && !old(self)@.cells[j].revealed && !old(self)@.cells[j].flagged ==> final(self)@.cells[j].revealed,
            // ... newly opened cells reach no further than the neighbors and
            // their flood-fill regions, and every opened zero region is whole
            accepted && final(self)@.status != GameStatus::Lost ==> forall|i: int|
                0 <= i < final(self)@.cells.len() && (#[trigger] final(self)@.cells[i]).revealed
                    && !old(self)@.cells[i].revealed ==> is_neighbor(
                    old(self)@.width(),
                    old(self)@.height(),
                    old(self)@.idx(x as int, y as int),
                    i,
                ) || (exists|m: int|
                    is_neighbor(old(self)@.width(), old(self)@.height(), m, i) && newly_zero(
                        old(self)@.cells,
                        final(self)@.cells,
                        m,
                    )),
            accepted && final(self)@.status != GameStatus::Lost ==> zero_region_closed(
                old(self)@.cells,
                final(self)@.cells,
                old(self)@.width(),
                old(self)@.height(),
            ),
    {
        if self.status == GameStatus::Won || self.status == GameStatus::Lost {
            return false;
        }
        let idx = match self.index(x, y) {
            Some(i) => i,
            None => { return false; },
        };
        let sel = self.cells[idx];
        if !sel.revealed || sel.mine || sel.adjacent == 0 {
            return false;
        }
        let flagged_count = self.count_nbrs_flagged(idx);
        if flagged_count != sel.adjacent as usize {
            return false;
        }
        let ghost w = old(self)@.width();
        let ghost h = old(self)@.height();
        let ghost cells_o = old(self)@.cells;
        let n = self.cells.len();
        let mut changed = false;
        let mut k: usize = 0;
        while k < n
            invariant
                k <= n,
                n == self@.cells.len(),
                n == cells_o.len(),
                idx < n,
                idx as int == old(self)@.idx(x as int, y as int),
                chord_target_ok(old(self)@, x as int, y as int),
                self@.settings == old(self)@.settings,
                self@.settings.valid(),
                self@.cells.len() == self@.total(),
                w == self@.width(),
                h == self@.height(),
                cells_o == old(self)@.cells,
                old(self).wf(),
                self@.status == GameStatus::Running,
                self@.mines_placed,
                self@.started_at == old(self)@.started_at,
                self@.finished_at == old(self)@.finished_at,
                self@.rng == old(self)@.rng,
                self@.flagged == old(self)@.flagged,
                self@.revealed_safe == count_revealed_safe(self@.cells),
                count_mines(self@.cells) == self@.mines(),
                self@.hints_ok(),
                forall|i: int|
                    0 <= i < n ==> (#[trigger] self@.cells[i]).flagged == cells_o[i].flagged
                        && self@.cells[i].mine == cells_o[i].mine && self@.cells[i].adjacent
                        == cells_o[i].adjacent,
                forall|i: int|
                    0 <= i < n && (#[trigger] cells_o[i]).revealed ==> self@.cells[i].revealed,
                forall|i: int|
                    0 <= i < n && (#[trigger] self@.cells[i]).mine ==> !self@.cells[i].revealed,
                forall|i: int|
                    0 <= i < n ==> !((#[trigger] self@.cells[i]).revealed
                        && self@.cells[i].flagged),
                changed == (exists|j: int|
                    0 <= j < k && #[trigger] is_neighbor(w, h, idx as int, j)
                        && !cells_o[j].revealed && !cells_o[j].flagged),
                !changed ==> self@ == old(self)@,
                forall|j: int|
                    0 <= j < k && #[trigger] is_neighbor(w, h, idx as int, j)
                        && !cells_o[j].revealed && !cells_o[j].flagged ==> self@.cells[j].revealed
                        && !cells_o[j].mine,
                forall|i: int|
                    0 <= i < n && (#[trigger] self@.cells[i]).revealed && !cells_o[i].revealed
                        ==> is_neighbor(w, h, idx as int, i) || (exists|m: int|
                        is_neighbor(w, h, m, i) && newly_zero(cells_o, self@.cells, m)),
                zero_region_closed(cells_o, self@.cells, w, h),
            decreases n - k,
        {
            if self.is_adjacent(idx, k) && !self.cells[k].revealed && !self.cells[k].flagged {
                changed = true;
                let ck = self.cells[k];
                let ghost atk = self@.cells;
                if ck.mine {
                    proof {
                        lemma_count_if_update(
                            self@.cells,
                            safe_revealed_p(),
                            k as int,
                            CellView { revealed: true, ..ck },
                        );
                        lemma_count_if_update(
                            self@.cells,
                            flag_p(),
                            k as int,
                            CellView { revealed: true, ..ck },
                        );
                        lemma_count_if_update(
                            self@.cells,
                            mine_p(),
                            k as int,
                            CellView { revealed: true, ..ck },
                        );
                    }
                    self.cells.set(k, CellView { revealed: true, ..ck });
                    self.status = GameStatus::Lost;
                    self.finished_at_ms = Some(now_ms);
                    self.reveal_all_mines();
                    proof {
                        let cur = self@.cells;
                        assert forall|i: int|
                            0 <= i < cur.len() && !(#[trigger] cur[i]).mine implies cur[i].adjacent
                            == mine_nbrs(cur, self@.width(), self@.height(), i) by {
                            lemma_count_nbr_if_congruent(
                                atk,
                                cur,
                                self@.width(),
                                self@.height(),
                                i,
                                atk.len() as int,
                                mine_p(),
                            );
                        }
                        lemma_count_if_congruent(cells_o, atk, flag_p());
                        // the mine we hit witnesses both the acceptance and
                        // the loss condition
                        assert(is_neighbor(w, h, idx as int, k as int) && !cells_o[k as int].revealed
                            && !cells_o[k as int].flagged);
                        assert(cells_o[k as int].mine);
                        assert(chord_allowed(old(self)@, x as int, y as int));
                    }
                    return true;
                }
                let ghost before = self@.cells;
                self.reveal_flood_fill(k);
                proof {
                    let cur = self@.cells;
                    assert forall|i: int|
                        0 <= i < n && !(#[trigger] cur[i]).mine implies cur[i].adjacent
                        == mine_nbrs(cur, w, h, i) by {
                        lemma_count_nbr_if_congruent(before, cur, w, h, i, n as int, mine_p());
                    }
                    lemma_count_if_congruent(before, cur, mine_p());
                    // lift "opened zero regions are whole" over this flood
                    assert forall|i: int| #![trigger newly_zero(cells_o, cur, i)]
                        newly_zero(cells_o, cur, i) implies forall|j: int|
                        #![trigger is_neighbor(w, h, i, j)]
                        is_neighbor(w, h, i, j) && !cur[j].flagged ==> cur[j].revealed by {
                        if !before[i].revealed {
                            assert(newly_zero(before, cur, i));
                        } else {
                            assert(newly_zero(cells_o, before, i));
                            assert forall|j: int|
                                #![trigger is_neighbor(w, h, i, j)]
                                is_neighbor(w, h, i, j) && !cur[j].flagged implies cur[j].revealed by {
                                assert(!before[j].flagged);
                            }
                        }
                    }
                    // lift "opened cells trace back to a neighbor or a zero
                    // region" over this flood
                    assert forall|i: int|
                        0 <= i < n && (#[trigger] cur[i]).revealed && !cells_o[i].revealed implies
                        is_neighbor(w, h, idx as int, i) || (exists|m: int|
                        is_neighbor(w, h, m, i) && newly_zero(cells_o, cur, m)) by {
                        if before[i].revealed {
                            if !is_neighbor(w, h, idx as int, i) {
                                let m = choose|m: int|
                                    is_neighbor(w, h, m, i) && newly_zero(cells_o, before, m);
                                assert(newly_zero(cells_o, cur, m));
                            }
                        } else {
                            if i != k as int {
                                let m = choose|m: int|
                                    is_neighbor(w, h, m, i) && newly_zero(before, cur, m);
                                assert(newly_zero(cells_o, cur, m));
                            }
                        }
                    }
                }
            }
            k = k + 1;
        }
        if !changed {
            return false;
        }
        proof {
            lemma_count_if_disjoint(self@.cells, safe_revealed_p(), mine_p());
            lemma_count_if_congruent(cells_o, self@.cells, flag_p());
        }
        let ghost flooded = self@;
        if self.revealed_safe_cells == self.cells.len() - self.settings.mines {
            self.status = GameStatus::Won;
            self.finished_at_ms = Some(now_ms);
            self.flag_all_mines();
            proof {
                let cur = self@.cells;
                assert forall|i: int|
                    0 <= i < cur.len() && !(#[trigger] cur[i]).mine implies cur[i].adjacent
                    == mine_nbrs(cur, self@.width(), self@.height(), i) by {
                    lemma_count_nbr_if_congruent(
                        flooded.cells,
                        cur,
                        self@.width(),
                        self@.height(),
                        i,
                        flooded.cells.len() as int,
                        mine_p(),
                    );
                }
                lemma_count_if_congruent(flooded.cells, cur, mine_p());
                // auto-flagging mines does not disturb what was opened
                assert forall|i: int| #![trigger newly_zero(cells_o, cur, i)]
                    newly_zero(cells_o, cur, i) implies forall|j: int|
                    #![trigger is_neighbor(w, h, i, j)]
                    is_neighbor(w, h, i, j) && !cur[j].flagged ==> cur[j].revealed by {
                    assert(newly_zero(cells_o, flooded.cells, i));
                }
                assert forall|i: int|
                    0 <= i < n && (#[trigger] cur[i]).revealed && !cells_o[i].revealed implies
                    is_neighbor(w, h, idx as int, i) || (exists|m: int|
                    is_neighbor(w, h, m, i) && newly_zero(cells_o, cur, m)) by {
                    assert(flooded.cells[i].revealed && !cells_o[i].revealed);
                    if !is_neighbor(w, h, idx as int, i) {
                        let m = choose|m: int|
                            is_neighbor(w, h, m, i) && newly_zero(cells_o, flooded.cells, m);
                        assert(newly_zero(cells_o, cur, m));
                    }
                }
            }
        }
        true
    }
}

} // verus!
