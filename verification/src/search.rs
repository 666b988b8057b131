//! The computer's choice of a move: a depth-limited minimax search in which every ply
//! offers both symbols, cut short by an alpha-beta window.

use vstd::prelude::*;
use rand::rngs::StdRng;
use crate::board::Board;
use crate::chip::{chip_value, ChipType, State};
use crate::dummy_grid::DummyGrid;
use crate::evaluate::CHAIN_LIMIT;
use crate::game::Game;
use crate::lines::{chain_score, chips_only, win_signal};
use crate::rng::{flip, pick_below};

verus! {

/// The score of a side that cannot move; it also bounds every window from outside.
pub const UNBOUNDED: i64 = 100000000007;

/// The score of a finished line, before the depth is taken off.
pub const WIN_SCORE: i64 = 999999;

/// The deepest search that is supported: the square of the depth must fit in 32 bits.
pub const DEPTH_LIMIT: u32 = 65535;

pub open spec fn max2(a: int, b: int) -> int {
    if a >= b {
        a
    } else {
        b
    }
}

pub open spec fn min2(a: int, b: int) -> int {
    if a <= b {
        a
    } else {
        b
    }
}

/// A chip can be dropped into column `col`: the column exists and its top cell is empty.
pub open spec fn can_drop(b: Board, col: int) -> bool {
    0 <= col < b.cols && b.rows > 0 && b.cell(0, col) == 0
}

/// No column of the board takes another chip.
pub open spec fn no_move(b: Board) -> bool {
    forall|c: int| !#[trigger] can_drop(b, c)
}

/// The row in which a chip comes to rest that falls through the empty cell (`from`, `col`).
pub open spec fn landing_row(b: Board, col: int, from: int) -> int
    decreases b.rows - from,
{
    if from + 1 < b.rows && b.cell(from + 1, col) == 0 {
        landing_row(b, col, from + 1)
    } else {
        from
    }
}

/// The board after a chip of value `val` was dropped into column `col`.
pub open spec fn dropped(b: Board, col: int, val: i32) -> Board {
    b.with_cell(landing_row(b, col, 0), col, val)
}

/// Plies between `depth` and the depth limit `maxd`.
pub open spec fn plies_left(depth: int, maxd: int) -> nat {
    if depth < maxd {
        (maxd - depth) as nat
    } else {
        0
    }
}

/// The score of a position at which the search stops. A finished line counts 999999 less
/// the squared depth, for the computer's O-T-T-O, or the negative of that, for T-O-O-T, so
/// that a near win is worth more and a near loss costs more. Without a line the chain
/// score counts, signed by `chip`, less the squared depth.
pub open spec fn terminal_score(b: Board, depth: int, chip: int) -> int {
    if win_signal(b) == 4 {
        WIN_SCORE - depth * depth
    } else if win_signal(b) == -4 {
        -(WIN_SCORE - depth * depth)
    } else {
        chain_score(b) * chip - depth * depth
    }
}

/// The minimax value of a position at `depth`: its terminal score where a line stands or
/// the depth limit is reached; else, at an even depth, the least that the opponent can
/// hold the computer to with either symbol, and at an odd depth the most that the
/// computer can reach with either symbol.
pub open spec fn node_value(b: Board, depth: int, chip: int, maxd: int) -> int
    decreases plies_left(depth, maxd), 0int, 0int,
{
    if depth >= maxd || win_signal(b) == 4 || win_signal(b) == -4 {
        terminal_score(b, depth, chip)
    } else if depth % 2 == 0 {
        min2(min_over(b, depth + 1, 1, maxd, b.cols), min_over(b, depth + 1, -1, maxd, b.cols))
    } else {
        max2(max_over(b, depth + 1, 1, maxd, b.cols), max_over(b, depth + 1, -1, maxd, b.cols))
    }
}

/// The greatest value among the positions that arise when a chip of value `chip` is
/// dropped into one of the first `n` columns; `-UNBOUNDED` where none takes a chip.
pub open spec fn max_over(b: Board, depth: int, chip: int, maxd: int, n: int) -> int
    decreases plies_left(depth, maxd), 1int, n,
{
    if n <= 0 {
        -UNBOUNDED
    } else if can_drop(b, n - 1) {
        max2(
            max_over(b, depth, chip, maxd, n - 1),
            node_value(dropped(b, n - 1, chip as i32), depth, chip, maxd),
        )
    } else {
        max_over(b, depth, chip, maxd, n - 1)
    }
}

/// The least value among the positions that arise when a chip of value `-chip` is dropped
/// into one of the first `n` columns; `UNBOUNDED` where none takes a chip.
pub open spec fn min_over(b: Board, depth: int, chip: int, maxd: int, n: int) -> int
    decreases plies_left(depth, maxd), 1int, n,
{
    if n <= 0 {
        UNBOUNDED as int
    } else if can_drop(b, n - 1) {
        min2(
            min_over(b, depth, chip, maxd, n - 1),
            node_value(dropped(b, n - 1, (-chip) as i32), depth, chip, maxd),
        )
    } else {
        min_over(b, depth, chip, maxd, n - 1)
    }
}

/// What a search inside the window from `alpha` to `beta` tells about the exact value:
/// a result inside the window is the exact value, one above it a lower bound, one below it
/// an upper bound. A window that is empty tells nothing.
pub open spec fn brackets(r: int, alpha: int, beta: int, exact: int) -> bool {
    alpha <= beta ==> {
    &&& r > beta ==> exact >= r
    &&& r < alpha ==> exact <= r
    &&& alpha <= r <= beta ==> exact == r
    }
}

/// More columns can only raise the greatest value.
pub proof fn lemma_max_over_grows(b: Board, depth: int, chip: int, maxd: int, n: int, m: int)
    requires
        n <= m,
    ensures
        max_over(b, depth, chip, maxd, n) <= max_over(b, depth, chip, maxd, m),
    decreases m - n,
{
    if n < m {
        lemma_max_over_grows(b, depth, chip, maxd, n, m - 1);
    }
}

/// More columns can only lower the least value.
pub proof fn lemma_min_over_falls(b: Board, depth: int, chip: int, maxd: int, n: int, m: int)
    requires
        n <= m,
    ensures
        min_over(b, depth, chip, maxd, n) >= min_over(b, depth, chip, maxd, m),
    decreases m - n,
{
    if n < m {
        lemma_min_over_falls(b, depth, chip, maxd, n, m - 1);
    }
}

/// A board with a row has at most 80 columns.
pub proof fn lemma_cols_bound(b: Board)
    requires
        b.wf(),
        b.rows > 0,
    ensures
        b.cols <= 80,
{
    assert(b.cols <= b.rows * b.cols) by (nonlinear_arith)
        requires
            b.rows >= 1,
            b.cols >= 0,
    ;
}

/// A terminal score lies well inside the widest window.
pub proof fn lemma_terminal_score_bound(b: Board, depth: int, chip: int)
    requires
        0 <= depth <= DEPTH_LIMIT,
        chip == 1 || chip == -1,
        -CHAIN_LIMIT <= chain_score(b) <= CHAIN_LIMIT,
    ensures
        -UNBOUNDED < terminal_score(b, depth, chip) < UNBOUNDED,
        0 <= depth * depth <= 4294836225,
        -CHAIN_LIMIT <= chain_score(b) * chip <= CHAIN_LIMIT,
{
    assert(0 <= depth * depth <= 4294836225) by (nonlinear_arith)
        requires
            0 <= depth <= 65535,
    ;
    let c = chain_score(b);
    assert(-20480 <= c * chip <= 20480) by (nonlinear_arith)
        requires
            chip == 1 || chip == -1,
            -20480 <= c <= 20480,
    ;
}

/// The column that was picked from `queue` fits it: -1 for an empty queue, else one of
/// its columns.
pub open spec fn fits(col: int, queue: Seq<usize>) -> bool {
    if queue.len() == 0 {
        col == -1
    } else {
        exists|k: int| 0 <= k < queue.len() && #[trigger] queue[k] == col
    }
}

/// The score that the search returns for a position within the window from `alpha` to
/// `beta`: the terminal score where a line stands or the depth limit is reached; else the
/// lesser (at an even depth) or the greater (at an odd depth) of the scores of the two
/// scans, one for each symbol, within the same window.
pub open spec fn pruned_value(b: Board, depth: int, alpha: int, beta: int, chip: int, maxd: int) -> int
    decreases plies_left(depth, maxd), 0int, 0int,
{
    if depth >= maxd || win_signal(b) == 4 || win_signal(b) == -4 {
        terminal_score(b, depth, chip)
    } else if depth % 2 == 0 {
        min2(
            min_scan(b, depth + 1, alpha, beta, 1, maxd, 0, UNBOUNDED as int, Seq::empty()).0,
            min_scan(b, depth + 1, alpha, beta, -1, maxd, 0, UNBOUNDED as int, Seq::empty()).0,
        )
    } else {
        max2(
            max_scan(b, depth + 1, alpha, beta, 1, maxd, 0, -UNBOUNDED, Seq::empty()).0,
            max_scan(b, depth + 1, alpha, beta, -1, maxd, 0, -UNBOUNDED, Seq::empty()).0,
        )
    }
}

/// The scan of the maximizing side from column `j` on, with `v` the best score so far,
/// `queue` the columns that reached it and `low` the lower end of the window: the final
/// score and the final queue. A column's score that beats `v` starts a new queue, one that
/// equals it joins the queue; the scan ends at once with a score above `beta`, and
/// otherwise raises `low` to the best score.
pub open spec fn max_scan(
    b: Board,
    depth: int,
    low: int,
    beta: int,
    chip: int,
    maxd: int,
    j: int,
    v: int,
    queue: Seq<usize>,
) -> (int, Seq<usize>)
    decreases plies_left(depth, maxd), 1int, b.cols - j,
{
    if j >= b.cols {
        (v, queue)
    } else if !can_drop(b, j) {
        max_scan(b, depth, low, beta, chip, maxd, j + 1, v, queue)
    } else {
        let r = pruned_value(dropped(b, j, chip as i32), depth, low, beta, chip, maxd);
        let v2 = max2(v, r);
        let q2 = if r > v {
            Seq::<usize>::empty().push(j as usize)
        } else if r == v {
            queue.push(j as usize)
        } else {
            queue
        };
        if v2 > beta {
            (v2, q2)
        } else {
            max_scan(b, depth, max2(low, v2), beta, chip, maxd, j + 1, v2, q2)
        }
    }
}

/// The scan of the minimizing side from column `j` on, with `v` the least score so far,
/// `queue` the columns that reached it and `high` the upper end of the window: the final
/// score and the final queue. The scan ends at once with a score below `alpha`, and
/// otherwise lowers `high` to the least score.
pub open spec fn min_scan(
    b: Board,
    depth: int,
    alpha: int,
    high: int,
    chip: int,
    maxd: int,
    j: int,
    v: int,
    queue: Seq<usize>,
) -> (int, Seq<usize>)
    decreases plies_left(depth, maxd), 1int, b.cols - j,
{
    if j >= b.cols {
        (v, queue)
    } else if !can_drop(b, j) {
        min_scan(b, depth, alpha, high, chip, maxd, j + 1, v, queue)
    } else {
        let r = pruned_value(dropped(b, j, (-chip) as i32), depth, alpha, high, chip, maxd);
        let v2 = min2(v, r);
        let q2 = if r < v {
            Seq::<usize>::empty().push(j as usize)
        } else if r == v {
            queue.push(j as usize)
        } else {
            queue
        };
        if v2 < alpha {
            (v2, q2)
        } else {
            min_scan(b, depth, alpha, min2(high, v2), chip, maxd, j + 1, v2, q2)
        }
    }
}

/// Score and tied columns of the maximizing side's whole scan within a window.
pub open spec fn pruned_max(b: Board, depth: int, alpha: int, beta: int, chip: int, maxd: int) -> (
    int,
    Seq<usize>,
) {
    max_scan(b, depth, alpha, beta, chip, maxd, 0, -UNBOUNDED, Seq::empty())
}

/// Score and tied columns of the minimizing side's whole scan within a window.
pub open spec fn pruned_min(b: Board, depth: int, alpha: int, beta: int, chip: int, maxd: int) -> (
    int,
    Seq<usize>,
) {
    min_scan(b, depth, alpha, beta, chip, maxd, 0, UNBOUNDED as int, Seq::empty())
}

/// The column that a position's value comes with fits the queue of the scan that decided
/// it: nothing at a terminal position, else the scan with the better score, either on a tie.
pub open spec fn value_column_fits(
    b: Board,
    depth: int,
    alpha: int,
    beta: int,
    chip: int,
    maxd: int,
    col: int,
) -> bool {
    if depth >= maxd || win_signal(b) == 4 || win_signal(b) == -4 {
        col == -1
    } else if depth % 2 == 0 {
        let t = pruned_min(b, depth + 1, alpha, beta, 1, maxd);
        let o = pruned_min(b, depth + 1, alpha, beta, -1, maxd);
        (t.0 <= o.0 && fits(col, t.1)) || (o.0 <= t.0 && fits(col, o.1))
    } else {
        let t = pruned_max(b, depth + 1, alpha, beta, 1, maxd);
        let o = pruned_max(b, depth + 1, alpha, beta, -1, maxd);
        (t.0 >= o.0 && fits(col, t.1)) || (o.0 >= t.0 && fits(col, o.1))
    }
}

/// Of two results the one with the lesser score; `heads` decides a tie for the first.
pub open spec fn lower_of(t: (i64, i64), o: (i64, i64), heads: bool) -> (i64, i64) {
    if t.0 > o.0 {
        o
    } else if t.0 < o.0 {
        t
    } else if heads {
        t
    } else {
        o
    }
}

/// Of two results the one with the greater score; `heads` decides a tie for the first.
pub open spec fn higher_of(t: (i64, i64), o: (i64, i64), heads: bool) -> (i64, i64) {
    if t.0 > o.0 {
        t
    } else if t.0 < o.0 {
        o
    } else if heads {
        t
    } else {
        o
    }
}

/// The move that follows from the results of the two root searches, `t` with a T and `o`
/// with an O, and the toss `heads`: the symbol with the greater score, T on a tie with
/// `heads`, and its column, or `usize::MAX` where the search found none.
pub open spec fn root_choice(t: (i64, i64), o: (i64, i64), heads: bool) -> (ChipType, usize) {
    let play_t = t.0 > o.0 || (t.0 == o.0 && heads);
    let col = if play_t {
        t.1
    } else {
        o.1
    };
    (
        if play_t {
            ChipType::T
        } else {
            ChipType::O
        },
        if col < 0 {
            usize::MAX
        } else {
            col as usize
        },
    )
}

/// Merges the results of the two scans of the minimizing side: the lesser score wins, and
/// the toss `heads` decides a tie.
pub fn merge_low(t: (i64, i64), o: (i64, i64), heads: bool) -> (res: (i64, i64))
    ensures
        res == lower_of(t, o, heads),
{
    if t.0 > o.0 {
        o
    } else if t.0 < o.0 {
        t
    } else if heads {
        t
    } else {
        o
    }
}

/// Merges the results of the two scans of the maximizing side: the greater score wins, and
/// the toss `heads` decides a tie.
pub fn merge_high(t: (i64, i64), o: (i64, i64), heads: bool) -> (res: (i64, i64))
    ensures
        res == higher_of(t, o, heads),
{
    if t.0 > o.0 {
        t
    } else if t.0 < o.0 {
        o
    } else if heads {
        t
    } else {
        o
    }
}

/// The computer's move, from the results of the two root searches and the toss.
pub fn decide(t: (i64, i64), o: (i64, i64), heads: bool) -> (res: (ChipType, usize))
    requires
        t.1 < 80,
        o.1 < 80,
    ensures
        res == root_choice(t, o, heads),
{
    let play_t: bool = t.0 > o.0 || (t.0 == o.0 && heads);
    let col: i64 = if play_t {
        t.1
    } else {
        o.1
    };
    let chip = if play_t {
        ChipType::T
    } else {
        ChipType::O
    };
    if col < 0 {
        (chip, usize::MAX)
    } else {
        (chip, col as usize)
    }
}

/// The column at place `index` of `choice`.
pub fn pick_at(choice: &Vec<usize>, index: usize) -> (col: usize)
    requires
        index < choice.len(),
    ensures
        col == choice@[index as int],
{
    choice[index]
}

/// On a settled board a dropped chip comes to rest in the lowest empty cell of its column.
pub proof fn lemma_landing_of_settled(b: Board, col: int, row: int, from: int)
    requires
        b.wf(),
        b.settled(),
        b.in_board(row, col),
        0 <= from <= row,
        b.cell(row, col) == 0,
        forall|r2: int| row < r2 < b.rows ==> b.cell(r2, col) != 0,
    ensures
        landing_row(b, col, from) == row,
    decreases row - from,
{
    if from < row {
        assert(b.cell(row, col) == 0);
        assert(b.cell(from + 1, col) == 0);
        lemma_landing_of_settled(b, col, row, from + 1);
    } else if row + 1 < b.rows {
        assert(b.cell(row + 1, col) != 0);
    }
}

/// Searching inside a window loses nothing: a score that a search returns from inside its
/// window is the score that a search with the widest window returns, the exact minimax
/// value.
pub proof fn lemma_pruning_keeps_score(pruned: int, alpha: int, beta: int, full: int, exact: int)
    requires
        brackets(pruned, alpha, beta, exact),
        alpha <= pruned <= beta,
        brackets(full, -UNBOUNDED, UNBOUNDED as int, exact),
        -UNBOUNDED <= full <= UNBOUNDED,
    ensures
        pruned == full,
        full == exact,
{
}

/// The computer's move is fixed by the symbol board, the depth limit and the draws: two
/// matches that agree in these get the same symbol and the same column.
pub proof fn lemma_same_draws_same_move(first: Game, second: Game, t_col: i64, o_col: i64, heads: bool)
    requires
        first.dummy_grid@ == second.dummy_grid@,
        first.max_ai_depth == second.max_ai_depth,
    ensures
        first.move_of_draws(t_col, o_col, heads) == second.move_of_draws(t_col, o_col, heads),
{
}

impl Game {
    /// The computer's move on the symbol board of this match: the symbol and the column
    /// whose position has the greatest minimax value, found by one search for each symbol
    /// with the widest window. Where both symbols reach the same value, or several columns
    /// do, the choice among them is random. Where no column takes a chip, the column is
    /// `usize::MAX`.
    pub fn ai_move_val(&self, rng: &mut StdRng) -> (res: (ChipType, usize))
        requires
            self.dummy_grid.wf(),
            chips_only(self.dummy_grid@),
            self.max_ai_depth <= DEPTH_LIMIT,
        ensures
            self.best_move(res.0, res.1),
            self.move_of_some_draws(res),
    {
        let state = &self.dummy_grid;
        let t_chip = self.player_move_dummy_translate(ChipType::T);
        let o_chip = self.player_move_dummy_translate(ChipType::O);
        let with_t = self.ai_max_state(state, 0, -UNBOUNDED, UNBOUNDED, t_chip as i64, rng);
        let with_o = self.ai_max_state(state, 0, -UNBOUNDED, UNBOUNDED, o_chip as i64, rng);
        let heads: bool = if with_t.0 == with_o.0 {
            flip(rng)
        } else {
            false
        };
        proof {
            let b = self.dummy_grid@;
            let maxd = self.max_ai_depth as int;
            let t = pruned_max(b, 0, -UNBOUNDED, UNBOUNDED as int, 1, maxd);
            let o = pruned_max(b, 0, -UNBOUNDED, UNBOUNDED as int, -1, maxd);
            assert(with_t == (t.0 as i64, with_t.1));
            assert(with_o == (o.0 as i64, with_o.1));
            assert(fits(with_t.1 as int, t.1) && fits(with_o.1 as int, o.1) && root_choice(
                with_t,
                with_o,
                heads,
            ) == self.move_of_draws(with_t.1, with_o.1, heads));
        }
        decide(with_t, with_o, heads)
    }

    /// `choice` is the move that follows from the symbol board, the depth limit and three
    /// draws: a column out of the queue of each root search, and the toss between the two.
    /// Nothing else enters into the computer's move.
    pub open spec fn move_of_some_draws(&self, choice: (ChipType, usize)) -> bool {
        let b = self.dummy_grid@;
        let maxd = self.max_ai_depth as int;
        let t = pruned_max(b, 0, -UNBOUNDED, UNBOUNDED as int, 1, maxd);
        let o = pruned_max(b, 0, -UNBOUNDED, UNBOUNDED as int, -1, maxd);
        exists|t_col: i64, o_col: i64, heads: bool|
            fits(t_col as int, t.1) && fits(o_col as int, o.1) && choice
                == #[trigger] self.move_of_draws(t_col, o_col, heads)
    }

    /// The computer's move as a function of the symbol board, the depth limit and the
    /// three draws: the column `t_col` drawn for the search with a T, the column `o_col`
    /// drawn for the search with an O, and the toss `heads`.
    pub open spec fn move_of_draws(&self, t_col: i64, o_col: i64, heads: bool) -> (ChipType, usize) {
        let b = self.dummy_grid@;
        let maxd = self.max_ai_depth as int;
        let t = pruned_max(b, 0, -UNBOUNDED, UNBOUNDED as int, 1, maxd);
        let o = pruned_max(b, 0, -UNBOUNDED, UNBOUNDED as int, -1, maxd);
        root_choice((t.0 as i64, t_col), (o.0 as i64, o_col), heads)
    }

    /// `chip` into `col` is a best move on the symbol board: no symbol reaches a greater
    /// minimax value than `chip` does, and the position after the move has that value.
    /// Where no column takes a chip, `col` is `usize::MAX`.
    pub open spec fn best_move(&self, chip: ChipType, col: usize) -> bool {
        let b = self.dummy_grid@;
        let maxd = self.max_ai_depth as int;
        let with_t = max_over(b, 0, 1, maxd, b.cols);
        let with_o = max_over(b, 0, -1, maxd, b.cols);
        &&& chip == ChipType::T ==> with_t >= with_o
        &&& chip == ChipType::O ==> with_o >= with_t
        &&& no_move(b) ==> col == usize::MAX
        &&& !no_move(b) ==> {
            &&& can_drop(b, col as int)
            &&& node_value(dropped(b, col as int, chip_value(chip)), 0, chip_value(chip) as int, maxd)
                == max2(with_t, with_o)
        }
    }

    /// Lets the computer move: it plays a best move of `ai_move_val` as `make_move` would.
    /// Fails, changing nothing, when the match is over or no column takes a chip. Returns
    /// the row, the number of the move, the column and the cell value of the symbol.
    pub fn ai_make_move(&mut self, rng: &mut StdRng) -> (res: Result<(usize, usize, usize, i32), ()>)
        requires
            old(self).wf(),
            old(self).max_ai_depth <= DEPTH_LIMIT,
        ensures
            res is Err <==> old(self).state == State::Done || no_move(old(self).dummy_grid@),
            res is Err <==> old(self).state == State::Done || forall|c: int|
                0 <= c < old(self).grid.num_cols ==> #[trigger] old(self).grid@.column_full(c),
            res is Err ==> *final(self) == *old(self),
            res matches Ok((row, index, col, value)) ==> {
                &&& exists|chip: ChipType|
                    value == chip_value(chip) && #[trigger] old(self).best_move(chip, col) && old(
                        self,
                    ).move_of_some_draws((chip, col))
                &&& index == old(self).p_move
                &&& final(self).follows(old(self), row as int, col as int, value)
                &&& old(self).dummy_grid@.settled() ==> final(self).dummy_grid@ == dropped(
                    old(self).dummy_grid@,
                    col as int,
                    value,
                )
            },
    {
        match self.state {
            State::Done => {
                return Err(());
            },
            _ => {},
        }
        let (chip_type, col_num) = self.ai_move_val(rng);
        proof {
            let b = self.dummy_grid@;
            if no_move(b) {
                assert forall|c: int| 0 <= c < self.grid.num_cols implies #[trigger] self.grid@.column_full(
                    c,
                ) by {
                    assert(!can_drop(b, c));
                    if self.grid.num_rows > 0 {
                        assert(self.grid@.in_board(0, c));
                        assert(b.cell(0, c) != 0);
                        assert(self.grid@.cell(0, c) != 0);
                        assert forall|r: int| 0 <= r < self.grid.num_rows implies #[trigger] self.grid@.cell(
                            r,
                            c,
                        ) != 0 by {
                            if r > 0 && self.grid@.cell(r, c) == 0 {
                                assert(self.grid@.in_board(r, c));
                                assert(self.grid@.cell(0, c) == 0);
                            }
                        }
                    }
                }
            } else {
                let c = choose|c: int| can_drop(b, c);
                assert(self.grid@.in_board(0, c));
                assert(self.grid@.cell(0, c) == 0);
                assert(!self.grid@.column_full(c));
            }
            if can_drop(b, col_num as int) {
                assert(self.grid@.in_board(0, col_num as int));
                assert(self.grid@.cell(0, col_num as int) == 0);
            }
            if !no_move(b) {
                assert(can_drop(b, col_num as int));
            } else if col_num < self.grid.num_cols {
                if !self.grid@.column_full(col_num as int) {
                    let r = choose|r: int|
                        0 <= r < self.grid.num_rows && self.grid@.cell(r, col_num as int) == 0;
                    assert(self.grid@.in_board(r, col_num as int));
                    assert(self.dummy_grid@.cell(r, col_num as int) == 0);
                }
            }
        }
        match self.make_move(chip_type, col_num) {
            Ok((row, index, value)) => {
                proof {
                    assert(old(self).best_move(chip_type, col_num));
                    assert(old(self).move_of_some_draws((chip_type, col_num)));
                    let b = old(self).dummy_grid@;
                    if b.settled() {
                        assert(b.in_board(row as int, col_num as int));
                        assert(b.cell(row as int, col_num as int) == 0);
                        assert forall|r2: int| row < r2 < b.rows implies b.cell(r2, col_num as int)
                            != 0 by {
                            assert(old(self).grid@.cell(r2, col_num as int) != 0);
                            assert(old(self).grid@.in_board(r2, col_num as int));
                        }
                        lemma_landing_of_settled(b, col_num as int, row as int, 0);
                    }
                }
                Ok((row, index, col_num, value))
            },
            Err(_) => Err(()),
        }
    }

    /// The board that arises when a chip of value `value` is dropped into `column` of
    /// `state`, which is left as it is: the chip falls through the empty cells at the top
    /// of the column. `None` where the column is outside the board or its top cell is taken.
    pub fn ai_fill_map(&self, state: &DummyGrid, column: usize, value: i64) -> (res: Option<
        DummyGrid,
    >)
        requires
            state.wf(),
        ensures
            res is Some <==> can_drop(state@, column as int),
            res matches Some(g) ==> {
                &&& g@ == dropped(state@, column as int, value as i32)
                &&& g.wf()
                &&& g.num_rows == state.num_rows
                &&& g.num_cols == state.num_cols
                &&& chips_only(state@) && (value == 1 || value == -1) ==> chips_only(g@)
            },
    {
        if column >= state.num_cols || state.num_rows == 0 {
            return None;
        }
        if state.get(0, column) != 0 {
            return None;
        }
        let ghost b = state@;
        let mut row: usize = 0;
        let mut done = false;
        while !done && row + 1 < state.num_rows
            invariant
                state.wf(),
                b == state@,
                column < state.num_cols,
                row < state.num_rows,
                landing_row(b, column as int, 0) == landing_row(b, column as int, row as int),
                done ==> landing_row(b, column as int, row as int) == row,
            decreases (if done { 0int } else { 1int }), state.num_rows - row,
        {
            if state.get(row + 1, column) != 0 {
                done = true;
            } else {
                row = row + 1;
            }
        }
        let mut temp_map = DummyGrid {
            items: state.items,
            num_rows: state.num_rows,
            num_cols: state.num_cols,
        };
        let chip: i32 = #[verifier::truncate] (value as i32);
        proof {
            assert(temp_map@ == b);
            b.lemma_with_cell(row as int, column as int, chip);
        }
        temp_map.set(row, column, chip);
        Some(temp_map)
    }

    /// One of the columns in `choice`, picked at random.
    pub fn pick(choice: Vec<usize>, rng: &mut StdRng) -> (col: usize)
        requires
            choice.len() > 0,
        ensures
            exists|k: int| 0 <= k < choice.len() && choice@[k] == col,
    {
        let rand_idx = pick_below(rng, choice.len());
        pick_at(&choice, rand_idx)
    }

    /// The value of `state` at `depth` within the window from `alpha` to `beta`, and the
    /// column that the side to move would play, or -1 where the search stops here.
    pub fn ai_value(
        &self,
        state: &DummyGrid,
        depth: u32,
        alpha: i64,
        beta: i64,
        ai_move_val: i64,
        rng: &mut StdRng,
    ) -> (res: (i64, i64))
        requires
            state.wf(),
            chips_only(state@),
            depth <= DEPTH_LIMIT,
            self.max_ai_depth <= DEPTH_LIMIT,
            ai_move_val == 1 || ai_move_val == -1,
        ensures
            brackets(
                res.0 as int,
                alpha as int,
                beta as int,
                node_value(state@, depth as int, ai_move_val as int, self.max_ai_depth as int),
            ),
            alpha <= -UNBOUNDED && beta >= UNBOUNDED ==> res.0 == node_value(
                state@,
                depth as int,
                ai_move_val as int,
                self.max_ai_depth as int,
            ),
            -UNBOUNDED <= res.0 <= UNBOUNDED,
            -1 <= res.1 < state.num_cols,
            res.1 < 80,
            res.1 != -1 ==> can_drop(state@, res.1 as int),
            depth >= self.max_ai_depth || win_signal(state@) != 0 ==> res.1 == -1,
            depth < self.max_ai_depth && win_signal(state@) == 0 ==> (res.1 == -1 <==> no_move(
                state@,
            )),
            depth >= self.max_ai_depth || win_signal(state@) != 0 ==> res.0 == terminal_score(
                state@,
                depth as int,
                ai_move_val as int,
            ),
            res.0 == pruned_value(
                state@,
                depth as int,
                alpha as int,
                beta as int,
                ai_move_val as int,
                self.max_ai_depth as int,
            ),
            value_column_fits(
                state@,
                depth as int,
                alpha as int,
                beta as int,
                ai_move_val as int,
                self.max_ai_depth as int,
                res.1 as int,
            ),
        decreases plies_left(depth as int, self.max_ai_depth as int), 0int,
    {
        let val = self.ai_check_state(state);
        let d: i64 = depth as i64;
        proof {
            lemma_terminal_score_bound(state@, depth as int, ai_move_val as int);
        }
        let penalty: i64 = d * d;
        if depth >= self.max_ai_depth || val.0 == 4 || val.0 == -4 {
            let score: i64 = if val.0 == 4 {
                WIN_SCORE - penalty
            } else if val.0 == -4 {
                -(WIN_SCORE - penalty)
            } else {
                val.1 * ai_move_val - penalty
            };
            return (score, -1);
        }
        if depth % 2 == 0 {
            let with_t = self.ai_min_state(state, depth + 1, alpha, beta, 1, rng);
            let with_o = self.ai_min_state(state, depth + 1, alpha, beta, -1, rng);
            let heads: bool = if with_t.0 == with_o.0 {
                flip(rng)
            } else {
                false
            };
            merge_low(with_t, with_o, heads)
        } else {
            let with_t = self.ai_max_state(state, depth + 1, alpha, beta, 1, rng);
            let with_o = self.ai_max_state(state, depth + 1, alpha, beta, -1, rng);
            let heads: bool = if with_t.0 == with_o.0 {
                flip(rng)
            } else {
                false
            };
            merge_high(with_t, with_o, heads)
        }
    }

    /// The most that the side to move can reach by dropping a chip of value `ai_move_val`,
    /// within the window from `alpha` to `beta`, and a column that reaches it, picked at
    /// random among the best; -1 where no column takes a chip. The search is cut short as
    /// soon as a value lies above `beta`.
    pub fn ai_max_state(
        &self,
        state: &DummyGrid,
        depth: u32,
        alpha: i64,
        beta: i64,
        ai_move_val: i64,
        rng: &mut StdRng,
    ) -> (res: (i64, i64))
        requires
            state.wf(),
            chips_only(state@),
            depth <= DEPTH_LIMIT,
            self.max_ai_depth <= DEPTH_LIMIT,
            ai_move_val == 1 || ai_move_val == -1,
        ensures
            brackets(
                res.0 as int,
                alpha as int,
                beta as int,
                max_over(
                    state@,
                    depth as int,
                    ai_move_val as int,
                    self.max_ai_depth as int,
                    state.num_cols as int,
                ),
            ),
            alpha <= -UNBOUNDED && beta >= UNBOUNDED ==> res.0 == max_over(
                state@,
                depth as int,
                ai_move_val as int,
                self.max_ai_depth as int,
                state.num_cols as int,
            ),
            -UNBOUNDED <= res.0 <= UNBOUNDED,
            res.1 == -1 <==> no_move(state@),
            -1 <= res.1 < state.num_cols,
            res.1 < 80,
            res.1 != -1 ==> can_drop(state@, res.1 as int) && (alpha <= res.0 <= beta ==> node_value(
                dropped(state@, res.1 as int, ai_move_val as i32),
                depth as int,
                ai_move_val as int,
                self.max_ai_depth as int,
            ) == res.0),
            res.0 == pruned_max(
                state@,
                depth as int,
                alpha as int,
                beta as int,
                ai_move_val as int,
                self.max_ai_depth as int,
            ).0,
            fits(
                res.1 as int,
                pruned_max(
                    state@,
                    depth as int,
                    alpha as int,
                    beta as int,
                    ai_move_val as int,
                    self.max_ai_depth as int,
                ).1,
            ),
        decreases plies_left(depth as int, self.max_ai_depth as int), 1int,
    {
        let ghost b = state@;
        let ghost maxd = self.max_ai_depth as int;
        let mut v: i64 = -UNBOUNDED;
        let mut move_queue: Vec<usize> = Vec::new();
        let mut window_low = alpha;
        let mut j: usize = 0;
        while j < state.num_cols
            invariant
                state.wf(),
                chips_only(state@),
                b == state@,
                maxd == self.max_ai_depth,
                depth <= DEPTH_LIMIT,
                self.max_ai_depth <= DEPTH_LIMIT,
                ai_move_val == 1 || ai_move_val == -1,
                j <= state.num_cols,
                -UNBOUNDED <= v <= UNBOUNDED,
                move_queue.len() == 0 ==> {
                    &&& v == -UNBOUNDED
                    &&& window_low == alpha
                    &&& max_over(b, depth as int, ai_move_val as int, maxd, j as int) == -UNBOUNDED
                    &&& forall|c: int| 0 <= c < j ==> !#[trigger] can_drop(b, c)
                },
                move_queue.len() > 0 ==> {
                    &&& v <= beta
                    &&& window_low == max2(alpha as int, v as int)
                    &&& alpha <= beta ==> max_over(b, depth as int, ai_move_val as int, maxd, j as int)
                        <= v
                    &&& v >= alpha ==> max_over(b, depth as int, ai_move_val as int, maxd, j as int)
                        == v
                },
                forall|k: int|
                    0 <= k < move_queue.len() ==> {
                        &&& 0 <= #[trigger] move_queue@[k] < j
                        &&& move_queue@[k] < 80
                        &&& can_drop(b, move_queue@[k] as int)
                        &&& v >= alpha ==> node_value(
                            dropped(b, move_queue@[k] as int, ai_move_val as i32),
                            depth as int,
                            ai_move_val as int,
                            maxd,
                        ) == v
                    },
                pruned_max(b, depth as int, alpha as int, beta as int, ai_move_val as int, maxd)
                    == max_scan(
                    b,
                    depth as int,
                    window_low as int,
                    beta as int,
                    ai_move_val as int,
                    maxd,
                    j as int,
                    v as int,
                    move_queue@,
                ),
            decreases state.num_cols - j,
        {
            let temp_state_opt = self.ai_fill_map(state, j, ai_move_val);
            match temp_state_opt {
                Some(temp_state) => {
                    proof {
                        lemma_cols_bound(b);
                    }
                    let temp_val = self.ai_value(
                        &temp_state,
                        depth,
                        window_low,
                        beta,
                        ai_move_val,
                        rng,
                    );
                    if temp_val.0 > v {
                        v = temp_val.0;
                        move_queue.clear();
                        move_queue.push(j);
                    } else if temp_val.0 == v {
                        move_queue.push(j);
                    }
                    if v > beta {
                        proof {
                            lemma_max_over_grows(
                                b,
                                depth as int,
                                ai_move_val as int,
                                maxd,
                                j + 1,
                                state.num_cols as int,
                            );

                        }
                        let ghost queue = move_queue@;
                        let col = Game::pick(move_queue, rng);
                        proof {
                            let k = choose|k: int| 0 <= k < queue.len() && queue[k] == col;
                            assert(can_drop(b, queue[k] as int));
                        }
                        return (v, col as i64);
                    }
                    window_low = if window_low >= v {
                        window_low
                    } else {
                        v
                    };
                },
                None => {},
            }
            j = j + 1;
        }
        if move_queue.len() == 0 {
            (v, -1)
        } else {
            let ghost queue = move_queue@;
            let col = Game::pick(move_queue, rng);
            proof {
                let k = choose|k: int| 0 <= k < queue.len() && queue[k] == col;
                assert(can_drop(b, queue[k] as int));
            }
            (v, col as i64)
        }
    }

    /// The least that the opponent can hold the computer to by dropping a chip of value
    /// `-ai_move_val`, within the window from `alpha` to `beta`, and a column that does
    /// so, picked at random among the best; -1 where no column takes a chip. The search is
    /// cut short as soon as a value lies below `alpha`.
    pub fn ai_min_state(
        &self,
        state: &DummyGrid,
        depth: u32,
        alpha: i64,
        beta: i64,
        ai_move_val: i64,
        rng: &mut StdRng,
    ) -> (res: (i64, i64))
        requires
            state.wf(),
            chips_only(state@),
            depth <= DEPTH_LIMIT,
            self.max_ai_depth <= DEPTH_LIMIT,
            ai_move_val == 1 || ai_move_val == -1,
        ensures
            brackets(
                res.0 as int,
                alpha as int,
                beta as int,
                min_over(
                    state@,
                    depth as int,
                    ai_move_val as int,
                    self.max_ai_depth as int,
                    state.num_cols as int,
                ),
            ),
            alpha <= -UNBOUNDED && beta >= UNBOUNDED ==> res.0 == min_over(
                state@,
                depth as int,
                ai_move_val as int,
                self.max_ai_depth as int,
                state.num_cols as int,
            ),
            -UNBOUNDED <= res.0 <= UNBOUNDED,
            res.1 == -1 <==> no_move(state@),
            -1 <= res.1 < state.num_cols,
            res.1 < 80,
            res.1 != -1 ==> can_drop(state@, res.1 as int) && (alpha <= res.0 <= beta ==> node_value(
                dropped(state@, res.1 as int, (-ai_move_val) as i32),
                depth as int,
                ai_move_val as int,
                self.max_ai_depth as int,
            ) == res.0),
            res.0 == pruned_min(
                state@,
                depth as int,
                alpha as int,
                beta as int,
                ai_move_val as int,
                self.max_ai_depth as int,
            ).0,
            fits(
                res.1 as int,
                pruned_min(
                    state@,
                    depth as int,
                    alpha as int,
                    beta as int,
                    ai_move_val as int,
                    self.max_ai_depth as int,
                ).1,
            ),
        decreases plies_left(depth as int, self.max_ai_depth as int), 1int,
    {
        let ghost b = state@;
        let ghost maxd = self.max_ai_depth as int;
        let mut v: i64 = UNBOUNDED;
        let mut move_queue: Vec<usize> = Vec::new();
        let mut window_high = beta;
        let mut j: usize = 0;
        while j < state.num_cols
            invariant
                state.wf(),
                chips_only(state@),
                b == state@,
                maxd == self.max_ai_depth,
                depth <= DEPTH_LIMIT,
                self.max_ai_depth <= DEPTH_LIMIT,
                ai_move_val == 1 || ai_move_val == -1,
                j <= state.num_cols,
                -UNBOUNDED <= v <= UNBOUNDED,
                move_queue.len() == 0 ==> {
                    &&& v == UNBOUNDED
                    &&& window_high == beta
                    &&& min_over(b, depth as int, ai_move_val as int, maxd, j as int) == UNBOUNDED
                    &&& forall|c: int| 0 <= c < j ==> !#[trigger] can_drop(b, c)
                },
                move_queue.len() > 0 ==> {
                    &&& v >= alpha
                    &&& window_high == min2(beta as int, v as int)
                    &&& alpha <= beta ==> min_over(b, depth as int, ai_move_val as int, maxd, j as int)
                        >= v
                    &&& v <= beta ==> min_over(b, depth as int, ai_move_val as int, maxd, j as int)
                        == v
                },
                forall|k: int|
                    0 <= k < move_queue.len() ==> {
                        &&& 0 <= #[trigger] move_queue@[k] < j
                        &&& move_queue@[k] < 80
                        &&& can_drop(b, move_queue@[k] as int)
                        &&& v <= beta ==> node_value(
                            dropped(b, move_queue@[k] as int, (-ai_move_val) as i32),
                            depth as int,
                            ai_move_val as int,
                            maxd,
                        ) == v
                    },
                pruned_min(b, depth as int, alpha as int, beta as int, ai_move_val as int, maxd)
                    == min_scan(
                    b,
                    depth as int,
                    alpha as int,
                    window_high as int,
                    ai_move_val as int,
                    maxd,
                    j as int,
                    v as int,
                    move_queue@,
                ),
            decreases state.num_cols - j,
        {
            let temp_state_opt = self.ai_fill_map(state, j, ai_move_val * -1);
            match temp_state_opt {
                Some(temp_state) => {
                    proof {
                        lemma_cols_bound(b);
                    }
                    let temp_val = self.ai_value(
                        &temp_state,
                        depth,
                        alpha,
                        window_high,
                        ai_move_val,
                        rng,
                    );
                    if temp_val.0 < v {
                        v = temp_val.0;
                        move_queue.clear();
                        move_queue.push(j);
                    } else if temp_val.0 == v {
                        move_queue.push(j);
                    }
                    if v < alpha {
                        proof {
                            lemma_min_over_falls(
                                b,
                                depth as int,
                                ai_move_val as int,
                                maxd,
                                j + 1,
                                state.num_cols as int,
                            );

                        }
                        let ghost queue = move_queue@;
                        let col = Game::pick(move_queue, rng);
                        proof {
                            let k = choose|k: int| 0 <= k < queue.len() && queue[k] == col;
                            assert(can_drop(b, queue[k] as int));
                        }
                        return (v, col as i64);
                    }
                    window_high = if window_high <= v {
                        window_high
                    } else {
                        v
                    };
                },
                None => {},
            }
            j = j + 1;
        }
        if move_queue.len() == 0 {
            (v, -1)
        } else {
            let ghost queue = move_queue@;
            let col = Game::pick(move_queue, rng);
            proof {
                let k = choose|k: int| 0 <= k < queue.len() && queue[k] == col;
                assert(can_drop(b, queue[k] as int));
            }
            (v, col as i64)
        }
    }
}

} // verus!
