//! A match: two boards, the players, whose turn it is and how it ended.

use vstd::prelude::*;
use crate::board::Board;
use crate::chip::{chip_value, ChipType, State};
use crate::dummy_grid::DummyGrid;
use crate::grid::Grid;
use crate::layout::{lemma_occupied_bound, lemma_occupied_of_empty, lemma_slot_bound};
use crate::lines::{chips_only, first_in_row, first_line, winner};

verus! {

/// A match of TOOT-OTTO. `grid` holds who moved into each cell, `dummy_grid` which symbol
/// lies there; `p_move` counts the accepted moves.
#[derive(Clone)]
pub struct Game {
    pub grid: Grid,
    pub dummy_grid: DummyGrid,
    pub p1: String,
    pub p2: String,
    pub with_ai: bool,
    pub state: State,
    pub winner: String,
    pub p_move: i64,
    pub max_ai_depth: u32,
}

/// The marker of the player who makes move number `moves`: 1 for the first player, -1
/// for the second.
pub open spec fn mover(moves: int) -> i32 {
    if moves % 2 == 0 {
        1i32
    } else {
        -1i32
    }
}

/// What a scan of the symbol board reports after `moves` moves: the side that has a line,
/// else a draw (0) on a full board of a match that has not ended, else nothing.
pub open spec fn scan_outcome(b: Board, moves: int, state: State) -> Option<i64> {
    if winner(b) != 0 {
        Some(winner(b) as i64)
    } else if moves == b.rows * b.cols && state != State::Done {
        Some(0i64)
    } else {
        None
    }
}

/// A line, once first in a row, stays first however far the row is read.
pub proof fn lemma_first_in_row_stays(b: Board, row: int, n: int, m: int)
    requires
        0 <= n <= m,
        first_in_row(b, row, n) != 0,
    ensures
        first_in_row(b, row, m) == first_in_row(b, row, n),
    decreases m - n,
{
    if n < m {
        lemma_first_in_row_stays(b, row, n, m - 1);
    }
}

/// A line, once first on the board, stays first however many rows are read.
pub proof fn lemma_first_line_stays(b: Board, n: int, m: int)
    requires
        0 <= n <= m,
        first_line(b, n) != 0,
    ensures
        first_line(b, m) == first_line(b, n),
    decreases m - n,
{
    if n < m {
        lemma_first_line_stays(b, n, m - 1);
    }
}

impl Game {
    /// The two boards fit together: same size, the same cells occupied, no chip floating,
    /// symbols only on the symbol board, and as many moves counted as chips lie there.
    pub open spec fn wf(&self) -> bool {
        &&& self.grid.wf()
        &&& self.dummy_grid.wf()
        &&& self.grid.num_rows == self.dummy_grid.num_rows
        &&& self.grid.num_cols == self.dummy_grid.num_cols
        &&& chips_only(self.dummy_grid@)
        &&& self.grid@.settled()
        &&& self.dummy_grid@.settled()
        &&& forall|r: int, c: int|
            self.grid@.in_board(r, c) ==> ((#[trigger] self.grid@.cell(r, c) == 0) == (
            #[trigger] self.dummy_grid@.cell(r, c) == 0))
        &&& self.p_move == self.dummy_grid@.chips()
    }

    /// A match has seen no more moves than its board has cells.
    pub proof fn lemma_moves_bound(&self)
        requires
            self.wf(),
        ensures
            0 <= self.p_move <= self.grid.num_rows * self.grid.num_cols <= 80,
    {
        lemma_occupied_bound(self.dummy_grid@.cells, self.dummy_grid@.rows * self.dummy_grid@.cols);
    }

    /// A running match on empty boards of `row_size` by `col_size` cells. With `with_ai`
    /// the second player is the computer, whatever name was given.
    pub fn new(
        row_size: usize,
        col_size: usize,
        with_ai: bool,
        p1_name: String,
        p2_name: String,
        max_depth: u32,
    ) -> (game: Game)
        requires
            row_size * col_size <= 80,
        ensures
            game.wf(),
            game.grid.num_rows == row_size,
            game.grid.num_cols == col_size,
            game.grid@.is_empty(),
            game.dummy_grid@.is_empty(),
            game.grid@.settled(),
            game.dummy_grid@.settled(),
            game.p1@ == p1_name@,
            game.p2@ == if with_ai {
                "Computer"@
            } else {
                p2_name@
            },
            game.with_ai == with_ai,
            game.state == State::Running,
            game.winner@ == ""@,
            game.p_move == 0,
            game.max_ai_depth == max_depth,
    {
        let grid = Grid::new(row_size, col_size);
        let dummy_grid = DummyGrid::new(row_size, col_size);
        proof {
            lemma_occupied_of_empty(dummy_grid@.cells, row_size * col_size);
        }
        let mut game = Game {
            grid,
            dummy_grid,
            p1: p1_name,
            p2: p2_name,
            with_ai: false,
            state: State::Running,
            winner: "".to_owned(),
            p_move: 0,
            max_ai_depth: max_depth,
        };
        if with_ai {
            game.p2 = "Computer".to_owned();
            game.with_ai = true;
        }
        game
    }

    /// Starts the match anew from any state: both boards are cleared, no move is counted,
    /// no winner is named and the match is running. Players, size and depth stay.
    pub fn start_game(&mut self)
        ensures
            final(self).state == State::Running,
            final(self).p_move == 0,
            final(self).winner@ == ""@,
            forall|i: int| 0 <= i < 80 ==> final(self).grid.items@[i] == 0,
            forall|i: int| 0 <= i < 80 ==> final(self).dummy_grid.items@[i] == 0,
            final(self).grid.num_rows == old(self).grid.num_rows,
            final(self).grid.num_cols == old(self).grid.num_cols,
            final(self).dummy_grid.num_rows == old(self).dummy_grid.num_rows,
            final(self).dummy_grid.num_cols == old(self).dummy_grid.num_cols,
            old(self).grid.wf() ==> final(self).grid.wf(),
            old(self).grid.wf() ==> final(self).grid@.is_empty(),
            old(self).grid.wf() ==> final(self).grid@.settled(),
            old(self).dummy_grid.wf() ==> final(self).dummy_grid.wf(),
            old(self).dummy_grid.wf() ==> final(self).dummy_grid@.is_empty(),
            old(self).dummy_grid.wf() ==> final(self).dummy_grid@.settled(),
            old(self).wf() ==> final(self).wf(),
            final(self).p1 == old(self).p1,
            final(self).p2 == old(self).p2,
            final(self).with_ai == old(self).with_ai,
            final(self).max_ai_depth == old(self).max_ai_depth,
    {
        self.grid.items = [0; 80];
        self.dummy_grid.items = [0; 80];
        self.p_move = 0;
        self.winner = "".to_owned();
        self.state = State::Running;
        proof {
            let rows = self.grid.num_rows as int;
            let cols = self.grid.num_cols as int;
            if old(self).grid.wf() {
                assert forall|r: int, c: int| self.grid@.in_board(r, c) implies #[trigger] self.grid@.cell(
                    r,
                    c,
                ) == 0 by {
                    lemma_slot_bound(rows, cols, r, c);
                }
            }
            if old(self).dummy_grid.wf() {
                let b = self.dummy_grid@;
                assert forall|r: int, c: int| b.in_board(r, c) implies #[trigger] b.cell(r, c)
                    == 0 by {
                    lemma_slot_bound(b.rows, b.cols, r, c);
                }
                lemma_occupied_of_empty(b.cells, b.rows * b.cols);
            }
        }
    }

    /// Called when a match has ended; nothing is left to do.
    pub fn post_game(&self) {
    }

    /// The marker of the player whose turn it is: 1 before an even move, else -1.
    pub fn player_move_translate(&self) -> (val: i32)
        ensures
            val == mover(self.p_move as int),
    {
        if (self.p_move % 2) == 0 {
            return 1;
        }
        return -1;
    }

    /// Whether the next move is the computer's: it holds the second seat.
    pub fn computer_to_move(&self) -> (yes: bool)
        ensures
            yes == (self.with_ai && mover(self.p_move as int) == -1),
    {
        self.with_ai && self.p_move % 2 != 0
    }

    /// The cell value of a symbol: 1 for T, -1 for O.
    pub fn player_move_dummy_translate(&self, chip_type: ChipType) -> (val: i32)
        ensures
            val == chip_value(chip_type),
    {
        match chip_type {
            ChipType::T => 1,
            ChipType::O => -1,
        }
    }

    /// Scans the whole symbol board for a line of four, row by row and from each cell to
    /// the right, down, down-right and up-right. The first line found decides: 1 for
    /// T-O-O-T, -1 for O-T-T-O. Without a line, a full board of a match that has not ended
    /// is a draw, 0.
    pub fn check_win(&self) -> (res: Option<i64>)
        requires
            self.dummy_grid.wf(),
        ensures
            res == scan_outcome(self.dummy_grid@, self.p_move as int, self.state),
    {
        let ghost b = self.dummy_grid@;
        let rows: usize = self.dummy_grid.num_rows;
        let cols: usize = self.dummy_grid.num_cols;
        let mut i: usize = 0;
        while i < rows
            invariant
                self.dummy_grid.wf(),
                b == self.dummy_grid@,
                rows == self.dummy_grid.num_rows,
                cols == self.dummy_grid.num_cols,
                i <= rows,
                first_line(b, i as int) == 0,
            decreases rows - i,
        {
            let mut j: usize = 0;
            while j < cols
                invariant
                    self.dummy_grid.wf(),
                    b == self.dummy_grid@,
                    rows == self.dummy_grid.num_rows,
                    cols == self.dummy_grid.num_cols,
                    i < rows,
                    j <= cols,
                    first_line(b, i as int) == 0,
                    first_in_row(b, i as int, j as int) == 0,
                decreases cols - j,
            {
                let (verdict, _) = self.dummy_grid.read_cell(i, j);
                if verdict != 0 {
                    proof {
                        assert(first_in_row(b, i as int, j + 1) == verdict);
                        lemma_first_in_row_stays(b, i as int, j + 1, cols as int);
                        assert(first_line(b, i + 1) == verdict);
                        lemma_first_line_stays(b, i + 1, rows as int);
                    }
                    return Some(verdict);
                }
                j = j + 1;
            }
            i = i + 1;
        }
        proof {
            vstd::arithmetic::mul::lemma_mul_is_commutative(rows as int, cols as int);
        }
        if self.p_move >= 0 && self.p_move <= 80 && self.p_move as usize == rows * cols {
            match self.state {
                State::Done => {},
                _ => {
                    return Some(0);
                },
            }
        }
        None
    }

    /// How the match stands after an accepted move that left `b` on the symbol board:
    /// over with the first player as winner where T-O-O-T stands, with the second where
    /// O-T-T-O stands, drawn on a full board, else as before.
    pub open spec fn settled_by(&self, before: &Game) -> bool {
        match scan_outcome(self.dummy_grid@, self.p_move as int, before.state) {
            Some(w) => {
                &&& self.state == State::Done
                &&& self.winner@ == if w > 0 {
                    before.p1@
                } else if w < 0 {
                    before.p2@
                } else {
                    "Draw"@
                }
            },
            None => self.state == before.state && self.winner == before.winner,
        }
    }

    /// This match is `before` after one more accepted move, which put a chip of value
    /// `value` into the lowest empty cell of column `col`, in row `row`: both boards hold
    /// the new chip there, the move is counted, and the scan of the new board has settled
    /// how the match stands.
    pub open spec fn follows(&self, before: &Game, row: int, col: int, value: i32) -> bool {
        &&& before.grid@.in_board(row, col)
        &&& before.grid@.cell(row, col) == 0
        &&& forall|r2: int| row < r2 < before.grid.num_rows ==> before.grid@.cell(r2, col) != 0
        &&& before.grid@.settled() ==> row == before.grid.num_rows - 1 - before.grid@.height(col)
        &&& self.grid@ == before.grid@.with_cell(row, col, mover(before.p_move as int))
        &&& self.dummy_grid@ == before.dummy_grid@.with_cell(row, col, value)
        &&& self.p_move == before.p_move + 1
        &&& self.settled_by(before)
        &&& self.p1 == before.p1
        &&& self.p2 == before.p2
        &&& self.with_ai == before.with_ai
        &&& self.max_ai_depth == before.max_ai_depth
        &&& self.wf()
        &&& before.grid@.settled() ==> self.grid@.settled()
        &&& before.dummy_grid@.settled() ==> self.dummy_grid@.settled()
    }

    /// Plays the symbol `chip_type` into column `col_num` for the player whose turn it is.
    /// The move is refused, and nothing changes, when the match is over, the column is
    /// outside the board or the column is full. Otherwise the chip lands in the lowest
    /// empty cell of the column on both boards, the move is counted and the board is
    /// scanned: a line or a full board ends the match. Returns the row, the number of the
    /// move and the cell value of the symbol.
    pub fn make_move(&mut self, chip_type: ChipType, col_num: usize) -> (res: Result<
        (usize, usize, i32),
        (),
    >)
        requires
            old(self).wf(),
        ensures
            res is Err <==> old(self).state == State::Done || col_num >= old(self).grid.num_cols
                || old(self).grid@.column_full(col_num as int),
            res is Err ==> *final(self) == *old(self),
            res matches Ok((row, index, value)) ==> {
                &&& value == chip_value(chip_type)
                &&& index == old(self).p_move
                &&& final(self).follows(old(self), row as int, col_num as int, value)
            },
    {
        match self.state {
            State::Done => {
                return Err(());
            },
            _ => {},
        }
        proof {
            self.lemma_moves_bound();
        }
        let grid_val = self.player_move_translate();
        let insert_result = self.grid.insert_chip(col_num, grid_val);
        let row: usize = match insert_result {
            Err(_) => {
                return Err(());
            },
            Ok(r) => r,
        };
        let chip_value = self.player_move_dummy_translate(chip_type);
        proof {
            assert(old(self).grid@.in_board(row as int, col_num as int));
            assert(old(self).dummy_grid@.cell(row as int, col_num as int) == 0);
            old(self).grid@.lemma_with_cell(row as int, col_num as int, grid_val);
            old(self).dummy_grid@.lemma_with_cell(row as int, col_num as int, chip_value);
        }
        let second = self.dummy_grid.insert_chip(col_num, chip_value);
        proof {
            assert(second is Ok);
            let r2 = second->Ok_0;
            if r2 < row {
                assert(old(self).dummy_grid@.cell(row as int, col_num as int) != 0);
            }
            if r2 > row {
                assert(old(self).grid@.cell(r2 as int, col_num as int) != 0);
                assert(old(self).grid@.in_board(r2 as int, col_num as int));
            }
            assert(r2 == row);
            lemma_occupied_bound(self.dummy_grid@.cells, self.dummy_grid@.rows * self.dummy_grid@.cols);
        }
        let index: usize = self.p_move as usize;
        self.p_move = self.p_move + 1;
        let result = self.check_win();
        match result {
            Some(w) => {
                if w > 0 {
                    self.winner = self.p1.clone();
                } else if w < 0 {
                    self.winner = self.p2.clone();
                } else {
                    self.winner = "Draw".to_owned();
                }
                self.state = State::Done;
                self.post_game();
            },
            None => {},
        }
        Ok((row, index, chip_value))
    }
}

} // verus!
