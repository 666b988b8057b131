//! The evaluation of a position that the search falls back on.

use vstd::prelude::*;
use crate::board::Board;
use crate::dummy_grid::DummyGrid;
use crate::game::Game;
use crate::lines::{
    chain_in_row, chain_score, chain_upto, chips_only, last_in_row, last_line, win_signal,
};

verus! {

/// Largest chain score, either way, of a board of 80 cells.
pub const CHAIN_LIMIT: i64 = 20480;

/// The cells before cell `j` of row `i`, counted row by row, are fewer than the board holds.
pub proof fn lemma_cells_before(rows: int, cols: int, i: int, j: int)
    requires
        0 <= i < rows,
        0 <= j <= cols,
    ensures
        0 <= i * cols + j <= rows * cols,
        (i + 1) * cols == i * cols + cols,
{
    assert(0 <= i * cols + j <= rows * cols && (i + 1) * cols == i * cols + cols)
        by (nonlinear_arith)
        requires
            0 <= i < rows,
            0 <= j <= cols,
    ;
}

/// The last line of the board is one of the two patterns or none.
pub proof fn lemma_last_line_range(b: Board, m: int)
    ensures
        -1 <= last_line(b, m) <= 1,
    decreases m,
{
    if m > 0 {
        lemma_last_line_range(b, m - 1);
        lemma_last_in_row_range(b, m - 1, b.cols);
    }
}

/// The last line of a row is one of the two patterns or none.
pub proof fn lemma_last_in_row_range(b: Board, row: int, n: int)
    ensures
        -1 <= last_in_row(b, row, n) <= 1,
    decreases n,
{
    if n > 0 {
        lemma_last_in_row_range(b, row, n - 1);
    }
}

impl Game {
    /// Evaluates a position for the computer. The first number is 4 where O-T-T-O stands,
    /// -4 where T-O-O-T stands (the last line found row by row decides), 0 without a line.
    /// The second is the chain score: over every window of four, the cube of how far the
    /// window agrees with O-T-T-O.
    pub fn ai_check_state(&self, state: &DummyGrid) -> (res: (i64, i64))
        requires
            state.wf(),
            chips_only(state@),
        ensures
            res.0 == win_signal(state@),
            res.0 == 4 || res.0 == 0 || res.0 == -4,
            res.1 == chain_score(state@),
            -CHAIN_LIMIT <= res.1 <= CHAIN_LIMIT,
    {
        let ghost b = state@;
        let num_rows: usize = state.num_rows;
        let num_cols: usize = state.num_cols;
        let mut win_val: i64 = 0;
        let mut chain_val: i64 = 0;
        let mut i: usize = 0;
        proof {
            lemma_last_line_range(b, num_rows as int);
        }
        while i < num_rows
            invariant
                state.wf(),
                chips_only(state@),
                b == state@,
                num_rows == state.num_rows,
                num_cols == state.num_cols,
                i <= num_rows,
                win_val == -4 * last_line(b, i as int),
                chain_val == chain_upto(b, i as int),
                -256 * (i * num_cols) <= chain_val <= 256 * (i * num_cols),
                0 <= i * num_cols <= num_rows * num_cols,
            decreases num_rows - i,
        {
            let mut j: usize = 0;
            let ghost before = chain_val;
            proof {
                lemma_cells_before(num_rows as int, num_cols as int, i as int, 0);
            }
            while j < num_cols
                invariant
                    state.wf(),
                    chips_only(state@),
                    b == state@,
                    num_rows == state.num_rows,
                    num_cols == state.num_cols,
                    i < num_rows,
                    j <= num_cols,
                    win_val == -4 * (if last_in_row(b, i as int, j as int) != 0 {
                        last_in_row(b, i as int, j as int)
                    } else {
                        last_line(b, i as int)
                    }),
                    before == chain_upto(b, i as int),
                    chain_val == before + chain_in_row(b, i as int, j as int),
                    -256 * (i * num_cols + j) <= chain_val <= 256 * (i * num_cols + j),
                    0 <= i * num_cols + j <= num_rows * num_cols,
                decreases num_cols - j,
            {
                let (verdict, chain) = state.read_cell(i, j);
                proof {
                    lemma_cells_before(num_rows as int, num_cols as int, i as int, j + 1);
                }
                chain_val = chain_val + chain;
                if verdict != 0 {
                    win_val = -4 * verdict;
                }
                j = j + 1;
            }
            proof {
                lemma_cells_before(num_rows as int, num_cols as int, i as int, num_cols as int);
                if i + 1 < num_rows {
                    lemma_cells_before(num_rows as int, num_cols as int, i + 1, 0);
                }
            }
            i = i + 1;
        }
        (win_val, chain_val)
    }
}

} // verus!
