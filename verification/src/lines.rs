//! Lines of four on the symbol board: who has won, and how promising a position is.

use vstd::prelude::*;
use crate::board::Board;
use crate::dummy_grid::DummyGrid;

verus! {

/// Row of the `k`-th cell of the window that starts in `row` and runs in direction `dir`:
/// 0 is right, 1 down, 2 down-right, 3 up-right.
pub open spec fn window_row(row: int, dir: int, k: int) -> int {
    if dir == 0 {
        row
    } else if dir == 3 {
        row - k
    } else {
        row + k
    }
}

/// Column of the `k`-th cell of the window that starts in `col` and runs in direction `dir`.
pub open spec fn window_col(col: int, dir: int, k: int) -> int {
    if dir == 1 {
        col
    } else {
        col + k
    }
}

/// The `k`-th value of a window; a cell outside the board counts as empty.
pub open spec fn probe(b: Board, row: int, col: int, dir: int, k: int) -> int {
    if b.in_board(window_row(row, dir, k), window_col(col, dir, k)) {
        b.cell(window_row(row, dir, k), window_col(col, dir, k)) as int
    } else {
        0
    }
}

/// The window reads `outer`, `inner`, `inner`, `outer`.
pub open spec fn spells(b: Board, row: int, col: int, dir: int, outer: int, inner: int) -> bool {
    &&& probe(b, row, col, dir, 0) == outer
    &&& probe(b, row, col, dir, 1) == inner
    &&& probe(b, row, col, dir, 2) == inner
    &&& probe(b, row, col, dir, 3) == outer
}

/// 1 where the window reads T-O-O-T, -1 where it reads O-T-T-O, else 0.
pub open spec fn line_at(b: Board, row: int, col: int, dir: int) -> int {
    if spells(b, row, col, dir, 1, -1) {
        1
    } else if spells(b, row, col, dir, -1, 1) {
        -1
    } else {
        0
    }
}

/// The line that starts at a cell: that of the first direction that has one.
pub open spec fn cell_verdict(b: Board, row: int, col: int) -> int {
    if line_at(b, row, col, 0) != 0 {
        line_at(b, row, col, 0)
    } else if line_at(b, row, col, 1) != 0 {
        line_at(b, row, col, 1)
    } else if line_at(b, row, col, 2) != 0 {
        line_at(b, row, col, 2)
    } else {
        line_at(b, row, col, 3)
    }
}

/// The first line among those that start in the first `n` cells of `row`.
pub open spec fn first_in_row(b: Board, row: int, n: int) -> int
    decreases n,
{
    if n <= 0 {
        0
    } else if first_in_row(b, row, n - 1) != 0 {
        first_in_row(b, row, n - 1)
    } else {
        cell_verdict(b, row, n - 1)
    }
}

/// The first line, row by row, among those that start in the first `m` rows.
pub open spec fn first_line(b: Board, m: int) -> int
    decreases m,
{
    if m <= 0 {
        0
    } else if first_line(b, m - 1) != 0 {
        first_line(b, m - 1)
    } else {
        first_in_row(b, m - 1, b.cols)
    }
}

/// Who has a line on the board: 1 for T-O-O-T, -1 for O-T-T-O, 0 for nobody. Where both
/// stand, the line that comes first row by row decides.
pub open spec fn winner(b: Board) -> int {
    first_line(b, b.rows)
}

/// The last line among those that start in the first `n` cells of `row`.
pub open spec fn last_in_row(b: Board, row: int, n: int) -> int
    decreases n,
{
    if n <= 0 {
        0
    } else if cell_verdict(b, row, n - 1) != 0 {
        cell_verdict(b, row, n - 1)
    } else {
        last_in_row(b, row, n - 1)
    }
}

/// The last line, row by row, among those that start in the first `m` rows.
pub open spec fn last_line(b: Board, m: int) -> int
    decreases m,
{
    if m <= 0 {
        0
    } else if last_in_row(b, m - 1, b.cols) != 0 {
        last_in_row(b, m - 1, b.cols)
    } else {
        last_line(b, m - 1)
    }
}

/// What a finished line is worth to the computer, which wants O-T-T-O: 4 for one of its
/// own, -4 for a T-O-O-T, 0 without a line. Where both stand, the last one row by row decides.
pub open spec fn win_signal(b: Board) -> int {
    -4 * last_line(b, b.rows)
}

/// How far a window agrees with O-T-T-O: each cell counts for or against by its symbol.
pub open spec fn window_weight(b: Board, row: int, col: int, dir: int) -> int {
    -probe(b, row, col, dir, 0) + probe(b, row, col, dir, 1) + probe(b, row, col, dir, 2) - probe(
        b,
        row,
        col,
        dir,
        3,
    )
}

pub open spec fn cube(x: int) -> int {
    x * x * x
}

/// The cubed weights of the four windows that start at a cell.
pub open spec fn cell_chain(b: Board, row: int, col: int) -> int {
    cube(window_weight(b, row, col, 0)) + cube(window_weight(b, row, col, 1)) + cube(
        window_weight(b, row, col, 2),
    ) + cube(window_weight(b, row, col, 3))
}

/// Sum of `cell_chain` over the first `n` cells of `row`.
pub open spec fn chain_in_row(b: Board, row: int, n: int) -> int
    decreases n,
{
    if n <= 0 {
        0
    } else {
        chain_in_row(b, row, n - 1) + cell_chain(b, row, n - 1)
    }
}

/// Sum of `cell_chain` over the first `m` rows.
pub open spec fn chain_upto(b: Board, m: int) -> int
    decreases m,
{
    if m <= 0 {
        0
    } else {
        chain_upto(b, m - 1) + chain_in_row(b, m - 1, b.cols)
    }
}

/// The chain score of a board: the cubed window weights of all its cells.
pub open spec fn chain_score(b: Board) -> int {
    chain_upto(b, b.rows)
}

/// Every cell of the board is empty or holds one of the two symbols.
pub open spec fn chips_only(b: Board) -> bool {
    forall|r: int, c: int| b.in_board(r, c) ==> -1 <= #[trigger] b.cell(r, c) <= 1
}

/// The cube of a window weight stays within 64 either way.
pub proof fn lemma_cube_bound(x: int)
    requires
        -4 <= x <= 4,
    ensures
        -64 <= cube(x) <= 64,
        -64 <= x * x * x <= 64,
        -16 <= x * x <= 16,
{
    assert(-64 <= x * x * x <= 64 && -16 <= x * x <= 16) by (nonlinear_arith)
        requires
            -4 <= x <= 4,
    ;
}

impl DummyGrid {
    /// The `k`-th value of the window that starts at (`row`, `col`) and runs in direction
    /// `dir`; 0 where the window has left the board.
    pub(crate) fn probe(&self, row: usize, col: usize, dir: u8, k: usize) -> (v: i32)
        requires
            self.wf(),
            self@.in_board(row as int, col as int),
            dir < 4,
            k < 4,
        ensures
            v == probe(self@, row as int, col as int, dir as int, k as int),
    {
        if dir != 1 && k >= self.num_cols - col {
            return 0;
        }
        let c: usize = if dir == 1 {
            col
        } else {
            col + k
        };
        if dir == 0 {
            self.get(row, c)
        } else if dir == 3 {
            if row < k {
                0
            } else {
                self.get(row - k, c)
            }
        } else {
            if k >= self.num_rows - row {
                0
            } else {
                self.get(row + k, c)
            }
        }
    }

    /// The line that the window at (`row`, `col`) in direction `dir` spells, and the
    /// window's weight.
    pub(crate) fn read_window(&self, row: usize, col: usize, dir: u8) -> (res: (i64, i64))
        requires
            self.wf(),
            self@.in_board(row as int, col as int),
            dir < 4,
        ensures
            res.0 == line_at(self@, row as int, col as int, dir as int),
            chips_only(self@) ==> res.1 == window_weight(self@, row as int, col as int, dir as int),
            -4 <= res.1 <= 4,
    {
        let a: i32 = self.probe(row, col, dir, 0);
        let b: i32 = self.probe(row, col, dir, 1);
        let c: i32 = self.probe(row, col, dir, 2);
        let d: i32 = self.probe(row, col, dir, 3);
        let line: i64 = if a == 1 && b == -1 && c == -1 && d == 1 {
            1
        } else if a == -1 && b == 1 && c == 1 && d == -1 {
            -1
        } else {
            0
        };
        let in_range: bool = -1 <= a && a <= 1 && -1 <= b && b <= 1 && -1 <= c && c <= 1 && -1 <= d
            && d <= 1;
        let weight: i64 = if in_range {
            (b + c - a - d) as i64
        } else {
            0
        };
        (line, weight)
    }

    /// The line that starts at (`row`, `col`), and the cubed weights of its four windows.
    pub(crate) fn read_cell(&self, row: usize, col: usize) -> (res: (i64, i64))
        requires
            self.wf(),
            self@.in_board(row as int, col as int),
        ensures
            res.0 == cell_verdict(self@, row as int, col as int),
            -1 <= res.0 <= 1,
            chips_only(self@) ==> res.1 == cell_chain(self@, row as int, col as int) && -256
                <= res.1 <= 256,
    {
        let mut verdict: i64 = 0;
        let mut chain: i64 = 0;
        let mut dir: u8 = 0;
        while dir < 4
            invariant
                self.wf(),
                self@.in_board(row as int, col as int),
                dir <= 4,
                -1 <= verdict <= 1,
                -64 * dir <= chain <= 64 * dir,
                verdict == if dir >= 1 && line_at(self@, row as int, col as int, 0) != 0 {
                    line_at(self@, row as int, col as int, 0)
                } else if dir >= 2 && line_at(self@, row as int, col as int, 1) != 0 {
                    line_at(self@, row as int, col as int, 1)
                } else if dir >= 3 && line_at(self@, row as int, col as int, 2) != 0 {
                    line_at(self@, row as int, col as int, 2)
                } else if dir >= 4 {
                    line_at(self@, row as int, col as int, 3)
                } else {
                    0
                },
                chips_only(self@) ==> chain == (if dir >= 1 {
                    cube(window_weight(self@, row as int, col as int, 0))
                } else {
                    0
                }) + (if dir >= 2 {
                    cube(window_weight(self@, row as int, col as int, 1))
                } else {
                    0
                }) + (if dir >= 3 {
                    cube(window_weight(self@, row as int, col as int, 2))
                } else {
                    0
                }) + (if dir >= 4 {
                    cube(window_weight(self@, row as int, col as int, 3))
                } else {
                    0
                }),
            decreases 4 - dir,
        {
            let (line, weight) = self.read_window(row, col, dir);
            if verdict == 0 {
                verdict = line;
            }
            proof {
                lemma_cube_bound(weight as int);
            }
            let square: i64 = weight * weight;
            chain = chain + square * weight;
            dir = dir + 1;
        }
        (verdict, chain)
    }
}

} // verus!
