//! The mathematical model of a board, shared by both boards of a game.

use vstd::prelude::*;
use crate::layout::{slot, chips_above, occupied, lemma_occupied_update, lemma_slot_bound, lemma_slot_injective, lemma_chips_of_settled_column};

verus! {

/// A board as a value: its dimensions and the contents of its storage.
pub struct Board {
    pub cells: Seq<i32>,
    pub rows: int,
    pub cols: int,
}

impl Board {
    /// The board fits its storage.
    pub open spec fn wf(&self) -> bool {
        &&& 0 <= self.rows
        &&& 0 <= self.cols
        &&& self.rows * self.cols <= 80
        &&& self.cells.len() == 80
    }

    /// (`row`, `col`) names a cell of the board.
    pub open spec fn in_board(&self, row: int, col: int) -> bool {
        0 <= row < self.rows && 0 <= col < self.cols
    }

    /// The value of the cell at (`row`, `col`), row 0 being the top.
    pub open spec fn cell(&self, row: int, col: int) -> i32 {
        self.cells[slot(self.rows, row, col)]
    }

    /// Every cell of the board is empty.
    pub open spec fn is_empty(&self) -> bool {
        forall|r: int, c: int| self.in_board(r, c) ==> #[trigger] self.cell(r, c) == 0
    }

    /// No chip floats: whatever lies above an empty cell is empty too.
    pub open spec fn settled(&self) -> bool {
        forall|r: int, r2: int, c: int|
            self.in_board(r, c) && 0 <= r2 < r && #[trigger] self.cell(r, c) == 0
                ==> #[trigger] self.cell(r2, c) == 0
    }

    /// Number of chips in column `col`.
    pub open spec fn height(&self, col: int) -> int {
        chips_above(self.cells, self.rows, col, self.rows)
    }

    /// Number of chips on the board.
    pub open spec fn chips(&self) -> int {
        occupied(self.cells, self.rows * self.cols)
    }

    /// Column `col` has no empty cell.
    pub open spec fn column_full(&self, col: int) -> bool {
        forall|r: int| 0 <= r < self.rows ==> #[trigger] self.cell(r, col) != 0
    }

    /// This board with the cell at (`row`, `col`) replaced by `val`.
    pub open spec fn with_cell(&self, row: int, col: int, val: i32) -> Board {
        Board { cells: self.cells.update(slot(self.rows, row, col), val), rows: self.rows, cols: self.cols }
    }

    /// Replacing one cell leaves every other cell of the board as it was.
    pub proof fn lemma_with_cell(&self, row: int, col: int, val: i32)
        requires
            self.wf(),
            self.in_board(row, col),
        ensures
            self.with_cell(row, col, val).wf(),
            self.with_cell(row, col, val).cell(row, col) == val,
            self.with_cell(row, col, val).chips() == self.chips() + (if val != 0 {
                1int
            } else {
                0int
            }) - (if self.cell(row, col) != 0 {
                1int
            } else {
                0int
            }),
            forall|r: int, c: int|
                self.in_board(r, c) && (r != row || c != col) ==> #[trigger] self.with_cell(
                    row,
                    col,
                    val,
                ).cell(r, c) == self.cell(r, c),
    {
        let rows = self.rows;
        let g = self.with_cell(row, col, val);
        lemma_slot_bound(rows, self.cols, row, col);
        lemma_occupied_update(self.cells, slot(rows, row, col), val, self.rows * self.cols);
        assert forall|r: int, c: int|
            self.in_board(r, c) && (r != row || c != col) implies #[trigger] g.cell(r, c)
            == self.cell(r, c) by {
            lemma_slot_bound(rows, self.cols, r, c);
            if slot(rows, r, c) == slot(rows, row, col) {
                lemma_slot_injective(rows, r, c, row, col);
            }
        }
    }

    /// A settled column without an empty cell holds as many chips as the board has rows.
    pub proof fn lemma_full_column(&self, col: int)
        requires
            self.wf(),
            self.column_full(col),
        ensures
            self.height(col) == self.rows,
    {
        assert forall|i: int| -1 < i < self.rows implies self.cells[#[trigger] slot(self.rows, i, col)]
            != 0 by {
            assert(self.cell(i, col) != 0);
        }
        lemma_chips_of_settled_column(self.cells, self.rows, col, -1, self.rows);
    }

    /// What follows for a settled board from knowing the lowest empty cell of a column.
    pub proof fn lemma_lowest_empty(&self, row: int, col: int, val: i32)
        requires
            self.wf(),
            self.in_board(row, col),
            self.cell(row, col) == 0,
            forall|r2: int| row < r2 < self.rows ==> self.cell(r2, col) != 0,
        ensures
            !self.column_full(col),
            self.settled() ==> row == self.rows - 1 - self.height(col),
            self.settled() ==> self.height(col) < self.rows,
            self.settled() && val != 0 ==> self.with_cell(row, col, val).settled(),
    {
        self.lemma_with_cell(row, col, val);
        if self.settled() {
            assert forall|i: int| 0 <= i <= row implies self.cells[#[trigger] slot(self.rows, i, col)]
                == 0 by {
                assert(self.cell(row, col) == 0);
                assert(self.cell(i, col) == 0);
            }
            assert forall|i: int| row < i < self.rows implies self.cells[#[trigger] slot(
                self.rows,
                i,
                col,
            )] != 0 by {
                assert(self.cell(i, col) != 0);
            }
            lemma_chips_of_settled_column(self.cells, self.rows, col, row, self.rows);
            if val != 0 {
                let g = self.with_cell(row, col, val);
                assert forall|r: int, r2: int, c: int|
                    g.in_board(r, c) && 0 <= r2 < r && #[trigger] g.cell(r, c) == 0
                    implies #[trigger] g.cell(r2, c) == 0 by {
                    assert(self.in_board(r2, c));
                    assert(self.cell(r, c) == 0);
                    if c == col && r2 == row {
                        assert(self.cell(r, col) != 0);
                    }
                    assert(self.cell(r2, c) == 0);
                }
            }
        }
    }
}

} // verus!
