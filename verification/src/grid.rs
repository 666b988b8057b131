//! The board that records which player moved into each cell.

use vstd::prelude::*;
use crate::board::Board;
use crate::layout::lemma_slot_bound;

verus! {

/// A board of at most 80 cells. A cell holds 0 when empty, otherwise the marker of the
/// player who moved there.
#[derive(Clone)]
pub struct Grid {
    pub items: [i32; 80],
    pub num_rows: usize,
    pub num_cols: usize,
}

impl View for Grid {
    type V = Board;

    open spec fn view(&self) -> Board {
        Board { cells: self.items@, rows: self.num_rows as int, cols: self.num_cols as int }
    }
}

impl Grid {
    /// The board fits its storage.
    pub open spec fn wf(&self) -> bool {
        self@.wf()
    }

    /// An empty board of `row_size` rows and `col_size` columns.
    pub fn new(row_size: usize, col_size: usize) -> (grid: Self)
        requires
            row_size * col_size <= 80,
        ensures
            grid.wf(),
            grid.num_rows == row_size,
            grid.num_cols == col_size,
            forall|i: int| 0 <= i < 80 ==> grid.items@[i] == 0,
            grid@.is_empty(),
            grid@.settled(),
    {
        let grid = Grid { items: [0; 80], num_rows: row_size, num_cols: col_size };
        proof {
            assert forall|r: int, c: int| grid@.in_board(r, c) implies #[trigger] grid@.cell(r, c)
                == 0 by {
                lemma_slot_bound(row_size as int, col_size as int, r, c);
            }
        }
        grid
    }

    /// Drops a chip of value `grid_val` into column `col`: it lands in the lowest empty cell,
    /// whose row is returned. Fails, changing nothing, when the column is outside the board
    /// or has no empty cell. On a settled board the chip lands on top of the column's
    /// chips, and the call fails exactly when the column holds as many chips as there are rows.
    pub fn insert_chip(&mut self, col: usize, grid_val: i32) -> (res: Result<usize, ()>)
        requires
            old(self).wf(),
        ensures
            res is Err <==> col >= old(self).num_cols || old(self)@.column_full(col as int),
            res is Err ==> *final(self) == *old(self),
            res matches Ok(r) ==> {
                &&& r < old(self).num_rows
                &&& old(self)@.cell(r as int, col as int) == 0
                &&& forall|r2: int| r < r2 < old(self).num_rows ==> old(self)@.cell(r2, col as int) != 0
                &&& final(self)@ == old(self)@.with_cell(r as int, col as int, grid_val)
                &&& final(self).wf()
                &&& old(self)@.settled() ==> r == old(self).num_rows - 1 - old(self)@.height(col as int)
                &&& old(self)@.settled() && grid_val != 0 ==> final(self)@.settled()
            },
            old(self)@.settled() && col < old(self).num_cols ==> (res is Err <==> old(self)@.height(
                col as int,
            ) == old(self).num_rows),
    {
        if col >= self.num_cols {
            return Err(());
        }
        let mut r: usize = self.num_rows;
        while r > 0
            invariant
                *self == *old(self),
                self.wf(),
                col < self.num_cols,
                r <= self.num_rows,
                forall|r2: int| r <= r2 < self.num_rows ==> self@.cell(r2, col as int) != 0,
            decreases r,
        {
            r = r - 1;
            if self.get(r, col) == 0 {
                proof {
                    self@.lemma_with_cell(r as int, col as int, grid_val);
                    self@.lemma_lowest_empty(r as int, col as int, grid_val);
                }
                self.set(r, col, grid_val);
                return Ok(r);
            }
        }
        proof {
            self@.lemma_full_column(col as int);
        }
        Err(())
    }

    /// The value of the cell at (`row`, `col`).
    pub fn get(&self, row: usize, col: usize) -> (val: i32)
        requires
            self.wf(),
            self@.in_board(row as int, col as int),
        ensures
            val == self@.cell(row as int, col as int),
    {
        proof {
            lemma_slot_bound(self.num_rows as int, self.num_cols as int, row as int, col as int);
        }
        self.items[col * self.num_rows + (self.num_rows - 1 - row)]
    }

    /// Stores `val` in the cell at (`row`, `col`) and leaves every other cell as it was.
    pub fn set(&mut self, row: usize, col: usize, val: i32)
        requires
            old(self).wf(),
            old(self)@.in_board(row as int, col as int),
        ensures
            final(self)@ == old(self)@.with_cell(row as int, col as int, val),
            final(self).num_rows == old(self).num_rows,
            final(self).num_cols == old(self).num_cols,
            final(self).wf(),
    {
        proof {
            lemma_slot_bound(self.num_rows as int, self.num_cols as int, row as int, col as int);
            self@.lemma_with_cell(row as int, col as int, val);
        }
        let idx: usize = col * self.num_rows + (self.num_rows - 1 - row);
        self.items[idx] = val;
    }
}

} // verus!
