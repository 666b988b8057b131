//! Arithmetic of the column-major cell storage shared by both boards.

use vstd::prelude::*;

verus! {

/// Position in storage of the cell at (`row`, `col`) of a board with `rows` rows. Row 0 is
/// the top of the board; each column is stored bottom first.
pub open spec fn slot(rows: int, row: int, col: int) -> int {
    col * rows + (rows - 1 - row)
}

/// Every cell of a `rows` by `cols` board has its slot among the first `rows * cols`.
pub proof fn lemma_slot_bound(rows: int, cols: int, row: int, col: int)
    requires
        0 <= row < rows,
        0 <= col < cols,
    ensures
        0 <= col * rows,
        col * rows + rows <= rows * cols,
        0 <= slot(rows, row, col) < rows * cols,
{
    assert(0 <= col * rows && col * rows + rows <= rows * cols) by (nonlinear_arith)
        requires
            0 <= row < rows,
            0 <= col < cols,
    ;
}

/// Two cells share a slot only if they are the same cell.
pub proof fn lemma_slot_injective(rows: int, r1: int, c1: int, r2: int, c2: int)
    requires
        0 <= r1 < rows,
        0 <= r2 < rows,
        0 <= c1,
        0 <= c2,
        slot(rows, r1, c1) == slot(rows, r2, c2),
    ensures
        r1 == r2,
        c1 == c2,
{
    assert(c1 == c2) by (nonlinear_arith)
        requires
            0 <= r1 < rows,
            0 <= r2 < rows,
            0 <= c1,
            0 <= c2,
            c1 * rows + (rows - 1 - r1) == c2 * rows + (rows - 1 - r2),
    ;
}

/// Number of occupied cells among the top `n` rows of column `col`.
pub open spec fn chips_above(items: Seq<i32>, rows: int, col: int, n: int) -> int
    decreases n,
{
    if n <= 0 {
        0
    } else {
        chips_above(items, rows, col, n - 1) + if items[slot(rows, n - 1, col)] != 0 {
            1int
        } else {
            0int
        }
    }
}

/// A column that is empty down to row `r` and occupied below it holds `rows - 1 - r` chips.
pub proof fn lemma_chips_of_settled_column(items: Seq<i32>, rows: int, col: int, r: int, n: int)
    requires
        -1 <= r < rows,
        0 <= n <= rows,
        forall|i: int| 0 <= i <= r ==> items[#[trigger] slot(rows, i, col)] == 0,
        forall|i: int| r < i < rows ==> items[#[trigger] slot(rows, i, col)] != 0,
    ensures
        chips_above(items, rows, col, n) == if n <= r + 1 {
            0
        } else {
            n - 1 - r
        },
    decreases n,
{
    if n > 0 {
        lemma_chips_of_settled_column(items, rows, col, r, n - 1);
        let _ = slot(rows, n - 1, col);
    }
}

/// Number of occupied cells among the first `n` slots.
pub open spec fn occupied(items: Seq<i32>, n: int) -> int
    decreases n,
{
    if n <= 0 {
        0
    } else {
        occupied(items, n - 1) + if items[n - 1] != 0 {
            1int
        } else {
            0int
        }
    }
}

/// Between none and all of the first `n` slots are occupied.
pub proof fn lemma_occupied_bound(items: Seq<i32>, n: int)
    requires
        0 <= n,
    ensures
        0 <= occupied(items, n) <= n,
    decreases n,
{
    if n > 0 {
        lemma_occupied_bound(items, n - 1);
    }
}

/// Storage that holds only zeros has no occupied slot.
pub proof fn lemma_occupied_of_empty(items: Seq<i32>, n: int)
    requires
        0 <= n <= items.len(),
        forall|i: int| 0 <= i < n ==> items[i] == 0,
    ensures
        occupied(items, n) == 0,
    decreases n,
{
    if n > 0 {
        lemma_occupied_of_empty(items, n - 1);
    }
}

/// Writing `val` into slot `s` changes the count by what the slot gains or loses.
pub proof fn lemma_occupied_update(items: Seq<i32>, s: int, val: i32, n: int)
    requires
        0 <= s < items.len(),
        0 <= n <= items.len(),
    ensures
        occupied(items.update(s, val), n) == occupied(items, n) + if s < n {
            (if val != 0 {
                1int
            } else {
                0int
            }) - (if items[s] != 0 {
                1int
            } else {
                0int
            })
        } else {
            0int
        },
    decreases n,
{
    if n > 0 {
        lemma_occupied_update(items, s, val, n - 1);
    }
}

} // verus!
