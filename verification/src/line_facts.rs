//! What holds of lines of four on every board.

use vstd::prelude::*;
use crate::board::Board;
use crate::game::{scan_outcome, Game};
use crate::layout::{
    lemma_occupied_bound, lemma_occupied_update, lemma_slot_bound, lemma_slot_injective, occupied,
    slot,
};
use crate::lines::{
    cell_verdict, first_in_row, first_line, line_at, probe, window_col, window_row, winner,
};

verus! {

/// Where a row has a first line, some cell of the row starts a line.
pub proof fn lemma_first_in_row_witness(b: Board, row: int, n: int) -> (j: int)
    requires
        first_in_row(b, row, n) != 0,
    ensures
        0 <= j < n,
        cell_verdict(b, row, j) != 0,
    decreases n,
{
    if first_in_row(b, row, n - 1) != 0 {
        lemma_first_in_row_witness(b, row, n - 1)
    } else {
        n - 1
    }
}

/// Where the first `m` rows have a first line, some cell of them starts a line.
pub proof fn lemma_first_line_witness(b: Board, m: int) -> (at: (int, int))
    requires
        first_line(b, m) != 0,
    ensures
        0 <= at.0 < m,
        0 <= at.1 < b.cols,
        cell_verdict(b, at.0, at.1) != 0,
    decreases m,
{
    if first_line(b, m - 1) != 0 {
        lemma_first_line_witness(b, m - 1)
    } else {
        (m - 1, lemma_first_in_row_witness(b, m - 1, b.cols))
    }
}

/// A line that starts in a row is found by reading the row.
pub proof fn lemma_line_in_row_found(b: Board, row: int, j: int, n: int)
    requires
        0 <= j < n,
        cell_verdict(b, row, j) != 0,
    ensures
        first_in_row(b, row, n) != 0,
    decreases n,
{
    if j < n - 1 {
        lemma_line_in_row_found(b, row, j, n - 1);
    }
}

/// A line that starts on the board is found by reading the board.
pub proof fn lemma_line_found(b: Board, i: int, j: int, m: int)
    requires
        0 <= i < m,
        0 <= j < b.cols,
        cell_verdict(b, i, j) != 0,
    ensures
        first_line(b, m) != 0,
    decreases m,
{
    if i < m - 1 {
        lemma_line_found(b, i, j, m - 1);
    } else {
        lemma_line_in_row_found(b, i, j, b.cols);
    }
}

/// A window that spells a line still spells it after an empty cell was filled.
pub proof fn lemma_window_kept(b: Board, row: int, col: int, val: i32, i: int, j: int, dir: int)
    requires
        b.wf(),
        b.in_board(row, col),
        b.cell(row, col) == 0,
        line_at(b, i, j, dir) != 0,
    ensures
        line_at(b.with_cell(row, col, val), i, j, dir) == line_at(b, i, j, dir),
{
    let g = b.with_cell(row, col, val);
    b.lemma_with_cell(row, col, val);
    assert forall|k: int| 0 <= k < 4 implies probe(g, i, j, dir, k) == probe(b, i, j, dir, k) by {
        assert(probe(b, i, j, dir, k) != 0);
        assert(b.in_board(window_row(i, dir, k), window_col(j, dir, k)));
        assert(g.cell(window_row(i, dir, k), window_col(j, dir, k)) == b.cell(
            window_row(i, dir, k),
            window_col(j, dir, k),
        ));
    }
}

/// A line, once on the board, stays: filling an empty cell never takes the winner away,
/// so a scan after each move reports nothing until a line is completed and a winner from
/// then on.
pub proof fn lemma_line_stays(b: Board, row: int, col: int, val: i32)
    requires
        b.wf(),
        b.in_board(row, col),
        b.cell(row, col) == 0,
        winner(b) != 0,
    ensures
        winner(b.with_cell(row, col, val)) != 0,
{
    let g = b.with_cell(row, col, val);
    let (i, j) = lemma_first_line_witness(b, b.rows);
    if line_at(b, i, j, 0) != 0 {
        lemma_window_kept(b, row, col, val, i, j, 0);
    } else if line_at(b, i, j, 1) != 0 {
        lemma_window_kept(b, row, col, val, i, j, 1);
    } else if line_at(b, i, j, 2) != 0 {
        lemma_window_kept(b, row, col, val, i, j, 2);
    } else {
        lemma_window_kept(b, row, col, val, i, j, 3);
    }
    assert(cell_verdict(g, i, j) != 0);
    lemma_line_found(g, i, j, g.rows);
}

/// Storage with four occupied slots among its first `n` counts at least four there.
pub proof fn lemma_four_occupied(items: Seq<i32>, n: int, s0: int, s1: int, s2: int, s3: int)
    requires
        0 <= n <= items.len(),
        0 <= s0 < n && 0 <= s1 < n && 0 <= s2 < n && 0 <= s3 < n,
        s0 != s1 && s0 != s2 && s0 != s3 && s1 != s2 && s1 != s3 && s2 != s3,
        items[s0] != 0 && items[s1] != 0 && items[s2] != 0 && items[s3] != 0,
    ensures
        occupied(items, n) >= 4,
{
    let a = items.update(s0, 0);
    lemma_occupied_update(items, s0, 0, n);
    let b = a.update(s1, 0);
    lemma_occupied_update(a, s1, 0, n);
    let c = b.update(s2, 0);
    lemma_occupied_update(b, s2, 0, n);
    let d = c.update(s3, 0);
    lemma_occupied_update(c, s3, 0, n);
    lemma_occupied_bound(d, n);
}

/// A board with a line holds at least four chips.
pub proof fn lemma_line_needs_four_chips(b: Board)
    requires
        b.wf(),
        winner(b) != 0,
    ensures
        b.chips() >= 4,
{
    let (i, j) = lemma_first_line_witness(b, b.rows);
    let dir = if line_at(b, i, j, 0) != 0 {
        0int
    } else if line_at(b, i, j, 1) != 0 {
        1int
    } else if line_at(b, i, j, 2) != 0 {
        2int
    } else {
        3int
    };
    assert(line_at(b, i, j, dir) != 0);
    assert forall|k: int| 0 <= k < 4 implies b.in_board(
        window_row(i, dir, k),
        window_col(j, dir, k),
    ) && b.cells[#[trigger] slot(b.rows, window_row(i, dir, k), window_col(j, dir, k))] != 0 && 0
        <= slot(b.rows, window_row(i, dir, k), window_col(j, dir, k)) < b.rows * b.cols by {
        assert(probe(b, i, j, dir, k) != 0);
        lemma_slot_bound(b.rows, b.cols, window_row(i, dir, k), window_col(j, dir, k));
    }
    assert forall|k: int, l: int| 0 <= k < l < 4 implies slot(
        b.rows,
        window_row(i, dir, k),
        window_col(j, dir, k),
    ) != slot(b.rows, window_row(i, dir, l), window_col(j, dir, l)) by {
        assert(probe(b, i, j, dir, k) != 0);
        assert(probe(b, i, j, dir, l) != 0);
        if slot(b.rows, window_row(i, dir, k), window_col(j, dir, k)) == slot(
            b.rows,
            window_row(i, dir, l),
            window_col(j, dir, l),
        ) {
            lemma_slot_injective(
                b.rows,
                window_row(i, dir, k),
                window_col(j, dir, k),
                window_row(i, dir, l),
                window_col(j, dir, l),
            );
        }
    }
    let s0 = slot(b.rows, window_row(i, dir, 0), window_col(j, dir, 0));
    let s1 = slot(b.rows, window_row(i, dir, 1), window_col(j, dir, 1));
    let s2 = slot(b.rows, window_row(i, dir, 2), window_col(j, dir, 2));
    let s3 = slot(b.rows, window_row(i, dir, 3), window_col(j, dir, 3));
    lemma_four_occupied(b.cells, b.rows * b.cols, s0, s1, s2, s3);
}

/// Before the fourth move of a match no scan reports a winner.
pub proof fn lemma_no_winner_before_fourth_move(game: Game)
    requires
        game.wf(),
        game.p_move < 4,
    ensures
        winner(game.dummy_grid@) == 0,
        scan_outcome(game.dummy_grid@, game.p_move as int, game.state) == Some(0i64)
            || scan_outcome(game.dummy_grid@, game.p_move as int, game.state).is_none(),
{
    if winner(game.dummy_grid@) != 0 {
        lemma_line_needs_four_chips(game.dummy_grid@);
    }
}

/// The first move of a match on empty boards lands in the bottom row of its column, is the
/// one chip on either board, and leaves the match running unless the board has one cell.
pub proof fn lemma_first_move(before: Game, after: Game, row: int, col: int, value: i32)
    requires
        before.wf(),
        before.p_move == 0,
        before.grid@.is_empty(),
        before.dummy_grid@.is_empty(),
        value != 0,
        after.follows(&before, row, col, value),
    ensures
        row == before.grid.num_rows - 1,
        0 <= col < before.grid.num_cols,
        after.p_move == 1,
        after.dummy_grid@.cell(row, col) == value,
        after.grid@.cell(row, col) == 1,
        forall|r: int, c: int|
            after.grid@.in_board(r, c) && (r != row || c != col) ==> #[trigger] after.grid@.cell(r, c)
                == 0 && #[trigger] after.dummy_grid@.cell(r, c) == 0,
        before.grid.num_rows * before.grid.num_cols != 1 ==> after.state == before.state,
{
    before.grid@.lemma_with_cell(row, col, 1);
    before.dummy_grid@.lemma_with_cell(row, col, value);
    if row < before.grid.num_rows - 1 {
        assert(before.grid@.in_board(before.grid.num_rows - 1, col));
        assert(before.grid@.cell(before.grid.num_rows - 1, col) == 0);
    }
    assert forall|r: int, c: int|
        after.grid@.in_board(r, c) && (r != row || c != col) implies #[trigger] after.grid@.cell(r, c)
        == 0 && #[trigger] after.dummy_grid@.cell(r, c) == 0 by {
        assert(before.grid@.in_board(r, c));
        assert(before.grid@.cell(r, c) == 0);
        assert(before.dummy_grid@.in_board(r, c));
        assert(before.dummy_grid@.cell(r, c) == 0);
    }
    lemma_no_winner_before_fourth_move(after);
}

/// A draw is reported exactly when the board is full, no line stands and the match has not
/// ended; a line on the last cell is a win and no draw.
pub proof fn lemma_draw_exactly_on_a_full_board(game: Game)
    requires
        game.wf(),
    ensures
        scan_outcome(game.dummy_grid@, game.p_move as int, game.state) == Some(0i64) <==> (
        game.p_move == game.dummy_grid.num_rows * game.dummy_grid.num_cols && winner(
            game.dummy_grid@,
        ) == 0 && game.state != crate::chip::State::Done),
{
    lemma_winner_range(game.dummy_grid@, game.dummy_grid@.rows);
}

/// The first line of a row is one of the two patterns or none.
pub proof fn lemma_first_in_row_range(b: Board, row: int, n: int)
    ensures
        -1 <= first_in_row(b, row, n) <= 1,
    decreases n,
{
    if n > 0 {
        lemma_first_in_row_range(b, row, n - 1);
    }
}

/// The first line of the board is one of the two patterns or none.
pub proof fn lemma_winner_range(b: Board, m: int)
    ensures
        -1 <= first_line(b, m) <= 1,
    decreases m,
{
    if m > 0 {
        lemma_winner_range(b, m - 1);
        lemma_first_in_row_range(b, m - 1, b.cols);
    }
}

} // verus!
