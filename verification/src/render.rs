//! Boards as text: one line per row, top row first, one mark and a blank per cell.

use vstd::prelude::*;
use vstd::string::StringExecFns;
use crate::board::Board;
use crate::dummy_grid::DummyGrid;
use crate::grid::Grid;
use crate::layout::lemma_slot_bound;
use crate::lines::chips_only;

verus! {

/// The mark of a cell: `plus` for 1, `minus` for -1, an underscore for an empty cell.
pub open spec fn cell_text(v: i32, plus: Seq<char>, minus: Seq<char>) -> Seq<char> {
    if v == 1 {
        plus
    } else if v == -1 {
        minus
    } else {
        seq!['_']
    }
}

/// The text of the first `n` cells of a row: each mark followed by a blank.
pub open spec fn row_text(b: Board, row: int, n: int, plus: Seq<char>, minus: Seq<char>) -> Seq<
    char,
>
    decreases n,
{
    if n <= 0 {
        Seq::empty()
    } else {
        row_text(b, row, n - 1, plus, minus) + cell_text(b.cell(row, n - 1), plus, minus)
            + seq![' ']
    }
}

/// The text of the first `m` rows: each row followed by a line feed.
pub open spec fn board_text(b: Board, m: int, plus: Seq<char>, minus: Seq<char>) -> Seq<char>
    decreases m,
{
    if m <= 0 {
        Seq::empty()
    } else {
        board_text(b, m - 1, plus, minus) + row_text(b, m - 1, b.cols, plus, minus) + seq!['\n']
    }
}

/// The text of a board held in `items`, with `plus` for the cells that hold 1 and `minus`
/// for those that hold -1. Fails where a cell of the board holds anything else.
pub fn render_board(
    items: &[i32; 80],
    num_rows: usize,
    num_cols: usize,
    plus: &str,
    minus: &str,
) -> (res: Result<String, ()>)
    requires
        num_rows * num_cols <= 80,
    ensures
        res is Ok <==> chips_only(Board { cells: items@, rows: num_rows as int, cols: num_cols as int }),
        res matches Ok(text) ==> text@ == board_text(
            Board { cells: items@, rows: num_rows as int, cols: num_cols as int },
            num_rows as int,
            plus@,
            minus@,
        ),
{
    let ghost b = Board { cells: items@, rows: num_rows as int, cols: num_cols as int };
    let mut out = String::new();
    let mut r: usize = 0;
    proof {
        reveal_strlit("_");
        reveal_strlit(" ");
        reveal_strlit("\n");
    }
    while r < num_rows
        invariant
            num_rows * num_cols <= 80,
            b == (Board { cells: items@, rows: num_rows as int, cols: num_cols as int }),
            r <= num_rows,
            "_"@ == seq!['_'],
            " "@ == seq![' '],
            "\n"@ == seq!['\n'],
            out@ == board_text(b, r as int, plus@, minus@),
            forall|i: int, j: int|
                0 <= i < r && 0 <= j < num_cols ==> -1 <= #[trigger] b.cell(i, j) <= 1,
        decreases num_rows - r,
    {
        let ghost before = out@;
        let mut c: usize = 0;
        while c < num_cols
            invariant
                num_rows * num_cols <= 80,
                b == (Board { cells: items@, rows: num_rows as int, cols: num_cols as int }),
                r < num_rows,
                c <= num_cols,
                "_"@ == seq!['_'],
                " "@ == seq![' '],
                out@ == before + row_text(b, r as int, c as int, plus@, minus@),
                forall|i: int, j: int|
                    0 <= i < r && 0 <= j < num_cols ==> -1 <= #[trigger] b.cell(i, j) <= 1,
                forall|j: int| 0 <= j < c ==> -1 <= #[trigger] b.cell(r as int, j) <= 1,
            decreases num_cols - c,
        {
            proof {
                lemma_slot_bound(num_rows as int, num_cols as int, r as int, c as int);
            }
            let chip: i32 = items[c * num_rows + (num_rows - 1 - r)];
            if chip == 0 {
                out.append("_");
            } else if chip == 1 {
                out.append(plus);
            } else if chip == -1 {
                out.append(minus);
            } else {
                proof {
                    assert(b.in_board(r as int, c as int));
                    assert(b.cell(r as int, c as int) == chip);
                }
                return Err(());
            }
            out.append(" ");
            proof {
                assert(out@ =~= before + row_text(b, r as int, c + 1, plus@, minus@));
            }
            c = c + 1;
        }
        out.append("\n");
        proof {
            assert(out@ =~= board_text(b, r + 1, plus@, minus@));
        }
        r = r + 1;
    }
    Ok(out)
}

impl Grid {
    /// The board as text, with R for the first player's cells and Y for the second's.
    /// Fails where a cell holds anything but 0, 1 or -1.
    pub fn render(&self) -> (res: Result<String, ()>)
        requires
            self.wf(),
        ensures
            res is Ok <==> chips_only(self@),
            res matches Ok(text) ==> text@ == board_text(self@, self.num_rows as int, "R"@, "Y"@),
    {
        render_board(&self.items, self.num_rows, self.num_cols, "R", "Y")
    }
}

impl DummyGrid {
    /// The board as text, with T and O for the two symbols. Fails where a cell holds
    /// anything but 0, 1 or -1.
    pub fn render(&self) -> (res: Result<String, ()>)
        requires
            self.wf(),
        ensures
            res is Ok <==> chips_only(self@),
            res matches Ok(text) ==> text@ == board_text(self@, self.num_rows as int, "T"@, "O"@),
    {
        render_board(&self.items, self.num_rows, self.num_cols, "T", "O")
    }
}

} // verus!
