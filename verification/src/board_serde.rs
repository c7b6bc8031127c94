//! Board serialization strategy
//!
//! A board can be written as a grid of characters and read back from one.
//! The text starts with a row separator; then each row follows, one character
//! per cell, with a row separator after it. A blank stands for a cell outside
//! the playing area, `-` for an empty cell and `*` for a peg.

use crate::board::{
    cell, grid_wf, lemma_with_cell, start_cell, start_grid, with_cell, Board, Grid, Space,
};
use crate::error::Error;
use crate::position::{Position, SIDE};
use vstd::prelude::*;

verus! {

/// The character that separates the rows of a textual grid.
pub const ROW_END: char = '\n';

/// The character that stands for a cell state.
pub open spec fn symbol(s: Space) -> char {
    match s {
        Space::NotPartOfBoard => ' ',
        Space::Empty => '-',
        Space::Occupied => '*',
    }
}

/// The cell state that a character stands for, if it stands for one.
pub open spec fn cell_of(c: char) -> Option<Space> {
    if c == ' ' {
        Some(Space::NotPartOfBoard)
    } else if c == '-' {
        Some(Space::Empty)
    } else if c == '*' {
        Some(Space::Occupied)
    } else {
        None
    }
}

/// The character is one of those that a textual grid is made of.
pub open spec fn in_alphabet(c: char) -> bool {
    c == ROW_END || cell_of(c) is Some
}

/// The length of the text of a board: a row separator, then seven rows of
/// seven cells and a row separator.
pub open spec fn text_len() -> nat {
    57
}

/// The text of a grid.
pub open spec fn grid_text(g: Grid) -> Seq<char> {
    Seq::new(
        text_len(),
        |i: int|
            if i % 8 == 0 {
                ROW_END
            } else {
                symbol(g[(i - 1) / 8][(i - 1) % 8])
            },
    )
}

/// The test for a row separator.
pub open spec fn ends_row() -> spec_fn(char) -> bool {
    |c: char| c == ROW_END
}

/// The row in which the character at index `i` of `text` stands: the number
/// of row separators before it, the character at index 0 not counted.
pub open spec fn row_at(text: Seq<char>, i: int) -> nat {
    if i <= 1 {
        0
    } else {
        text.subrange(1, i).filter(ends_row()).len()
    }
}

/// The column in which the character at index `i` of `text` stands: the
/// number of characters between it and the row separator before it, or the
/// character at index 0 where there is none.
pub open spec fn column_at(text: Seq<char>, i: int) -> nat
    decreases i,
{
    if i <= 1 || text[i - 1] == ROW_END {
        0
    } else {
        column_at(text, i - 1) + 1
    }
}

/// The cell on which the character at index `i` of `text` lands.
pub open spec fn landing(text: Seq<char>, i: int) -> Position {
    Position { x: column_at(text, i) as usize, y: row_at(text, i) as usize }
}

/// Every character of `text` before index `n` belongs to the alphabet, the
/// character at index 0 not looked at.
pub open spec fn readable(text: Seq<char>, n: int) -> bool {
    forall|i: int| 1 <= i < n ==> in_alphabet(#[trigger] text[i])
}

/// Every cell character of `text` lands on the grid: it stands in one of the
/// first seven rows and of the first seven columns. This is asked as far as
/// the text is readable, not behind a character outside the alphabet.
pub open spec fn fits_grid(text: Seq<char>) -> bool {
    forall|i: int|
        1 <= i < text.len() && readable(text, i) && cell_of(#[trigger] text[i]) is Some ==> row_at(
            text,
            i,
        ) < SIDE && column_at(text, i) < SIDE
}

/// The grid read from the characters of `text` before index `n`: the starting
/// board, with each cell character written to the cell it lands on. The
/// character at index 0 is skipped.
pub open spec fn read_prefix(text: Seq<char>, n: int) -> Grid
    decreases n,
{
    if n <= 1 {
        start_grid()
    } else {
        let before = read_prefix(text, n - 1);
        match cell_of(text[n - 1]) {
            Some(s) => with_cell(before, landing(text, n - 1), s),
            None => before,
        }
    }
}

/// The grid read from `text`.
pub open spec fn read_text(text: Seq<char>) -> Grid {
    read_prefix(text, text.len() as int)
}

/// Each row separator starts a new row: the character behind one stands one
/// row further down, the character behind any other in the same row.
pub proof fn lemma_row_step(text: Seq<char>, i: int)
    requires
        1 <= i < text.len(),
    ensures
        row_at(text, i + 1) == row_at(text, i) + (if text[i] == ROW_END {
            1nat
        } else {
            0nat
        }),
{
    assert(text.subrange(1, 1) =~= Seq::<char>::empty());
    assert(Seq::<char>::empty().filter(ends_row()).len() == 0) by {
        reveal(Seq::filter);
    }
    assert(text.subrange(1, i + 1) =~= text.subrange(1, i).push(text[i]));
    text.subrange(1, i).lemma_filter_len_push(ends_row(), text[i]);
}

/// A later character stands in a later row or, in the same row, as many
/// columns further as characters lie between the two.
pub proof fn lemma_landing_order(text: Seq<char>, i: int, j: int)
    requires
        1 <= i <= j < text.len(),
        text[i] != ROW_END,
    ensures
        row_at(text, i) <= row_at(text, j),
        row_at(text, i) == row_at(text, j) ==> column_at(text, j) == column_at(text, i) + (j - i),
    decreases j - i,
{
    if i < j {
        lemma_landing_order(text, i, j - 1);
        lemma_row_step(text, j - 1);
    }
}

/// No two cell characters of a text land on the same cell.
pub proof fn lemma_landing_injective(text: Seq<char>, i: int, j: int)
    requires
        1 <= i < text.len(),
        1 <= j < text.len(),
        i != j,
        cell_of(text[i]) is Some,
        cell_of(text[j]) is Some,
    ensures
        row_at(text, i) != row_at(text, j) || column_at(text, i) != column_at(text, j),
{
    if i < j {
        lemma_landing_order(text, i, j);
    } else {
        lemma_landing_order(text, j, i);
    }
}

/// No cell character before index `n` lands on `p`.
pub open spec fn untouched(text: Seq<char>, n: int, p: Position) -> bool {
    forall|i: int| 1 <= i < n && cell_of(#[trigger] text[i]) is Some ==> landing(text, i) != p
}

/// In a readable text that fits the grid, each cell character lands on a
/// cell of the grid.
pub proof fn lemma_lands_on_board(text: Seq<char>, i: int)
    requires
        readable(text, text.len() as int),
        fits_grid(text),
        1 <= i < text.len(),
        cell_of(text[i]) is Some,
    ensures
        landing(text, i).on_board(),
        landing(text, i).x == column_at(text, i),
        landing(text, i).y == row_at(text, i),
{
    assert(readable(text, i));
}

/// Reading any part of a readable text that fits the grid gives a grid.
proof fn lemma_read_prefix_wf(text: Seq<char>, n: int)
    requires
        readable(text, text.len() as int),
        fits_grid(text),
        n <= text.len() || n <= 1,
    ensures
        grid_wf(read_prefix(text, n)),
    decreases n,
{
    if n > 1 {
        lemma_read_prefix_wf(text, n - 1);
        if cell_of(text[n - 1]) is Some {
            lemma_lands_on_board(text, n - 1);
        }
    }
}

/// A cell character read sets the cell it lands on, whatever is read after
/// it.
proof fn lemma_read_prefix_written(text: Seq<char>, n: int, i: int)
    requires
        readable(text, text.len() as int),
        fits_grid(text),
        1 <= i < n <= text.len(),
        cell_of(text[i]) is Some,
    ensures
        cell(read_prefix(text, n), landing(text, i)) == cell_of(text[i])->0,
    decreases n,
{
    let last = n - 1;
    let before = read_prefix(text, last);
    lemma_read_prefix_wf(text, last);
    lemma_lands_on_board(text, i);
    if i == last {
        lemma_with_cell(before, landing(text, i), cell_of(text[i])->0);
    } else {
        lemma_read_prefix_written(text, last, i);
        if cell_of(text[last]) is Some {
            lemma_lands_on_board(text, last);
            lemma_landing_injective(text, i, last);
            lemma_with_cell(before, landing(text, last), cell_of(text[last])->0);
        }
    }
}

/// A cell on which no cell character read has landed is as on the starting
/// board.
proof fn lemma_read_prefix_untouched(text: Seq<char>, n: int, p: Position)
    requires
        readable(text, text.len() as int),
        fits_grid(text),
        n <= text.len() || n <= 1,
        p.on_board(),
        untouched(text, n, p),
    ensures
        cell(read_prefix(text, n), p) == start_cell(p),
    decreases n,
{
    if n > 1 {
        let last = n - 1;
        let before = read_prefix(text, last);
        lemma_read_prefix_wf(text, last);
        assert(untouched(text, last, p));
        lemma_read_prefix_untouched(text, last, p);
        if cell_of(text[last]) is Some {
            lemma_lands_on_board(text, last);
            lemma_with_cell(before, landing(text, last), cell_of(text[last])->0);
        }
    }
}

/// What reading a text gives, cell by cell: each cell character of the text
/// sets the cell it lands on, and a cell on which none lands is as on the
/// starting board.
pub proof fn lemma_read_text_cells(text: Seq<char>)
    requires
        readable(text, text.len() as int),
        fits_grid(text),
    ensures
        grid_wf(read_text(text)),
        forall|i: int|
            1 <= i < text.len() && cell_of(#[trigger] text[i]) is Some ==> cell(
                read_text(text),
                landing(text, i),
            ) == cell_of(text[i])->0,
        forall|p: Position|
            p.on_board() && untouched(text, text.len() as int, p) ==> #[trigger] cell(
                read_text(text),
                p,
            ) == start_cell(p),
{
    let n = text.len() as int;
    lemma_read_prefix_wf(text, n);
    assert forall|i: int| 1 <= i < text.len() && cell_of(#[trigger] text[i]) is Some implies cell(
        read_text(text),
        landing(text, i),
    ) == cell_of(text[i])->0 by {
        lemma_read_prefix_written(text, n, i);
    }
    assert forall|p: Position| p.on_board() && untouched(text, n, p) implies #[trigger] cell(
        read_text(text),
        p,
    ) == start_cell(p) by {
        lemma_read_prefix_untouched(text, n, p);
    }
}

/// Where the characters of the text of a grid land: the rows take eight
/// characters each, seven cells and a row separator.
proof fn lemma_text_landing(g: Grid, i: int)
    requires
        1 <= i <= text_len(),
    ensures
        row_at(grid_text(g), i) == (i - 1) / 8,
        column_at(grid_text(g), i) == (i - 1) % 8,
    decreases i,
{
    if i > 1 {
        lemma_text_landing(g, i - 1);
        lemma_row_step(grid_text(g), i - 1);
    }
}

/// Reading the first `n` characters of the text of a grid gives the cells of
/// that grid as far as their characters have been read, and the cells of the
/// starting board from there on.
proof fn lemma_read_own_text(g: Grid, n: int)
    requires
        grid_wf(g),
        1 <= n <= text_len(),
    ensures
        grid_wf(read_prefix(grid_text(g), n)),
        forall|p: Position|
            p.on_board() ==> #[trigger] cell(read_prefix(grid_text(g), n), p) == (if 1 + 8 * p.y
                + p.x < n {
                cell(g, p)
            } else {
                start_cell(p)
            }),
    decreases n,
{
    let text = grid_text(g);
    if n > 1 {
        let i = n - 1;
        lemma_read_own_text(g, i);
        lemma_text_landing(g, i);
        let before = read_prefix(text, i);
        if i % 8 != 0 {
            let at = landing(text, i);
            assert(at.x == (i - 1) % 8 && at.y == (i - 1) / 8);
            assert(cell_of(text[i]) == Some(cell(g, at)));
            lemma_with_cell(before, at, cell(g, at));
        }
    }
}

/// The text of a grid can be read, and reading it gives the grid back. So
/// writing, reading and writing again gives the text that was written first.
pub proof fn lemma_round_trip(g: Grid)
    requires
        grid_wf(g),
    ensures
        readable(grid_text(g), grid_text(g).len() as int),
        fits_grid(grid_text(g)),
        read_text(grid_text(g)) == g,
        grid_text(read_text(grid_text(g))) == grid_text(g),
{
    let text = grid_text(g);
    assert forall|i: int| 1 <= i < text.len() && cell_of(#[trigger] text[i]) is Some implies row_at(
        text,
        i,
    ) < SIDE && column_at(text, i) < SIDE by {
        lemma_text_landing(g, i);
    }
    lemma_read_own_text(g, text_len() as int);
    let back = read_text(text);
    assert forall|y: int, x: int| 0 <= y < 7 && 0 <= x < 7 implies #[trigger] back[y][x]
        == g[y][x] by {
        let p = Position { x: x as usize, y: y as usize };
        assert(cell(back, p) == cell(g, p));
    }
    assert(back =~~= g);
}

/// Serialize and deserialize Board
impl Board {
    /// The text of the board.
    pub fn serialize(&self) -> (text: String)
        ensures
            text@ == grid_text(self@),
    {
        let mut b_str = String::new();
        let ghost g = self@;
        proof {
            reveal_strlit("\n");
            reveal_strlit(" ");
            reveal_strlit("-");
            reveal_strlit("*");
            self.lemma_view_wf();
        }
        b_str.append("\n");
        assert(b_str@ =~= grid_text(g).take(1));
        let mut y: usize = 0;
        while y < 7
            invariant
                g == self@,
                y <= 7,
                "\n"@ == seq!['\n'],
                " "@ == seq![' '],
                "-"@ == seq!['-'],
                "*"@ == seq!['*'],
                b_str@ == grid_text(g).take(1 + 8 * y),
            decreases 7 - y,
        {
            let mut x: usize = 0;
            while x < 7
                invariant
                    g == self@,
                    y < 7,
                    x <= 7,
                    " "@ == seq![' '],
                    "-"@ == seq!['-'],
                    "*"@ == seq!['*'],
                    b_str@ == grid_text(g).take(1 + 8 * y + x),
                decreases 7 - x,
            {
                let ghost n = 1 + 8 * y + x;
                assert(grid_text(g).take(n + 1) =~= grid_text(g).take(n) + seq![
                    symbol(cell(g, Position { x, y })),
                ]);
                match self.at(Position { x, y }) {
                    Space::NotPartOfBoard => b_str.append(" "),
                    Space::Empty => b_str.append("-"),
                    Space::Occupied => b_str.append("*"),
                }
                x += 1;
            }
            assert(grid_text(g).take(1 + 8 * (y + 1)) =~= grid_text(g).take(1 + 8 * y + 7) + seq![
                ROW_END,
            ]);
            b_str.append("\n");
            y += 1;
        }
        assert(grid_text(g).take(57) =~= grid_text(g));
        b_str
    }

    /// Tells whether `deserialize` can take `board_str`: whether each of its
    /// cell characters stands in one of the first seven rows and columns.
    pub fn fits(board_str: &str) -> (ok: bool)
        ensures
            ok == fits_grid(board_str@),
    {
        let ghost text = board_str@;
        let count = board_str.unicode_len();
        let (mut x, mut y): (usize, usize) = (0, 0);
        let mut n: usize = 1;
        while n < count
            invariant
                text == board_str@,
                count == text.len(),
                1 <= n,
                n <= count || n == 1,
                readable(text, n as int),
                x == column_at(text, n as int),
                y == row_at(text, n as int),
                x < n,
                y < n,
                forall|i: int|
                    1 <= i < n && cell_of(#[trigger] text[i]) is Some ==> row_at(text, i) < SIDE
                        && column_at(text, i) < SIDE,
            decreases count - n,
        {
            let c = board_str.get_char(n);
            proof {
                lemma_row_step(text, n as int);
            }
            if c == ' ' || c == '-' || c == '*' {
                if x >= 7 || y >= 7 {
                    return false;
                }
                x += 1;
            } else if c == '\n' {
                x = 0;
                y += 1;
            } else {
                assert forall|i: int| n < i < text.len() implies !readable(text, i) by {
                    assert(!in_alphabet(text[n as int]));
                }
                return true;
            }
            n += 1;
        }
        true
    }

    /// Reads a board from its text.
    ///
    /// Reading starts from the starting board, skips the first character and
    /// writes each cell character to the cell it lands on, so a text that
    /// ends early leaves the remaining cells as the starting board has them.
    /// A character that is neither a cell character nor a row separator ends
    /// the reading with an error that names it.
    pub fn deserialize(board_str: &str) -> (r: Result<Board, Error<'static>>)
        requires
            fits_grid(board_str@),
        ensures
            (match r {
                Ok(b) => readable(board_str@, board_str@.len() as int) && b@ == read_text(
                    board_str@,
                ),
                Err(e) => exists|i: int|
                    1 <= i < board_str@.len() && readable(board_str@, i) && !in_alphabet(
                        #[trigger] board_str@[i],
                    ) && e == Error::GridFormatError(board_str@[i]),
            }),
    {
        let mut board = Board::new();
        let ghost text = board_str@;
        let count = board_str.unicode_len();
        let (mut x, mut y): (usize, usize) = (0, 0);
        let mut n: usize = 1;
        while n < count
            invariant
                text == board_str@,
                count == text.len(),
                fits_grid(text),
                1 <= n,
                n <= count || n == 1,
                readable(text, n as int),
                board@ == read_prefix(text, n as int),
                x == column_at(text, n as int),
                y == row_at(text, n as int),
                x < n,
                y < n,
            decreases count - n,
        {
            let c = board_str.get_char(n);
            proof {
                lemma_row_step(text, n as int);
            }
            if c == ' ' {
                board.set(Position { x, y }, Space::NotPartOfBoard);
                x += 1;
            } else if c == '-' {
                board.set(Position { x, y }, Space::Empty);
                x += 1;
            } else if c == '*' {
                board.set(Position { x, y }, Space::Occupied);
                x += 1;
            } else if c == '\n' {
                x = 0;
                y += 1;
            } else {
                return Err(Error::GridFormatError(c));
            }
            n += 1;
        }
        assert(read_prefix(text, n as int) == read_text(text));
        Ok(board)
    }
}

} // verus!
