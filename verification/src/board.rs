//! Board engine: a fixed 9-cell state machine with move application,
//! terminal-state detection and enumeration of legal moves. Pure and
//! rules-only; both the producing and the verifying side replay games
//! through this one module.

use crate::codec::digit_char;
use crate::codec::digit_str;
use vstd::prelude::*;

verus! {

/// One cell of the board: empty, or marked by one of the two sides.
#[derive(Clone, Copy, PartialEq, Eq, Structural, Debug)]
pub enum Cell {
    Empty,
    Z,
    K,
}

/// A playing side, identified by the mark it places.
#[derive(Clone, Copy, PartialEq, Eq, Structural, Debug)]
pub struct Player {
    pub symbol: Cell,
}

/// The board: nine cells in row-major order (row = index / 3,
/// column = index % 3).
pub struct Board {
    pub cells: [Cell; 9],
}

/// The all-empty board every game starts from.
pub open spec fn empty_board() -> Seq<Cell> {
    Seq::new(9, |i: int| Cell::Empty)
}

/// The fixed table of winning lines, in scan order: the three rows top to
/// bottom, the three columns left to right, then the two diagonals.
pub open spec fn line_spec(i: int) -> (int, int, int) {
    if i == 0 {
        (0, 1, 2)
    } else if i == 1 {
        (3, 4, 5)
    } else if i == 2 {
        (6, 7, 8)
    } else if i == 3 {
        (0, 3, 6)
    } else if i == 4 {
        (1, 4, 7)
    } else if i == 5 {
        (2, 5, 8)
    } else if i == 6 {
        (0, 4, 8)
    } else {
        (2, 4, 6)
    }
}

/// Whether line `i` is completed by one side on board `b`.
pub open spec fn line_matches(b: Seq<Cell>, i: int) -> bool {
    !(b[line_spec(i).0] is Empty) && b[line_spec(i).0] == b[line_spec(i).1] && b[line_spec(
        i,
    ).0] == b[line_spec(i).2]
}

/// The side occupying the first completed line at or after line `i`, if any.
pub open spec fn winner_from(b: Seq<Cell>, i: int) -> Option<Cell>
    decreases 8 - i,
{
    if i < 0 || i >= 8 {
        None
    } else if line_matches(b, i) {
        Some(b[line_spec(i).0])
    } else {
        winner_from(b, i + 1)
    }
}

/// The side occupying the first completed line in scan order, if any.
pub open spec fn winner_spec(b: Seq<Cell>) -> Option<Cell> {
    winner_from(b, 0)
}

/// Whether no empty cell remains.
pub open spec fn is_full_spec(b: Seq<Cell>) -> bool {
    forall|i: int| 0 <= i < 9 ==> !(#[trigger] b[i] is Empty)
}

/// The empty positions among indices `0 .. n`, in ascending order.
pub open spec fn empties_upto(b: Seq<Cell>, n: int) -> Seq<usize>
    decreases n,
{
    if n <= 0 {
        Seq::empty()
    } else {
        empties_upto(b, n - 1) + if b[n - 1] is Empty {
            seq![(n - 1) as usize]
        } else {
            Seq::empty()
        }
    }
}

/// All empty positions of the board, in ascending order.
pub open spec fn empty_cells_spec(b: Seq<Cell>) -> Seq<usize> {
    empties_upto(b, 9)
}

/// Every listed empty position is in range and indeed empty.
pub proof fn lemma_empty_cells_in_range(b: Seq<Cell>, n: int)
    requires
        0 <= n <= 9,
    ensures
        forall|k: int|
            0 <= k < empties_upto(b, n).len() ==> (#[trigger] empties_upto(b, n)[k]) < n && b[
                empties_upto(b, n)[k] as int
            ] is Empty,
    decreases n,
{
    if n > 0 {
        lemma_empty_cells_in_range(b, n - 1);
    }
}

/// Every cell of the fresh board is listed empty.
proof fn lemma_empties_upto_all_empty(b: Seq<Cell>, n: int)
    requires
        0 <= n <= 9,
        forall|i: int| 0 <= i < 9 ==> (#[trigger] b[i]) is Empty,
    ensures
        empties_upto(b, n).len() == n,
    decreases n,
{
    if n > 0 {
        lemma_empties_upto_all_empty(b, n - 1);
    }
}

/// The fresh board has all nine positions empty.
pub proof fn lemma_empty_board_empties()
    ensures
        empty_cells_spec(empty_board()).len() == 9,
{
    lemma_empties_upto_all_empty(empty_board(), 9);
}

/// Marking an empty cell removes exactly that cell from the empty list.
pub proof fn lemma_empties_after_mark(b: Seq<Cell>, m: int, c: Cell, n: int)
    requires
        b.len() == 9,
        0 <= m < 9,
        b[m] is Empty,
        !(c is Empty),
        0 <= n <= 9,
    ensures
        empties_upto(b.update(m, c), n).len() == empties_upto(b, n).len() - (if m < n {
            1int
        } else {
            0int
        }),
    decreases n,
{
    if n > 0 {
        lemma_empties_after_mark(b, m, c, n - 1);
        if n - 1 == m {
            assert(b.update(m, c)[n - 1] == c);
        } else {
            assert(b.update(m, c)[n - 1] == b[n - 1]);
        }
    }
}

/// The text a cell shows: its own index while empty, else the mark on it.
pub open spec fn cell_text(b: Seq<Cell>, i: int) -> Seq<char> {
    match b[i] {
        Cell::Empty => seq![digit_char(i)],
        Cell::Z => seq!['Z'],
        Cell::K => seq!['K'],
    }
}

/// The line drawn between two board rows.
pub open spec fn separator_text() -> Seq<char> {
    seq!['-', '+', '-', '+', '-', '\n']
}

/// One rendered board row: three cells with `|` between them.
pub open spec fn row_text(b: Seq<Cell>, r: int) -> Seq<char> {
    cell_text(b, 3 * r) + seq!['|'] + cell_text(b, 3 * r + 1) + seq!['|'] + cell_text(b, 3 * r + 2)
        + seq!['\n']
}

/// The full rendered board: three rows, separators between them, and a
/// blank line after.
pub open spec fn render_spec(b: Seq<Cell>) -> Seq<char> {
    row_text(b, 0) + separator_text() + row_text(b, 1) + separator_text() + row_text(b, 2) + seq![
        '\n',
    ]
}

/// The exec mirror of the winning-line table.
pub fn win_line(i: usize) -> (r: (usize, usize, usize))
    requires
        i < 8,
    ensures
        r.0 as int == line_spec(i as int).0,
        r.1 as int == line_spec(i as int).1,
        r.2 as int == line_spec(i as int).2,
        r.0 < 9,
        r.1 < 9,
        r.2 < 9,
{
    match i {
        0 => (0, 1, 2),
        1 => (3, 4, 5),
        2 => (6, 7, 8),
        3 => (0, 3, 6),
        4 => (1, 4, 7),
        5 => (2, 5, 8),
        6 => (0, 4, 8),
        _ => (2, 4, 6),
    }
}

impl Board {
    /// A fresh, all-empty board.
    pub fn new() -> (b: Board)
        ensures
            b.cells@ == empty_board(),
    {
        let b = Board { cells: [Cell::Empty; 9] };
        proof {
            assert(b.cells@ =~= empty_board());
        }
        b
    }

    /// Whether `position` names a cell that is on the board and still empty.
    pub fn is_legal_move(&self, position: usize) -> (r: bool)
        ensures
            r == (position < 9 && self.cells@[position as int] is Empty),
    {
        position < 9 && self.cells[position] == Cell::Empty
    }

    /// Mark the cell at `position` with `player` and return true, iff the
    /// position is in range and currently empty; otherwise leave the board
    /// unchanged and return false.
    pub fn make_move(&mut self, position: usize, player: Cell) -> (legal: bool)
        ensures
            legal == (position < 9 && old(self).cells@[position as int] is Empty),
            legal ==> final(self).cells@ == old(self).cells@.update(position as int, player),
            !legal ==> *final(self) == *old(self),
    {
        if position < 9 && self.cells[position] == Cell::Empty {
            self.cells[position] = player;
            true
        } else {
            false
        }
    }

    /// The side occupying the first completed line in scan order, if any.
    pub fn check_winner(&self) -> (r: Option<Cell>)
        ensures
            r == winner_spec(self.cells@),
    {
        let mut i: usize = 0;
        while i < 8
            invariant
                i <= 8,
                winner_spec(self.cells@) == winner_from(self.cells@, i as int),
            decreases 8 - i,
        {
            let t = win_line(i);
            let ca = self.cells[t.0];
            if ca != Cell::Empty && ca == self.cells[t.1] && ca == self.cells[t.2] {
                return Some(ca);
            }
            i += 1;
        }
        None
    }

    /// Whether no empty cell remains.
    pub fn is_full(&self) -> (r: bool)
        ensures
            r == is_full_spec(self.cells@),
    {
        let mut i: usize = 0;
        while i < 9
            invariant
                i <= 9,
                forall|j: int| 0 <= j < i ==> !(#[trigger] self.cells@[j] is Empty),
            decreases 9 - i,
        {
            if self.cells[i] == Cell::Empty {
                return false;
            }
            i += 1;
        }
        true
    }

    /// All empty positions of the board, in ascending order.
    pub fn get_empty_cells(&self) -> (r: Vec<usize>)
        ensures
            r@ == empty_cells_spec(self.cells@),
    {
        let mut r: Vec<usize> = Vec::new();
        let mut i: usize = 0;
        while i < 9
            invariant
                i <= 9,
                r@ == empties_upto(self.cells@, i as int),
            decreases 9 - i,
        {
            if self.cells[i] == Cell::Empty {
                r.push(i);
            }
            proof {
                assert(r@ =~= empties_upto(self.cells@, i + 1));
            }
            i += 1;
        }
        r
    }
}

/// The text the cell at `i` shows.
fn cell_str(board: &Board, i: usize) -> (r: &'static str)
    requires
        i < 9,
    ensures
        r@ == cell_text(board.cells@, i as int),
{
    proof {
        reveal_strlit("Z");
        reveal_strlit("K");
    }
    let r = match board.cells[i] {
        Cell::Empty => digit_str(i as u64),
        Cell::Z => "Z",
        Cell::K => "K",
    };
    proof {
        assert(r@ =~= cell_text(board.cells@, i as int));
    }
    r
}

/// Append one rendered row to `s`.
fn append_row(s: &mut String, board: &Board, row: usize)
    requires
        row < 3,
    ensures
        final(s)@ == old(s)@ + row_text(board.cells@, row as int),
{
    proof {
        reveal_strlit("|");
        reveal_strlit("\n");
    }
    s.append(cell_str(board, 3 * row));
    s.append("|");
    s.append(cell_str(board, 3 * row + 1));
    s.append("|");
    s.append(cell_str(board, 3 * row + 2));
    s.append("\n");
    proof {
        assert(s@ =~= old(s)@ + row_text(board.cells@, row as int));
    }
}

/// Render the whole board: three rows with `|` between cells, `-+-+-`
/// lines between rows, and a blank line after; an empty cell shows its own
/// index.
pub fn render_board(board: &Board) -> (r: String)
    ensures
        r@ == render_spec(board.cells@),
{
    proof {
        reveal_strlit("-+-+-\n");
        reveal_strlit("\n");
    }
    let mut s = String::new();
    append_row(&mut s, board, 0);
    s.append("-+-+-\n");
    append_row(&mut s, board, 1);
    s.append("-+-+-\n");
    append_row(&mut s, board, 2);
    s.append("\n");
    proof {
        assert("-+-+-\n"@ =~= separator_text());
        assert(s@ =~= render_spec(board.cells@));
    }
    s
}

} // verus!
