//! The text that a game is saved as, line by line:
//!
//! ```text
//! game_size: 3
//! selected: 40
//! cells: 5/I,0/N,7/N,...
//! ```
//!
//! The line `selected` is there only where a cell is selected. Each cell is
//! its value, a slash, and `I` for a given or `N` for any other cell.

use crate::board::Board;
use crate::cell::Cell;
use crate::errors::GameError;
use vstd::prelude::*;

verus! {

/// The byte that ends a line.
pub open spec fn newline() -> u8 {
    10
}

/// The byte between two cells.
pub open spec fn comma() -> u8 {
    ',' as u8
}

/// The byte between the value of a cell and its mark.
pub open spec fn slash() -> u8 {
    '/' as u8
}

/// The mark of a cell: `I` for a given, `N` for any other cell.
pub open spec fn mark(initial: bool) -> u8 {
    if initial {
        'I' as u8
    } else {
        'N' as u8
    }
}

/// The words `game_size: ` that begin the first line.
pub open spec fn size_word() -> Seq<u8> {
    seq![
        'g' as u8,
        'a' as u8,
        'm' as u8,
        'e' as u8,
        '_' as u8,
        's' as u8,
        'i' as u8,
        'z' as u8,
        'e' as u8,
        ':' as u8,
        ' ' as u8,
    ]
}

/// The word `selected: ` that begins the line of the selection.
pub open spec fn selected_word() -> Seq<u8> {
    seq![
        's' as u8,
        'e' as u8,
        'l' as u8,
        'e' as u8,
        'c' as u8,
        't' as u8,
        'e' as u8,
        'd' as u8,
        ':' as u8,
        ' ' as u8,
    ]
}

/// The word `cells: ` that begins the line of the cells.
pub open spec fn cells_word() -> Seq<u8> {
    seq!['c' as u8, 'e' as u8, 'l' as u8, 'l' as u8, 's' as u8, ':' as u8, ' ' as u8]
}

/// The byte of the decimal digit `d`.
pub open spec fn digit(d: int) -> u8 {
    (48 + d) as u8
}

/// `b` is the byte of a decimal digit.
pub open spec fn is_digit(b: u8) -> bool {
    48 <= b <= 57
}

/// The number `n` in decimal digits, without leading zeros.
pub open spec fn decimal(n: nat) -> Seq<u8>
    decreases n,
{
    if n < 10 {
        seq![digit(n as int)]
    } else {
        decimal(n / 10).push(digit((n % 10) as int))
    }
}

/// The number that the decimal digits `digits` stand for. Leading zeros do
/// not count.
pub open spec fn decimal_value(digits: Seq<u8>) -> nat
    decreases digits.len(),
{
    if digits.len() == 0 {
        0
    } else {
        (decimal_value(digits.drop_last()) * 10 + (digits.last() - 48)) as nat
    }
}

/// Every byte of `bytes` is a decimal digit.
pub open spec fn all_digits(bytes: Seq<u8>) -> bool {
    forall|k: int| 0 <= k < bytes.len() ==> is_digit(#[trigger] bytes[k])
}

/// A cell as it is saved: its value in decimal, a slash, its mark.
pub open spec fn entry(cell: Cell) -> Seq<u8> {
    decimal(cell.value as nat).push(slash()).push(mark(cell.initial))
}

/// The first `k` cells as they are saved, with a comma between each two.
pub open spec fn entries(cells: Seq<Cell>, k: int) -> Seq<u8>
    decreases k,
{
    if k <= 0 {
        Seq::<u8>::empty()
    } else if k == 1 {
        entry(cells[0])
    } else {
        entries(cells, k - 1).push(comma()) + entry(cells[k - 1])
    }
}

/// The line of the selection, where a cell is selected.
pub open spec fn selected_line(selected_index: Option<int>) -> Seq<u8> {
    match selected_index {
        Some(i) => selected_word() + decimal(i as nat).push(newline()),
        None => Seq::<u8>::empty(),
    }
}

/// The text that `board` is saved as.
pub open spec fn saved(board: Board) -> Seq<u8> {
    size_word() + decimal(board.size as nat).push(newline()) + selected_line(board.selected_index)
        + cells_word() + entries(board.cells, board.cells.len() as int).push(newline())
}

/// Where the line that begins at `start` ends: at the next line break, or at
/// the end of the text.
pub open spec fn line_end(text: Seq<u8>, start: int) -> int
    decreases text.len() - start,
{
    if start >= text.len() {
        text.len() as int
    } else if text[start] == newline() {
        start
    } else {
        line_end(text, start + 1)
    }
}

/// The three kinds of line that a save holds.
pub enum LineKind {
    /// `game_size: ` and one of the digits 3, 4 and 5.
    Size,
    /// `selected: ` and one decimal digit or more.
    Selected,
    /// `cells: ` and the cells.
    Cells,
}

/// `line` is a line of the kind `kind`.
pub open spec fn is_line(kind: LineKind, line: Seq<u8>) -> bool {
    match kind {
        LineKind::Size => line.len() == 12 && line.subrange(0, 11) == size_word() && 51
            <= line[11] <= 53,
        LineKind::Selected => line.len() > 10 && line.subrange(0, 10) == selected_word()
            && all_digits(line.subrange(10, line.len() as int)),
        LineKind::Cells => line.len() >= 7 && line.subrange(0, 7) == cells_word(),
    }
}

/// Where the first line of the kind `kind` begins, among the lines that begin
/// at `start` or later, if there is one. `start` is the beginning of a line.
pub open spec fn find_line(text: Seq<u8>, start: int, kind: LineKind) -> Option<int>
    decreases text.len() - start,
{
    if start < 0 || start > text.len() {
        None
    } else {
        let end = line_end(text, start);
        if is_line(kind, text.subrange(start, end)) {
            Some(start)
        } else if start <= end < text.len() {
            find_line(text, end + 1, kind)
        } else {
            None
        }
    }
}

/// The three bytes of the `k`-th cell in the cells of a line.
pub open spec fn entry_at(body: Seq<u8>, k: int) -> Seq<u8> {
    body.subrange(4 * k, 4 * k + 3)
}

/// The cell that the three bytes `bytes` stand for: a digit, a slash and a
/// mark.
pub open spec fn parse_entry(bytes: Seq<u8>) -> Option<Cell> {
    if bytes.len() == 3 && is_digit(bytes[0]) && bytes[1] == slash() && (bytes[2] == mark(true)
        || bytes[2] == mark(false)) {
        Some(Cell { value: (bytes[0] - 48) as u8, initial: bytes[2] == mark(true) })
    } else {
        None
    }
}

/// The byte after the `k`-th cell in the cells of a line.
pub open spec fn after_entry(body: Seq<u8>, k: int) -> u8 {
    body[4 * k + 3]
}

/// `body` is one cell or more, each a digit, a slash and a mark, with one
/// comma between each two and nothing else.
pub open spec fn is_cells(body: Seq<u8>) -> bool {
    &&& body.len() % 4 == 3
    &&& forall|k: int|
        0 <= k < (body.len() + 1) / 4 ==> parse_entry(#[trigger] entry_at(body, k)) is Some
    &&& forall|k: int|
        0 <= k < (body.len() + 1) / 4 - 1 ==> #[trigger] after_entry(body, k) == comma()
}

/// The cells that `body` stands for.
pub open spec fn parse_cells(body: Seq<u8>) -> Seq<Cell> {
    Seq::new(((body.len() + 1) / 4) as nat, |k: int| parse_entry(entry_at(body, k))->0)
}

/// The game that the text `text` stands for, or why it stands for none.
///
/// The block size is read from the first line `game_size`, the selection
/// from the first line `selected`, the cells from the first line `cells`;
/// other lines are passed over. The text is refused as unreadable where it
/// has no line `game_size`, where the selected index is too large a number
/// for the machine, where it has no line `cells`, and where that line is not
/// made of cells. It is refused as wrong where the cells are not as many as
/// the grid has, and where the selected index is none of the grid's.
pub open spec fn loaded(text: Seq<u8>) -> Result<Board, GameError> {
    let size_at = find_line(text, 0, LineKind::Size);
    let selected_at = find_line(text, 0, LineKind::Selected);
    let cells_at = find_line(text, 0, LineKind::Cells);
    if size_at is None {
        Err(GameError::ParseSaveFileError)
    } else if selected_at is Some && decimal_value(
        text.subrange(selected_at->0 + 10, line_end(text, selected_at->0)),
    ) > usize::MAX {
        Err(GameError::ParseSaveFileError)
    } else if cells_at is None || !is_cells(
        text.subrange(cells_at->0 + 7, line_end(text, cells_at->0)),
    ) {
        Err(GameError::ParseSaveFileError)
    } else {
        let size = text[size_at->0 + 11] - 48;
        let side = size * size;
        let cells = parse_cells(text.subrange(cells_at->0 + 7, line_end(text, cells_at->0)));
        let selected_index = if selected_at is Some {
            Some(
                decimal_value(
                    text.subrange(selected_at->0 + 10, line_end(text, selected_at->0)),
                ) as int,
            )
        } else {
            None
        };
        if cells.len() != side * side {
            Err(GameError::IncorrectSaveFile)
        } else if selected_index is Some && selected_index->0 >= side * side {
            Err(GameError::IncorrectSaveFile)
        } else {
            Ok(
                Board {
                    size,
                    side,
                    cells,
                    selected_index,
                    selected_value: shown_value(cells, selected_index),
                },
            )
        }
    }
}

/// The value that goes with a selection: that of the selected cell where it
/// holds one.
pub open spec fn shown_value(cells: Seq<Cell>, selected_index: Option<int>) -> Option<u8> {
    match selected_index {
        Some(i) => if 0 <= i < cells.len() && cells[i].value != 0 {
            Some(cells[i].value)
        } else {
            None
        },
        None => None,
    }
}

} // verus!
