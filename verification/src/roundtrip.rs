//! A game that was saved reads back as the same game.

use crate::board::Board;
use crate::cell::Cell;
use crate::errors::GameError;
use crate::format::after_entry;
use crate::format::all_digits;
use crate::format::cells_word;
use crate::format::comma;
use crate::format::decimal;
use crate::format::decimal_value;
use crate::format::digit;
use crate::format::entries;
use crate::format::entry;
use crate::format::entry_at;
use crate::format::find_line;
use crate::format::is_cells;
use crate::format::is_digit;
use crate::format::is_line;
use crate::format::line_end;
use crate::format::loaded;
use crate::format::mark;
use crate::format::newline;
use crate::format::parse_cells;
use crate::format::parse_entry;
use crate::format::saved;
use crate::format::selected_word;
use crate::format::shown_value;
use crate::format::size_word;
use crate::format::slash;
use crate::format::LineKind;
use vstd::prelude::*;

verus! {

/// A number in decimal is one digit or more, and stands for the number.
pub proof fn lemma_decimal_reads_back(n: nat)
    ensures
        decimal(n).len() >= 1,
        all_digits(decimal(n)),
        decimal_value(decimal(n)) == n,
        n < 10 ==> decimal(n) == seq![digit(n as int)],
    decreases n,
{
    if n < 10 {
        let digits = decimal(n);
        assert(digits.drop_last() =~= Seq::<u8>::empty());
        assert(decimal_value(digits.drop_last()) == 0);
    } else {
        lemma_decimal_reads_back(n / 10);
        let digits = decimal(n);
        assert(digits.drop_last() =~= decimal(n / 10));
        assert(digits.last() == digit((n % 10) as int));
    }
}

/// A line ends at the first line break after its beginning.
pub proof fn lemma_line_ends_at(text: Seq<u8>, start: int, end: int)
    requires
        0 <= start <= end <= text.len(),
        forall|k: int| start <= k < end ==> text[k] != newline(),
        end < text.len() ==> text[end] == newline(),
    ensures
        line_end(text, start) == end,
    decreases end - start,
{
    if start < end {
        lemma_line_ends_at(text, start + 1, end);
    }
}

/// The first `k` cells, each of one digit, are saved as four bytes a cell
/// but for the last, which has no comma after it.
pub proof fn lemma_entries_shape(cells: Seq<Cell>, k: int)
    requires
        1 <= k <= cells.len(),
        forall|i: int| 0 <= i < k ==> (#[trigger] cells[i]).value <= 9,
    ensures
        entries(cells, k).len() == 4 * k - 1,
        forall|m: int|
            0 <= m < k ==> #[trigger] entry_at(entries(cells, k), m) == seq![
                digit(cells[m].value as int),
                slash(),
                mark(cells[m].initial),
            ],
        forall|m: int| 0 <= m < k - 1 ==> #[trigger] after_entry(entries(cells, k), m) == comma(),
        forall|j: int| 0 <= j < 4 * k - 1 ==> entries(cells, k)[j] != newline(),
    decreases k,
{
    let all = entries(cells, k);
    let last = entry(cells[k - 1]);
    lemma_decimal_reads_back(cells[k - 1].value as nat);
    assert(last =~= seq![digit(cells[k - 1].value as int), slash(), mark(cells[k - 1].initial)]);
    if k == 1 {
        assert(entry_at(all, 0) =~= last);
    } else {
        lemma_entries_shape(cells, k - 1);
        let front = entries(cells, k - 1);
        assert(all =~= front.push(comma()) + last);
        assert forall|m: int| 0 <= m < k implies #[trigger] entry_at(all, m) == seq![
            digit(cells[m].value as int),
            slash(),
            mark(cells[m].initial),
        ] by {
            if m < k - 1 {
                assert(entry_at(all, m) =~= entry_at(front, m));
            } else {
                assert(entry_at(all, m) =~= last);
            }
        }
        assert forall|m: int| 0 <= m < k - 1 implies #[trigger] after_entry(all, m) == comma() by {
            if m < k - 2 {
                assert(after_entry(all, m) == after_entry(front, m));
            }
        }
    }
}

/// The cells of a grid, each of one digit, read back from their line.
pub proof fn lemma_cells_read_back(cells: Seq<Cell>)
    requires
        cells.len() >= 1,
        forall|i: int| 0 <= i < cells.len() ==> (#[trigger] cells[i]).value <= 9,
    ensures
        is_cells(entries(cells, cells.len() as int)),
        parse_cells(entries(cells, cells.len() as int)) == cells,
{
    let n = cells.len() as int;
    let body = entries(cells, n);
    lemma_entries_shape(cells, n);
    assert forall|k: int| 0 <= k < (body.len() + 1) / 4 implies parse_entry(
        #[trigger] entry_at(body, k),
    ) == Some(cells[k]) by {
        let bytes = entry_at(body, k);
        assert(bytes == seq![digit(cells[k].value as int), slash(), mark(cells[k].initial)]);
        assert(bytes[0] == digit(cells[k].value as int));
        assert(bytes[2] == mark(cells[k].initial));
    }
    assert(parse_cells(body) =~= cells);
}

/// No byte of `line` is a line break.
pub open spec fn unbroken(line: Seq<u8>) -> bool {
    forall|k: int| 0 <= k < line.len() ==> line[k] != newline()
}

/// The search for a line of some kind stops at a line of that kind.
pub proof fn lemma_line_found(text: Seq<u8>, start: int, end: int, kind: LineKind)
    requires
        0 <= start <= end <= text.len(),
        unbroken(text.subrange(start, end)),
        end < text.len() ==> text[end] == newline(),
        is_line(kind, text.subrange(start, end)),
    ensures
        line_end(text, start) == end,
        find_line(text, start, kind) == Some(start),
{
    let line = text.subrange(start, end);
    assert forall|k: int| start <= k < end implies text[k] != newline() by {
        assert(line[k - start] == text[k]);
    }
    lemma_line_ends_at(text, start, end);
}

/// The search for a line of some kind passes over a line of another kind.
pub proof fn lemma_line_passed(text: Seq<u8>, start: int, end: int, kind: LineKind)
    requires
        0 <= start <= end <= text.len(),
        unbroken(text.subrange(start, end)),
        end < text.len() ==> text[end] == newline(),
        !is_line(kind, text.subrange(start, end)),
    ensures
        line_end(text, start) == end,
        end < text.len() ==> find_line(text, start, kind) == find_line(text, end + 1, kind),
        end == text.len() ==> find_line(text, start, kind) is None,
{
    let line = text.subrange(start, end);
    assert forall|k: int| start <= k < end implies text[k] != newline() by {
        assert(line[k - start] == text[k]);
    }
    lemma_line_ends_at(text, start, end);
}

/// The first line of a save is a line of the block size and of no other kind.
pub proof fn lemma_size_line(size: int)
    requires
        3 <= size <= 5,
    ensures
        (size_word() + decimal(size as nat)).len() == 12,
        (size_word() + decimal(size as nat))[11] - 48 == size,
        unbroken(size_word() + decimal(size as nat)),
        is_line(LineKind::Size, size_word() + decimal(size as nat)),
        !is_line(LineKind::Selected, size_word() + decimal(size as nat)),
        !is_line(LineKind::Cells, size_word() + decimal(size as nat)),
{
    let line = size_word() + decimal(size as nat);
    lemma_decimal_reads_back(size as nat);
    assert(line.subrange(0, 11) =~= size_word());
    assert(line.subrange(0, 10)[0] != selected_word()[0]);
    assert(line.subrange(0, 7)[0] != cells_word()[0]);
}

/// The line of the selection is a line of the selection and of no other
/// kind, and the digits after its first word are those of the index.
pub proof fn lemma_selected_line(index: nat)
    ensures
        (selected_word() + decimal(index)).len() == 10 + decimal(index).len(),
        (selected_word() + decimal(index)).subrange(
            10,
            (selected_word() + decimal(index)).len() as int,
        ) == decimal(index),
        unbroken(selected_word() + decimal(index)),
        is_line(LineKind::Selected, selected_word() + decimal(index)),
        !is_line(LineKind::Cells, selected_word() + decimal(index)),
{
    let line = selected_word() + decimal(index);
    lemma_decimal_reads_back(index);
    assert(line.subrange(0, 10) =~= selected_word());
    assert(line.subrange(10, line.len() as int) =~= decimal(index));
    assert(line.subrange(0, 7)[0] != cells_word()[0]);
    assert forall|k: int| 0 <= k < line.len() implies line[k] != newline() by {
        if k >= 10 {
            assert(is_digit(decimal(index)[k - 10]));
        }
    }
}

/// The line of the cells is a line of the cells and not one of the
/// selection, and what follows its first word are the cells.
pub proof fn lemma_cells_line(cells: Seq<Cell>)
    requires
        cells.len() >= 1,
        forall|i: int| 0 <= i < cells.len() ==> (#[trigger] cells[i]).value <= 9,
    ensures
        (cells_word() + entries(cells, cells.len() as int)).len() == 7 + entries(
            cells,
            cells.len() as int,
        ).len(),
        (cells_word() + entries(cells, cells.len() as int)).subrange(
            7,
            (cells_word() + entries(cells, cells.len() as int)).len() as int,
        ) == entries(cells, cells.len() as int),
        unbroken(cells_word() + entries(cells, cells.len() as int)),
        is_line(LineKind::Cells, cells_word() + entries(cells, cells.len() as int)),
        !is_line(LineKind::Selected, cells_word() + entries(cells, cells.len() as int)),
{
    let body = entries(cells, cells.len() as int);
    let line = cells_word() + body;
    lemma_entries_shape(cells, cells.len() as int);
    assert(line.subrange(0, 7) =~= cells_word());
    assert(line.subrange(7, line.len() as int) =~= body);
    assert(line.subrange(0, 10)[0] != selected_word()[0]);
    assert forall|k: int| 0 <= k < line.len() implies line[k] != newline() by {
        if k >= 7 {
            assert(line[k] == body[k - 7]);
        }
    }
}

/// Where the three kinds of line are found in a save with a selection, and
/// what they hold.
pub proof fn lemma_lines_with_selection(size: int, index: nat, cells: Seq<Cell>)
    requires
        3 <= size <= 5,
        cells.len() >= 1,
        forall|i: int| 0 <= i < cells.len() ==> (#[trigger] cells[i]).value <= 9,
    ensures
        ({
            let first = size_word() + decimal(size as nat);
            let second = selected_word() + decimal(index);
            let third = cells_word() + entries(cells, cells.len() as int);
            let text = first.push(newline()) + second.push(newline()) + third.push(newline());
            &&& find_line(text, 0, LineKind::Size) == Some(0int)
            &&& text[11] - 48 == size
            &&& find_line(text, 0, LineKind::Selected) == Some(13int)
            &&& text.subrange(23, line_end(text, 13)) == decimal(index)
            &&& find_line(text, 0, LineKind::Cells) == Some(14 + second.len() as int)
            &&& text.subrange(
                21 + second.len() as int,
                line_end(text, 14 + second.len() as int),
            ) == entries(cells, cells.len() as int)
        }),
{
    let first = size_word() + decimal(size as nat);
    let second = selected_word() + decimal(index);
    let third = cells_word() + entries(cells, cells.len() as int);
    let text = first.push(newline()) + second.push(newline()) + third.push(newline());
    lemma_size_line(size);
    lemma_selected_line(index);
    lemma_cells_line(cells);
    let stop: int = 13 + second.len() as int;
    let at: int = stop + 1;
    let end: int = at + third.len() as int;
    assert(text.subrange(0, 12) =~= first);
    assert(text.subrange(13, stop) =~= second);
    assert(text.subrange(at, end) =~= third);
    assert(text[12] == newline() && text[stop] == newline() && text[end] == newline());
    lemma_line_found(text, 0, 12, LineKind::Size);
    lemma_line_passed(text, 0, 12, LineKind::Selected);
    lemma_line_passed(text, 0, 12, LineKind::Cells);
    lemma_line_found(text, 13, stop, LineKind::Selected);
    lemma_line_passed(text, 13, stop, LineKind::Cells);
    lemma_line_found(text, at, end, LineKind::Cells);
    assert(text.subrange(23, stop) =~= second.subrange(10, second.len() as int));
    assert(text.subrange(at + 7, end) =~= third.subrange(7, third.len() as int));
}

/// Where the lines are found in a save without a selection, and what they
/// hold.
pub proof fn lemma_lines_without_selection(size: int, cells: Seq<Cell>)
    requires
        3 <= size <= 5,
        cells.len() >= 1,
        forall|i: int| 0 <= i < cells.len() ==> (#[trigger] cells[i]).value <= 9,
    ensures
        ({
            let first = size_word() + decimal(size as nat);
            let third = cells_word() + entries(cells, cells.len() as int);
            let text = first.push(newline()) + third.push(newline());
            &&& find_line(text, 0, LineKind::Size) == Some(0int)
            &&& text[11] - 48 == size
            &&& find_line(text, 0, LineKind::Selected) is None
            &&& find_line(text, 0, LineKind::Cells) == Some(13int)
            &&& text.subrange(20, line_end(text, 13)) == entries(cells, cells.len() as int)
        }),
{
    let first = size_word() + decimal(size as nat);
    let third = cells_word() + entries(cells, cells.len() as int);
    let text = first.push(newline()) + third.push(newline());
    lemma_size_line(size);
    lemma_cells_line(cells);
    let end: int = 13 + third.len() as int;
    assert(text.subrange(0, 12) =~= first);
    assert(text.subrange(13, end) =~= third);
    assert(text.subrange(end + 1, end + 1) =~= Seq::<u8>::empty());
    assert(text[12] == newline() && text[end] == newline());
    lemma_line_found(text, 0, 12, LineKind::Size);
    lemma_line_passed(text, 0, 12, LineKind::Selected);
    lemma_line_passed(text, 0, 12, LineKind::Cells);
    lemma_line_passed(text, 13, end, LineKind::Selected);
    lemma_line_passed(text, end + 1, end + 1, LineKind::Selected);
    lemma_line_found(text, 13, end, LineKind::Cells);
    assert(text.subrange(20, end) =~= third.subrange(7, third.len() as int));
}

/// A game of block size 3, 4 or 5 whose values are single digits, and whose
/// selection is a cell of the grid shown with its value, is read back from
/// its save as it was: the same sizes, the same cells, the same selection.
pub proof fn lemma_save_then_load(board: Board)
    requires
        board.wf(),
        3 <= board.size <= 5,
        forall|i: int| 0 <= i < board.cells.len() ==> (#[trigger] board.cells[i]).value <= 9,
        board.selected_index is Some ==> 0 <= board.selected_index->0 < board.cells.len(),
        board.selected_value == shown_value(board.cells, board.selected_index),
    ensures
        loaded(saved(board)) == Ok::<Board, GameError>(board),
{
    board.lemma_sizes();
    let n = board.cells.len() as int;
    let first = size_word() + decimal(board.size as nat);
    let third = cells_word() + entries(board.cells, n);
    let text = saved(board);
    lemma_cells_read_back(board.cells);
    match board.selected_index {
        Some(index) => {
            let second = selected_word() + decimal(index as nat);
            lemma_lines_with_selection(board.size, index as nat, board.cells);
            lemma_decimal_reads_back(index as nat);
            assert(text =~= first.push(newline()) + second.push(newline()) + third.push(
                newline(),
            ));
        },
        None => {
            lemma_lines_without_selection(board.size, board.cells);
            assert(text =~= first.push(newline()) + third.push(newline()));
        },
    }
}

} // verus!
