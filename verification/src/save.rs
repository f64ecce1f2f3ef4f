//! Writing a game as text and reading it back: see [`crate::format`] for the
//! text.

use crate::cell::Cell;
use crate::errors::GameError;
use crate::format::after_entry;
use crate::format::all_digits;
use crate::format::cells_word;
use crate::format::comma;
use crate::format::decimal;
use crate::format::decimal_value;
use crate::format::entries;
use crate::format::entry;
use crate::format::entry_at;
use crate::format::find_line;
use crate::format::is_cells;
use crate::format::is_digit;
use crate::format::is_line;
use crate::format::line_end;
use crate::format::loaded;
use crate::format::mark;
use crate::format::newline;
use crate::format::parse_cells;
use crate::format::parse_entry;
use crate::format::saved;
use crate::format::selected_word;
use crate::format::size_word;
use crate::format::slash;
use crate::format::LineKind;
use crate::game::Game;
use vstd::prelude::*;

verus! {

/// The bytes of `game_size: `.
fn size_bytes() -> (word: Vec<u8>)
    ensures
        word@ == size_word(),
{
    let word = vec![
        'g' as u8,
        'a' as u8,
        'm' as u8,
        'e' as u8,
        '_' as u8,
        's' as u8,
        'i' as u8,
        'z' as u8,
        'e' as u8,
        ':' as u8,
        ' ' as u8,
    ];
    assert(word@ =~= size_word());
    word
}

/// The bytes of `selected: `.
fn selected_bytes() -> (word: Vec<u8>)
    ensures
        word@ == selected_word(),
{
    let word = vec![
        's' as u8,
        'e' as u8,
        'l' as u8,
        'e' as u8,
        'c' as u8,
        't' as u8,
        'e' as u8,
        'd' as u8,
        ':' as u8,
        ' ' as u8,
    ];
    assert(word@ =~= selected_word());
    word
}

/// The bytes of `cells: `.
fn cells_bytes() -> (word: Vec<u8>)
    ensures
        word@ == cells_word(),
{
    let word = vec!['c' as u8, 'e' as u8, 'l' as u8, 'l' as u8, 's' as u8, ':' as u8, ' ' as u8];
    assert(word@ =~= cells_word());
    word
}

/// Writes `n` in decimal at the end of `text`.
fn push_decimal(text: &mut Vec<u8>, n: usize)
    ensures
        final(text)@ == old(text)@ + decimal(n as nat),
    decreases n,
{
    if n >= 10 {
        push_decimal(text, n / 10);
    }
    let last = (n % 10) as u8;
    text.push(48 + last);
    assert(text@ =~= old(text)@ + decimal(n as nat));
}

/// Writes `word` at the end of `text`.
fn push_word(text: &mut Vec<u8>, word: &Vec<u8>)
    ensures
        final(text)@ == old(text)@ + word@,
{
    let mut k: usize = 0;
    while k < word.len()
        invariant
            k <= word.len(),
            text@ == old(text)@ + word@.take(k as int),
        decreases word.len() - k,
    {
        text.push(word[k]);
        assert(word@.take(k + 1) =~= word@.take(k as int).push(word@[k as int]));
        assert(text@ =~= old(text)@ + word@.take(k + 1));
        k += 1;
    }
    assert(word@.take(word.len() as int) =~= word@);
}

/// Where the line that begins at `start` ends.
fn end_of_line(text: &[u8], start: usize) -> (end: usize)
    requires
        start <= text@.len(),
    ensures
        end == line_end(text@, start as int),
        start <= end <= text@.len(),
        forall|k: int| start <= k < end ==> text@[k] != newline(),
        end < text@.len() ==> text@[end as int] == newline(),
{
    let mut end = start;
    while end < text.len() && text[end] != 10
        invariant
            start <= end <= text@.len(),
            line_end(text@, start as int) == line_end(text@, end as int),
            forall|k: int| start <= k < end ==> text@[k] != newline(),
        decreases text@.len() - end,
    {
        end += 1;
    }
    end
}

/// Whether the bytes of `text` from `start` to `end` begin with `word`.
fn begins_with(text: &[u8], start: usize, end: usize, word: &Vec<u8>) -> (begins: bool)
    requires
        start <= end <= text@.len(),
    ensures
        begins == (end - start >= word@.len() && text@.subrange(start as int, end as int).subrange(
            0,
            word@.len() as int,
        ) == word@),
{
    if end - start < word.len() {
        return false;
    }
    let ghost line = text@.subrange(start as int, end as int);
    let mut k: usize = 0;
    while k < word.len()
        invariant
            start <= end <= text@.len(),
            end - start >= word@.len(),
            line == text@.subrange(start as int, end as int),
            k <= word.len(),
            forall|m: int| 0 <= m < k ==> line[m] == word@[m],
        decreases word.len() - k,
    {
        if text[start + k] != word[k] {
            assert(line.subrange(0, word@.len() as int)[k as int] != word@[k as int]);
            return false;
        }
        k += 1;
    }
    assert(line.subrange(0, word@.len() as int) =~= word@);
    true
}

/// Whether the bytes of `text` from `start` to `end` are decimal digits.
fn digits_only(text: &[u8], start: usize, end: usize) -> (only: bool)
    requires
        start <= end <= text@.len(),
    ensures
        only == all_digits(text@.subrange(start as int, end as int)),
{
    let ghost bytes = text@.subrange(start as int, end as int);
    let mut k: usize = start;
    while k < end
        invariant
            start <= k <= end <= text@.len(),
            bytes == text@.subrange(start as int, end as int),
            forall|m: int| 0 <= m < k - start ==> is_digit(#[trigger] bytes[m]),
        decreases end - k,
    {
        if text[k] < 48 || text[k] > 57 {
            assert(!is_digit(bytes[k - start]));
            return false;
        }
        k += 1;
    }
    true
}

/// Whether the bytes of `text` from `start` to `end` are a line of the kind
/// `kind`.
fn line_is(text: &[u8], start: usize, end: usize, kind: &LineKind) -> (is: bool)
    requires
        start <= end <= text@.len(),
    ensures
        is == is_line(*kind, text@.subrange(start as int, end as int)),
{
    let ghost line = text@.subrange(start as int, end as int);
    match kind {
        LineKind::Size => {
            let word = size_bytes();
            end - start == 12 && begins_with(text, start, end, &word) && 51 <= text[start + 11]
                && text[start + 11] <= 53
        },
        LineKind::Selected => {
            let word = selected_bytes();
            if end - start > 10 && begins_with(text, start, end, &word) {
                assert(line.subrange(10, line.len() as int) =~= text@.subrange(
                    start + 10,
                    end as int,
                ));
                digits_only(text, start + 10, end)
            } else {
                false
            }
        },
        LineKind::Cells => {
            let word = cells_bytes();
            end - start >= 7 && begins_with(text, start, end, &word)
        },
    }
}

/// Where the first line of the kind `kind` begins and ends, if there is one.
fn first_line(text: &[u8], kind: LineKind) -> (found: Option<(usize, usize)>)
    ensures
        match found {
            Some((start, end)) => find_line(text@, 0, kind) == Some(start as int) && end
                == line_end(text@, start as int) && start <= end <= text@.len() && is_line(
                kind,
                text@.subrange(start as int, end as int),
            ),
            None => find_line(text@, 0, kind) is None,
        },
{
    let mut start: usize = 0;
    loop
        invariant
            start <= text@.len(),
            find_line(text@, 0, kind) == find_line(text@, start as int, kind),
        decreases text@.len() - start,
    {
        let end = end_of_line(text, start);
        if line_is(text, start, end, &kind) {
            return Some((start, end));
        }
        if end >= text.len() {
            return None;
        }
        start = end + 1;
    }
}

/// A longer run of digits stands for a number at least as large.
proof fn lemma_decimal_value_grows(digits: Seq<u8>, k: int)
    requires
        all_digits(digits),
        0 <= k <= digits.len(),
    ensures
        decimal_value(digits.take(k)) <= decimal_value(digits),
    decreases digits.len() - k,
{
    if k < digits.len() {
        let longer = digits.take(k + 1);
        assert(longer.drop_last() =~= digits.take(k));
        assert(is_digit(digits[k]));
        assert(longer.last() == digits[k]);
        lemma_decimal_value_grows(digits, k + 1);
    } else {
        assert(digits.take(k) =~= digits);
    }
}

/// The number that the digits of `text` from `start` to `end` stand for, or
/// nothing where it is too large for the machine.
fn read_decimal(text: &[u8], start: usize, end: usize) -> (number: Option<usize>)
    requires
        start <= end <= text@.len(),
        all_digits(text@.subrange(start as int, end as int)),
    ensures
        match number {
            Some(n) => n == decimal_value(text@.subrange(start as int, end as int)),
            None => decimal_value(text@.subrange(start as int, end as int)) > usize::MAX,
        },
{
    let ghost digits = text@.subrange(start as int, end as int);
    let mut number: usize = 0;
    let mut k: usize = start;
    assert(digits.take(0) =~= Seq::<u8>::empty());
    while k < end
        invariant
            start <= k <= end <= text@.len(),
            digits == text@.subrange(start as int, end as int),
            all_digits(digits),
            number == decimal_value(digits.take(k - start)),
        decreases end - k,
    {
        let ghost longer = digits.take(k - start + 1);
        proof {
            assert(longer.drop_last() =~= digits.take(k - start));
            assert(longer.last() == digits[k - start]);
            assert(is_digit(digits[k - start]));
            lemma_decimal_value_grows(digits, k - start + 1);
        }
        let unit = (text[k] - 48) as usize;
        match number.checked_mul(10) {
            Some(tens) => match tens.checked_add(unit) {
                Some(next) => {
                    number = next;
                },
                None => {
                    return None;
                },
            },
            None => {
                return None;
            },
        }
        k += 1;
    }
    assert(digits.take(end - start) =~= digits);
    Some(number)
}

/// The cells that the bytes of `text` from `start` to `end` stand for, or
/// nothing where they are not made of cells.
fn read_cells(text: &[u8], start: usize, end: usize) -> (cells: Option<Vec<Cell>>)
    requires
        start <= end <= text@.len(),
    ensures
        match cells {
            Some(cells) => is_cells(text@.subrange(start as int, end as int)) && cells@
                == parse_cells(text@.subrange(start as int, end as int)),
            None => !is_cells(text@.subrange(start as int, end as int)),
        },
{
    let ghost body = text@.subrange(start as int, end as int);
    let length = end - start;
    if length % 4 != 3 {
        return None;
    }
    let count = length / 4 + 1;
    let mut cells: Vec<Cell> = Vec::new();
    let mut k: usize = 0;
    while k < count
        invariant
            start <= end <= text@.len(),
            body == text@.subrange(start as int, end as int),
            length == end - start,
            length % 4 == 3,
            count == (length + 1) / 4,
            k <= count,
            cells@.len() == k,
            forall|m: int| 0 <= m < k ==> parse_entry(#[trigger] entry_at(body, m)) is Some,
            forall|m: int| 0 <= m < k ==> cells@[m] == parse_entry(#[trigger] entry_at(body, m))->0,
            forall|m: int| 0 <= m < k && m < count - 1 ==> #[trigger] after_entry(body, m) == comma(),
        decreases count - k,
    {
        let at = start + 4 * k;
        let value = text[at];
        let middle = text[at + 1];
        let flag = text[at + 2];
        proof {
            let bytes = entry_at(body, k as int);
            assert(bytes.len() == 3);
            assert(bytes[0] == value && bytes[1] == middle && bytes[2] == flag);
        }
        if value < 48 || value > 57 || middle != '/' as u8 || (flag != 'I' as u8 && flag
            != 'N' as u8) {
            return None;
        }
        if k + 1 < count {
            if text[at + 3] != ',' as u8 {
                assert(after_entry(body, k as int) != comma());
                return None;
            }
        }
        cells.push(Cell { value: value - 48, initial: flag == 'I' as u8 });
        k += 1;
    }
    assert(cells@ =~= parse_cells(body));
    Some(cells)
}

impl Game {
    /// Reads a game from the text of a save: see [`loaded`] for what each
    /// text stands for and for which texts are refused, and why.
    pub fn from_file(file_content: &[u8]) -> (game: Result<Game, GameError>)
        ensures
            match game {
                Ok(game) => loaded(file_content@) == Ok::<crate::board::Board, GameError>(game@)
                    && game.wf(),
                Err(error) => loaded(file_content@) == Err::<crate::board::Board, GameError>(
                    error,
                ),
            },
    {
        let game_size = match first_line(file_content, LineKind::Size) {
            Some((start, end)) => {
                assert(file_content@.subrange(start as int, end as int)[11] == file_content@[start
                    + 11]);
                (file_content[start + 11] - 48) as usize
            },
            None => {
                return Err(GameError::ParseSaveFileError);
            },
        };
        let selected_index = match first_line(file_content, LineKind::Selected) {
            Some((start, end)) => {
                proof {
                    let line = file_content@.subrange(start as int, end as int);
                    assert(line.subrange(10, line.len() as int) =~= file_content@.subrange(
                        start + 10,
                        end as int,
                    ));
                }
                match read_decimal(file_content, start + 10, end) {
                    Some(index) => Some(index),
                    None => {
                        return Err(GameError::ParseSaveFileError);
                    },
                }
            },
            None => None,
        };
        let cells = match first_line(file_content, LineKind::Cells) {
            Some((start, end)) => match read_cells(file_content, start + 7, end) {
                Some(cells) => cells,
                None => {
                    return Err(GameError::ParseSaveFileError);
                },
            },
            None => {
                return Err(GameError::ParseSaveFileError);
            },
        };
        assert(9 <= game_size * game_size <= 25 && game_size * game_size * (game_size * game_size)
            <= 625) by (nonlinear_arith)
            requires
                3 <= game_size <= 5,
        ;
        let side_size = game_size * game_size;
        if cells.len() != side_size * side_size {
            return Err(GameError::IncorrectSaveFile);
        }
        if selected_index.is_some() && selected_index.unwrap() >= side_size * side_size {
            return Err(GameError::IncorrectSaveFile);
        }
        let selected_value = if selected_index.is_some() && cells[selected_index.unwrap()] != 0u8 {
            Some(cells[selected_index.unwrap()].value)
        } else {
            None
        };
        let game = Game { size: game_size, side_size, selected_index, selected_value, grid: cells };
        proof {
            assert forall|i: int| 0 <= i < game@.cells.len() implies (#[trigger] game@.cells[i]).value
                <= game@.side by {
                let body = file_content@.subrange(
                    find_line(file_content@, 0, LineKind::Cells)->0 + 7,
                    line_end(file_content@, find_line(file_content@, 0, LineKind::Cells)->0),
                );
                assert(parse_entry(entry_at(body, i)) is Some);
            }
        }
        Ok(game)
    }

    /// The text that this game is saved as: see [`saved`].
    pub fn save(&self) -> (text: Vec<u8>)
        ensures
            text@ == saved(self@),
    {
        let mut text = size_bytes();
        push_decimal(&mut text, self.size);
        text.push(10);
        let ghost head = size_word() + decimal(self.size as nat).push(newline());
        assert(text@ =~= head);
        match self.selected_index {
            Some(index) => {
                let word = selected_bytes();
                push_word(&mut text, &word);
                push_decimal(&mut text, index);
                text.push(10);
                assert(text@ =~= head + crate::format::selected_line(self@.selected_index));
            },
            None => {
                assert(text@ =~= head + crate::format::selected_line(self@.selected_index));
            },
        }
        let word = cells_bytes();
        push_word(&mut text, &word);
        let ghost front = head + crate::format::selected_line(self@.selected_index) + cells_word();
        assert(text@ =~= front);
        let mut k: usize = 0;
        while k < self.grid.len()
            invariant
                k <= self.grid.len(),
                text@ == front + entries(self@.cells, k as int),
            decreases self.grid.len() - k,
        {
            let ghost before = text@;
            if k > 0 {
                text.push(',' as u8);
            }
            push_decimal(&mut text, self.grid[k].value as usize);
            text.push('/' as u8);
            text.push(if self.grid[k].initial {
                'I' as u8
            } else {
                'N' as u8
            });
            proof {
                let cell = self@.cells[k as int];
                assert(entry(cell) =~= decimal(cell.value as nat) + seq![slash(), mark(cell.initial)]);
                if k > 0 {
                    assert(entries(self@.cells, k + 1) =~= entries(self@.cells, k as int) + seq![
                        comma(),
                    ] + entry(cell));
                } else {
                    assert(entries(self@.cells, 0) =~= Seq::<u8>::empty());
                    assert(entries(self@.cells, 1) =~= entry(cell));
                }
                assert(text@ =~= front + entries(self@.cells, k + 1));
            }
            k += 1;
        }
        text.push(10);
        assert(text@ =~= saved(self@));
        text
    }
}

} // verus!
