//! What a terminal screen is and what each control function does to it.
//!
//! A screen is a list of lines with a cursor. A wide character takes two cells, of which the
//! second one holds a NUL. Besides the text the screen records from which line on it has changed
//! since the last update, and how many lines have left at its top.

use vstd::prelude::*;

use crate::chars::{char_bytes, tail_within};
use crate::formatting::rows::RowView;
use crate::timestamp::Timestamp;

verus! {

pub const MAX_TERMINAL_ROWS: usize = 100_000;

pub const MAX_TERMINAL_COLUMNS: usize = 524_288;

/// The width in columns that `unicode_width` gives a character beyond ASCII.
pub uninterp spec fn listed_width(c: char) -> usize;

/// The width of a character in columns: printable ASCII has one, control characters have none.
pub open spec fn display_width(c: char) -> Option<usize> {
    if c < '\u{20}' || '\u{7f}' <= c <= '\u{9f}' {
        None
    } else if c <= '\u{7e}' {
        Some(1)
    } else {
        Some(listed_width(c))
    }
}

/// `UnicodeWidthChar::width` gives one column for printable ASCII and no width for a control
/// character; any other character has a width.
#[verifier::external_body]
pub(crate) fn char_width(c: char) -> (width: Option<usize>)
    ensures
        '\u{20}' <= c <= '\u{7e}' ==> width == Some(1usize),
        c < '\u{20}' || '\u{7f}' <= c <= '\u{9f}' ==> width is None,
        c >= '\u{a0}' ==> width == Some(listed_width(c)),
{
    unicode_width::UnicodeWidthChar::width(c)
}

#[verifier::ext_equal]
pub struct LineView {
    pub cells: Seq<char>,
    /// When the first character of the line arrived.
    pub received_at: Option<Timestamp>,
    /// The line was ended by a line feed.
    pub completed: bool,
    /// The number of bytes in the text of the line when it was last counted.
    pub byte_len: usize,
}

#[verifier::ext_equal]
pub struct ScreenView {
    pub lines: Seq<LineView>,
    pub cursor_row: int,
    pub cursor_col: int,
    pub saved_cursor: Option<(int, int)>,
    /// When the bytes arrived that are being handled.
    pub received_at: Timestamp,
    /// The first line that has changed in this update.
    pub dirty_from: Option<int>,
    /// The first line whose bytes have to be counted again.
    pub byte_dirty_from: Option<int>,
    /// The number of lines that have left at the top in this update.
    pub removed_front: usize,
    /// The screen was cleared in this update.
    pub full_replace: bool,
}

pub open spec fn min(a: int, b: int) -> int {
    if a <= b {
        a
    } else {
        b
    }
}

pub open spec fn max(a: int, b: int) -> int {
    if a >= b {
        a
    } else {
        b
    }
}

pub open spec fn blank_line() -> LineView {
    LineView { cells: Seq::empty(), received_at: None, completed: false, byte_len: 0 }
}

pub open spec fn blank_lines(count: int) -> Seq<LineView> {
    Seq::new(max(count, 0) as nat, |i: int| blank_line())
}

pub open spec fn spaces(count: int) -> Seq<char> {
    Seq::new(max(count, 0) as nat, |i: int| ' ')
}

/// The cells, filled up with spaces to at least `len`.
pub open spec fn padded(cells: Seq<char>, len: int) -> Seq<char> {
    cells + spaces(len - cells.len())
}

/// The end of a line without the spaces that follow its last other character.
pub open spec fn without_trailing_spaces(cells: Seq<char>) -> Seq<char>
    decreases cells.len(),
{
    if cells.len() > 0 && cells.last() == ' ' {
        without_trailing_spaces(cells.drop_last())
    } else {
        cells
    }
}

/// The cells that hold a character.
pub open spec fn without_nul(cells: Seq<char>) -> Seq<char>
    decreases cells.len(),
{
    if cells.len() == 0 {
        Seq::empty()
    } else if cells.last() == '\0' {
        without_nul(cells.drop_last())
    } else {
        without_nul(cells.drop_last()).push(cells.last())
    }
}

/// The text that a line shows.
pub open spec fn line_text(line: LineView) -> Seq<char> {
    without_nul(without_trailing_spaces(line.cells))
}

/// The number of bytes of the characters in a line.
pub open spec fn cell_bytes(cells: Seq<char>) -> nat
    decreases cells.len(),
{
    if cells.len() == 0 {
        0
    } else {
        cell_bytes(cells.drop_last()) + if cells.last() == '\0' {
            0
        } else {
            char_bytes(cells.last())
        }
    }
}

/// `cell_bytes`, as far as the counter goes.
pub open spec fn counted_bytes(cells: Seq<char>) -> usize {
    if cell_bytes(cells) > usize::MAX {
        usize::MAX
    } else {
        cell_bytes(cells) as usize
    }
}

/// The sum of the counted bytes of all lines.
pub open spec fn counted_total(lines: Seq<LineView>) -> nat
    decreases lines.len(),
{
    if lines.len() == 0 {
        0
    } else {
        counted_total(lines.drop_last()) + lines.last().byte_len as nat
    }
}

pub open spec fn earlier(mark: Option<int>, row: int) -> Option<int> {
    match mark {
        Some(other) => Some(min(other, row)),
        None => Some(row),
    }
}

pub open spec fn one_up(mark: Option<int>) -> Option<int> {
    match mark {
        Some(row) => Some(max(row - 1, 0)),
        None => None,
    }
}

/// The width of a character on the screen: at least one column.
pub open spec fn columns(c: char) -> int {
    match display_width(c) {
        Some(width) => max(width as int, 1),
        None => 1,
    }
}

/// The cells after a character was written over column `col`. Writing over half of a wide
/// character leaves a space in its other half.
pub open spec fn overwritten(cells: Seq<char>, col: int, c: char) -> Seq<char> {
    let a = padded(cells, col);
    let b = if col < a.len() && a[col] == '\0' && col != 0 {
        a.update(col - 1, ' ')
    } else {
        a
    };
    let d = if col + 1 < b.len() && display_width(b[col]) == Some(2usize) {
        b.update(col + 1, ' ')
    } else {
        b
    };
    let e = if col == d.len() {
        d.push(c)
    } else {
        d.update(col, c)
    };
    if columns(c) != 2 {
        e
    } else if col + 1 == e.len() {
        e.push('\0')
    } else {
        e.update(col + 1, '\0')
    }
}

/// A line after a character was printed in it.
pub open spec fn printed(line: LineView, col: int, c: char, at: Timestamp) -> LineView {
    LineView {
        cells: overwritten(line.cells, col, c),
        received_at: match line.received_at {
            Some(earlier) => Some(earlier),
            None => Some(at),
        },
        completed: false,
        ..line
    }
}

/// A line after part of it was erased: up to the cursor, all of it, or from the cursor on.
pub open spec fn erased(line: LineView, mode: int, col: int) -> LineView {
    if mode == 1 {
        LineView {
            cells: Seq::new(
                max(line.cells.len() as int, col + 1) as nat,
                |i: int|
                    if i <= col {
                        ' '
                    } else {
                        line.cells[i]
                    },
            ),
            ..line
        }
    } else if mode == 2 || mode == 3 {
        LineView { cells: Seq::empty(), received_at: None, completed: false, ..line }
    } else {
        LineView { cells: line.cells.take(min(col, line.cells.len() as int)), ..line }
    }
}

/// A line without its characters and its time.
pub open spec fn emptied(line: LineView) -> LineView {
    LineView { cells: Seq::empty(), received_at: None, ..line }
}

/// A line with `count` spaces inserted at a column.
pub open spec fn spread(line: LineView, col: int, count: int) -> LineView {
    let cells = padded(line.cells, col);
    LineView { cells: cells.take(col) + spaces(count) + cells.skip(col), ..line }
}

/// A line without `count` cells from a column on.
pub open spec fn shrunk(line: LineView, col: int, count: int) -> LineView {
    let len = line.cells.len() as int;
    let start = min(col, len);
    let end = min(start + count, len);
    LineView { cells: line.cells.take(start) + line.cells.skip(end), ..line }
}

/// A line with spaces in `count` cells from a column on.
pub open spec fn blanked(line: LineView, col: int, count: int) -> LineView {
    let cells = padded(line.cells, col + count);
    LineView {
        cells: Seq::new(
            cells.len(),
            |i: int|
                if col <= i < col + count {
                    ' '
                } else {
                    cells[i]
                },
        ),
        ..line
    }
}

/// A line that is longer than `max_bytes` keeps its end, after an ellipsis; its bytes are
/// counted.
pub open spec fn settled(line: LineView, max_bytes: usize) -> LineView {
    if counted_bytes(line.cells) <= max_bytes {
        LineView { byte_len: counted_bytes(line.cells), ..line }
    } else {
        let cells = seq!['…'] + tail_within(line.cells, max(max_bytes as int / 2, 1) as nat);
        LineView { cells, byte_len: counted_bytes(cells), ..line }
    }
}

/// Where a column of a line is after the line was settled.
pub open spec fn settled_col(line: LineView, max_bytes: usize, col: int) -> int {
    if counted_bytes(line.cells) <= max_bytes {
        col
    } else {
        let tail = tail_within(line.cells, max(max_bytes as int / 2, 1) as nat);
        max(col - (line.cells.len() - tail.len()), 0) + 1
    }
}

impl ScreenView {
    /// The cursor stays on a screen of bounded size, and a line to count again has changed.
    pub open spec fn wf(self) -> bool {
        &&& 0 <= self.cursor_row < MAX_TERMINAL_ROWS
        &&& 0 <= self.cursor_col <= MAX_TERMINAL_COLUMNS
        &&& self.saved_cursor matches Some(saved) ==> 0 <= saved.0 < MAX_TERMINAL_ROWS && 0
            <= saved.1 <= MAX_TERMINAL_COLUMNS
        &&& self.dirty_from matches Some(row) ==> 0 <= row
        &&& self.byte_dirty_from matches Some(row) ==> 0 <= row && self.dirty_from is Some
            && self.dirty_from->0 <= row
    }

    /// The number of lines that are shown: an empty last line is not, until it is completed.
    pub open spec fn rendered_len(self) -> int {
        let len = self.lines.len() as int;
        if len > 0 && self.lines[len - 1].cells.len() == 0 && !self.lines[len - 1].completed {
            len - 1
        } else {
            len
        }
    }

    /// The lines that are shown: when each arrived, and its text.
    pub open spec fn rows(self) -> Seq<RowView> {
        Seq::new(
            self.rendered_len() as nat,
            |i: int|
                RowView {
                    received_at: match self.lines[i].received_at {
                        Some(at) => at,
                        None => self.received_at,
                    },
                    text: line_text(self.lines[i]),
                },
        )
    }

    /// The lines that are shown, from `start` on.
    pub open spec fn rows_from(self, start: int) -> Seq<RowView> {
        self.rows().skip(min(start, self.rendered_len()))
    }

    pub open spec fn dirty(self, row: int) -> ScreenView {
        ScreenView {
            dirty_from: earlier(self.dirty_from, row),
            byte_dirty_from: earlier(self.byte_dirty_from, row),
            ..self
        }
    }

    pub open spec fn begun(self) -> ScreenView {
        ScreenView {
            dirty_from: None,
            byte_dirty_from: None,
            removed_front: 0,
            full_replace: false,
            ..self
        }
    }

    pub open spec fn at(self, received_at: Timestamp) -> ScreenView {
        ScreenView { received_at, ..self }
    }

    /// Adds blank lines until there is one at `row`.
    pub open spec fn with_line(self, row: int) -> ScreenView {
        let len = self.lines.len() as int;
        if row < len {
            self
        } else {
            ScreenView { lines: self.lines + blank_lines(row + 1 - len), ..self }.dirty(len)
        }
    }

    /// Replaces the line at the cursor, which counts as a change.
    pub open spec fn with_cursor_line(self, line: LineView) -> ScreenView {
        ScreenView { lines: self.lines.update(self.cursor_row, line), ..self }.dirty(
            self.cursor_row,
        )
    }

    /// The line at the cursor, which exists once `with_line` was applied.
    pub open spec fn cursor_line(self) -> LineView {
        self.lines[self.cursor_row]
    }

    pub open spec fn moved_to(self, row: int, col: int) -> ScreenView {
        ScreenView {
            cursor_row: min(row, MAX_TERMINAL_ROWS - 1),
            cursor_col: min(col, MAX_TERMINAL_COLUMNS as int),
            ..self
        }
    }

    pub open spec fn printed(self, c: char) -> ScreenView {
        let s = self.with_line(self.cursor_row);
        ScreenView {
            cursor_col: min(s.cursor_col + columns(c), MAX_TERMINAL_COLUMNS as int),
            ..s.with_cursor_line(printed(s.cursor_line(), s.cursor_col, c, s.received_at))
        }
    }

    pub open spec fn returned(self) -> ScreenView {
        ScreenView { cursor_col: 0, ..self }
    }

    /// The oldest line leaves.
    pub open spec fn scrolled_once(self) -> ScreenView {
        if self.lines.len() == 0 {
            self
        } else {
            ScreenView {
                lines: self.lines.skip(1),
                removed_front: if self.rendered_len() != 0 && self.removed_front < usize::MAX {
                    (self.removed_front + 1) as usize
                } else {
                    self.removed_front
                },
                cursor_row: max(self.cursor_row - 1, 0),
                saved_cursor: match self.saved_cursor {
                    Some(saved) => Some((max(saved.0 - 1, 0), saved.1)),
                    None => None,
                },
                dirty_from: one_up(self.dirty_from),
                byte_dirty_from: one_up(self.byte_dirty_from),
                ..self
            }
        }
    }

    pub open spec fn scrolled_off(self, count: int) -> ScreenView
        decreases count,
    {
        if count <= 0 {
            self
        } else {
            self.scrolled_off(count - 1).scrolled_once()
        }
    }

    pub open spec fn fed(self) -> ScreenView {
        let s = self.with_line(self.cursor_row);
        let line = s.cursor_line();
        let seen = if s.cursor_row + 1 == s.lines.len() && line.cells.len() == 0
            && !line.completed {
            s.dirty(s.cursor_row)
        } else {
            s
        };
        let ended = ScreenView {
            lines: seen.lines.update(seen.cursor_row, LineView { completed: true, ..line }),
            ..seen
        };
        let room = if ended.cursor_row >= MAX_TERMINAL_ROWS - 1 {
            ended.scrolled_once()
        } else {
            ended
        };
        let next = ScreenView {
            cursor_row: min(room.cursor_row + 1, MAX_TERMINAL_ROWS - 1),
            ..room
        };
        next.with_line(next.cursor_row)
    }

    pub open spec fn backed(self) -> ScreenView {
        ScreenView { cursor_col: max(self.cursor_col - 1, 0), ..self }
    }

    pub open spec fn tabbed(self) -> ScreenView {
        ScreenView {
            cursor_col: min(
                self.cursor_col + (8 - self.cursor_col % 8),
                MAX_TERMINAL_COLUMNS as int,
            ),
            ..self
        }
    }

    pub open spec fn up(self, count: int) -> ScreenView {
        ScreenView { cursor_row: max(self.cursor_row - count, 0), ..self }
    }

    pub open spec fn down(self, count: int) -> ScreenView {
        let s = self.moved_to(self.cursor_row + count, self.cursor_col);
        s.with_line(s.cursor_row)
    }

    pub open spec fn forward(self, count: int) -> ScreenView {
        self.moved_to(self.cursor_row, self.cursor_col + count)
    }

    pub open spec fn back(self, count: int) -> ScreenView {
        ScreenView { cursor_col: max(self.cursor_col - count, 0), ..self }
    }

    pub open spec fn placed(self, row: int, col: int) -> ScreenView {
        let s = self.moved_to(row, col);
        s.with_line(s.cursor_row)
    }

    pub open spec fn line_erased(self, mode: int) -> ScreenView {
        let s = self.with_line(self.cursor_row);
        s.with_cursor_line(erased(s.cursor_line(), mode, s.cursor_col))
    }

    pub open spec fn cleared(self) -> ScreenView {
        ScreenView {
            lines: Seq::empty(),
            cursor_row: 0,
            cursor_col: 0,
            saved_cursor: None,
            dirty_from: Some(0),
            byte_dirty_from: Some(0),
            full_replace: true,
            ..self
        }
    }

    pub open spec fn display_erased(self, mode: int) -> ScreenView {
        if mode == 1 {
            let s = self.with_line(self.cursor_row).dirty(0);
            ScreenView {
                lines: Seq::new(
                    s.lines.len(),
                    |i: int|
                        if i < s.cursor_row {
                            emptied(s.lines[i])
                        } else {
                            s.lines[i]
                        },
                ),
                ..s
            }.line_erased(1)
        } else if mode == 2 || mode == 3 {
            self.cleared()
        } else {
            let s = self.line_erased(0);
            ScreenView {
                lines: Seq::new(
                    s.lines.len(),
                    |i: int|
                        if i > s.cursor_row {
                            emptied(s.lines[i])
                        } else {
                            s.lines[i]
                        },
                ),
                ..s
            }
        }
    }

    pub open spec fn chars_inserted(self, count: int) -> ScreenView {
        let s = self.with_line(self.cursor_row);
        s.with_cursor_line(spread(s.cursor_line(), s.cursor_col, count))
    }

    pub open spec fn chars_deleted(self, count: int) -> ScreenView {
        let s = self.with_line(self.cursor_row);
        s.with_cursor_line(shrunk(s.cursor_line(), s.cursor_col, count))
    }

    pub open spec fn chars_erased(self, count: int) -> ScreenView {
        let s = self.with_line(self.cursor_row);
        s.with_cursor_line(blanked(s.cursor_line(), s.cursor_col, count))
    }

    pub open spec fn lines_inserted(self, count: int) -> ScreenView {
        let s = self.with_line(self.cursor_row).dirty(self.cursor_row);
        ScreenView {
            lines: s.lines.take(s.cursor_row) + blank_lines(count) + s.lines.skip(s.cursor_row),
            ..s
        }
    }

    pub open spec fn lines_deleted(self, count: int) -> ScreenView {
        let s = self.with_line(self.cursor_row).dirty(self.cursor_row);
        let end = min(s.cursor_row + count, s.lines.len() as int);
        let rest = s.lines.take(s.cursor_row) + s.lines.skip(end);
        let lines = if rest.len() == 0 {
            blank_lines(1)
        } else {
            rest
        };
        ScreenView { lines, cursor_row: min(s.cursor_row, lines.len() - 1), ..s }
    }

    pub open spec fn scrolled_up(self, count: int) -> ScreenView {
        let s = self.scrolled_off(min(count, self.lines.len() as int));
        s.with_line(s.cursor_row)
    }

    pub open spec fn scrolled_down(self, count: int) -> ScreenView {
        let s = self.dirty(0);
        ScreenView {
            lines: blank_lines(count) + s.lines,
            cursor_row: min(s.cursor_row + count, MAX_TERMINAL_ROWS - 1),
            ..s
        }
    }

    pub open spec fn index_reversed(self) -> ScreenView {
        if self.cursor_row == 0 {
            ScreenView { lines: blank_lines(1) + self.lines, ..self }.dirty(0)
        } else {
            self.up(1)
        }
    }

    pub open spec fn saved(self) -> ScreenView {
        ScreenView { saved_cursor: Some((self.cursor_row, self.cursor_col)), ..self }
    }

    pub open spec fn restored(self) -> ScreenView {
        match self.saved_cursor {
            Some(saved) => self.placed(saved.0, saved.1),
            None => self,
        }
    }

    /// Counts the changed lines again and cuts those that are too long.
    pub open spec fn lines_settled(self, max_line_bytes: usize) -> ScreenView {
        match self.byte_dirty_from {
            None => self,
            Some(from) => ScreenView {
                lines: Seq::new(
                    self.lines.len(),
                    |i: int|
                        if i >= from {
                            settled(self.lines[i], max_line_bytes)
                        } else {
                            self.lines[i]
                        },
                ),
                cursor_col: if from <= self.cursor_row < self.lines.len() {
                    settled_col(self.lines[self.cursor_row], max_line_bytes, self.cursor_col)
                } else {
                    self.cursor_col
                },
                saved_cursor: match self.saved_cursor {
                    Some(saved) if from <= saved.0 < self.lines.len() => Some(
                        (saved.0, settled_col(self.lines[saved.0], max_line_bytes, saved.1)),
                    ),
                    other => other,
                },
                ..self
            },
        }
    }

    /// Some changed line is too long.
    pub open spec fn has_long_line(self, max_line_bytes: usize) -> bool {
        self.byte_dirty_from matches Some(from) && exists|i: int|
            from <= i < self.lines.len() && counted_bytes(#[trigger] self.lines[i].cells)
                > max_line_bytes
    }

    /// The screen is larger than it may be.
    pub open spec fn exceeds(self, max_rows: usize, max_text_bytes: usize) -> bool {
        self.rendered_len() > max_rows || counted_total(self.lines) > max_text_bytes
    }

    /// Lines leave at the top until the screen is as small as it has to be.
    pub open spec fn pruned(self, max_rows: usize, max_text_bytes: usize) -> ScreenView
        decreases self.lines.len(),
    {
        if self.lines.len() > 0 && self.exceeds(max_rows, max_text_bytes) {
            self.scrolled_once().pruned(max_rows, max_text_bytes)
        } else {
            self
        }
    }

    /// The screen after its limits were enforced.
    pub open spec fn limited(
        self,
        max_rows: usize,
        max_text_bytes: usize,
        max_line_bytes: usize,
    ) -> ScreenView {
        ScreenView {
            byte_dirty_from: None,
            ..self.lines_settled(max_line_bytes).pruned(max_rows, max_text_bytes)
        }
    }

    /// Whether enforcing the limits takes anything away.
    pub open spec fn over_limits(
        self,
        max_rows: usize,
        max_text_bytes: usize,
        max_line_bytes: usize,
    ) -> bool {
        self.has_long_line(max_line_bytes) || self.lines_settled(max_line_bytes).exceeds(
            max_rows,
            max_text_bytes,
        )
    }
}

} // verus!
