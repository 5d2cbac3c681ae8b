//! The screen in memory and its control functions.

use std::collections::VecDeque;

use vstd::prelude::*;

use crate::chars::{char_len, tail_start, tail_within, text_bytes};
use crate::formatting::rows::{row_views, FormattedRow};
use crate::terminal::screen::{
    blank_line, blank_lines, blanked, cell_bytes, char_width, counted_bytes, counted_total,
    earlier, emptied, erased, line_text, max, one_up, padded, printed, settled, settled_col,
    shrunk, spaces, spread, without_nul, without_trailing_spaces, LineView, ScreenView,
    MAX_TERMINAL_COLUMNS, MAX_TERMINAL_ROWS,
};
use crate::timestamp::Timestamp;

verus! {

/// `VecDeque::index_mut` lends the element at a position for change.
#[verifier::external_body]
pub(crate) fn element_mut<T>(queue: &mut VecDeque<T>, index: usize) -> (element: &mut T)
    requires
        index < old(queue)@.len(),
    ensures
        *element == old(queue)@[index as int],
        final(queue)@ == old(queue)@.update(index as int, *final(element)),
{
    &mut queue[index]
}

pub struct TerminalLine {
    cells: Vec<char>,
    received_at: Option<Timestamp>,
    completed: bool,
    byte_len: usize,
}

impl View for TerminalLine {
    type V = LineView;

    closed spec fn view(&self) -> LineView {
        LineView {
            cells: self.cells@,
            received_at: self.received_at,
            completed: self.completed,
            byte_len: self.byte_len,
        }
    }
}

impl TerminalLine {
    fn blank() -> (line: Self)
        ensures
            line@ == blank_line(),
    {
        TerminalLine { cells: Vec::new(), received_at: None, completed: false, byte_len: 0 }
    }

    /// The text that the line shows.
    fn text(&self) -> (text: String)
        ensures
            text@ == line_text(self@),
    {
        let mut end: usize = self.cells.len();
        assert(self.cells@.take(end as int) == self.cells@);
        while end != 0 && self.cells[end - 1] == ' '
            invariant
                end <= self.cells.len(),
                without_trailing_spaces(self.cells@) == without_trailing_spaces(
                    self.cells@.take(end as int),
                ),
            decreases end,
        {
            assert(self.cells@.take(end as int).drop_last() == self.cells@.take(end - 1));
            end -= 1;
        }
        let mut text = String::new();
        let mut i: usize = 0;
        while i < end
            invariant
                i <= end <= self.cells.len(),
                text@ == without_nul(self.cells@.take(i as int)),
            decreases end - i,
        {
            assert(self.cells@.take(i + 1).drop_last() == self.cells@.take(i as int));
            if self.cells[i] != '\0' {
                text.push(self.cells[i]);
            }
            i += 1;
        }
        text
    }

    fn pad(&mut self, len: usize)
        ensures
            final(self)@ == (LineView { cells: padded(old(self)@.cells, len as int), ..old(self)@ }),
    {
        if len > self.cells.len() {
            let ghost before = self.cells@;
            self.cells.resize(len, ' ');
            assert(self.cells@ == padded(before, len as int));
        } else {
            assert(self.cells@ == padded(self.cells@, len as int));
        }
    }

    fn print(&mut self, col: usize, c: char, at: Timestamp)
        requires
            col < usize::MAX,
        ensures
            final(self)@ == printed(old(self)@, col as int, c, at),
    {
        self.pad(col);
        let wide = match char_width(c) {
            Some(width) => width == 2,
            None => false,
        };
        if col < self.cells.len() && self.cells[col] == '\0' && col != 0 {
            self.cells.set(col - 1, ' ');
        }
        if col + 1 < self.cells.len() {
            let covered = match char_width(self.cells[col]) {
                Some(width) => width == 2,
                None => false,
            };
            if covered {
                self.cells.set(col + 1, ' ');
            }
        }
        if col == self.cells.len() {
            self.cells.push(c);
        } else {
            self.cells.set(col, c);
        }
        if wide {
            if col + 1 == self.cells.len() {
                self.cells.push('\0');
            } else {
                self.cells.set(col + 1, '\0');
            }
        }
        if self.received_at.is_none() {
            self.received_at = Some(at);
        }
        self.completed = false;
    }

    fn erase(&mut self, mode: usize, col: usize)
        requires
            col < usize::MAX,
        ensures
            final(self)@ == erased(old(self)@, mode as int, col as int),
    {
        if mode == 1 {
            self.pad(col + 1);
            let ghost cells = self.cells@;
            let mut i: usize = 0;
            while i <= col
                invariant
                    i <= col + 1,
                    col + 1 <= cells.len(),
                    col < usize::MAX,
                    self.received_at == old(self).received_at,
                    self.completed == old(self).completed,
                    self.byte_len == old(self).byte_len,
                    self.cells@.len() == cells.len(),
                    forall|j: int| 0 <= j < i ==> self.cells@[j] == ' ',
                    forall|j: int| i <= j < cells.len() ==> self.cells@[j] == cells[j],
                decreases col + 1 - i,
            {
                self.cells.set(i, ' ');
                i += 1;
            }
            assert(self.cells@ == erased(old(self)@, 1, col as int).cells);
        } else if mode == 2 || mode == 3 {
            self.cells.clear();
            self.received_at = None;
            self.completed = false;
            assert(self.cells@ == Seq::<char>::empty());
        } else {
            self.cells.truncate(col);
            assert(self.cells@ == erased(old(self)@, mode as int, col as int).cells);
        }
    }

    fn empty(&mut self)
        ensures
            final(self)@ == emptied(old(self)@),
    {
        self.cells.clear();
        self.received_at = None;
        assert(self.cells@ == Seq::<char>::empty());
    }

    fn complete(&mut self)
        ensures
            final(self)@ == (LineView { completed: true, ..old(self)@ }),
    {
        self.completed = true;
    }

    fn insert_spaces(&mut self, col: usize, count: usize)
        requires
            col + count <= usize::MAX,
        ensures
            final(self)@ == spread(old(self)@, col as int, count as int),
    {
        self.pad(col);
        let ghost cells = self.cells@;
        let mut rest = self.cells.split_off(col);
        self.cells.resize(col + count, ' ');
        self.cells.append(&mut rest);
        assert(self.cells@ == cells.take(col as int) + spaces(count as int) + cells.skip(
            col as int,
        ));
    }

    fn delete_cells(&mut self, col: usize, count: usize)
        ensures
            final(self)@ == shrunk(old(self)@, col as int, count as int),
    {
        let len: usize = self.cells.len();
        let start: usize = if col <= len {
            col
        } else {
            len
        };
        let end: usize = if count <= len - start {
            start + count
        } else {
            len
        };
        let mut rest = self.cells.split_off(end);
        self.cells.truncate(start);
        self.cells.append(&mut rest);
        assert(self.cells@ == shrunk(old(self)@, col as int, count as int).cells);
    }

    fn blank_cells(&mut self, col: usize, count: usize)
        requires
            col + count <= usize::MAX,
        ensures
            final(self)@ == blanked(old(self)@, col as int, count as int),
    {
        let end: usize = col + count;
        self.pad(end);
        let ghost cells = self.cells@;
        let mut i: usize = col;
        while i < end
            invariant
                col <= i <= end,
                end <= cells.len(),
                self.received_at == old(self).received_at,
                self.completed == old(self).completed,
                self.byte_len == old(self).byte_len,
                self.cells@.len() == cells.len(),
                forall|j: int| col <= j < i ==> self.cells@[j] == ' ',
                forall|j: int|
                    0 <= j < cells.len() && !(col <= j < i) ==> self.cells@[j] == cells[j],
            decreases end - i,
        {
            self.cells.set(i, ' ');
            i += 1;
        }
        assert(self.cells@ == blanked(old(self)@, col as int, count as int).cells);
    }

    fn count_bytes(&self) -> (bytes: usize)
        ensures
            bytes == counted_bytes(self@.cells),
    {
        let mut bytes: usize = 0;
        let mut i: usize = 0;
        while i < self.cells.len()
            invariant
                i <= self.cells.len(),
                bytes == counted_bytes(self.cells@.take(i as int)),
            decreases self.cells.len() - i,
        {
            assert(self.cells@.take(i + 1).drop_last() == self.cells@.take(i as int));
            if self.cells[i] != '\0' {
                bytes = bytes.saturating_add(char_len(self.cells[i]));
            }
            i += 1;
        }
        assert(self.cells@.take(i as int) == self.cells@);
        bytes
    }

    /// Counts the bytes of the line and cuts it if there are more than `max_bytes`. Gives the
    /// number of cells that were cut, if any.
    fn settle(&mut self, max_bytes: usize) -> (cut: Option<usize>)
        ensures
            final(self)@ == settled(old(self)@, max_bytes),
            cut is Some <==> counted_bytes(old(self)@.cells) > max_bytes,
            cut matches Some(n) ==> n == old(self)@.cells.len() - (final(self)@.cells.len() - 1),
    {
        let bytes: usize = self.count_bytes();
        if bytes <= max_bytes {
            self.byte_len = bytes;
            return None;
        }
        let keep: usize = if max_bytes / 2 > 1 {
            max_bytes / 2
        } else {
            1
        };
        let start: usize = tail_start(&self.cells, keep);
        let mut rest = self.cells.split_off(start);
        self.cells.clear();
        self.cells.push('…');
        self.cells.append(&mut rest);
        assert(self.cells@ == seq!['…'] + tail_within(old(self)@.cells, keep as nat));
        self.byte_len = self.count_bytes();
        Some(start)
    }
}

/// What each line of a list holds.
pub open spec fn line_views(lines: Seq<TerminalLine>) -> Seq<LineView> {
    Seq::new(lines.len(), |i: int| lines[i]@)
}

proof fn counted_total_concat(a: Seq<LineView>, b: Seq<LineView>)
    ensures
        counted_total(a + b) == counted_total(a) + counted_total(b),
    decreases b.len(),
{
    if b.len() == 0 {
        assert(a + b == a);
    } else {
        assert((a + b).drop_last() == a + b.drop_last());
        counted_total_concat(a, b.drop_last());
    }
}

proof fn counted_total_of_same_counts(a: Seq<LineView>, b: Seq<LineView>)
    requires
        a.len() == b.len(),
        forall|i: int| 0 <= i < a.len() ==> (#[trigger] a[i]).byte_len == b[i].byte_len,
    ensures
        counted_total(a) == counted_total(b),
    decreases a.len(),
{
    if a.len() > 0 {
        counted_total_of_same_counts(a.drop_last(), b.drop_last());
    }
}

proof fn counted_total_of_blank_lines(count: int)
    ensures
        counted_total(blank_lines(count)) == 0,
    decreases count,
{
    if count > 0 {
        assert(blank_lines(count).drop_last() == blank_lines(count - 1));
        counted_total_of_blank_lines(count - 1);
    }
}

proof fn counted_total_fits(lines: Seq<LineView>)
    ensures
        counted_total(lines) <= lines.len() * usize::MAX,
    decreases lines.len(),
{
    if lines.len() > 0 {
        counted_total_fits(lines.drop_last());
        assert(lines.len() * usize::MAX == (lines.len() - 1) * usize::MAX + usize::MAX)
            by (nonlinear_arith);
    }
}

/// Replacing a line changes the total by what the line changes.
proof fn counted_total_update(lines: Seq<LineView>, row: int, line: LineView)
    requires
        0 <= row < lines.len(),
    ensures
        counted_total(lines.update(row, line)) == counted_total(lines) - lines[row].byte_len
            + line.byte_len,
        counted_total(lines) >= lines[row].byte_len,
    decreases lines.len(),
{
    if row == lines.len() - 1 {
        assert(lines.update(row, line).drop_last() == lines.drop_last());
    } else {
        assert(lines.update(row, line).drop_last() == lines.drop_last().update(row, line));
        counted_total_update(lines.drop_last(), row, line);
    }
}

pub struct TerminalScreen {
    lines: VecDeque<TerminalLine>,
    cursor_row: usize,
    cursor_col: usize,
    saved_cursor: Option<(usize, usize)>,
    received_at: Timestamp,
    dirty_from: Option<usize>,
    byte_dirty_from: Option<usize>,
    removed_front: usize,
    full_replace: bool,
    text_bytes: u128,
}

spec fn row_mark(mark: Option<usize>) -> Option<int> {
    match mark {
        Some(row) => Some(row as int),
        None => None,
    }
}

fn earlier_mark(mark: Option<usize>, row: usize) -> (result: Option<usize>)
    ensures
        row_mark(result) == earlier(row_mark(mark), row as int),
{
    match mark {
        Some(other) if other <= row => Some(other),
        _ => Some(row),
    }
}

fn mark_one_up(mark: Option<usize>) -> (result: Option<usize>)
    ensures
        row_mark(result) == one_up(row_mark(mark)),
{
    match mark {
        Some(row) if row > 0 => Some(row - 1),
        other => other,
    }
}

impl TerminalScreen {
    pub closed spec fn inner(self) -> ScreenView {
        ScreenView {
            lines: line_views(self.lines@),
            cursor_row: self.cursor_row as int,
            cursor_col: self.cursor_col as int,
            saved_cursor: match self.saved_cursor {
                Some(saved) => Some((saved.0 as int, saved.1 as int)),
                None => None,
            },
            received_at: self.received_at,
            dirty_from: row_mark(self.dirty_from),
            byte_dirty_from: row_mark(self.byte_dirty_from),
            removed_front: self.removed_front,
            full_replace: self.full_replace,
        }
    }

    pub closed spec fn wf(self) -> bool {
        &&& self.inner().wf()
        &&& self.text_bytes == counted_total(self.inner().lines)
    }

    /// An empty screen. `received_at` stands in for the time of a line as long as nothing
    /// arrived.
    pub fn new(received_at: Timestamp) -> (screen: Self)
        ensures
            screen.wf(),
            screen.inner() == (ScreenView {
                lines: Seq::empty(),
                cursor_row: 0,
                cursor_col: 0,
                saved_cursor: None,
                received_at,
                dirty_from: None,
                byte_dirty_from: None,
                removed_front: 0,
                full_replace: false,
            }),
    {
        let screen = TerminalScreen {
            lines: VecDeque::new(),
            cursor_row: 0,
            cursor_col: 0,
            saved_cursor: None,
            received_at,
            dirty_from: None,
            byte_dirty_from: None,
            removed_front: 0,
            full_replace: false,
            text_bytes: 0,
        };
        assert(screen.inner().lines == Seq::<LineView>::empty());
        screen
    }

    pub fn begin_update(&mut self)
        requires
            old(self).wf(),
        ensures
            final(self).wf(),
            final(self).inner() == old(self).inner().begun(),
    {
        self.dirty_from = None;
        self.byte_dirty_from = None;
        self.removed_front = 0;
        self.full_replace = false;
    }

    pub fn set_received_at(&mut self, received_at: Timestamp)
        requires
            old(self).wf(),
        ensures
            final(self).wf(),
            final(self).inner() == old(self).inner().at(received_at),
    {
        self.received_at = received_at;
    }

    pub fn rendered_len(&self) -> (len: usize)
        ensures
            len == self.inner().rendered_len(),
    {
        let len: usize = self.lines.len();
        if len > 0 && self.lines[len - 1].cells.is_empty() && !self.lines[len - 1].completed {
            len - 1
        } else {
            len
        }
    }

    fn mark_dirty(&mut self, row: usize)
        requires
            old(self).wf(),
        ensures
            final(self).wf(),
            final(self).inner() == old(self).inner().dirty(row as int),
    {
        self.dirty_from = earlier_mark(self.dirty_from, row);
        self.byte_dirty_from = earlier_mark(self.byte_dirty_from, row);
    }

    fn ensure_line(&mut self, row: usize)
        requires
            old(self).wf(),
            row < MAX_TERMINAL_ROWS,
        ensures
            final(self).wf(),
            final(self).inner() == old(self).inner().with_line(row as int),
            row < final(self).inner().lines.len(),
    {
        let len: usize = self.lines.len();
        if row < len {
            return ;
        }
        let ghost lines = self.inner().lines;
        self.mark_dirty(len);
        while self.lines.len() <= row
            invariant
                len <= self.lines.len() <= row + 1,
                row < MAX_TERMINAL_ROWS,
                self.inner() == (ScreenView {
                    lines: lines + blank_lines(self.lines@.len() - len),
                    ..old(self).inner()
                }).dirty(len as int),
                self.text_bytes == old(self).text_bytes,
            decreases row + 1 - self.lines.len(),
        {
            let ghost before = self.lines@;
            self.lines.push_back(TerminalLine::blank());
            assert(self.inner().lines == line_views(before).push(blank_line()));
            assert(blank_lines(before.len() + 1 - len) == blank_lines(before.len() - len).push(
                blank_line(),
            ));
        }
        proof {
            counted_total_concat(lines, blank_lines(row + 1 - len));
            counted_total_of_blank_lines(row + 1 - len);
        }
    }

    /// Makes sure that the cursor is on a line, which counts as changed.
    fn touch_cursor_line(&mut self)
        requires
            old(self).wf(),
        ensures
            final(self).wf(),
            final(self).inner() == old(self).inner().with_line(
                old(self).inner().cursor_row,
            ).dirty(old(self).inner().cursor_row),
            final(self).cursor_row < final(self).lines@.len(),
    {
        self.ensure_line(self.cursor_row);
        self.mark_dirty(self.cursor_row);
    }

    pub fn print(&mut self, c: char)
        requires
            old(self).wf(),
        ensures
            final(self).wf(),
            final(self).inner() == old(self).inner().printed(c),
    {
        self.touch_cursor_line();
        let ghost before = *self;
        let width: usize = match char_width(c) {
            Some(width) if width > 1 => width,
            _ => 1,
        };
        let col: usize = self.cursor_col;
        let at = self.received_at;
        element_mut(&mut self.lines, self.cursor_row).print(col, c, at);
        self.cursor_col = if width >= MAX_TERMINAL_COLUMNS - col {
            MAX_TERMINAL_COLUMNS
        } else {
            col + width
        };
        proof {
            let row = before.cursor_row as int;
            let line = printed(before.inner().lines[row], col as int, c, at);
            assert(self.inner().lines == before.inner().lines.update(row, line));
            counted_total_update(before.inner().lines, row, line);
        }
    }

    pub fn carriage_return(&mut self)
        requires
            old(self).wf(),
        ensures
            final(self).wf(),
            final(self).inner() == old(self).inner().returned(),
    {
        self.cursor_col = 0;
    }

    pub fn line_feed(&mut self)
        requires
            old(self).wf(),
        ensures
            final(self).wf(),
            final(self).inner() == old(self).inner().fed(),
    {
        self.ensure_line(self.cursor_row);
        let row: usize = self.cursor_row;
        if row + 1 == self.lines.len() && self.lines[row].cells.is_empty()
            && !self.lines[row].completed {
            self.mark_dirty(row);
        }
        let ghost before = *self;
        element_mut(&mut self.lines, row).complete();
        proof {
            let line = LineView { completed: true, ..before.inner().lines[row as int] };
            assert(self.inner().lines == before.inner().lines.update(row as int, line));
            counted_total_update(before.inner().lines, row as int, line);
        }
        if self.cursor_row >= MAX_TERMINAL_ROWS - 1 {
            self.remove_front();
        }
        self.cursor_row = if self.cursor_row >= MAX_TERMINAL_ROWS - 1 {
            MAX_TERMINAL_ROWS - 1
        } else {
            self.cursor_row + 1
        };
        self.ensure_line(self.cursor_row);
    }

    pub fn next_line(&mut self)
        requires
            old(self).wf(),
        ensures
            final(self).wf(),
            final(self).inner() == old(self).inner().returned().fed(),
    {
        self.carriage_return();
        self.line_feed();
    }

    pub fn backspace(&mut self)
        requires
            old(self).wf(),
        ensures
            final(self).wf(),
            final(self).inner() == old(self).inner().backed(),
    {
        self.cursor_col = self.cursor_col.saturating_sub(1);
    }

    pub fn horizontal_tab(&mut self)
        requires
            old(self).wf(),
        ensures
            final(self).wf(),
            final(self).inner() == old(self).inner().tabbed(),
    {
        let col: usize = self.cursor_col + (8 - self.cursor_col % 8);
        self.cursor_col = if col <= MAX_TERMINAL_COLUMNS {
            col
        } else {
            MAX_TERMINAL_COLUMNS
        };
    }

    pub fn move_up(&mut self, count: usize)
        requires
            old(self).wf(),
        ensures
            final(self).wf(),
            final(self).inner() == old(self).inner().up(count as int),
    {
        self.cursor_row = self.cursor_row.saturating_sub(count);
    }

    pub fn move_down(&mut self, count: usize)
        requires
            old(self).wf(),
        ensures
            final(self).wf(),
            final(self).inner() == old(self).inner().down(count as int),
    {
        self.cursor_row = if count >= MAX_TERMINAL_ROWS - 1 - self.cursor_row {
            MAX_TERMINAL_ROWS - 1
        } else {
            self.cursor_row + count
        };
        self.ensure_line(self.cursor_row);
    }

    pub fn move_forward(&mut self, count: usize)
        requires
            old(self).wf(),
        ensures
            final(self).wf(),
            final(self).inner() == old(self).inner().forward(count as int),
    {
        self.cursor_col = if count >= MAX_TERMINAL_COLUMNS - self.cursor_col {
            MAX_TERMINAL_COLUMNS
        } else {
            self.cursor_col + count
        };
    }

    pub fn move_back(&mut self, count: usize)
        requires
            old(self).wf(),
        ensures
            final(self).wf(),
            final(self).inner() == old(self).inner().back(count as int),
    {
        self.cursor_col = self.cursor_col.saturating_sub(count);
    }

    pub fn set_column(&mut self, col: usize)
        requires
            old(self).wf(),
        ensures
            final(self).wf(),
            final(self).inner() == old(self).inner().moved_to(
                old(self).inner().cursor_row,
                col as int,
            ),
    {
        self.cursor_col = if col <= MAX_TERMINAL_COLUMNS {
            col
        } else {
            MAX_TERMINAL_COLUMNS
        };
    }

    pub fn set_row(&mut self, row: usize)
        requires
            old(self).wf(),
        ensures
            final(self).wf(),
            final(self).inner() == old(self).inner().placed(
                row as int,
                old(self).inner().cursor_col,
            ),
    {
        let col: usize = self.cursor_col;
        self.set_position(row, col);
    }

    pub fn set_position(&mut self, row: usize, col: usize)
        requires
            old(self).wf(),
        ensures
            final(self).wf(),
            final(self).inner() == old(self).inner().placed(row as int, col as int),
    {
        self.cursor_row = if row < MAX_TERMINAL_ROWS {
            row
        } else {
            MAX_TERMINAL_ROWS - 1
        };
        self.set_column(col);
        self.ensure_line(self.cursor_row);
    }

    pub fn erase_line(&mut self, mode: usize)
        requires
            old(self).wf(),
        ensures
            final(self).wf(),
            final(self).inner() == old(self).inner().line_erased(mode as int),
    {
        self.touch_cursor_line();
        let ghost before = *self;
        let col: usize = self.cursor_col;
        element_mut(&mut self.lines, self.cursor_row).erase(mode, col);
        proof {
            let row = before.cursor_row as int;
            let line = erased(before.inner().lines[row], mode as int, col as int);
            assert(self.inner().lines == before.inner().lines.update(row, line));
            counted_total_update(before.inner().lines, row, line);
        }
    }

    /// Empties the lines from `start` up to but without `end`.
    fn empty_lines(&mut self, start: usize, end: usize)
        requires
            old(self).wf(),
            start <= end <= old(self).lines@.len(),
        ensures
            final(self).wf(),
            final(self).inner() == (ScreenView {
                lines: Seq::new(
                    old(self).inner().lines.len(),
                    |i: int|
                        if start <= i < end {
                            emptied(old(self).inner().lines[i])
                        } else {
                            old(self).inner().lines[i]
                        },
                ),
                ..old(self).inner()
            }),
    {
        let ghost lines = self.inner().lines;
        let mut row: usize = start;
        while row < end
            invariant
                start <= row <= end <= lines.len(),
                self.lines@.len() == lines.len(),
                lines == old(self).inner().lines,
                self.inner() == (ScreenView {
                    lines: Seq::new(
                        lines.len(),
                        |i: int|
                            if start <= i < row {
                                emptied(lines[i])
                            } else {
                                lines[i]
                            },
                    ),
                    ..old(self).inner()
                }),
                self.text_bytes == old(self).text_bytes,
            decreases end - row,
        {
            let ghost before = self.inner().lines;
            assert(before[row as int] == self.lines@[row as int]@);
            assert(before[row as int] == lines[row as int]);
            element_mut(&mut self.lines, row).empty();
            assert(self.inner().lines == before.update(row as int, emptied(lines[row as int])));
            assert(self.inner().lines == Seq::new(
                lines.len(),
                |i: int|
                    if start <= i < row + 1 {
                        emptied(lines[i])
                    } else {
                        lines[i]
                    },
            ));
            row += 1;
        }
        proof {
            counted_total_of_same_counts(self.inner().lines, lines);
        }
    }

    pub fn erase_display(&mut self, mode: usize)
        requires
            old(self).wf(),
        ensures
            final(self).wf(),
            final(self).inner() == old(self).inner().display_erased(mode as int),
    {
        if mode == 1 {
            self.ensure_line(self.cursor_row);
            self.mark_dirty(0);
            let ghost s = self.inner();
            self.empty_lines(0, self.cursor_row);
            assert(self.inner().lines == Seq::new(
                s.lines.len(),
                |i: int|
                    if i < s.cursor_row {
                        emptied(s.lines[i])
                    } else {
                        s.lines[i]
                    },
            ));
            self.erase_line(1);
        } else if mode == 2 || mode == 3 {
            self.clear();
        } else {
            self.erase_line(0);
            let ghost s = self.inner();
            assert(s.lines.len() == self.lines@.len());
            self.empty_lines(self.cursor_row + 1, self.lines.len());
            assert(self.inner().lines == Seq::new(
                s.lines.len(),
                |i: int|
                    if i > s.cursor_row {
                        emptied(s.lines[i])
                    } else {
                        s.lines[i]
                    },
            ));
        }
    }

    pub fn insert_blank_characters(&mut self, count: usize)
        requires
            old(self).wf(),
            count <= 0xffff,
        ensures
            final(self).wf(),
            final(self).inner() == old(self).inner().chars_inserted(count as int),
    {
        self.touch_cursor_line();
        let ghost before = *self;
        let col: usize = self.cursor_col;
        element_mut(&mut self.lines, self.cursor_row).insert_spaces(col, count);
        proof {
            let row = before.cursor_row as int;
            let line = spread(before.inner().lines[row], col as int, count as int);
            assert(self.inner().lines == before.inner().lines.update(row, line));
            counted_total_update(before.inner().lines, row, line);
        }
    }

    pub fn delete_characters(&mut self, count: usize)
        requires
            old(self).wf(),
        ensures
            final(self).wf(),
            final(self).inner() == old(self).inner().chars_deleted(count as int),
    {
        self.touch_cursor_line();
        let ghost before = *self;
        let col: usize = self.cursor_col;
        element_mut(&mut self.lines, self.cursor_row).delete_cells(col, count);
        proof {
            let row = before.cursor_row as int;
            let line = shrunk(before.inner().lines[row], col as int, count as int);
            assert(self.inner().lines == before.inner().lines.update(row, line));
            counted_total_update(before.inner().lines, row, line);
        }
    }

    pub fn erase_characters(&mut self, count: usize)
        requires
            old(self).wf(),
            count <= 0xffff,
        ensures
            final(self).wf(),
            final(self).inner() == old(self).inner().chars_erased(count as int),
    {
        self.touch_cursor_line();
        let ghost before = *self;
        let col: usize = self.cursor_col;
        element_mut(&mut self.lines, self.cursor_row).blank_cells(col, count);
        proof {
            let row = before.cursor_row as int;
            let line = blanked(before.inner().lines[row], col as int, count as int);
            assert(self.inner().lines == before.inner().lines.update(row, line));
            counted_total_update(before.inner().lines, row, line);
        }
    }

    pub fn insert_lines(&mut self, count: usize)
        requires
            old(self).wf(),
        ensures
            final(self).wf(),
            final(self).inner() == old(self).inner().lines_inserted(count as int),
    {
        self.touch_cursor_line();
        let ghost s = *self;
        let row: usize = self.cursor_row;
        let ghost lines = s.inner().lines;
        let mut i: usize = 0;
        assert(lines == lines.take(row as int) + blank_lines(0) + lines.skip(row as int));
        while i < count
            invariant
                i <= count,
                row == self.cursor_row,
                row < lines.len(),
                self.lines@.len() == lines.len() + i,
                self.inner() == (ScreenView {
                    lines: lines.take(row as int) + blank_lines(i as int) + lines.skip(row as int),
                    ..s.inner()
                }),
                self.text_bytes == s.text_bytes,
            decreases count - i,
        {
            let ghost before = self.inner().lines;
            self.lines.insert(row, TerminalLine::blank());
            assert(self.inner().lines == before.insert(row as int, blank_line()));
            assert(self.inner().lines == lines.take(row as int) + blank_lines(i + 1) + lines.skip(
                row as int,
            ));
            i += 1;
        }
        proof {
            assert(lines == lines.take(row as int) + lines.skip(row as int));
            counted_total_concat(lines.take(row as int), lines.skip(row as int));
            counted_total_concat(lines.take(row as int), blank_lines(count as int));
            counted_total_of_blank_lines(count as int);
            counted_total_concat(
                lines.take(row as int) + blank_lines(count as int),
                lines.skip(row as int),
            );
        }
    }

    pub fn delete_lines(&mut self, count: usize)
        requires
            old(self).wf(),
        ensures
            final(self).wf(),
            final(self).inner() == old(self).inner().lines_deleted(count as int),
    {
        self.touch_cursor_line();
        let ghost s = *self;
        let row: usize = self.cursor_row;
        let ghost lines = s.inner().lines;
        let mut i: usize = 0;
        assert(lines == lines.take(row as int) + lines.skip(row as int));
        while i < count && row < self.lines.len()
            invariant
                i <= count,
                row == self.cursor_row,
                row + i <= lines.len(),
                self.lines@.len() == lines.len() - i,
                self.inner() == (ScreenView {
                    lines: lines.take(row as int) + lines.skip(row + i),
                    ..s.inner()
                }),
                self.text_bytes == counted_total(self.inner().lines),
            decreases count - i,
        {
            let ghost before = self.inner().lines;
            proof {
                counted_total_concat(before.take(row as int), before.skip(row as int));
                assert(before == before.take(row as int) + before.skip(row as int));
                let one = seq![before[row as int]];
                assert(before.skip(row as int) == one + before.skip(row + 1));
                counted_total_concat(one, before.skip(row + 1));
                assert(counted_total(one) == before[row as int].byte_len) by {
                    reveal_with_fuel(counted_total, 2);
                }
                counted_total_concat(before.take(row as int), before.skip(row + 1));
            }
            if let Some(removed) = self.lines.remove(row) {
                self.text_bytes = self.text_bytes - removed.byte_len as u128;
            }
            assert(self.inner().lines == before.take(row as int) + before.skip(row + 1));
            assert(self.inner().lines == lines.take(row as int) + lines.skip(row + i + 1));
            i += 1;
        }
        let ghost rest = self.inner().lines;
        assert(rest == lines.take(row as int) + lines.skip(
            if row + count <= lines.len() {
                row + count
            } else {
                lines.len() as int
            },
        ));
        if self.lines.len() == 0 {
            self.lines.push_back(TerminalLine::blank());
            assert(self.inner().lines == blank_lines(1));
            proof {
                counted_total_of_blank_lines(1);
            }
        }
        let last: usize = self.lines.len() - 1;
        if self.cursor_row > last {
            self.cursor_row = last;
        }
    }

    pub fn scroll_up(&mut self, count: usize)
        requires
            old(self).wf(),
        ensures
            final(self).wf(),
            final(self).inner() == old(self).inner().scrolled_up(count as int),
    {
        let times: usize = if count <= self.lines.len() {
            count
        } else {
            self.lines.len()
        };
        let mut i: usize = 0;
        while i < times
            invariant
                i <= times,
                self.wf(),
                self.inner() == old(self).inner().scrolled_off(i as int),
            decreases times - i,
        {
            self.remove_front();
            i += 1;
        }
        self.ensure_line(self.cursor_row);
    }

    pub fn scroll_down(&mut self, count: usize)
        requires
            old(self).wf(),
            count <= 0xffff,
        ensures
            final(self).wf(),
            final(self).inner() == old(self).inner().scrolled_down(count as int),
    {
        self.mark_dirty(0);
        let ghost s = *self;
        let ghost lines = s.inner().lines;
        let mut i: usize = 0;
        assert(lines == blank_lines(0) + lines);
        while i < count
            invariant
                i <= count,
                self.inner() == (ScreenView { lines: blank_lines(i as int) + lines, ..s.inner() }),
                self.text_bytes == s.text_bytes,
            decreases count - i,
        {
            let ghost before = self.inner().lines;
            self.lines.push_front(TerminalLine::blank());
            assert(self.inner().lines == seq![blank_line()] + before);
            assert(self.inner().lines == blank_lines(i + 1) + lines);
            i += 1;
        }
        proof {
            counted_total_concat(blank_lines(count as int), lines);
            counted_total_of_blank_lines(count as int);
        }
        self.cursor_row = if count >= MAX_TERMINAL_ROWS - 1 - self.cursor_row {
            MAX_TERMINAL_ROWS - 1
        } else {
            self.cursor_row + count
        };
    }

    pub fn reverse_index(&mut self)
        requires
            old(self).wf(),
        ensures
            final(self).wf(),
            final(self).inner() == old(self).inner().index_reversed(),
    {
        if self.cursor_row == 0 {
            let ghost before = self.inner().lines;
            self.lines.push_front(TerminalLine::blank());
            proof {
                assert(self.inner().lines == blank_lines(1) + before);
                counted_total_concat(blank_lines(1), before);
                counted_total_of_blank_lines(1);
            }
            self.mark_dirty(0);
        } else {
            self.cursor_row = self.cursor_row - 1;
        }
    }

    pub fn clear(&mut self)
        requires
            old(self).wf(),
        ensures
            final(self).wf(),
            final(self).inner() == old(self).inner().cleared(),
    {
        self.lines.clear();
        self.text_bytes = 0;
        self.cursor_row = 0;
        self.cursor_col = 0;
        self.saved_cursor = None;
        self.dirty_from = Some(0);
        self.byte_dirty_from = Some(0);
        self.full_replace = true;
        assert(self.inner().lines == Seq::<LineView>::empty());
    }

    pub fn save_cursor(&mut self)
        requires
            old(self).wf(),
        ensures
            final(self).wf(),
            final(self).inner() == old(self).inner().saved(),
    {
        self.saved_cursor = Some((self.cursor_row, self.cursor_col));
    }

    pub fn restore_cursor(&mut self)
        requires
            old(self).wf(),
        ensures
            final(self).wf(),
            final(self).inner() == old(self).inner().restored(),
    {
        if let Some((row, col)) = self.saved_cursor {
            self.set_position(row, col);
        }
    }

    fn remove_front(&mut self)
        requires
            old(self).wf(),
        ensures
            final(self).wf(),
            final(self).inner() == old(self).inner().scrolled_once(),
    {
        let rendered_before: usize = self.rendered_len();
        let ghost before = self.inner().lines;
        if let Some(removed) = self.lines.pop_front() {
            proof {
                assert(self.inner().lines == before.skip(1));
                let one = seq![before[0]];
                assert(before == one + before.skip(1));
                counted_total_concat(one, before.skip(1));
                assert(counted_total(one) == before[0].byte_len) by {
                    reveal_with_fuel(counted_total, 2);
                }
            }
            self.text_bytes = self.text_bytes - removed.byte_len as u128;
            if rendered_before != 0 {
                self.removed_front = self.removed_front.saturating_add(1);
            }
            self.cursor_row = self.cursor_row.saturating_sub(1);
            if let Some((row, col)) = self.saved_cursor {
                self.saved_cursor = Some((row.saturating_sub(1), col));
            }
            self.dirty_from = mark_one_up(self.dirty_from);
            self.byte_dirty_from = mark_one_up(self.byte_dirty_from);
        }
    }

    /// Brings the screen down to its limits. Tells whether anything had to go.
    pub fn enforce_limits(
        &mut self,
        max_rows: usize,
        max_text_bytes: usize,
        max_line_bytes: usize,
    ) -> (limited: bool)
        requires
            old(self).wf(),
            max_line_bytes > 0,
        ensures
            final(self).wf(),
            final(self).inner() == old(self).inner().limited(
                max_rows,
                max_text_bytes,
                max_line_bytes,
            ),
            limited == old(self).inner().over_limits(max_rows, max_text_bytes, max_line_bytes),
    {
        let mut limited = self.settle_lines(max_line_bytes);
        let ghost start = self.inner();
        while self.rendered_len() > max_rows || self.text_bytes > max_text_bytes as u128
            invariant
                self.wf(),
                self.inner().pruned(max_rows, max_text_bytes) == start.pruned(
                    max_rows,
                    max_text_bytes,
                ),
                start == old(self).inner().lines_settled(max_line_bytes),
                limited <==> old(self).inner().has_long_line(max_line_bytes) || self.inner()
                    != start,
                self.inner() != start ==> start.exceeds(max_rows, max_text_bytes),
                self.inner().lines.len() <= start.lines.len(),
                self.inner() != start ==> self.inner().lines.len() < start.lines.len(),
            decreases self.inner().lines.len(),
        {
            self.remove_front();
            limited = true;
        }
        self.byte_dirty_from = None;
        limited
    }

    /// Counts the changed lines again and cuts those that are too long. Tells whether there was
    /// one.
    fn settle_lines(&mut self, max_line_bytes: usize) -> (limited: bool)
        requires
            old(self).wf(),
            max_line_bytes > 0,
        ensures
            final(self).wf(),
            final(self).inner() == old(self).inner().lines_settled(max_line_bytes),
            limited == old(self).inner().has_long_line(max_line_bytes),
    {
        let from: usize = match self.byte_dirty_from {
            Some(from) => from,
            None => return false,
        };
        let ghost s = self.inner();
        let mut limited = false;
        let mut row: usize = from;
        assert(settled_until(s, from as int, from as int, max_line_bytes) == s);
        while row < self.lines.len()
            invariant
                s == old(self).inner(),
                s.wf(),
                s.byte_dirty_from == Some(from as int),
                max_line_bytes > 0,
                from <= row,
                row <= self.lines@.len() || row == from,
                self.lines@.len() == s.lines.len(),
                self.inner() == settled_until(s, from as int, row as int, max_line_bytes),
                self.text_bytes == counted_total(self.inner().lines),
                self.inner().wf(),
                limited <==> exists|i: int|
                    from <= i < row && i < s.lines.len() && counted_bytes(
                        #[trigger] s.lines[i].cells,
                    ) > max_line_bytes,
            decreases self.lines.len() - row,
        {
            let ghost before = *self;
            let ghost lines = self.inner().lines;
            let ghost r = row as int;
            proof {
                assert(lines[r] == self.lines@[r]@);
                assert(lines[r] == s.lines[r]);
                counted_total_update(lines, r, settled(s.lines[r], max_line_bytes));
                counted_total_fits(lines.update(r, settled(s.lines[r], max_line_bytes)));
                total_fits_counter(lines.len());
                if counted_bytes(s.lines[r].cells) > max_line_bytes {
                    cut_is_positive(s.lines[r].cells, max_line_bytes);
                }
            }
            let line = element_mut(&mut self.lines, row);
            let bytes_before: usize = line.byte_len;
            let cut = line.settle(max_line_bytes);
            let bytes_after: usize = line.byte_len;
            self.text_bytes = self.text_bytes - bytes_before as u128 + bytes_after as u128;
            assert(self.inner().lines == lines.update(r, settled(s.lines[r], max_line_bytes)));
            if let Some(cut) = cut {
                if self.cursor_row == row {
                    self.cursor_col = self.cursor_col.saturating_sub(cut) + 1;
                }
                if let Some((saved_row, saved_col)) = self.saved_cursor {
                    if saved_row == row {
                        self.saved_cursor = Some((saved_row, saved_col.saturating_sub(cut) + 1));
                    }
                }
                limited = true;
            }
            row += 1;
            assert(self.inner() == settled_until(s, from as int, row as int, max_line_bytes));
        }
        assert(self.inner() == s.lines_settled(max_line_bytes));
        limited
    }

    /// The lines that are shown, from `start` on: when each arrived, and its text.
    pub fn rows_from(&self, start: usize) -> (rows: Vec<FormattedRow>)
        ensures
            row_views(rows@) == self.inner().rows_from(start as int),
    {
        let end: usize = self.rendered_len();
        let start: usize = if start <= end {
            start
        } else {
            end
        };
        let mut rows: Vec<FormattedRow> = Vec::new();
        let mut i: usize = start;
        while i < end
            invariant
                start <= i <= end,
                end == self.inner().rendered_len(),
                end <= self.lines@.len(),
                row_views(rows@) == self.inner().rows().subrange(start as int, i as int),
            decreases end - i,
        {
            let line = &self.lines[i];
            let received_at = match line.received_at {
                Some(at) => at,
                None => self.received_at,
            };
            let ghost before = rows@;
            rows.push(FormattedRow { received_at, text: line.text() });
            assert(self.inner().lines[i as int] == line@);
            assert(row_views(rows@) == row_views(before).push(self.inner().rows()[i as int]));
            i += 1;
        }
        rows
    }

    /// The cursor, if it is on a line that is shown.
    pub fn cursor(&self) -> (cursor: Option<(usize, usize)>)
        ensures
            match cursor {
                Some(cursor) => cursor.0 == self.inner().cursor_row && cursor.1
                    == self.inner().cursor_col && self.inner().cursor_row
                    < self.inner().rendered_len(),
                None => self.inner().cursor_row >= self.inner().rendered_len(),
            },
    {
        if self.cursor_row < self.rendered_len() {
            Some((self.cursor_row, self.cursor_col))
        } else {
            None
        }
    }

    pub fn dirty_from(&self) -> (row: Option<usize>)
        ensures
            match row {
                Some(row) => self.inner().dirty_from == Some(row as int),
                None => self.inner().dirty_from is None,
            },
    {
        self.dirty_from
    }

    pub fn removed_front(&self) -> (count: usize)
        ensures
            count == self.inner().removed_front,
    {
        self.removed_front
    }

    pub fn is_full_replace(&self) -> (full: bool)
        ensures
            full == self.inner().full_replace,
    {
        self.full_replace
    }
}

/// A screen of which the changed lines up to but without `upto` are settled.
spec fn settled_until(s: ScreenView, from: int, upto: int, max_bytes: usize) -> ScreenView {
    ScreenView {
        lines: Seq::new(
            s.lines.len(),
            |i: int|
                if from <= i < upto {
                    settled(s.lines[i], max_bytes)
                } else {
                    s.lines[i]
                },
        ),
        cursor_col: if from <= s.cursor_row < upto && s.cursor_row < s.lines.len() {
            settled_col(s.lines[s.cursor_row], max_bytes, s.cursor_col)
        } else {
            s.cursor_col
        },
        saved_cursor: match s.saved_cursor {
            Some(saved) if from <= saved.0 < upto && saved.0 < s.lines.len() => Some(
                (saved.0, settled_col(s.lines[saved.0], max_bytes, saved.1)),
            ),
            other => other,
        },
        ..s
    }
}

proof fn total_fits_counter(len: nat)
    requires
        len <= usize::MAX,
    ensures
        len * usize::MAX <= u128::MAX,
{
    assert(len * usize::MAX <= u64::MAX * u64::MAX) by (nonlinear_arith)
        requires
            len <= u64::MAX,
            usize::MAX <= u64::MAX,
    ;
    assert(u64::MAX * u64::MAX <= u128::MAX) by (nonlinear_arith);
}

proof fn cell_bytes_within_text_bytes(cells: Seq<char>)
    ensures
        cell_bytes(cells) <= text_bytes(cells),
    decreases cells.len(),
{
    if cells.len() > 0 {
        cell_bytes_within_text_bytes(cells.drop_last());
    }
}

/// A line that is too long loses at least one cell.
pub(crate) proof fn cut_is_positive(cells: Seq<char>, max_bytes: usize)
    requires
        max_bytes > 0,
        counted_bytes(cells) > max_bytes,
    ensures
        tail_within(cells, max(max_bytes as int / 2, 1) as nat).len() < cells.len(),
{
    let keep = max(max_bytes as int / 2, 1) as nat;
    cell_bytes_within_text_bytes(cells);
    assert(text_bytes(cells) > keep);
    tail_is_shorter(cells.skip(1), keep);
}

proof fn tail_is_shorter(s: Seq<char>, max_bytes: nat)
    ensures
        tail_within(s, max_bytes).len() <= s.len(),
    decreases s.len(),
{
    if !(text_bytes(s) <= max_bytes || s.len() == 0) {
        tail_is_shorter(s.skip(1), max_bytes);
    }
}

} // verus!
