//! What each control sequence does to the cells of the screen and to the cursor.
//!
//! The laws here speak of cells and positions alone: a sequence names the cells that it clears,
//! moves or keeps, and the place where it leaves the cursor.

use vstd::prelude::*;

use crate::terminal::actions::{all_performed, performed, ActionView};
use crate::terminal::screen::{display_width, listed_width, LineView, ScreenView};

verus! {

/// A control sequence.
pub open spec fn sequence(params: Seq<Seq<u16>>, action: char) -> ActionView {
    ActionView::Csi { params, ignore: false, action }
}

/// An escape sequence.
pub open spec fn escape(byte: u8) -> ActionView {
    ActionView::Esc { intermediates: Seq::empty(), ignore: false, byte }
}

/// The number that a sequence gives in one place; where it gives none, that is zero.
pub open spec fn given(params: Seq<Seq<u16>>, index: int) -> int {
    if index < params.len() && params[index].len() > 0 {
        params[index][0] as int
    } else {
        0
    }
}

/// The number that a sequence gives in one place, where nothing and zero stand for one.
pub open spec fn at_least_one(params: Seq<Seq<u16>>, index: int) -> int {
    if given(params, index) == 0 {
        1
    } else {
        given(params, index)
    }
}

/// A line of the screen. Below the last one there is nothing.
pub open spec fn line_at(s: ScreenView, row: int) -> LineView {
    if 0 <= row < s.lines.len() {
        s.lines[row]
    } else {
        LineView { cells: Seq::empty(), received_at: None, completed: false, byte_len: 0 }
    }
}

/// What stands in a cell. Behind the last one of a line there is space.
pub open spec fn cell_at(s: ScreenView, row: int, col: int) -> char {
    if 0 <= col < line_at(s, row).cells.len() {
        line_at(s, row).cells[col]
    } else {
        ' '
    }
}

/// The number of cells in a line.
pub open spec fn width_at(s: ScreenView, row: int) -> int {
    line_at(s, row).cells.len() as int
}

/// Nothing but the cursor has moved.
pub open spec fn cursor_moves(s: ScreenView, t: ScreenView, row: int, col: int) -> bool {
    t == ScreenView { cursor_row: row, cursor_col: col, ..s }
}

/// The screen reaches down to a row at least.
pub open spec fn reaches(s: ScreenView, t: ScreenView, row: int) -> bool {
    t.lines.len() == if row < s.lines.len() {
        s.lines.len() as int
    } else {
        row + 1
    }
}

/// The cursor has moved to a line, which is there now, and no line has changed.
pub open spec fn cursor_goes_to(s: ScreenView, t: ScreenView, row: int, col: int) -> bool {
    &&& t.cursor_row == row
    &&& t.cursor_col == col
    &&& t.saved_cursor == s.saved_cursor
    &&& reaches(s, t, row)
    &&& forall|i: int| line_at(s, i) == #[trigger] line_at(t, i)
}

/// The cursor and all lines but one are as they were.
pub open spec fn only_line_changes(s: ScreenView, t: ScreenView, row: int) -> bool {
    &&& t.cursor_row == s.cursor_row
    &&& t.cursor_col == s.cursor_col
    &&& t.saved_cursor == s.saved_cursor
    &&& reaches(s, t, row)
    &&& forall|i: int| i != row ==> line_at(s, i) == #[trigger] line_at(t, i)
}

/// A line keeps its time, and whether it was ended.
pub open spec fn line_keeps_its_time(s: ScreenView, t: ScreenView, row: int) -> bool {
    &&& line_at(t, row).received_at == line_at(s, row).received_at
    &&& line_at(t, row).completed == line_at(s, row).completed
}

/// `ESC [ A`, `C`, `a`, `D`, `F`, `G` and `` ` `` move the cursor and leave the text alone: up,
/// right, right, left, up to the start of a line, and twice to a column, which is counted from
/// one. The cursor does not leave the screen.
pub proof fn the_cursor_moves_within_the_text(s: ScreenView, params: Seq<Seq<u16>>)
    requires
        s.wf(),
    ensures
        ({
            let n = at_least_one(params, 0);
            let up = if n <= s.cursor_row {
                s.cursor_row - n
            } else {
                0
            };
            let left = if n <= s.cursor_col {
                s.cursor_col - n
            } else {
                0
            };
            let right = if s.cursor_col + n <= 524_288 {
                s.cursor_col + n
            } else {
                524_288
            };
            &&& cursor_moves(s, performed(s, sequence(params, 'A')), up, s.cursor_col)
            &&& cursor_moves(s, performed(s, sequence(params, 'C')), s.cursor_row, right)
            &&& cursor_moves(s, performed(s, sequence(params, 'a')), s.cursor_row, right)
            &&& cursor_moves(s, performed(s, sequence(params, 'D')), s.cursor_row, left)
            &&& cursor_moves(s, performed(s, sequence(params, 'F')), up, 0)
            &&& cursor_moves(s, performed(s, sequence(params, 'G')), s.cursor_row, n - 1)
            &&& cursor_moves(s, performed(s, sequence(params, '`')), s.cursor_row, n - 1)
        }),
{
}

/// `ESC [ B`, `e`, `E`, `H`, `f` and `d` move the cursor to a line, which there is from then on:
/// down, down, down to the start of a line, twice to a row and a column, and to a row, all
/// counted from one. No text changes.
pub proof fn the_cursor_moves_to_lines(s: ScreenView, params: Seq<Seq<u16>>)
    requires
        s.wf(),
    ensures
        ({
            let n = at_least_one(params, 0);
            let col = at_least_one(params, 1) - 1;
            let down = if s.cursor_row + n <= 99_999 {
                s.cursor_row + n
            } else {
                99_999
            };
            &&& cursor_goes_to(s, performed(s, sequence(params, 'B')), down, s.cursor_col)
            &&& cursor_goes_to(s, performed(s, sequence(params, 'e')), down, s.cursor_col)
            &&& cursor_goes_to(s, performed(s, sequence(params, 'E')), down, 0)
            &&& cursor_goes_to(s, performed(s, sequence(params, 'H')), n - 1, col)
            &&& cursor_goes_to(s, performed(s, sequence(params, 'f')), n - 1, col)
            &&& cursor_goes_to(s, performed(s, sequence(params, 'd')), n - 1, s.cursor_col)
        }),
{
}

/// `ESC [ K` erases in the line of the cursor alone: without a parameter or with zero from the
/// cursor to the end, with one from the start up to and with the cursor, with two and three the
/// whole line. The cells on the other side of the cursor stay.
pub proof fn erasing_in_a_line(s: ScreenView, params: Seq<Seq<u16>>)
    requires
        s.wf(),
    ensures
        ({
            let t = performed(s, sequence(params, 'K'));
            let mode = given(params, 0);
            let (row, col) = (s.cursor_row, s.cursor_col);
            &&& only_line_changes(s, t, row)
            &&& mode == 1 ==> {
                &&& line_keeps_its_time(s, t, row)
                &&& width_at(t, row) == if width_at(s, row) <= col {
                    col + 1
                } else {
                    width_at(s, row)
                }
                &&& forall|i: int| i > col ==> #[trigger] cell_at(t, row, i) == cell_at(s, row, i)
                &&& forall|i: int| i <= col ==> #[trigger] cell_at(t, row, i) == ' '
            }
            &&& mode == 2 || mode == 3 ==> {
                &&& width_at(t, row) == 0
                &&& line_at(t, row).received_at is None
                &&& !line_at(t, row).completed
            }
            &&& mode == 0 || mode > 3 ==> {
                &&& line_keeps_its_time(s, t, row)
                &&& width_at(t, row) == if width_at(s, row) <= col {
                    width_at(s, row)
                } else {
                    col
                }
                &&& forall|i: int| i < col ==> #[trigger] cell_at(t, row, i) == cell_at(s, row, i)
            }
        }),
{
}

/// `ESC [ J` erases lines: without a parameter or with zero from the cursor to the end of the
/// screen, with one from the start up to and with the cursor, with two and three all of them,
/// and then the cursor is at the start. What is on the other side of the cursor stays.
pub proof fn erasing_on_the_screen(s: ScreenView, params: Seq<Seq<u16>>)
    requires
        s.wf(),
    ensures
        ({
            let t = performed(s, sequence(params, 'J'));
            let mode = given(params, 0);
            let (row, col) = (s.cursor_row, s.cursor_col);
            &&& mode == 2 || mode == 3 ==> {
                &&& t.lines.len() == 0
                &&& t.cursor_row == 0
                &&& t.cursor_col == 0
                &&& t.saved_cursor is None
                &&& t.full_replace
            }
            &&& mode == 0 || mode == 1 || mode > 3 ==> {
                &&& t.cursor_row == row
                &&& t.cursor_col == col
                &&& t.saved_cursor == s.saved_cursor
                &&& reaches(s, t, row)
                &&& line_keeps_its_time(s, t, row)
            }
            &&& mode == 1 ==> {
                &&& forall|i: int|
                    i < row ==> width_at(t, i) == 0 && (#[trigger] line_at(
                        t,
                        i,
                    )).received_at is None
                &&& forall|i: int| i > row ==> #[trigger] line_at(t, i) == line_at(s, i)
                &&& forall|i: int| i > col ==> #[trigger] cell_at(t, row, i) == cell_at(s, row, i)
                &&& forall|i: int| i <= col ==> #[trigger] cell_at(t, row, i) == ' '
            }
            &&& mode == 0 || mode > 3 ==> {
                &&& forall|i: int|
                    i > row ==> width_at(t, i) == 0 && (#[trigger] line_at(
                        t,
                        i,
                    )).received_at is None
                &&& forall|i: int| i < row ==> #[trigger] line_at(t, i) == line_at(s, i)
                &&& forall|i: int| i < col ==> #[trigger] cell_at(t, row, i) == cell_at(s, row, i)
                &&& width_at(t, row) <= col
                &&& width_at(t, row) <= width_at(s, row)
            }
        }),
{
}

/// `ESC [ @` moves the cells from the cursor on to the right and leaves spaces there, `ESC [ P`
/// takes cells away at the cursor, so that those behind them move to the left, and `ESC [ X`
/// puts spaces in their place. Cells before the cursor and the other lines stay.
pub proof fn changing_cells_at_the_cursor(s: ScreenView, params: Seq<Seq<u16>>)
    requires
        s.wf(),
    ensures
        ({
            let n = at_least_one(params, 0);
            let (row, col) = (s.cursor_row, s.cursor_col);
            let t = performed(s, sequence(params, '@'));
            &&& only_line_changes(s, t, row)
            &&& line_keeps_its_time(s, t, row)
            &&& forall|i: int| i < col ==> #[trigger] cell_at(t, row, i) == cell_at(s, row, i)
            &&& forall|i: int| col <= i < col + n ==> #[trigger] cell_at(t, row, i) == ' '
            &&& forall|i: int|
                i >= col + n ==> #[trigger] cell_at(t, row, i) == cell_at(s, row, i - n)
        }),
        ({
            let n = at_least_one(params, 0);
            let (row, col) = (s.cursor_row, s.cursor_col);
            let t = performed(s, sequence(params, 'P'));
            &&& only_line_changes(s, t, row)
            &&& line_keeps_its_time(s, t, row)
            &&& forall|i: int| i < col ==> #[trigger] cell_at(t, row, i) == cell_at(s, row, i)
            &&& forall|i: int| i >= col ==> #[trigger] cell_at(t, row, i) == cell_at(s, row, i + n)
        }),
        ({
            let n = at_least_one(params, 0);
            let (row, col) = (s.cursor_row, s.cursor_col);
            let t = performed(s, sequence(params, 'X'));
            &&& only_line_changes(s, t, row)
            &&& line_keeps_its_time(s, t, row)
            &&& forall|i: int|
                i < col || i >= col + n ==> #[trigger] cell_at(t, row, i) == cell_at(s, row, i)
            &&& forall|i: int| col <= i < col + n ==> #[trigger] cell_at(t, row, i) == ' '
        }),
{
}

/// `ESC [ L` puts empty lines at the cursor, and those from there on move down; `ESC [ M` takes
/// lines away at the cursor, and those below them move up. The lines before the cursor stay.
pub proof fn inserting_and_deleting_lines(s: ScreenView, params: Seq<Seq<u16>>)
    requires
        s.wf(),
    ensures
        ({
            let n = at_least_one(params, 0);
            let row = s.cursor_row;
            let t = performed(s, sequence(params, 'L'));
            &&& t.cursor_row == row
            &&& t.cursor_col == s.cursor_col
            &&& t.saved_cursor == s.saved_cursor
            &&& forall|i: int| i < row ==> #[trigger] line_at(t, i) == line_at(s, i)
            &&& forall|i: int| row <= i < row + n ==> #[trigger] line_at(t, i) == line_at(s, -1)
            &&& forall|i: int| i >= row + n ==> #[trigger] line_at(t, i) == line_at(s, i - n)
        }),
        ({
            let n = at_least_one(params, 0);
            let row = s.cursor_row;
            let t = performed(s, sequence(params, 'M'));
            &&& t.cursor_row == if row < s.lines.len() - n || row == 0 {
                row
            } else {
                row - 1
            }
            &&& t.cursor_col == s.cursor_col
            &&& t.saved_cursor == s.saved_cursor
            &&& forall|i: int| i < row ==> #[trigger] line_at(t, i) == line_at(s, i)
            &&& forall|i: int| i >= row ==> #[trigger] line_at(t, i) == line_at(s, i + n)
        }),
{
}

/// `ESC 7` and `ESC [ s` remember where the cursor is and change nothing else. `ESC 8` and
/// `ESC [ u` take it back there, whatever was done to it meanwhile.
pub proof fn the_cursor_can_be_saved(s: ScreenView, moved: ScreenView, params: Seq<Seq<u16>>)
    requires
        s.wf(),
        moved.wf(),
    ensures
        performed(s, escape(0x37)) == (ScreenView {
            saved_cursor: Some((s.cursor_row, s.cursor_col)),
            ..s
        }),
        performed(s, sequence(params, 's')) == performed(s, escape(0x37)),
        performed(s, sequence(params, 'u')) == performed(s, escape(0x38)),
        ({
            let t = performed(moved, escape(0x38));
            match moved.saved_cursor {
                Some(saved) => cursor_goes_to(moved, t, saved.0, saved.1),
                None => t == moved,
            }
        }),
        moved.saved_cursor == performed(s, escape(0x37)).saved_cursor ==> {
            let t = performed(moved, escape(0x38));
            t.cursor_row == s.cursor_row && t.cursor_col == s.cursor_col
        },
{
}

/// Backspace and a tabulator move the cursor, to the column before and to the next one that
/// eight divides. A carriage return takes it to the start of the line. No text changes, nor does
/// any other control character change anything but those that feed a line.
pub proof fn control_characters(s: ScreenView, byte: u8)
    requires
        s.wf(),
        byte < 0x0a || byte > 0x0c,
    ensures
        ({
            let t = performed(s, ActionView::Execute(byte));
            &&& cursor_moves(s, t, s.cursor_row, t.cursor_col)
            &&& byte == 0x08 ==> t.cursor_col == if s.cursor_col == 0 {
                0
            } else {
                s.cursor_col - 1
            }
            &&& byte == 0x09 ==> {
                &&& t.cursor_col % 8 == 0
                &&& s.cursor_col < 524_288 ==> s.cursor_col < t.cursor_col <= s.cursor_col + 8
                &&& s.cursor_col == 524_288 ==> t.cursor_col == 524_288
            }
            &&& byte == 0x0d ==> t.cursor_col == 0
            &&& byte != 0x08 && byte != 0x09 && byte != 0x0d ==> t == s
        }),
{
}

/// A line feed, which is also what a vertical tabulator, a form feed and `ESC D` are, ends the
/// line of the cursor and goes to the next one in the same column. `ESC E` goes to its start.
/// Only at the lower end of the screen does the oldest line leave.
pub proof fn feeding_a_line(s: ScreenView, byte: u8)
    requires
        s.wf(),
        0x0a <= byte <= 0x0c,
    ensures
        performed(s, ActionView::Execute(byte)) == performed(s, escape(0x44)),
        ({
            let t = performed(s, escape(0x44));
            let row = s.cursor_row;
            &&& t.cursor_col == s.cursor_col
            &&& row < 99_999 ==> {
                &&& t.cursor_row == row + 1
                &&& t.saved_cursor == s.saved_cursor
                &&& reaches(s, t, row + 1)
                &&& forall|i: int| i != row ==> #[trigger] line_at(t, i) == line_at(s, i)
                &&& line_at(t, row) == (LineView { completed: true, ..line_at(s, row) })
            }
            &&& row == 99_999 ==> {
                &&& t.cursor_row == row
                &&& forall|i: int|
                    0 <= i && i != row - 1 ==> #[trigger] line_at(t, i) == line_at(s, i + 1)
                &&& line_at(t, row - 1) == (LineView { completed: true, ..line_at(s, row) })
            }
        }),
        ({
            let t = performed(s, escape(0x45));
            &&& t.cursor_col == 0
            &&& t.lines == performed(s, escape(0x44)).lines
            &&& t.cursor_row == performed(s, escape(0x44)).cursor_row
        }),
{
}

/// `ESC M` goes one line up; on the first line, an empty one comes before it. `ESC c` starts
/// over with an empty screen.
pub proof fn going_back_and_starting_over(s: ScreenView)
    requires
        s.wf(),
    ensures
        ({
            let t = performed(s, escape(0x4d));
            &&& s.cursor_row > 0 ==> cursor_moves(s, t, s.cursor_row - 1, s.cursor_col)
            &&& s.cursor_row == 0 ==> {
                &&& t.cursor_row == 0
                &&& t.cursor_col == s.cursor_col
                &&& t.saved_cursor == s.saved_cursor
                &&& t.lines.len() == s.lines.len() + 1
                &&& line_at(t, 0) == line_at(s, -1)
                &&& forall|i: int| i > 0 ==> #[trigger] line_at(t, i) == line_at(s, i - 1)
            }
        }),
        performed(s, escape(0x63)) == performed(s, sequence(seq![seq![2u16]], 'J')),
{
}

/// Colours, modes, reports, scroll regions, cursor styles and whatever else there is change
/// nothing, nor does a sequence that is malformed.
pub proof fn other_sequences_change_nothing(
    s: ScreenView,
    params: Seq<Seq<u16>>,
    intermediates: Seq<u8>,
    action: char,
    byte: u8,
)
    ensures
        !seq![
            'A', 'B', 'C', 'D', 'E', 'F', 'G', 'H', 'J', 'K', 'L', 'M', 'P', 'S', 'T', 'X', '@',
            '`', 'a', 'd', 'e', 'f', 's', 'u',
        ].contains(action) ==> performed(s, sequence(params, action)) == s,
        !seq![0x37u8, 0x38, 0x44, 0x45, 0x4d, 0x63].contains(byte) ==> performed(s, escape(byte))
            == s,
        performed(s, ActionView::Csi { params, ignore: true, action }) == s,
        performed(s, ActionView::Esc { intermediates, ignore: true, byte }) == s,
        intermediates.len() > 0 ==> performed(
            s,
            ActionView::Esc { intermediates, ignore: false, byte },
        ) == s,
{
    let letters = seq![
        'A', 'B', 'C', 'D', 'E', 'F', 'G', 'H', 'J', 'K', 'L', 'M', 'P', 'S', 'T', 'X', '@', '`',
        'a', 'd', 'e', 'f', 's', 'u',
    ];
    assert(letters[0] == 'A' && letters[1] == 'B' && letters[2] == 'C' && letters[3] == 'D');
    assert(letters[4] == 'E' && letters[5] == 'F' && letters[6] == 'G' && letters[7] == 'H');
    assert(letters[8] == 'J' && letters[9] == 'K' && letters[10] == 'L' && letters[11] == 'M');
    assert(letters[12] == 'P' && letters[13] == 'S' && letters[14] == 'T' && letters[15] == 'X');
    assert(letters[16] == '@' && letters[17] == '`' && letters[18] == 'a' && letters[19] == 'd');
    assert(letters[20] == 'e' && letters[21] == 'f' && letters[22] == 's' && letters[23] == 'u');
    let bytes = seq![0x37u8, 0x38, 0x44, 0x45, 0x4d, 0x63];
    assert(bytes[0] == 0x37 && bytes[1] == 0x38 && bytes[2] == 0x44 && bytes[3] == 0x45);
    assert(bytes[4] == 0x4d && bytes[5] == 0x63);
}

/// A character that is printed stands at the cursor, which moves on by its width: one column for
/// ASCII, two for a wide character, whose second cell is then marked. Where it takes half of a
/// wide character, a space is left of the other half; all other cells stay. The line is open
/// again, and has the time of its first character.
pub proof fn printing_a_character(s: ScreenView, c: char, width: int)
    requires
        s.wf(),
        s.cursor_col < 524_287,
        width == 1 && '\u{20}' <= c <= '\u{7e}' || width == 2 && c >= '\u{a0}' && listed_width(c)
            == 2 || width == 1 && c >= '\u{a0}' && listed_width(c) <= 1,
    ensures
        ({
            let t = performed(s, ActionView::Print(c));
            let (row, col) = (s.cursor_row, s.cursor_col);
            let covered = cell_at(s, row, col);
            &&& t.cursor_row == row
            &&& t.cursor_col == col + width
            &&& t.saved_cursor == s.saved_cursor
            &&& reaches(s, t, row)
            &&& forall|i: int| i != row ==> #[trigger] line_at(t, i) == line_at(s, i)
            &&& cell_at(t, row, col) == c
            &&& width == 2 ==> cell_at(t, row, col + 1) == '\0'
            &&& width_at(t, row) == if width_at(s, row) < col + width {
                col + width
            } else {
                width_at(s, row)
            }
            &&& forall|i: int|
                (i < col - 1 || i > col + 1 || i == col - 1 && covered != '\0' || i == col + 1
                    && width == 1 && display_width(covered) != Some(2usize)) ==> #[trigger] cell_at(
                    t,
                    row,
                    i,
                ) == cell_at(s, row, i)
            &&& covered == '\0' && col > 0 ==> cell_at(t, row, col - 1) == ' '
            &&& width == 1 && display_width(covered) == Some(2usize) ==> cell_at(t, row, col + 1)
                == ' '
            &&& !line_at(t, row).completed
            &&& line_at(t, row).received_at == match line_at(s, row).received_at {
                Some(at) => Some(at),
                None => Some(s.received_at),
            }
        }),
{
}

/// Where a place is after some lines above it have left; nothing is above the first line.
pub open spec fn scrolled_place(place: Option<(int, int)>, count: int) -> Option<(int, int)> {
    match place {
        Some(at) => Some(
            (
                if count <= at.0 {
                    at.0 - count
                } else {
                    0
                },
                at.1,
            ),
        ),
        None => None,
    }
}

proof fn lines_scroll_off(s: ScreenView, count: int)
    requires
        s.wf(),
        0 <= count <= s.lines.len(),
    ensures
        ({
            let t = s.scrolled_off(count);
            &&& t.lines == s.lines.skip(count)
            &&& t.cursor_row == if count <= s.cursor_row {
                s.cursor_row - count
            } else {
                0
            }
            &&& t.cursor_col == s.cursor_col
            &&& t.saved_cursor == scrolled_place(s.saved_cursor, count)
            &&& t.wf()
        }),
    decreases count,
{
    if count == 0 {
        assert(s.lines.skip(0) == s.lines);
    } else {
        lines_scroll_off(s, count - 1);
        assert(s.lines.skip(count - 1).skip(1) == s.lines.skip(count));
    }
}

/// `ESC [ S` takes lines away at the top, and `ESC [ T` puts empty ones there. The cursor stays
/// with its text, as far as that is on the screen.
pub proof fn scrolling(s: ScreenView, params: Seq<Seq<u16>>)
    requires
        s.wf(),
    ensures
        ({
            let n = at_least_one(params, 0);
            let t = performed(s, sequence(params, 'S'));
            let gone = if n <= s.lines.len() {
                n
            } else {
                s.lines.len() as int
            };
            &&& t.cursor_row == if gone <= s.cursor_row {
                s.cursor_row - gone
            } else {
                0
            }
            &&& t.cursor_col == s.cursor_col
            &&& t.saved_cursor == scrolled_place(s.saved_cursor, gone)
            &&& forall|i: int| 0 <= i ==> #[trigger] line_at(t, i) == line_at(s, i + gone)
        }),
        ({
            let n = at_least_one(params, 0);
            let t = performed(s, sequence(params, 'T'));
            &&& t.cursor_row == if s.cursor_row + n <= 99_999 {
                s.cursor_row + n
            } else {
                99_999
            }
            &&& t.cursor_col == s.cursor_col
            &&& t.saved_cursor == s.saved_cursor
            &&& t.lines.len() == s.lines.len() + n
            &&& forall|i: int| i < n ==> #[trigger] line_at(t, i) == line_at(s, -1)
            &&& forall|i: int| i >= n ==> #[trigger] line_at(t, i) == line_at(s, i - n)
        }),
{
    let n = at_least_one(params, 0);
    let gone = if n <= s.lines.len() {
        n
    } else {
        s.lines.len() as int
    };
    lines_scroll_off(s, gone);
}

/// A terminal does what it is told in the order in which it is told: what two rows of actions do
/// is what the first does and then the second, and nothing is left out.
pub proof fn actions_are_done_one_by_one(s: ScreenView, actions: Seq<ActionView>)
    ensures
        all_performed(s, actions) == actions.fold_left(
            s,
            |t: ScreenView, a: ActionView| performed(t, a),
        ),
    decreases actions.len(),
{
    if actions.len() > 0 {
        actions_are_done_one_by_one(s, actions.drop_last());
    }
}

} // verus!
