//! What is seen of a screen: its rows, what is cut to keep it small, and how chunks are drawn.

use vstd::prelude::*;
use vstd::utf8::encode_utf8;

use crate::chars::{text_bytes, text_bytes_is_encoded_len, the_longest_end_is_kept};
use crate::encoding::added_text;
use crate::formatting::rows::RowView;
use crate::model::TextEncoding;
use crate::store::ChunkView;
use crate::terminal::actions::{
    all_performed, csi_dispatched, esc_dispatched, executed, parameter_value, parsed_actions,
    performed, ActionView,
};
use crate::terminal::formatter::{
    screen_update, update_applied, useful_limits, ScreenLimits, TerminalState, UpdateView,
};
use crate::terminal::laws::limits_hold_after_enforcement;
use crate::terminal::screen::{
    cell_bytes, counted_bytes, counted_total, line_text, settled, without_nul,
    without_trailing_spaces, LineView, ScreenView,
};
use crate::terminal::sequences::actions_are_done_one_by_one;

verus! {

/// The characters in some cells. The second cell of a wide character holds none.
pub open spec fn characters(cells: Seq<char>) -> Seq<char> {
    cells.filter(|c: char| c != '\0')
}

/// A text is what cells show: all characters up to the last one that is no space.
pub open spec fn is_shown_by(text: Seq<char>, cells: Seq<char>) -> bool {
    exists|end: int| #[trigger] ends_at(cells, end) && text == characters(cells.take(end))
}

/// From `end` on there are only spaces, and none right before it.
pub open spec fn ends_at(cells: Seq<char>, end: int) -> bool {
    &&& 0 <= end <= cells.len()
    &&& end > 0 ==> cells[end - 1] != ' '
    &&& forall|i: int| end <= i < cells.len() ==> #[trigger] cells[i] == ' '
}

proof fn trailing_spaces_are_cut(cells: Seq<char>) -> (end: int)
    ensures
        ends_at(cells, end),
        without_trailing_spaces(cells) == cells.take(end),
    decreases cells.len(),
{
    if cells.len() > 0 && cells.last() == ' ' {
        let end = trailing_spaces_are_cut(cells.drop_last());
        assert(cells.drop_last().take(end) == cells.take(end));
        assert forall|i: int| end <= i < cells.len() implies #[trigger] cells[i] == ' ' by {
            if i < cells.len() - 1 {
                assert(cells.drop_last()[i] == cells[i]);
            }
        }
        if end > 0 {
            assert(cells.drop_last()[end - 1] == cells[end - 1]);
        }
        end
    } else {
        assert(cells.take(cells.len() as int) == cells);
        cells.len() as int
    }
}

proof fn marks_are_left_out(cells: Seq<char>)
    ensures
        without_nul(cells) == characters(cells),
    decreases cells.len(),
{
    reveal(Seq::filter);
    if cells.len() > 0 {
        marks_are_left_out(cells.drop_last());
    }
}

/// Each line of the screen is a row that shows its characters, without the spaces at its end,
/// and with its time. An empty last line is no row until a line feed has ended it.
pub proof fn rows_show_the_lines(s: ScreenView)
    ensures
        s.rows().len() == if s.lines.len() > 0 && s.lines.last().cells.len() == 0
            && !s.lines.last().completed {
            s.lines.len() - 1
        } else {
            s.lines.len() as int
        },
        forall|i: int|
            0 <= i < s.rows().len() ==> is_shown_by(
                (#[trigger] s.rows()[i]).text,
                s.lines[i].cells,
            ) && s.rows()[i].received_at == match s.lines[i].received_at {
                Some(at) => at,
                None => s.received_at,
            },
{
    assert forall|i: int| 0 <= i < s.rows().len() implies is_shown_by(
        (#[trigger] s.rows()[i]).text,
        s.lines[i].cells,
    ) by {
        let cells = s.lines[i].cells;
        let end = trailing_spaces_are_cut(cells);
        marks_are_left_out(cells.take(end));
        assert(ends_at(cells, end));
        assert(s.rows()[i].text == line_text(s.lines[i]));
    }
}

/// The number of bytes of the characters in a line.
pub open spec fn line_bytes(cells: Seq<char>) -> nat {
    encode_utf8(characters(cells)).len()
}

proof fn cells_are_counted(cells: Seq<char>)
    ensures
        cell_bytes(cells) == line_bytes(cells),
    decreases cells.len(),
{
    text_bytes_is_encoded_len(characters(cells));
    cells_are_measured(cells);
}

proof fn cells_are_measured(cells: Seq<char>)
    ensures
        cell_bytes(cells) == text_bytes(characters(cells)),
    decreases cells.len(),
{
    reveal(Seq::filter);
    if cells.len() > 0 {
        cells_are_measured(cells.drop_last());
        let before = characters(cells.drop_last());
        if cells.last() != '\0' {
            assert(characters(cells) == before.push(cells.last()));
            assert(characters(cells).drop_last() == before);
        }
    }
}

/// The bytes of the characters in all lines.
pub open spec fn all_bytes(lines: Seq<LineView>) -> nat {
    lines.fold_left(0nat, |sum: nat, line: LineView| sum + line_bytes(line.cells))
}

/// What is left of a line that is too long: an ellipsis and as much of its end as fits in half of
/// what a line may have.
pub open spec fn is_cut_line(cut: Seq<char>, cells: Seq<char>, max_bytes: int) -> bool {
    exists|gone: int|
        {
            &&& 0 < gone <= cells.len()
            &&& cut == seq!['…'] + #[trigger] cells.skip(gone)
            &&& encode_utf8(cells.skip(gone)).len() <= max_bytes / 2
            &&& encode_utf8(cells.skip(gone - 1)).len() > max_bytes / 2
        }
}

proof fn characters_are_no_more_than_cells(cells: Seq<char>)
    ensures
        text_bytes(characters(cells)) <= text_bytes(cells),
    decreases cells.len(),
{
    reveal(Seq::filter);
    if cells.len() > 0 {
        characters_are_no_more_than_cells(cells.drop_last());
        let before = characters(cells.drop_last());
        if cells.last() != '\0' {
            assert(characters(cells) == before.push(cells.last()));
            assert(characters(cells).drop_last() == before);
        }
    }
}

/// A line keeps its cells unless its characters have more bytes than a line may have; then it
/// keeps its end. Either way its bytes are counted.
pub proof fn long_lines_keep_their_end(line: LineView, max_bytes: usize)
    requires
        max_bytes >= 16,
        line_bytes(line.cells) <= usize::MAX,
        line_bytes(settled(line, max_bytes).cells) <= usize::MAX,
    ensures
        ({
            let after = settled(line, max_bytes);
            &&& after.received_at == line.received_at
            &&& after.completed == line.completed
            &&& after.byte_len == line_bytes(after.cells)
            &&& if line_bytes(line.cells) <= max_bytes {
                after.cells == line.cells
            } else {
                is_cut_line(after.cells, line.cells, max_bytes as int)
            }
        }),
{
    let cells = line.cells;
    cells_are_counted(cells);
    cells_are_counted(settled(line, max_bytes).cells);
    if line_bytes(cells) > max_bytes {
        characters_are_no_more_than_cells(cells);
        text_bytes_is_encoded_len(characters(cells));
        text_bytes_is_encoded_len(cells);
        let half = (max_bytes / 2) as nat;
        let gone = the_longest_end_is_kept(cells, half);
        assert(settled(line, max_bytes).cells == seq!['…'] + cells.skip(gone));
    }
}

/// The bytes of every line are counted, but for those that have to be counted again.
pub open spec fn is_counted(s: ScreenView) -> bool {
    forall|i: int|
        0 <= i < s.lines.len() && (s.byte_dirty_from matches Some(from) ==> i < from) ==> (
        #[trigger] s.lines[i]).byte_len == line_bytes(s.lines[i].cells)
}

/// A screen has no more rows and no more text than it may have, and no line that is too long.
pub open spec fn fits(s: ScreenView, limits: ScreenLimits) -> bool {
    &&& s.rows().len() <= limits.max_rows
    &&& all_bytes(s.lines) <= limits.max_text_bytes
    &&& forall|i: int|
        0 <= i < s.lines.len() ==> line_bytes((#[trigger] s.lines[i]).cells)
            <= limits.max_line_bytes
}

proof fn all_lines_are_counted(lines: Seq<LineView>)
    requires
        forall|i: int|
            0 <= i < lines.len() ==> (#[trigger] lines[i]).byte_len == line_bytes(lines[i].cells),
    ensures
        counted_total(lines) == all_bytes(lines),
    decreases lines.len(),
{
    if lines.len() > 0 {
        let before = lines.drop_last();
        assert forall|i: int| 0 <= i < before.len() implies (#[trigger] before[i]).byte_len
            == line_bytes(before[i].cells) by {
            assert(before[i] == lines[i]);
        }
        all_lines_are_counted(before);
        assert(lines[lines.len() - 1].byte_len == line_bytes(lines.last().cells));
    }
}

proof fn the_same_cells_have_the_same_bytes(a: Seq<LineView>, b: Seq<LineView>)
    requires
        a.len() == b.len(),
        forall|i: int| 0 <= i < a.len() ==> (#[trigger] a[i]).cells == b[i].cells,
    ensures
        all_bytes(a) == all_bytes(b),
    decreases a.len(),
{
    if a.len() > 0 {
        assert forall|i: int| 0 <= i < a.len() - 1 implies (#[trigger] a.drop_last()[i]).cells
            == b.drop_last()[i].cells by {
            assert(a.drop_last()[i] == a[i]);
        }
        the_same_cells_have_the_same_bytes(a.drop_last(), b.drop_last());
        assert(a[a.len() - 1].cells == b[b.len() - 1].cells);
    }
}

/// What fits is kept: enforcing the limits changes nothing that is seen of a screen within them,
/// and it does not count as limited.
pub proof fn what_fits_is_kept(state: TerminalState, limits: ScreenLimits)
    requires
        fits(state.screen, limits),
        is_counted(state.screen),
        state.screen.wf(),
    ensures
        ({
            let after = state.within(limits);
            &&& after.limited == state.limited
            &&& after.screen.rows() == state.screen.rows()
            &&& after.screen.cursor_row == state.screen.cursor_row
            &&& after.screen.cursor_col == state.screen.cursor_col
            &&& after.screen.lines.len() == state.screen.lines.len()
            &&& forall|i: int|
                0 <= i < after.screen.lines.len() ==> (#[trigger] after.screen.lines[i]).cells
                    == state.screen.lines[i].cells
            &&& is_counted(after.screen)
        }),
{
    let s = state.screen;
    let t = s.lines_settled(limits.max_line_bytes);
    assert forall|i: int| 0 <= i < s.lines.len() implies (#[trigger] t.lines[i]).cells
        == s.lines[i].cells && t.lines[i].completed == s.lines[i].completed
        && t.lines[i].received_at == s.lines[i].received_at && t.lines[i].byte_len == line_bytes(
        s.lines[i].cells,
    ) && counted_bytes(s.lines[i].cells) <= limits.max_line_bytes by {
        cells_are_counted(s.lines[i].cells);
        assert(line_bytes(s.lines[i].cells) <= limits.max_line_bytes);
    }
    all_lines_are_counted(t.lines);
    the_same_cells_have_the_same_bytes(t.lines, s.lines);
    assert(t.rendered_len() == s.rendered_len());
    assert(t.rows() == s.rows());
    assert(!t.exceeds(limits.max_rows, limits.max_text_bytes));
    assert(t.cursor_col == s.cursor_col) by {
        if s.byte_dirty_from is Some && s.byte_dirty_from->0 <= s.cursor_row < s.lines.len() {
            assert(t.lines[s.cursor_row].cells == s.lines[s.cursor_row].cells);
        }
    }
    assert(!s.has_long_line(limits.max_line_bytes)) by {
        if s.byte_dirty_from is Some {
            assert forall|i: int| s.byte_dirty_from->0 <= i < s.lines.len() implies counted_bytes(
                #[trigger] s.lines[i].cells,
            ) <= limits.max_line_bytes by {
                assert(t.lines[i].cells == s.lines[i].cells);
            }
        }
    }
}

proof fn the_oldest_lines_leave(s: ScreenView, max_rows: usize, max_text_bytes: usize) -> (gone: int)
    requires
        s.wf(),
    ensures
        0 <= gone <= s.lines.len(),
        s.pruned(max_rows, max_text_bytes).lines == s.lines.skip(gone),
        s.pruned(max_rows, max_text_bytes).received_at == s.received_at,
        s.pruned(max_rows, max_text_bytes).cursor_col == s.cursor_col,
        s.pruned(max_rows, max_text_bytes).cursor_row == if gone <= s.cursor_row {
            s.cursor_row - gone
        } else {
            0
        },
        gone > 0 ==> (ScreenView { lines: s.lines.skip(gone - 1), ..s }).exceeds(
            max_rows,
            max_text_bytes,
        ),
    decreases s.lines.len(),
{
    if s.lines.len() > 0 && s.exceeds(max_rows, max_text_bytes) {
        let next = s.scrolled_once();
        let gone = the_oldest_lines_leave(next, max_rows, max_text_bytes);
        assert(next.lines.skip(gone) == s.lines.skip(gone + 1));
        if gone > 0 {
            assert(next.lines.skip(gone - 1) == s.lines.skip(gone));
            let before = ScreenView { lines: s.lines.skip(gone), ..s };
            assert(ScreenView { lines: next.lines.skip(gone - 1), ..next }.exceeds(
                max_rows,
                max_text_bytes,
            ) == before.exceeds(max_rows, max_text_bytes));
        } else {
            assert(s.lines.skip(0) == s.lines);
        }
        gone + 1
    } else {
        assert(s.lines.skip(0) == s.lines);
        0
    }
}

/// Enforcing the limits takes lines away at the top alone, no more than have to go, and the
/// cursor stays with its text. Where something is cut or taken away, the screen is limited.
pub proof fn the_newest_lines_are_kept(state: TerminalState, limits: ScreenLimits) -> (gone: int)
    requires
        state.screen.wf(),
        is_counted(state.screen),
        limits.max_line_bytes >= 16,
        forall|i: int|
            0 <= i < state.screen.lines.len() ==> line_bytes(
                (#[trigger] state.screen.lines[i]).cells,
            ) <= limits.max_line_bytes,
    ensures
        ({
            let s = state.screen;
            let t = state.within(limits).screen;
            &&& 0 <= gone <= s.lines.len()
            &&& t.lines.len() == s.lines.len() - gone
            &&& forall|i: int|
                0 <= i < t.lines.len() ==> (#[trigger] t.lines[i]).cells == s.lines[i + gone].cells
                    && t.lines[i].received_at == s.lines[i + gone].received_at
                    && t.lines[i].completed == s.lines[i + gone].completed
            &&& t.cursor_row == if gone <= s.cursor_row {
                s.cursor_row - gone
            } else {
                0
            }
            &&& t.cursor_col == s.cursor_col
            &&& t.rows().len() <= limits.max_rows
            &&& all_bytes(t.lines) <= limits.max_text_bytes
            &&& gone > 0 ==> !fits((ScreenView { lines: s.lines.skip(gone - 1), ..s }), limits)
            &&& state.within(limits).limited == (state.limited || gone > 0)
        }),
{
    let s = state.screen;
    let t = s.lines_settled(limits.max_line_bytes);
    assert forall|i: int| 0 <= i < s.lines.len() implies (#[trigger] t.lines[i]).cells
        == s.lines[i].cells && t.lines[i].completed == s.lines[i].completed
        && t.lines[i].received_at == s.lines[i].received_at && t.lines[i].byte_len == line_bytes(
        s.lines[i].cells,
    ) && counted_bytes(s.lines[i].cells) <= limits.max_line_bytes by {
        cells_are_counted(s.lines[i].cells);
        assert(line_bytes(s.lines[i].cells) <= limits.max_line_bytes);
    }
    assert(t.cursor_col == s.cursor_col) by {
        if s.byte_dirty_from is Some && s.byte_dirty_from->0 <= s.cursor_row < s.lines.len() {
            assert(t.lines[s.cursor_row].cells == s.lines[s.cursor_row].cells);
        }
    }
    assert(t.wf()) by {
        if let Some(saved) = s.saved_cursor {
            if s.byte_dirty_from is Some && s.byte_dirty_from->0 <= saved.0 < s.lines.len() {
                assert(t.lines[saved.0].cells == s.lines[saved.0].cells);
            }
        }
    }
    assert(!s.has_long_line(limits.max_line_bytes)) by {
        if s.byte_dirty_from is Some {
            assert forall|i: int| s.byte_dirty_from->0 <= i < s.lines.len() implies counted_bytes(
                #[trigger] s.lines[i].cells,
            ) <= limits.max_line_bytes by {
                assert(t.lines[i].cells == s.lines[i].cells);
            }
        }
    }
    let gone = the_oldest_lines_leave(t, limits.max_rows, limits.max_text_bytes);
    limits_hold_after_enforcement(state, limits);
    let u = state.within(limits).screen;
    assert(u.lines == t.lines.skip(gone));
    all_lines_are_counted(u.lines);
    if gone > 0 {
        let before = t.lines.skip(gone - 1);
        let seen = ScreenView { lines: before, ..t };
        let unsettled = ScreenView { lines: s.lines.skip(gone - 1), ..s };
        all_lines_are_counted(before);
        the_same_cells_have_the_same_bytes(before, unsettled.lines);
        assert(seen.rendered_len() == unsettled.rendered_len());
        assert(t.exceeds(limits.max_rows, limits.max_text_bytes));
    } else {
        assert(t.lines.skip(0) == t.lines);
    }
    gone
}

/// A chunk that is drawn by itself does to the screen what its actions do one after the other,
/// with its time; and if the screen is then within its limits, that is what is seen.
pub proof fn a_chunk_is_drawn_action_by_action(
    state: TerminalState,
    encoding: TextEncoding,
    limits: ScreenLimits,
    chunk: ChunkView,
)
    requires
        0 < chunk.bytes.len() <= 65_536,
        limits.max_rows >= 1,
        limits.max_text_bytes >= 1,
        limits.max_line_bytes >= 16,
        state.screen.wf(),
    ensures
        ({
            let text = encode_utf8(added_text(encoding, state.input, chunk.bytes));
            let begun = ScreenView {
                received_at: chunk.received_at,
                dirty_from: None,
                byte_dirty_from: None,
                removed_front: 0,
                full_replace: false,
                ..state.screen
            };
            let drawn = parsed_actions(state.parsed, text).fold_left(
                begun,
                |s: ScreenView, a: ActionView| performed(s, a),
            );
            let after = state.updated(encoding, limits, seq![chunk]);
            &&& after.input == state.input + chunk.bytes
            &&& after.parsed == state.parsed.push(text)
            &&& drawn.wf() && is_counted(drawn) && fits(drawn, limits) ==> {
                &&& after.limited == state.limited
                &&& after.screen.rows() == drawn.rows()
                &&& after.screen.cursor_row == drawn.cursor_row
                &&& after.screen.cursor_col == drawn.cursor_col
            }
        }),
{
    reveal(TerminalState::piece_drawn);
    let text = encode_utf8(added_text(encoding, state.input, chunk.bytes));
    let begun = TerminalState {
        screen: state.screen.begun().at(chunk.received_at),
        ..state
    };
    let actions = parsed_actions(state.parsed, text);
    actions_are_done_one_by_one(begun.screen, actions);
    let drawn = TerminalState {
        input: state.input + chunk.bytes,
        parsed: state.parsed.push(text),
        screen: all_performed(begun.screen, actions),
        ..state
    };
    assert(chunk.bytes.take(chunk.bytes.len() as int) == chunk.bytes);
    assert(chunk.bytes.skip(chunk.bytes.len() as int).len() == 0);
    let start = TerminalState { screen: state.screen.begun(), ..state };
    let useful = useful_limits(limits);
    assert(useful == limits);
    reveal_with_fuel(TerminalState::bytes_drawn, 2);
    reveal_with_fuel(TerminalState::chunks_drawn, 2);
    assert(seq![chunk].drop_last() == Seq::<ChunkView>::empty());
    assert(start.chunks_drawn(encoding, useful, seq![chunk]) == drawn.within(limits));
    limits_hold_after_enforcement(drawn, limits);
    assert(drawn.within(limits).within(limits) == drawn.within(limits));
    if drawn.screen.wf() && is_counted(drawn.screen) && fits(drawn.screen, limits) {
        what_fits_is_kept(drawn, limits);
    }
}

/// What an update adds are the last rows of the screen, and as many as are left of the display
/// stay as they are.
pub proof fn updates_end_with_the_last_rows(s: ScreenView, displayed: int)
    requires
        s.wf(),
        displayed >= 0,
    ensures
        ({
            let update = screen_update(s, displayed);
            &&& update.rows.len() <= s.rows().len()
            &&& update.rows == s.rows().skip(s.rows().len() - update.rows.len())
            &&& 0 <= update.remove_prefix
            &&& 0 <= update.replace_tail
            &&& update.remove_prefix + update.replace_tail <= displayed
        }),
{
}

/// An update takes rows away at both ends of a display and adds its own at the end.
pub proof fn updates_are_applied_at_both_ends(shown: Seq<RowView>, update: UpdateView)
    requires
        0 <= update.remove_prefix,
        0 <= update.replace_tail,
        update.remove_prefix + update.replace_tail <= shown.len(),
    ensures
        ({
            let after = update_applied(shown, update);
            let kept = shown.len() - update.remove_prefix - update.replace_tail;
            &&& after.len() == kept + update.rows.len()
            &&& forall|i: int|
                0 <= i < kept ==> #[trigger] after[i] == shown[i + update.remove_prefix]
            &&& forall|i: int|
                kept <= i < after.len() ==> #[trigger] after[i] == update.rows[i - kept]
        }),
{
}

/// Bytes beyond what is drawn at a time are drawn after the others, and chunks one after the
/// other; an empty one changes nothing.
pub proof fn everything_is_drawn_in_order(
    state: TerminalState,
    encoding: TextEncoding,
    limits: ScreenLimits,
    bytes: Seq<u8>,
    chunks: Seq<ChunkView>,
    chunk: ChunkView,
)
    ensures
        bytes.len() > 65_536 ==> state.bytes_drawn(encoding, limits, bytes) == state.bytes_drawn(
            encoding,
            limits,
            bytes.take(65_536),
        ).bytes_drawn(encoding, limits, bytes.skip(65_536)),
        state.chunks_drawn(encoding, limits, chunks.push(chunk)) == state.chunks_drawn(
            encoding,
            limits,
            chunks,
        ).chunks_drawn(encoding, limits, seq![chunk]),
        chunk.bytes.len() == 0 ==> state.chunks_drawn(encoding, limits, seq![chunk]) == state,
        chunk.bytes.len() > 0 ==> state.chunks_drawn(encoding, limits, seq![chunk])
            == (TerminalState {
            screen: ScreenView { received_at: chunk.received_at, ..state.screen },
            ..state
        }).bytes_drawn(encoding, limits, chunk.bytes),
{
    reveal_with_fuel(TerminalState::bytes_drawn, 2);
    reveal_with_fuel(TerminalState::chunks_drawn, 2);
    assert(chunks.push(chunk).drop_last() == chunks);
    assert(seq![chunk].drop_last() == Seq::<ChunkView>::empty());
    if bytes.len() > 65_536 {
        let first = bytes.take(65_536);
        assert(first.take(65_536) == first);
        assert(first.skip(65_536) == Seq::<u8>::empty());
    }
}

/// A screen may have one row, one byte and sixteen bytes in a line in any case.
pub proof fn limits_are_raised_to_what_is_useful(limits: ScreenLimits)
    ensures
        limits.max_rows >= 1 ==> useful_limits(limits).max_rows == limits.max_rows,
        limits.max_rows == 0 ==> useful_limits(limits).max_rows == 1,
        limits.max_text_bytes >= 1 ==> useful_limits(limits).max_text_bytes
            == limits.max_text_bytes,
        limits.max_text_bytes == 0 ==> useful_limits(limits).max_text_bytes == 1,
        limits.max_line_bytes >= 16 ==> useful_limits(limits).max_line_bytes
            == limits.max_line_bytes,
        limits.max_line_bytes < 16 ==> useful_limits(limits).max_line_bytes == 16,
{
}

/// Where a line is cut, the cursor in it stays as far from its end as it was; if its character is
/// cut off, it stands behind the ellipsis. The same holds of the saved cursor.
pub proof fn the_cursor_stays_at_its_character(s: ScreenView, max_line_bytes: usize, from: int)
    requires
        s.byte_dirty_from == Some(from),
        0 <= from <= s.cursor_row < s.lines.len(),
        0 <= s.cursor_col,
    ensures
        ({
            let after = s.lines_settled(max_line_bytes);
            let (cells, left) = (s.lines[s.cursor_row].cells, after.lines[s.cursor_row].cells);
            let gone = cells.len() - (left.len() - 1);
            &&& after.cursor_row == s.cursor_row
            &&& counted_bytes(cells) <= max_line_bytes ==> after.cursor_col == s.cursor_col
            &&& counted_bytes(cells) > max_line_bytes && s.cursor_col >= gone ==> left.len()
                - after.cursor_col == cells.len() - s.cursor_col
            &&& counted_bytes(cells) > max_line_bytes && s.cursor_col < gone ==> after.cursor_col
                == 1
        }),
        s.saved_cursor == Some((s.cursor_row, s.cursor_col)) ==> s.lines_settled(
            max_line_bytes,
        ).saved_cursor == Some((s.cursor_row, s.lines_settled(max_line_bytes).cursor_col)),
{
}

/// Where something is cut or leaves it is known ever after, and otherwise it is not said.
pub proof fn it_is_known_that_something_is_missing(state: TerminalState, limits: ScreenLimits)
    ensures
        ({
            let (s, after) = (state.screen, state.within(limits));
            let settled = s.lines_settled(limits.max_line_bytes);
            &&& state.limited ==> after.limited
            &&& settled.exceeds(limits.max_rows, limits.max_text_bytes) ==> after.limited
            &&& s.byte_dirty_from matches Some(from) ==> (forall|i: int|
                from <= i < s.lines.len() && counted_bytes(#[trigger] s.lines[i].cells)
                    > limits.max_line_bytes ==> after.limited)
            &&& !state.limited && !settled.exceeds(limits.max_rows, limits.max_text_bytes)
                && s.byte_dirty_from is None ==> !after.limited
        }),
        ({
            let (s, after) = (state.screen, state.within(limits));
            let settled = s.lines_settled(limits.max_line_bytes);
            &&& after.limited && !state.limited && !settled.exceeds(
                limits.max_rows,
                limits.max_text_bytes,
            ) ==> s.byte_dirty_from is Some && exists|i: int|
                s.byte_dirty_from->0 <= i < s.lines.len() && counted_bytes(
                    #[trigger] s.lines[i].cells,
                ) > limits.max_line_bytes
            &&& after.input == state.input
            &&& after.parsed == state.parsed
        }),
{
}

proof fn scrolled_lines_stay_counted(s: ScreenView, count: int)
    requires
        s.wf(),
        is_counted(s),
    ensures
        s.scrolled_off(count).wf(),
        is_counted(s.scrolled_off(count)),
    decreases count,
{
    if count > 0 {
        scrolled_lines_stay_counted(s, count - 1);
        let before = s.scrolled_off(count - 1);
        let after = before.scrolled_once();
        assert forall|i: int|
            0 <= i < after.lines.len() && (after.byte_dirty_from matches Some(from) ==> i
                < from) implies (#[trigger] after.lines[i]).byte_len == line_bytes(
            after.lines[i].cells,
        ) by {
            assert(after.lines[i] == before.lines[i + 1]);
        }
    }
}

proof fn fed_lines_stay_counted(s: ScreenView)
    requires
        s.wf(),
        is_counted(s),
    ensures
        is_counted(s.fed()),
        s.fed().wf(),
{
    let at = s.with_line(s.cursor_row);
    assert(is_counted(at));
    let line = at.cursor_line();
    let seen = if at.cursor_row + 1 == at.lines.len() && line.cells.len() == 0 && !line.completed {
        at.dirty(at.cursor_row)
    } else {
        at
    };
    assert(is_counted(seen));
    let ended = ScreenView {
        lines: seen.lines.update(seen.cursor_row, LineView { completed: true, ..line }),
        ..seen
    };
    assert forall|i: int|
        0 <= i < ended.lines.len() && (ended.byte_dirty_from matches Some(from) ==> i
            < from) implies (#[trigger] ended.lines[i]).byte_len == line_bytes(
        ended.lines[i].cells,
    ) by {
        assert(seen.lines[i].byte_len == line_bytes(seen.lines[i].cells));
    }
    assert(ended.wf());
    scrolled_lines_stay_counted(ended, 1);
    assert(ended.scrolled_off(0) == ended);
    assert(ended.scrolled_off(1) == ended.scrolled_once());
}

/// The screen counts its lines and is in order.
#[verifier::opaque]
spec fn in_order(s: ScreenView) -> bool {
    s.wf() && is_counted(s)
}

/// The lines above every mark are the ones that were there, and were not marked before.
spec fn changes_are_marked(s: ScreenView, t: ScreenView) -> bool {
    forall|i: int|
        0 <= i < t.lines.len() && (t.byte_dirty_from matches Some(from) ==> i < from) ==> {
            &&& i < s.lines.len()
            &&& (#[trigger] t.lines[i]) == s.lines[i]
            &&& s.byte_dirty_from matches Some(from) ==> i < from
        }
}

proof fn marked_changes_are_in_order(s: ScreenView, t: ScreenView)
    requires
        in_order(s),
        t.wf(),
        changes_are_marked(s, t),
    ensures
        in_order(t),
{
    reveal(in_order);
    assert forall|i: int|
        0 <= i < t.lines.len() && (t.byte_dirty_from matches Some(from) ==> i < from) implies (
    #[trigger] t.lines[i]).byte_len == line_bytes(t.lines[i].cells) by {
        assert(t.lines[i] == s.lines[i]);
    }
}

proof fn changes_in_lines_are_in_order(s: ScreenView, count: int, mode: int)
    requires
        in_order(s),
        count >= 1,
    ensures
        in_order(s.line_erased(mode)),
        in_order(s.chars_inserted(count)),
        in_order(s.chars_deleted(count)),
        in_order(s.chars_erased(count)),
{
    reveal(in_order);
    marked_changes_are_in_order(s, s.line_erased(mode));
    marked_changes_are_in_order(s, s.chars_inserted(count));
    marked_changes_are_in_order(s, s.chars_deleted(count));
    marked_changes_are_in_order(s, s.chars_erased(count));
}

proof fn moves_are_in_order(s: ScreenView, row: int, col: int)
    requires
        in_order(s),
        0 <= row,
        0 <= col,
    ensures
        in_order(s.placed(row, col)),
        in_order(s.restored()),
{
    reveal(in_order);
    marked_changes_are_in_order(s, s.placed(row, col));
    marked_changes_are_in_order(s, s.restored());
}

proof fn changes_of_lines_are_in_order(s: ScreenView, count: int, mode: int)
    requires
        in_order(s),
        count >= 1,
    ensures
        in_order(s.lines_inserted(count)),
        in_order(s.lines_deleted(count)),
        in_order(s.scrolled_down(count)),
        in_order(s.index_reversed()),
        in_order(s.cleared()),
        in_order(s.display_erased(mode)),
{
    reveal(in_order);
    assert(changes_are_marked(s, s.lines_inserted(count)));
    marked_changes_are_in_order(s, s.lines_inserted(count));
    let t = s.lines_deleted(count);
    assert forall|i: int|
        0 <= i < t.lines.len() && (t.byte_dirty_from matches Some(from) ==> i < from) implies {
        &&& i < s.lines.len()
        &&& (#[trigger] t.lines[i]) == s.lines[i]
        &&& s.byte_dirty_from matches Some(from) ==> i < from
    } by {
        assert(i < s.cursor_row);
    }
    marked_changes_are_in_order(s, t);
    marked_changes_are_in_order(s, s.scrolled_down(count));
    marked_changes_are_in_order(s, s.index_reversed());
    marked_changes_are_in_order(s, s.cleared());
    let e = s.display_erased(mode);
    assert(e.wf());
    assert forall|i: int|
        0 <= i < e.lines.len() && (e.byte_dirty_from matches Some(from) ==> i < from) implies {
        &&& i < s.lines.len()
        &&& (#[trigger] e.lines[i]) == s.lines[i]
        &&& s.byte_dirty_from matches Some(from) ==> i < from
    } by {
        if mode != 1 && mode != 2 && mode != 3 {
            assert(i < s.cursor_row);
        }
    }
    marked_changes_are_in_order(s, e);
}

proof fn scrolling_is_in_order(s: ScreenView, count: int)
    requires
        in_order(s),
        count >= 1,
    ensures
        in_order(s.scrolled_up(count)),
{
    reveal(in_order);
    let gone = if count < s.lines.len() {
        count
    } else {
        s.lines.len() as int
    };
    scrolled_lines_stay_counted(s, gone);
    marked_changes_are_in_order(s.scrolled_off(gone), s.scrolled_up(count));
}

proof fn cursor_moves_are_in_order(s: ScreenView, count: int)
    requires
        in_order(s),
        count >= 1,
    ensures
        in_order(s.up(count)),
        in_order(s.up(count).returned()),
        in_order(s.forward(count)),
        in_order(s.back(count)),
        in_order(s.moved_to(s.cursor_row, count - 1)),
        in_order(s.saved()),
        in_order(s.returned()),
        in_order(s.backed()),
        in_order(s.tabbed()),
{
    reveal(in_order);
}

proof fn controls_are_in_order(s: ScreenView, byte: u8)
    requires
        in_order(s),
    ensures
        in_order(executed(s, byte)),
        in_order(esc_dispatched(s, byte)),
{
    cursor_moves_are_in_order(s, 1);
    changes_of_lines_are_in_order(s, 1, 0);
    moves_are_in_order(s, 0, 0);
    assert(in_order(s.fed()) && in_order(s.returned().fed())) by {
        reveal(in_order);
        fed_lines_stay_counted(s);
        fed_lines_stay_counted(s.returned());
    }
}

proof fn sequences_are_in_order(s: ScreenView, params: Seq<Seq<u16>>, action: char)
    requires
        in_order(s),
    ensures
        in_order(csi_dispatched(s, params, action)),
{
    let n = parameter_value(params, 0, 1);
    let col = parameter_value(params, 1, 1) - 1;
    let mode = parameter_value(params, 0, 0);
    assert(0 <= s.cursor_row && 0 <= s.cursor_col) by {
        reveal(in_order);
    }
    cursor_moves_are_in_order(s, n);
    changes_in_lines_are_in_order(s, n, mode);
    changes_of_lines_are_in_order(s, n, mode);
    scrolling_is_in_order(s, n);
    moves_are_in_order(s, s.cursor_row + n, s.cursor_col);
    cursor_moves_are_in_order(s.down(n), 1);
    moves_are_in_order(s, n - 1, col);
    moves_are_in_order(s, n - 1, s.cursor_col);
}

proof fn characters_are_in_order(s: ScreenView, c: char)
    requires
        in_order(s),
    ensures
        in_order(s.printed(c)),
{
    reveal(in_order);
    marked_changes_are_in_order(s, s.printed(c));
}

/// Whatever is done to a screen, a line whose text has changed is counted again.
pub proof fn changed_lines_are_counted_again(s: ScreenView, action: ActionView)
    requires
        s.wf(),
        is_counted(s),
    ensures
        is_counted(performed(s, action)),
        performed(s, action).wf(),
{
    assert(in_order(s)) by {
        reveal(in_order);
    }
    assert(in_order(performed(s, action))) by {
        match action {
            ActionView::Print(c) => {
                characters_are_in_order(s, c);
            },
            ActionView::Execute(byte) => {
                controls_are_in_order(s, byte);
            },
            ActionView::Csi { params, ignore, action } => {
                sequences_are_in_order(s, params, action);
            },
            ActionView::Esc { intermediates, ignore, byte } => {
                controls_are_in_order(s, byte);
            },
        }
    }
    reveal(in_order);
}

/// The same holds of all actions, one after the other.
pub proof fn changed_lines_are_all_counted_again(s: ScreenView, actions: Seq<ActionView>)
    requires
        s.wf(),
        is_counted(s),
    ensures
        is_counted(all_performed(s, actions)),
        all_performed(s, actions).wf(),
    decreases actions.len(),
{
    if actions.len() > 0 {
        changed_lines_are_all_counted_again(s, actions.drop_last());
        changed_lines_are_counted_again(all_performed(s, actions.drop_last()), actions.last());
    }
}

/// An update leaves the rows alone that are above every change: they are neither taken away nor
/// given again. Where nothing has changed, it does nothing.
pub proof fn unchanged_rows_are_left_alone(s: ScreenView, displayed: int)
    requires
        s.removed_front <= displayed,
        !s.full_replace,
    ensures
        ({
            let retained = displayed - s.removed_front;
            let update = screen_update(s, displayed);
            &&& update.remove_prefix == s.removed_front
            &&& s.dirty_from is None && s.rows().len() == retained ==> update.rows.len() == 0
                && update.replace_tail == 0
            &&& s.dirty_from matches Some(row) ==> (0 <= row <= s.rows().len() && row <= retained
                ==> update.replace_tail == retained - row && update.rows == s.rows().skip(row))
        }),
{
}

/// A line that leaves at the top is counted if it was shown; a line that was not shown is none that
/// a display has to take away.
pub proof fn only_shown_lines_are_taken_away(s: ScreenView)
    requires
        s.removed_front < usize::MAX,
        s.lines.len() > 0,
    ensures
        s.rows().len() > 0 ==> s.scrolled_once().removed_front == s.removed_front + 1,
        s.rows().len() == 0 ==> s.scrolled_once().removed_front == s.removed_front,
        s.scrolled_once().full_replace == s.full_replace,
{
}

} // verus!
