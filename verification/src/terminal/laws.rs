//! What holds of the terminal view as a whole.

use vstd::prelude::*;
use vstd::utf8::encode_utf8;

use crate::encoding::added_text;
use crate::formatting::rows::RowView;
use crate::model::TextEncoding;
use crate::store::ChunkView;
use crate::terminal::actions::{
    all_performed, csi_dispatched, esc_dispatched, executed, parameter_value, parsed_actions,
    performed, ActionView,
};
use crate::terminal::formatter::{
    screen_update, update_applied, useful_limits, ScreenLimits, TerminalState,
    TERMINAL_DECODE_INPUT_BYTES,
};
use crate::terminal::machine::cut_is_positive;
use crate::terminal::screen::{counted_bytes, counted_total, line_text, min, ScreenView};

verus! {

/// The texts of some rows.
pub open spec fn row_texts(rows: Seq<RowView>) -> Seq<Seq<char>> {
    Seq::new(rows.len(), |i: int| rows[i].text)
}

/// The marks on the screen are right: lines before the first changed one show what was on
/// display before, moved up by the lines that have left.
spec fn tracks(base: Seq<Seq<char>>, s: ScreenView) -> bool {
    s.full_replace || forall|i: int|
        0 <= i < s.lines.len() && (s.dirty_from matches Some(row) ==> i < row) && s.removed_front
            + i < base.len() ==> line_text(#[trigger] s.lines[i]) == base[s.removed_front + i]
}

/// What every control function keeps.
spec fn kept(base: Seq<Seq<char>>, s: ScreenView) -> bool {
    s.wf() && base.len() <= usize::MAX && tracks(base, s)
}

proof fn with_line_keeps(base: Seq<Seq<char>>, s: ScreenView, row: int)
    requires
        kept(base, s),
        0 <= row,
    ensures
        kept(base, s.with_line(row)),
        row < s.with_line(row).lines.len(),
{
    let t = s.with_line(row);
    assert forall|i: int|
        !t.full_replace && 0 <= i < t.lines.len() && (t.dirty_from matches Some(row) ==> i < row)
            && t.removed_front + i < base.len() implies line_text(#[trigger] t.lines[i])
        == base[t.removed_front + i] by {
        assert(t.lines[i] == s.lines[i]);
    }
}

proof fn scrolled_once_keeps(base: Seq<Seq<char>>, s: ScreenView)
    requires
        kept(base, s),
    ensures
        kept(base, s.scrolled_once()),
{
    let t = s.scrolled_once();
    assert forall|i: int|
        !t.full_replace && 0 <= i < t.lines.len() && (t.dirty_from matches Some(row) ==> i < row)
            && t.removed_front + i < base.len() implies line_text(#[trigger] t.lines[i])
        == base[t.removed_front + i] by {
        assert(t.lines[i] == s.lines[i + 1]);
    }
}

proof fn scrolled_off_keeps(base: Seq<Seq<char>>, s: ScreenView, count: int)
    requires
        kept(base, s),
    ensures
        kept(base, s.scrolled_off(count)),
    decreases count,
{
    if count > 0 {
        scrolled_off_keeps(base, s, count - 1);
        scrolled_once_keeps(base, s.scrolled_off(count - 1));
    }
}

proof fn fed_keeps(base: Seq<Seq<char>>, s: ScreenView)
    requires
        kept(base, s),
    ensures
        kept(base, s.fed()),
{
    let t = s.with_line(s.cursor_row);
    with_line_keeps(base, s, s.cursor_row);
    let line = t.cursor_line();
    let seen = if t.cursor_row + 1 == t.lines.len() && line.cells.len() == 0 && !line.completed {
        t.dirty(t.cursor_row)
    } else {
        t
    };
    let ended = ScreenView {
        lines: seen.lines.update(
            seen.cursor_row,
            crate::terminal::screen::LineView { completed: true, ..line },
        ),
        ..seen
    };
    assert(kept(base, ended)) by {
        assert forall|i: int|
            !ended.full_replace && 0 <= i < ended.lines.len() && (ended.dirty_from matches Some(
                row,
            ) ==> i < row) && ended.removed_front + i < base.len() implies line_text(
            #[trigger] ended.lines[i],
        ) == base[ended.removed_front + i] by {
            assert(line_text(ended.lines[i]) == line_text(t.lines[i]));
        }
    }
    scrolled_once_keeps(base, ended);
    let room = if ended.cursor_row >= crate::terminal::screen::MAX_TERMINAL_ROWS - 1 {
        ended.scrolled_once()
    } else {
        ended
    };
    let next = ScreenView {
        cursor_row: min(room.cursor_row + 1, crate::terminal::screen::MAX_TERMINAL_ROWS - 1),
        ..room
    };
    with_line_keeps(base, next, next.cursor_row);
}

proof fn executed_keeps(base: Seq<Seq<char>>, s: ScreenView, byte: u8)
    requires
        kept(base, s),
    ensures
        kept(base, executed(s, byte)),
{
    fed_keeps(base, s);
}

proof fn line_erased_keeps(base: Seq<Seq<char>>, s: ScreenView, mode: int)
    requires
        kept(base, s),
    ensures
        kept(base, s.line_erased(mode)),
{
    with_line_keeps(base, s, s.cursor_row);
}

proof fn display_erased_keeps(base: Seq<Seq<char>>, s: ScreenView, mode: int)
    requires
        kept(base, s),
    ensures
        kept(base, s.display_erased(mode)),
{
    with_line_keeps(base, s, s.cursor_row);
    line_erased_keeps(base, s, 0);
    if mode == 1 {
        let t = s.with_line(s.cursor_row).dirty(0);
        let u = ScreenView {
            lines: Seq::new(
                t.lines.len(),
                |i: int|
                    if i < t.cursor_row {
                        crate::terminal::screen::emptied(t.lines[i])
                    } else {
                        t.lines[i]
                    },
            ),
            ..t
        };
        assert(kept(base, u));
        line_erased_keeps(base, u, 1);
    }
}

proof fn placed_keeps(base: Seq<Seq<char>>, s: ScreenView, row: int, col: int)
    requires
        kept(base, s),
        0 <= row,
        0 <= col,
    ensures
        kept(base, s.placed(row, col)),
{
    let t = s.moved_to(row, col);
    assert(kept(base, t));
    with_line_keeps(base, t, t.cursor_row);
}

proof fn scrolled_up_keeps(base: Seq<Seq<char>>, s: ScreenView, count: int)
    requires
        kept(base, s),
    ensures
        kept(base, s.scrolled_up(count)),
{
    let n = min(count, s.lines.len() as int);
    scrolled_off_keeps(base, s, n);
    with_line_keeps(base, s.scrolled_off(n), s.scrolled_off(n).cursor_row);
}

proof fn lines_changed_keeps(base: Seq<Seq<char>>, s: ScreenView, count: int)
    requires
        kept(base, s),
        0 <= count,
    ensures
        kept(base, s.lines_inserted(count)),
        kept(base, s.lines_deleted(count)),
        kept(base, s.scrolled_down(count)),
        kept(base, s.index_reversed()),
{
    with_line_keeps(base, s, s.cursor_row);
    let t = s.with_line(s.cursor_row).dirty(s.cursor_row);
    let a = s.lines_inserted(count);
    assert(forall|i: int| 0 <= i < t.cursor_row ==> a.lines[i] == t.lines[i]);
    let d = s.lines_deleted(count);
    assert(forall|i: int| 0 <= i < t.cursor_row ==> d.lines[i] == t.lines[i]);
}

proof fn chars_changed_keeps(base: Seq<Seq<char>>, s: ScreenView, count: int)
    requires
        kept(base, s),
        0 <= count,
    ensures
        kept(base, s.chars_inserted(count)),
        kept(base, s.chars_deleted(count)),
        kept(base, s.chars_erased(count)),
{
    with_line_keeps(base, s, s.cursor_row);
}

proof fn csi_dispatched_keeps(
    base: Seq<Seq<char>>,
    s: ScreenView,
    params: Seq<Seq<u16>>,
    action: char,
)
    requires
        kept(base, s),
    ensures
        kept(base, csi_dispatched(s, params, action)),
{
    let n = parameter_value(params, 0, 1);
    match action {
        'B' | 'e' | 'E' => {
            placed_keeps(base, s, s.cursor_row + n, s.cursor_col);
            cursor_moved_keeps(base, s.down(n), n);
        },
        'A' | 'C' | 'a' | 'D' | 'F' | 'G' | '`' | 's' => {
            cursor_moved_keeps(base, s, n);
            cursor_moved_keeps(base, s.up(n), n);
        },
        'H' | 'f' => placed_keeps(base, s, n - 1, parameter_value(params, 1, 1) - 1),
        'd' => placed_keeps(base, s, n - 1, s.cursor_col),
        'J' => display_erased_keeps(base, s, parameter_value(params, 0, 0)),
        'K' => line_erased_keeps(base, s, parameter_value(params, 0, 0)),
        '@' | 'P' | 'X' => chars_changed_keeps(base, s, n),
        'L' | 'M' | 'T' => lines_changed_keeps(base, s, n),
        'S' => scrolled_up_keeps(base, s, n),
        'u' => restored_keeps(base, s),
        _ => {},
    }
}

proof fn cursor_moved_keeps(base: Seq<Seq<char>>, s: ScreenView, n: int)
    requires
        kept(base, s),
        1 <= n,
    ensures
        kept(base, s.up(n)),
        kept(base, s.forward(n)),
        kept(base, s.back(n)),
        kept(base, s.returned()),
        kept(base, s.moved_to(s.cursor_row, n - 1)),
        kept(base, s.saved()),
{
}

proof fn restored_keeps(base: Seq<Seq<char>>, s: ScreenView)
    requires
        kept(base, s),
    ensures
        kept(base, s.restored()),
{
    if let Some(saved) = s.saved_cursor {
        placed_keeps(base, s, saved.0, saved.1);
    }
}

proof fn esc_dispatched_keeps(base: Seq<Seq<char>>, s: ScreenView, byte: u8)
    requires
        kept(base, s),
    ensures
        kept(base, esc_dispatched(s, byte)),
{
    restored_keeps(base, s);
    fed_keeps(base, s);
    assert(kept(base, s.returned()));
    fed_keeps(base, s.returned());
    lines_changed_keeps(base, s, 1);
}

proof fn printed_keeps(base: Seq<Seq<char>>, s: ScreenView, c: char)
    requires
        kept(base, s),
    ensures
        kept(base, s.printed(c)),
{
    with_line_keeps(base, s, s.cursor_row);
}

proof fn performed_keeps(base: Seq<Seq<char>>, s: ScreenView, action: ActionView)
    requires
        kept(base, s),
    ensures
        kept(base, performed(s, action)),
{
    match action {
        ActionView::Print(c) => printed_keeps(base, s, c),
        ActionView::Execute(byte) => executed_keeps(base, s, byte),
        ActionView::Csi { params, ignore, action } => csi_dispatched_keeps(
            base,
            s,
            params,
            action,
        ),
        ActionView::Esc { intermediates, ignore, byte } => esc_dispatched_keeps(base, s, byte),
    }
}

proof fn all_performed_keeps(base: Seq<Seq<char>>, s: ScreenView, actions: Seq<ActionView>)
    requires
        kept(base, s),
    ensures
        kept(base, all_performed(s, actions)),
    decreases actions.len(),
{
    if actions.len() > 0 {
        all_performed_keeps(base, s, actions.drop_last());
        performed_keeps(base, all_performed(s, actions.drop_last()), actions.last());
    }
}

proof fn lines_settled_keeps(base: Seq<Seq<char>>, s: ScreenView, max_line_bytes: usize)
    requires
        kept(base, s),
        max_line_bytes > 0,
    ensures
        kept(base, s.lines_settled(max_line_bytes)),
{
    let t = s.lines_settled(max_line_bytes);
    if let Some(from) = s.byte_dirty_from {
        if from <= s.cursor_row < s.lines.len() && counted_bytes(s.lines[s.cursor_row].cells)
            > max_line_bytes {
            cut_is_positive(s.lines[s.cursor_row].cells, max_line_bytes);
        }
        if let Some(saved) = s.saved_cursor {
            if from <= saved.0 < s.lines.len() && counted_bytes(s.lines[saved.0].cells)
                > max_line_bytes {
                cut_is_positive(s.lines[saved.0].cells, max_line_bytes);
            }
        }
        assert(t.wf());
        assert forall|i: int|
            !t.full_replace && 0 <= i < t.lines.len() && (t.dirty_from matches Some(row) ==> i
                < row) && t.removed_front + i < base.len() implies line_text(#[trigger] t.lines[i])
            == base[t.removed_front + i] by {
            assert(t.lines[i] == s.lines[i]);
        }
    }
}

proof fn pruned_keeps(
    base: Seq<Seq<char>>,
    s: ScreenView,
    max_rows: usize,
    max_text_bytes: usize,
)
    requires
        kept(base, s),
    ensures
        kept(base, s.pruned(max_rows, max_text_bytes)),
    decreases s.lines.len(),
{
    if s.lines.len() > 0 && s.exceeds(max_rows, max_text_bytes) {
        scrolled_once_keeps(base, s);
        pruned_keeps(base, s.scrolled_once(), max_rows, max_text_bytes);
    }
}

proof fn within_keeps(base: Seq<Seq<char>>, state: TerminalState, limits: ScreenLimits)
    requires
        kept(base, state.screen),
        limits.max_line_bytes > 0,
    ensures
        kept(base, state.within(limits).screen),
{
    let settled = state.screen.lines_settled(limits.max_line_bytes);
    lines_settled_keeps(base, state.screen, limits.max_line_bytes);
    pruned_keeps(base, settled, limits.max_rows, limits.max_text_bytes);
}

proof fn bytes_drawn_keeps(
    base: Seq<Seq<char>>,
    state: TerminalState,
    encoding: TextEncoding,
    limits: ScreenLimits,
    bytes: Seq<u8>,
)
    requires
        kept(base, state.screen),
        limits.max_line_bytes > 0,
    ensures
        kept(base, state.bytes_drawn(encoding, limits, bytes).screen),
    decreases bytes.len(),
{
    if bytes.len() > 0 {
        let len = min(bytes.len() as int, TERMINAL_DECODE_INPUT_BYTES as int);
        piece_drawn_keeps(base, state, encoding, limits, bytes.take(len));
        bytes_drawn_keeps(
            base,
            state.piece_drawn(encoding, limits, bytes.take(len)),
            encoding,
            limits,
            bytes.skip(len),
        );
    }
}

proof fn piece_drawn_keeps(
    base: Seq<Seq<char>>,
    state: TerminalState,
    encoding: TextEncoding,
    limits: ScreenLimits,
    piece: Seq<u8>,
)
    requires
        kept(base, state.screen),
        limits.max_line_bytes > 0,
    ensures
        kept(base, state.piece_drawn(encoding, limits, piece).screen),
{
    reveal(TerminalState::piece_drawn);
    let text = encode_utf8(added_text(encoding, state.input, piece));
    let drawn = TerminalState {
        input: state.input + piece,
        parsed: state.parsed.push(text),
        screen: all_performed(state.screen, parsed_actions(state.parsed, text)),
        ..state
    };
    all_performed_keeps(base, state.screen, parsed_actions(state.parsed, text));
    within_keeps(base, drawn, limits);
}

proof fn chunks_drawn_keeps(
    base: Seq<Seq<char>>,
    state: TerminalState,
    encoding: TextEncoding,
    limits: ScreenLimits,
    chunks: Seq<ChunkView>,
)
    requires
        kept(base, state.screen),
        limits.max_line_bytes > 0,
    ensures
        kept(base, state.chunks_drawn(encoding, limits, chunks).screen),
    decreases chunks.len(),
{
    if chunks.len() > 0 {
        chunks_drawn_keeps(base, state, encoding, limits, chunks.drop_last());
        let before = state.chunks_drawn(encoding, limits, chunks.drop_last());
        let at = chunks.last().received_at;
        bytes_drawn_keeps(
            base,
            TerminalState { screen: before.screen.at(at), ..before },
            encoding,
            limits,
            chunks.last().bytes,
        );
    }
}

proof fn updated_keeps(
    base: Seq<Seq<char>>,
    state: TerminalState,
    encoding: TextEncoding,
    limits: ScreenLimits,
    chunks: Seq<ChunkView>,
)
    requires
        state.screen.wf(),
        base == row_texts(state.screen.rows()),
        base.len() <= usize::MAX,
    ensures
        kept(base, state.updated(encoding, limits, chunks).screen),
{
    let useful = useful_limits(limits);
    let begun = TerminalState { screen: state.screen.begun(), ..state };
    assert(kept(base, begun.screen));
    chunks_drawn_keeps(base, begun, encoding, useful, chunks);
    within_keeps(base, begun.chunks_drawn(encoding, useful, chunks), useful);
}

/// An update of the terminal turns the texts that were on display into the texts of the screen,
/// whenever it announces as many rows as the screen has: a blank last line that comes into view
/// because the cursor moved below it is left out of an update.
pub proof fn updates_show_the_screen(
    shown: Seq<RowView>,
    state: TerminalState,
    encoding: TextEncoding,
    limits: ScreenLimits,
    chunks: Seq<ChunkView>,
)
    requires
        state.screen.wf(),
        row_texts(shown) == row_texts(state.screen.rows()),
        shown.len() <= usize::MAX,
        ({
            let after = state.updated(encoding, limits, chunks).screen;
            let update = screen_update(after, shown.len() as int);
            shown.len() - update.remove_prefix - update.replace_tail + update.rows.len()
                == after.rendered_len()
        }),
    ensures
        ({
            let after = state.updated(encoding, limits, chunks).screen;
            let update = screen_update(after, shown.len() as int);
            row_texts(update_applied(shown, update)) == row_texts(after.rows())
        }),
{
    let base = row_texts(shown);
    updated_keeps(base, state, encoding, limits, chunks);
    let s = state.updated(encoding, limits, chunks).screen;
    let update = screen_update(s, shown.len() as int);
    let result = update_applied(shown, update);
    assert(result.len() == s.rows().len());
    assert forall|i: int| 0 <= i < result.len() implies #[trigger] result[i].text
        == s.rows()[i].text by {
        if !s.full_replace {
            let start = s.rendered_len() - update.rows.len();
            if i < start {
                assert(result[i] == shown[update.remove_prefix + i]);
                assert(base[s.removed_front + i] == shown[s.removed_front + i].text);
                assert(line_text(s.lines[i]) == base[s.removed_front + i]);
            }
        }
    }
    assert(row_texts(result) == row_texts(s.rows()));
}

/// Two screens that differ at most in the marks of the current update.
pub open spec fn same_picture(s: ScreenView, t: ScreenView) -> bool {
    &&& s.lines == t.lines
    &&& s.cursor_row == t.cursor_row
    &&& s.cursor_col == t.cursor_col
    &&& s.saved_cursor == t.saved_cursor
    &&& s.received_at == t.received_at
    &&& s.byte_dirty_from == t.byte_dirty_from
}

proof fn scrolled_off_same(s: ScreenView, t: ScreenView, count: int)
    requires
        same_picture(s, t),
    ensures
        same_picture(s.scrolled_off(count), t.scrolled_off(count)),
    decreases count,
{
    if count > 0 {
        scrolled_off_same(s, t, count - 1);
    }
}

proof fn moves_same(s: ScreenView, t: ScreenView, n: int)
    requires
        same_picture(s, t),
    ensures
        same_picture(s.up(n), t.up(n)),
        same_picture(s.forward(n), t.forward(n)),
        same_picture(s.back(n), t.back(n)),
        same_picture(s.returned(), t.returned()),
        same_picture(s.moved_to(s.cursor_row, n - 1), t.moved_to(t.cursor_row, n - 1)),
        same_picture(s.saved(), t.saved()),
        same_picture(s.backed(), t.backed()),
        same_picture(s.tabbed(), t.tabbed()),
{
}

proof fn placed_same(s: ScreenView, t: ScreenView, row: int, col: int)
    requires
        same_picture(s, t),
    ensures
        same_picture(s.placed(row, col), t.placed(row, col)),
{
}

proof fn line_erased_same(s: ScreenView, t: ScreenView, mode: int)
    requires
        same_picture(s, t),
    ensures
        same_picture(s.line_erased(mode), t.line_erased(mode)),
{
}

proof fn display_erased_same(s: ScreenView, t: ScreenView, mode: int)
    requires
        same_picture(s, t),
    ensures
        same_picture(s.display_erased(mode), t.display_erased(mode)),
{
    line_erased_same(s, t, 0);
}

proof fn chars_changed_same(s: ScreenView, t: ScreenView, n: int)
    requires
        same_picture(s, t),
    ensures
        same_picture(s.chars_inserted(n), t.chars_inserted(n)),
        same_picture(s.chars_deleted(n), t.chars_deleted(n)),
        same_picture(s.chars_erased(n), t.chars_erased(n)),
{
}

proof fn lines_changed_same(s: ScreenView, t: ScreenView, n: int)
    requires
        same_picture(s, t),
    ensures
        same_picture(s.lines_inserted(n), t.lines_inserted(n)),
        same_picture(s.lines_deleted(n), t.lines_deleted(n)),
        same_picture(s.scrolled_down(n), t.scrolled_down(n)),
        same_picture(s.index_reversed(), t.index_reversed()),
        same_picture(s.cleared(), t.cleared()),
{
}

proof fn fed_same(s: ScreenView, t: ScreenView)
    requires
        same_picture(s, t),
    ensures
        same_picture(s.fed(), t.fed()),
{
}

proof fn printed_same(s: ScreenView, t: ScreenView, c: char)
    requires
        same_picture(s, t),
    ensures
        same_picture(s.printed(c), t.printed(c)),
{
}

proof fn restored_same(s: ScreenView, t: ScreenView)
    requires
        same_picture(s, t),
    ensures
        same_picture(s.restored(), t.restored()),
{
    if let Some(saved) = s.saved_cursor {
        placed_same(s, t, saved.0, saved.1);
    }
}

proof fn csi_dispatched_same(s: ScreenView, t: ScreenView, params: Seq<Seq<u16>>, action: char)
    requires
        same_picture(s, t),
    ensures
        same_picture(csi_dispatched(s, params, action), csi_dispatched(t, params, action)),
{
    let n = parameter_value(params, 0, 1);
    match action {
        'B' | 'e' | 'E' => {
            placed_same(s, t, s.cursor_row + n, s.cursor_col);
            moves_same(s.down(n), t.down(n), n);
        },
        'A' | 'C' | 'a' | 'D' | 'F' | 'G' | '`' | 's' => {
            moves_same(s, t, n);
            moves_same(s.up(n), t.up(n), n);
        },
        'H' | 'f' => placed_same(s, t, n - 1, parameter_value(params, 1, 1) - 1),
        'd' => placed_same(s, t, n - 1, s.cursor_col),
        'J' => display_erased_same(s, t, parameter_value(params, 0, 0)),
        'K' => line_erased_same(s, t, parameter_value(params, 0, 0)),
        '@' | 'P' | 'X' => chars_changed_same(s, t, n),
        'L' | 'M' | 'T' => lines_changed_same(s, t, n),
        'S' => scrolled_off_same(s, t, min(n, s.lines.len() as int)),
        'u' => restored_same(s, t),
        _ => {},
    }
}

proof fn esc_dispatched_same(s: ScreenView, t: ScreenView, byte: u8)
    requires
        same_picture(s, t),
    ensures
        same_picture(esc_dispatched(s, byte), esc_dispatched(t, byte)),
{
    restored_same(s, t);
    fed_same(s, t);
    moves_same(s, t, 1);
    fed_same(s.returned(), t.returned());
    lines_changed_same(s, t, 1);
}

proof fn performed_same(s: ScreenView, t: ScreenView, action: ActionView)
    requires
        same_picture(s, t),
    ensures
        same_picture(performed(s, action), performed(t, action)),
{
    match action {
        ActionView::Print(c) => printed_same(s, t, c),
        ActionView::Execute(byte) => {
            moves_same(s, t, 1);
            fed_same(s, t);
        },
        ActionView::Csi { params, ignore, action } => csi_dispatched_same(s, t, params, action),
        ActionView::Esc { intermediates, ignore, byte } => esc_dispatched_same(s, t, byte),
    }
}

proof fn all_performed_same(s: ScreenView, t: ScreenView, actions: Seq<ActionView>)
    requires
        same_picture(s, t),
    ensures
        same_picture(all_performed(s, actions), all_performed(t, actions)),
    decreases actions.len(),
{
    if actions.len() > 0 {
        all_performed_same(s, t, actions.drop_last());
        performed_same(
            all_performed(s, actions.drop_last()),
            all_performed(t, actions.drop_last()),
            actions.last(),
        );
    }
}

proof fn pruned_same(s: ScreenView, t: ScreenView, max_rows: usize, max_text_bytes: usize)
    requires
        same_picture(s, t),
    ensures
        same_picture(s.pruned(max_rows, max_text_bytes), t.pruned(max_rows, max_text_bytes)),
    decreases s.lines.len(),
{
    if s.lines.len() > 0 && s.exceeds(max_rows, max_text_bytes) {
        pruned_same(s.scrolled_once(), t.scrolled_once(), max_rows, max_text_bytes);
    }
}

/// Two states that differ at most in the marks of the current update.
pub open spec fn same_state(a: TerminalState, b: TerminalState) -> bool {
    &&& a.input == b.input
    &&& a.parsed == b.parsed
    &&& a.limited == b.limited
    &&& same_picture(a.screen, b.screen)
}

proof fn within_same(a: TerminalState, b: TerminalState, limits: ScreenLimits)
    requires
        same_state(a, b),
    ensures
        same_state(a.within(limits), b.within(limits)),
{
    pruned_same(
        a.screen.lines_settled(limits.max_line_bytes),
        b.screen.lines_settled(limits.max_line_bytes),
        limits.max_rows,
        limits.max_text_bytes,
    );
}

proof fn piece_drawn_same(
    a: TerminalState,
    b: TerminalState,
    encoding: TextEncoding,
    limits: ScreenLimits,
    piece: Seq<u8>,
)
    requires
        same_state(a, b),
    ensures
        same_state(
            a.piece_drawn(encoding, limits, piece),
            b.piece_drawn(encoding, limits, piece),
        ),
{
    reveal(TerminalState::piece_drawn);
    let text = encode_utf8(added_text(encoding, a.input, piece));
    let actions = parsed_actions(a.parsed, text);
    all_performed_same(a.screen, b.screen, actions);
    within_same(
        TerminalState {
            input: a.input + piece,
            parsed: a.parsed.push(text),
            screen: all_performed(a.screen, actions),
            ..a
        },
        TerminalState {
            input: b.input + piece,
            parsed: b.parsed.push(text),
            screen: all_performed(b.screen, actions),
            ..b
        },
        limits,
    );
}

proof fn bytes_drawn_same(
    a: TerminalState,
    b: TerminalState,
    encoding: TextEncoding,
    limits: ScreenLimits,
    bytes: Seq<u8>,
)
    requires
        same_state(a, b),
    ensures
        same_state(
            a.bytes_drawn(encoding, limits, bytes),
            b.bytes_drawn(encoding, limits, bytes),
        ),
    decreases bytes.len(),
{
    if bytes.len() > 0 {
        let len = min(bytes.len() as int, TERMINAL_DECODE_INPUT_BYTES as int);
        piece_drawn_same(a, b, encoding, limits, bytes.take(len));
        bytes_drawn_same(
            a.piece_drawn(encoding, limits, bytes.take(len)),
            b.piece_drawn(encoding, limits, bytes.take(len)),
            encoding,
            limits,
            bytes.skip(len),
        );
    }
}

proof fn chunks_drawn_same(
    a: TerminalState,
    b: TerminalState,
    encoding: TextEncoding,
    limits: ScreenLimits,
    chunks: Seq<ChunkView>,
)
    requires
        same_state(a, b),
    ensures
        same_state(
            a.chunks_drawn(encoding, limits, chunks),
            b.chunks_drawn(encoding, limits, chunks),
        ),
    decreases chunks.len(),
{
    if chunks.len() > 0 {
        chunks_drawn_same(a, b, encoding, limits, chunks.drop_last());
        let x = a.chunks_drawn(encoding, limits, chunks.drop_last());
        let y = b.chunks_drawn(encoding, limits, chunks.drop_last());
        let at = chunks.last().received_at;
        bytes_drawn_same(
            TerminalState { screen: x.screen.at(at), ..x },
            TerminalState { screen: y.screen.at(at), ..y },
            encoding,
            limits,
            chunks.last().bytes,
        );
    }
}

/// A screen whose limits were enforced: no line waits to be counted, and it is small enough.
pub open spec fn is_settled(s: ScreenView, limits: ScreenLimits) -> bool {
    s.byte_dirty_from is None && !s.exceeds(limits.max_rows, limits.max_text_bytes)
}

proof fn pruned_is_small(s: ScreenView, max_rows: usize, max_text_bytes: usize)
    ensures
        !s.pruned(max_rows, max_text_bytes).exceeds(max_rows, max_text_bytes),
    decreases s.lines.len(),
{
    if s.lines.len() > 0 && s.exceeds(max_rows, max_text_bytes) {
        pruned_is_small(s.scrolled_once(), max_rows, max_text_bytes);
    }
}

/// Enforcing the limits leaves a screen within them.
pub proof fn limits_hold_after_enforcement(state: TerminalState, limits: ScreenLimits)
    ensures
        is_settled(state.within(limits).screen, limits),
        state.within(limits).screen.rendered_len() <= limits.max_rows,
        counted_total(state.within(limits).screen.lines) <= limits.max_text_bytes,
{
    pruned_is_small(
        state.screen.lines_settled(limits.max_line_bytes),
        limits.max_rows,
        limits.max_text_bytes,
    );
}

proof fn settled_is_within(state: TerminalState, limits: ScreenLimits)
    requires
        is_settled(state.screen, limits),
    ensures
        state.within(limits) == state,
{
}

proof fn bytes_drawn_settled(
    state: TerminalState,
    encoding: TextEncoding,
    limits: ScreenLimits,
    bytes: Seq<u8>,
)
    requires
        is_settled(state.screen, limits),
    ensures
        is_settled(state.bytes_drawn(encoding, limits, bytes).screen, limits),
    decreases bytes.len(),
{
    if bytes.len() > 0 {
        let len = min(bytes.len() as int, TERMINAL_DECODE_INPUT_BYTES as int);
        let text = encode_utf8(added_text(encoding, state.input, bytes.take(len)));
        let drawn = TerminalState {
            input: state.input + bytes.take(len),
            parsed: state.parsed.push(text),
            screen: all_performed(state.screen, parsed_actions(state.parsed, text)),
            ..state
        };
        assert(state.piece_drawn(encoding, limits, bytes.take(len)) == drawn.within(limits)) by {
            reveal(TerminalState::piece_drawn);
        }
        limits_hold_after_enforcement(drawn, limits);
        bytes_drawn_settled(drawn.within(limits), encoding, limits, bytes.skip(len));
    }
}

proof fn chunks_drawn_settled(
    state: TerminalState,
    encoding: TextEncoding,
    limits: ScreenLimits,
    chunks: Seq<ChunkView>,
)
    requires
        is_settled(state.screen, limits),
    ensures
        is_settled(state.chunks_drawn(encoding, limits, chunks).screen, limits),
    decreases chunks.len(),
{
    if chunks.len() > 0 {
        chunks_drawn_settled(state, encoding, limits, chunks.drop_last());
        let x = state.chunks_drawn(encoding, limits, chunks.drop_last());
        bytes_drawn_settled(
            TerminalState { screen: x.screen.at(chunks.last().received_at), ..x },
            encoding,
            limits,
            chunks.last().bytes,
        );
    }
}

proof fn chunks_drawn_concat(
    state: TerminalState,
    encoding: TextEncoding,
    limits: ScreenLimits,
    a: Seq<ChunkView>,
    b: Seq<ChunkView>,
)
    ensures
        state.chunks_drawn(encoding, limits, a + b) == state.chunks_drawn(
            encoding,
            limits,
            a,
        ).chunks_drawn(encoding, limits, b),
    decreases b.len(),
{
    if b.len() == 0 {
        assert(a + b == a);
    } else {
        assert((a + b).drop_last() == a + b.drop_last());
        chunks_drawn_concat(state, encoding, limits, a, b.drop_last());
    }
}

/// Drawing chunks in two updates gives the picture that drawing them in one gives.
pub proof fn updates_may_be_split(
    state: TerminalState,
    encoding: TextEncoding,
    limits: ScreenLimits,
    a: Seq<ChunkView>,
    b: Seq<ChunkView>,
)
    requires
        is_settled(state.screen, useful_limits(limits)),
    ensures
        same_state(
            state.updated(encoding, limits, a).updated(encoding, limits, b),
            state.updated(encoding, limits, a + b),
        ),
        state.updated(encoding, limits, a).updated(encoding, limits, b).screen.rows()
            == state.updated(encoding, limits, a + b).screen.rows(),
{
    let useful = useful_limits(limits);
    let begun = TerminalState { screen: state.screen.begun(), ..state };
    let first = begun.chunks_drawn(encoding, useful, a);
    chunks_drawn_settled(begun, encoding, useful, a);
    settled_is_within(first, useful);
    let again = TerminalState { screen: first.screen.begun(), ..first };
    assert(same_state(again, first));
    chunks_drawn_same(again, first, encoding, useful, b);
    chunks_drawn_concat(begun, encoding, useful, a, b);
    within_same(
        again.chunks_drawn(encoding, useful, b),
        first.chunks_drawn(encoding, useful, b),
        useful,
    );
}

/// An update leaves a screen within the limits.
pub proof fn updates_respect_the_limits(
    state: TerminalState,
    encoding: TextEncoding,
    limits: ScreenLimits,
    chunks: Seq<ChunkView>,
)
    ensures
        ({
            let useful = useful_limits(limits);
            let after = state.updated(encoding, limits, chunks).screen;
            &&& is_settled(after, useful)
            &&& after.rendered_len() <= useful.max_rows
            &&& counted_total(after.lines) <= useful.max_text_bytes
        }),
{
    let useful = useful_limits(limits);
    limits_hold_after_enforcement(
        TerminalState { screen: state.screen.begun(), ..state }.chunks_drawn(
            encoding,
            useful,
            chunks,
        ),
        useful,
    );
}

} // verus!
