//! Plain text on the terminal screen.

use vstd::prelude::*;
use vstd::utf8::encode_utf8;

use crate::encoding::{added_text, utf8_reads_as_itself};
use crate::model::TextEncoding;
use crate::store::{joined_bytes, ChunkView};
use crate::terminal::actions::{
    all_performed, all_plain, parsed_actions, performed, plain_action, plain_actions, ActionView,
};
use crate::terminal::formatter::{
    fresh_terminal, useful_limits, ScreenLimits, TerminalState, TERMINAL_DECODE_INPUT_BYTES,
};
use crate::terminal::laws::row_texts;
use crate::terminal::screen::{
    line_text, min, without_nul, without_trailing_spaces, ScreenView, MAX_TERMINAL_COLUMNS,
    MAX_TERMINAL_ROWS,
};
use crate::timestamp::Timestamp;

verus! {

/// The lines of a text, the last one still open.
#[verifier::ext_equal]
pub struct PlainText {
    pub done: Seq<Seq<char>>,
    pub open: Seq<char>,
    /// The line is being ended: a carriage return has come, and its line feed has not.
    pub returned: bool,
}

pub open spec fn with_byte(text: PlainText, byte: u8) -> PlainText {
    if byte == 0x0d {
        PlainText { returned: true, ..text }
    } else if byte == 0x0a {
        PlainText { done: text.done.push(text.open), open: Seq::empty(), returned: false }
    } else {
        PlainText { open: text.open.push(byte as char), ..text }
    }
}

/// The lines that bytes amount to.
pub open spec fn plain_text(bytes: Seq<u8>) -> PlainText
    decreases bytes.len(),
{
    if bytes.len() == 0 {
        PlainText { done: Seq::empty(), open: Seq::empty(), returned: false }
    } else {
        with_byte(plain_text(bytes.drop_last()), bytes.last())
    }
}

/// A text goes on with a printable ASCII character, or with a carriage return and a line feed, as
/// far as a screen reaches.
pub open spec fn goes_on_with(text: PlainText, byte: u8) -> bool {
    if byte == 0x0d {
        !text.returned
    } else if byte == 0x0a {
        text.returned && text.done.len() + 1 < MAX_TERMINAL_ROWS
    } else {
        0x20 <= byte <= 0x7e && !text.returned && text.open.len() < MAX_TERMINAL_COLUMNS
    }
}

/// Printable ASCII in lines that a carriage return and a line feed end.
pub open spec fn is_plain_text(bytes: Seq<u8>) -> bool
    decreases bytes.len(),
{
    bytes.len() > 0 ==> is_plain_text(bytes.drop_last()) && goes_on_with(
        plain_text(bytes.drop_last()),
        bytes.last(),
    )
}

/// The lines that a screen shows of a text: spaces at their ends cannot be seen.
pub open spec fn visible_lines(text: PlainText) -> Seq<Seq<char>> {
    let done = Seq::new(text.done.len(), |i: int| without_trailing_spaces(text.done[i]));
    if text.open.len() > 0 {
        done.push(without_trailing_spaces(text.open))
    } else {
        done
    }
}

spec fn no_nul(cells: Seq<char>) -> bool {
    forall|i: int| 0 <= i < cells.len() ==> #[trigger] cells[i] != '\0'
}

/// The screen holds a text, with the cursor at its end.
spec fn holds(s: ScreenView, text: PlainText) -> bool {
    let count = text.done.len() as int;
    &&& s.cursor_row == count < MAX_TERMINAL_ROWS
    &&& s.cursor_col == if text.returned {
        0
    } else {
        text.open.len() as int
    }
    &&& text.open.len() <= MAX_TERMINAL_COLUMNS
    &&& s.lines.len() == count + 1 || (s.lines.len() == 0 && count == 0 && text.open.len() == 0)
    &&& s.lines.len() > 0 ==> s.lines[count].cells == text.open && !s.lines[count].completed
    &&& forall|i: int|
        0 <= i < count ==> (#[trigger] s.lines[i]).cells == text.done[i] && s.lines[i].completed
            && no_nul(text.done[i])
    &&& no_nul(text.open)
}

proof fn printing_holds(s: ScreenView, text: PlainText, byte: u8)
    requires
        holds(s, text),
        goes_on_with(text, byte),
        byte != 0x0d,
        byte != 0x0a,
    ensures
        holds(s.printed(byte as char), with_byte(text, byte)),
{
    let c = byte as char;
    let t = s.with_line(s.cursor_row);
    let cells = t.cursor_line().cells;
    assert(cells == text.open);
    let after = s.printed(c);
    assert(after.lines[s.cursor_row].cells == cells.push(c));
    assert forall|i: int| 0 <= i < text.done.len() implies after.lines[i] == s.lines[i] by {}
}

proof fn feeding_holds(s: ScreenView, text: PlainText)
    requires
        holds(s, text),
        goes_on_with(text, 0x0a),
    ensures
        holds(s.fed(), with_byte(text, 0x0a)),
{
    let t = s.with_line(s.cursor_row);
    assert(t.cursor_line().cells == text.open);
    let after = s.fed();
    let done = with_byte(text, 0x0a).done;
    assert(after.lines.len() == t.lines.len() + 1);
    assert forall|i: int| 0 <= i < done.len() implies (#[trigger] after.lines[i]).cells == done[i]
        && after.lines[i].completed && no_nul(done[i]) by {
        if i < text.done.len() {
            assert(after.lines[i] == s.lines[i]);
        }
    }
}

proof fn a_byte_holds(s: ScreenView, text: PlainText, byte: u8)
    requires
        holds(s, text),
        goes_on_with(text, byte),
    ensures
        holds(performed(s, plain_action(byte)), with_byte(text, byte)),
{
    if byte == 0x0a {
        feeding_holds(s, text);
    } else if byte != 0x0d {
        printing_holds(s, text, byte);
    }
}

proof fn bytes_hold(s: ScreenView, before: Seq<u8>, bytes: Seq<u8>)
    requires
        holds(s, plain_text(before)),
        is_plain_text(before + bytes),
    ensures
        holds(all_performed(s, plain_actions(bytes)), plain_text(before + bytes)),
        is_plain_text(before),
    decreases bytes.len(),
{
    if bytes.len() == 0 {
        assert(before + bytes == before);
        assert(plain_actions(bytes) == Seq::<ActionView>::empty());
    } else {
        assert((before + bytes).drop_last() == before + bytes.drop_last());
        bytes_hold(s, before, bytes.drop_last());
        assert(plain_actions(bytes).drop_last() == plain_actions(bytes.drop_last()));
        a_byte_holds(
            all_performed(s, plain_actions(bytes.drop_last())),
            plain_text(before + bytes.drop_last()),
            bytes.last(),
        );
    }
}

proof fn limits_hold(state: TerminalState, limits: ScreenLimits, text: PlainText)
    requires
        holds(state.screen, text),
        !state.within(limits).limited,
    ensures
        holds(state.within(limits).screen, text),
{
    let s = state.screen;
    let settled = s.lines_settled(limits.max_line_bytes);
    assert forall|i: int| 0 <= i < s.lines.len() implies (#[trigger] settled.lines[i]).cells
        == s.lines[i].cells && settled.lines[i].completed == s.lines[i].completed by {}
    assert(holds(settled, text));
}

/// The characters of ASCII bytes.
spec fn ascii_chars(bytes: Seq<u8>) -> Seq<char> {
    Seq::new(bytes.len(), |i: int| bytes[i] as char)
}

proof fn ascii_is_utf8(bytes: Seq<u8>)
    requires
        forall|i: int| 0 <= i < bytes.len() ==> #[trigger] bytes[i] < 0x80,
    ensures
        encode_utf8(ascii_chars(bytes)) == bytes,
    decreases bytes.len(),
{
    if bytes.len() > 0 {
        let rest = bytes.drop_first();
        assert forall|i: int| 0 <= i < rest.len() implies #[trigger] rest[i] < 0x80 by {
            assert(rest[i] == bytes[i + 1]);
        }
        ascii_is_utf8(rest);
        assert(ascii_chars(bytes).drop_first() == ascii_chars(rest));
        let byte = bytes[0];
        let scalar = byte as u32;
        assert((scalar & 0x7f) as u8 == byte) by (bit_vector)
            requires
                scalar == byte as u32,
                byte < 0x80,
        ;
        assert(ascii_chars(bytes)[0] as u32 == scalar);
        assert(encode_utf8(ascii_chars(bytes)) == seq![byte] + encode_utf8(ascii_chars(rest)));
        assert(seq![byte] + rest == bytes);
    }
}

proof fn plain_text_is_ascii(bytes: Seq<u8>)
    requires
        is_plain_text(bytes),
    ensures
        forall|i: int| 0 <= i < bytes.len() ==> #[trigger] bytes[i] < 0x80 && bytes[i] != 0x1b,
    decreases bytes.len(),
{
    if bytes.len() > 0 {
        plain_text_is_ascii(bytes.drop_last());
        assert forall|i: int| 0 <= i < bytes.len() implies #[trigger] bytes[i] < 0x80 && bytes[i]
            != 0x1b by {
            if i < bytes.len() - 1 {
                assert(bytes.drop_last()[i] == bytes[i]);
            }
        }
    }
}

/// A terminal has drawn nothing but a text.
spec fn has_drawn(state: TerminalState, bytes: Seq<u8>) -> bool {
    &&& state.input == bytes
    &&& all_plain(state.parsed)
    &&& holds(state.screen, plain_text(bytes))
}

proof fn piece_has_drawn(
    state: TerminalState,
    limits: ScreenLimits,
    before: Seq<u8>,
    piece: Seq<u8>,
)
    requires
        has_drawn(state, before),
        is_plain_text(before + piece),
        !state.piece_drawn(TextEncoding::Utf8, limits, piece).limited,
    ensures
        has_drawn(state.piece_drawn(TextEncoding::Utf8, limits, piece), before + piece),
{
    reveal(TerminalState::piece_drawn);
    let all = before + piece;
    bytes_hold(state.screen, before, piece);
    plain_text_is_ascii(before);
    plain_text_is_ascii(all);
    assert forall|i: int| 0 <= i < piece.len() implies #[trigger] piece[i] < 0x80 && piece[i]
        != 0x1b by {
        assert(all[before.len() + i] == piece[i]);
    }
    ascii_is_utf8(before);
    ascii_is_utf8(piece);
    utf8_reads_as_itself(ascii_chars(before), ascii_chars(piece));
    let text = encode_utf8(added_text(TextEncoding::Utf8, state.input, piece));
    assert(text == piece);
    assert(all_plain(state.parsed.push(piece)));
    let drawn = TerminalState {
        input: state.input + piece,
        parsed: state.parsed.push(text),
        screen: all_performed(state.screen, parsed_actions(state.parsed, text)),
        ..state
    };
    limits_hold(drawn, limits, plain_text(all));
}

proof fn plain_prefix(a: Seq<u8>, b: Seq<u8>)
    requires
        is_plain_text(a + b),
    ensures
        is_plain_text(a),
    decreases b.len(),
{
    if b.len() == 0 {
        assert(a + b == a);
    } else {
        assert((a + b).drop_last() == a + b.drop_last());
        plain_prefix(a, b.drop_last());
    }
}

proof fn drawing_stays_limited(state: TerminalState, limits: ScreenLimits, bytes: Seq<u8>)
    ensures
        state.limited ==> state.bytes_drawn(TextEncoding::Utf8, limits, bytes).limited,
    decreases bytes.len(),
{
    if bytes.len() > 0 {
        reveal(TerminalState::piece_drawn);
        let len = min(bytes.len() as int, TERMINAL_DECODE_INPUT_BYTES as int);
        drawing_stays_limited(
            state.piece_drawn(TextEncoding::Utf8, limits, bytes.take(len)),
            limits,
            bytes.skip(len),
        );
    }
}

proof fn bytes_have_drawn(
    state: TerminalState,
    limits: ScreenLimits,
    before: Seq<u8>,
    bytes: Seq<u8>,
)
    requires
        has_drawn(state, before),
        is_plain_text(before + bytes),
        !state.bytes_drawn(TextEncoding::Utf8, limits, bytes).limited,
    ensures
        has_drawn(state.bytes_drawn(TextEncoding::Utf8, limits, bytes), before + bytes),
    decreases bytes.len(),
{
    if bytes.len() == 0 {
        assert(before + bytes == before);
    } else {
        let len = min(bytes.len() as int, TERMINAL_DECODE_INPUT_BYTES as int);
        let (piece, rest) = (bytes.take(len), bytes.skip(len));
        let next = state.piece_drawn(TextEncoding::Utf8, limits, piece);
        assert(before + piece + rest == before + bytes);
        plain_prefix(before + piece, rest);
        drawing_stays_limited(next, limits, rest);
        piece_has_drawn(state, limits, before, piece);
        bytes_have_drawn(next, limits, before + piece, rest);
    }
}

proof fn chunks_have_drawn(state: TerminalState, limits: ScreenLimits, chunks: Seq<ChunkView>)
    requires
        has_drawn(state, Seq::empty()),
        is_plain_text(joined_bytes(chunks)),
        !state.chunks_drawn(TextEncoding::Utf8, limits, chunks).limited,
    ensures
        has_drawn(
            state.chunks_drawn(TextEncoding::Utf8, limits, chunks),
            joined_bytes(chunks),
        ),
    decreases chunks.len(),
{
    if chunks.len() > 0 {
        let last = chunks.last();
        let before = joined_bytes(chunks.drop_last());
        let drawn = state.chunks_drawn(TextEncoding::Utf8, limits, chunks.drop_last());
        let at = TerminalState { screen: drawn.screen.at(last.received_at), ..drawn };
        plain_prefix(before, last.bytes);
        drawing_stays_limited(at, limits, last.bytes);
        chunks_have_drawn(state, limits, chunks.drop_last());
        if last.bytes.len() == 0 {
            assert(before + last.bytes == before);
        } else {
            bytes_have_drawn(at, limits, before, last.bytes);
        }
    }
}

proof fn text_without_nul(cells: Seq<char>)
    requires
        no_nul(cells),
    ensures
        without_nul(cells) == cells,
        no_nul(without_trailing_spaces(cells)),
    decreases cells.len(),
{
    if cells.len() > 0 {
        let before = cells.drop_last();
        assert forall|i: int| 0 <= i < before.len() implies #[trigger] before[i] != '\0' by {
            assert(before[i] == cells[i]);
        }
        text_without_nul(before);
        assert(cells[cells.len() - 1] != '\0');
        assert(before.push(cells.last()) == cells);
    }
}

/// Plain text shows as itself: the rows of a terminal that was fed printable ASCII in lines are
/// those lines, however the text was cut into chunks, as long as nothing had to be left out.
pub proof fn plain_text_shows_as_itself(
    at: Timestamp,
    limits: ScreenLimits,
    chunks: Seq<ChunkView>,
)
    requires
        is_plain_text(joined_bytes(chunks)),
        !fresh_terminal(at).updated(TextEncoding::Utf8, limits, chunks).limited,
    ensures
        ({
            let after = fresh_terminal(at).updated(TextEncoding::Utf8, limits, chunks);
            row_texts(after.screen.rows()) == visible_lines(plain_text(joined_bytes(chunks)))
        }),
{
    let useful = useful_limits(limits);
    let fresh = fresh_terminal(at);
    let begun = TerminalState { screen: fresh.screen.begun(), ..fresh };
    let text = plain_text(joined_bytes(chunks));
    assert(has_drawn(begun, Seq::empty()));
    chunks_have_drawn(begun, useful, chunks);
    let drawn = begun.chunks_drawn(TextEncoding::Utf8, useful, chunks);
    limits_hold(drawn, useful, text);
    let s = drawn.within(useful).screen;
    let lines = visible_lines(text);
    let rows = row_texts(s.rows());
    assert(rows.len() == lines.len());
    assert forall|i: int| 0 <= i < rows.len() implies rows[i] == lines[i] by {
        let cells = if i < text.done.len() {
            text.done[i]
        } else {
            text.open
        };
        assert(s.lines[i].cells == cells);
        text_without_nul(cells);
        text_without_nul(without_trailing_spaces(cells));
        assert(rows[i] == line_text(s.lines[i]));
    }
    assert(rows == lines);
}

} // verus!
