//! What keys, typed text and the clipboard send, said in bytes and in what they do on a screen.

use vstd::prelude::*;
use vstd::utf8::encode_utf8;

use crate::encoding::gbk_encoded;
use crate::keyboard::{
    control_byte, event_bytes, events_bytes, input_frame, is_control_key, is_text_with_tab,
    key_bytes, special_bytes, terminal_input, InputEvent, InputFrame, Key, Modifiers,
};
use crate::model::TextEncoding;
use crate::terminal::actions::{performed, ActionView};
use crate::terminal::screen::ScreenView;
use crate::terminal::sequences::{
    cursor_goes_to, cursor_moves, sequence, the_cursor_moves_to_lines,
    the_cursor_moves_within_the_text,
};

verus! {

/// A key is pressed, and nothing else is reported.
pub open spec fn pressed(key: Key, modifiers: Modifiers) -> Seq<InputEvent> {
    seq![InputEvent::Key { key, pressed: true, modifiers }]
}

/// The character on a key. For a space that is `@`, and for a minus the underscore above it.
pub open spec fn key_character(key: Key) -> Option<char> {
    match key {
        Key::Space => Some('@'),
        Key::A => Some('A'),
        Key::B => Some('B'),
        Key::C => Some('C'),
        Key::D => Some('D'),
        Key::E => Some('E'),
        Key::F => Some('F'),
        Key::G => Some('G'),
        Key::H => Some('H'),
        Key::I => Some('I'),
        Key::J => Some('J'),
        Key::K => Some('K'),
        Key::L => Some('L'),
        Key::M => Some('M'),
        Key::N => Some('N'),
        Key::O => Some('O'),
        Key::P => Some('P'),
        Key::Q => Some('Q'),
        Key::R => Some('R'),
        Key::S => Some('S'),
        Key::T => Some('T'),
        Key::U => Some('U'),
        Key::V => Some('V'),
        Key::W => Some('W'),
        Key::X => Some('X'),
        Key::Y => Some('Y'),
        Key::Z => Some('Z'),
        Key::OpenBracket => Some('['),
        Key::Backslash => Some('\\'),
        Key::CloseBracket => Some(']'),
        Key::Minus => Some('_'),
        _ => None,
    }
}

proof fn one_key(key: Key, modifiers: Modifiers, held: Modifiers, encoding: TextEncoding)
    ensures
        ({
            let frame = input_frame(pressed(key, modifiers), held);
            &&& !frame.has_paste
            &&& !frame.text_contains_tab
            &&& terminal_input(pressed(key, modifiers), encoding, held) == Ok::<
                Seq<u8>,
                Seq<char>,
            >(key_bytes(key, modifiers, frame))
        }),
{
    let events = pressed(key, modifiers);
    let frame = input_frame(events, held);
    assert(events.drop_last() == Seq::<InputEvent>::empty());
    reveal_with_fuel(events_bytes, 2);
    let bytes = key_bytes(key, modifiers, frame);
    assert(Seq::<u8>::empty() + bytes == bytes);
}

/// With Ctrl, and without Alt, a key sends the code of its character less 64, and a key that
/// stands for no character sends nothing.
pub proof fn control_takes_sixty_four_off(
    key: Key,
    modifiers: Modifiers,
    held: Modifiers,
    encoding: TextEncoding,
)
    requires
        modifiers.ctrl,
        !modifiers.alt,
        modifiers.shift ==> key != Key::C && key != Key::X,
    ensures
        terminal_input(pressed(key, modifiers), encoding, held) == Ok::<Seq<u8>, Seq<char>>(
            match key_character(key) {
                Some(c) => seq![(c as int - 64) as u8],
                None => seq![],
            },
        ),
{
    one_key(key, modifiers, held, encoding);
}

/// Ctrl+Shift+C and Ctrl+Shift+X are for the clipboard of the window, and send nothing.
pub proof fn clipboard_keys_send_nothing(
    key: Key,
    modifiers: Modifiers,
    held: Modifiers,
    encoding: TextEncoding,
)
    requires
        modifiers.ctrl,
        !modifiers.alt,
        modifiers.shift,
        key == Key::C || key == Key::X,
    ensures
        terminal_input(pressed(key, modifiers), encoding, held) == Ok::<Seq<u8>, Seq<char>>(
            seq![],
        ),
{
    one_key(key, modifiers, held, encoding);
}

/// What an arrow key sends moves the cursor one place its way on a terminal: it is `ESC [` and a
/// letter, and the control sequence of that letter does so.
pub proof fn arrows_move_the_cursor_their_way(
    s: ScreenView,
    modifiers: Modifiers,
    held: Modifiers,
    encoding: TextEncoding,
)
    requires
        s.wf(),
        !modifiers.ctrl,
        0 < s.cursor_row < 99_999,
        0 < s.cursor_col < 524_288,
    ensures
        exists|letter: u8|
            {
                &&& #[trigger] sends_sequence(Key::ArrowLeft, letter, modifiers, held, encoding)
                &&& cursor_moves(
                    s,
                    performed(s, sequence(seq![], letter as char)),
                    s.cursor_row,
                    s.cursor_col - 1,
                )
            },
        exists|letter: u8|
            {
                &&& #[trigger] sends_sequence(Key::ArrowRight, letter, modifiers, held, encoding)
                &&& cursor_moves(
                    s,
                    performed(s, sequence(seq![], letter as char)),
                    s.cursor_row,
                    s.cursor_col + 1,
                )
            },
        exists|letter: u8|
            {
                &&& #[trigger] sends_sequence(Key::ArrowUp, letter, modifiers, held, encoding)
                &&& cursor_moves(
                    s,
                    performed(s, sequence(seq![], letter as char)),
                    s.cursor_row - 1,
                    s.cursor_col,
                )
            },
        exists|letter: u8|
            {
                &&& #[trigger] sends_sequence(Key::ArrowDown, letter, modifiers, held, encoding)
                &&& cursor_goes_to(
                    s,
                    performed(s, sequence(seq![], letter as char)),
                    s.cursor_row + 1,
                    s.cursor_col,
                )
            },
{
    one_key(Key::ArrowLeft, modifiers, held, encoding);
    one_key(Key::ArrowRight, modifiers, held, encoding);
    one_key(Key::ArrowUp, modifiers, held, encoding);
    one_key(Key::ArrowDown, modifiers, held, encoding);
    the_cursor_moves_within_the_text(s, seq![]);
    the_cursor_moves_to_lines(s, seq![]);
    assert(seq![0x1Bu8, 0x5Bu8] + seq![0x44u8] == seq![0x1Bu8, 0x5Bu8, 0x44u8]);
    assert(seq![0x1Bu8, 0x5Bu8] + seq![0x43u8] == seq![0x1Bu8, 0x5Bu8, 0x43u8]);
    assert(seq![0x1Bu8, 0x5Bu8] + seq![0x41u8] == seq![0x1Bu8, 0x5Bu8, 0x41u8]);
    assert(seq![0x1Bu8, 0x5Bu8] + seq![0x42u8] == seq![0x1Bu8, 0x5Bu8, 0x42u8]);
    assert(sends_sequence(Key::ArrowLeft, 0x44, modifiers, held, encoding));
    assert(sends_sequence(Key::ArrowRight, 0x43, modifiers, held, encoding));
    assert(sends_sequence(Key::ArrowUp, 0x41, modifiers, held, encoding));
    assert(sends_sequence(Key::ArrowDown, 0x42, modifiers, held, encoding));
}

/// A key sends `ESC [` and a letter.
pub open spec fn sends_sequence(
    key: Key,
    letter: u8,
    modifiers: Modifiers,
    held: Modifiers,
    encoding: TextEncoding,
) -> bool {
    terminal_input(pressed(key, modifiers), encoding, held) == Ok::<Seq<u8>, Seq<char>>(
        seq![0x1B, 0x5B, letter],
    )
}

/// The number of an editing key of a VT220.
pub open spec fn editing_number(key: Key) -> Option<u8> {
    match key {
        Key::Home => Some(1),
        Key::Insert => Some(2),
        Key::Delete => Some(3),
        Key::End => Some(4),
        Key::PageUp => Some(5),
        Key::PageDown => Some(6),
        _ => None,
    }
}

/// An editing key sends `ESC [`, its number and a tilde.
pub proof fn editing_keys_send_their_number(
    key: Key,
    modifiers: Modifiers,
    held: Modifiers,
    encoding: TextEncoding,
)
    requires
        !modifiers.ctrl,
        editing_number(key) is Some,
    ensures
        terminal_input(pressed(key, modifiers), encoding, held) == Ok::<Seq<u8>, Seq<char>>(
            seq![0x1Bu8, '[' as u8, ('0' as int + editing_number(key)->0) as u8, '~' as u8],
        ),
{
    one_key(key, modifiers, held, encoding);
    let number = ('0' as int + editing_number(key)->0) as u8;
    assert(seq![0x1Bu8, 0x5Bu8] + seq![number, 0x7Eu8] == seq![0x1Bu8, 0x5Bu8, number, 0x7Eu8]);
}

/// Return, the tabulator, backspace and escape send what their control characters do on a
/// terminal: to the start of the line, to the next stop, one place back, and nothing.
pub proof fn control_keys_act_on_the_cursor(
    s: ScreenView,
    key: Key,
    modifiers: Modifiers,
    held: Modifiers,
    encoding: TextEncoding,
)
    requires
        s.wf(),
        !modifiers.ctrl,
        key == Key::Enter || key == Key::Tab || key == Key::Backspace || key == Key::Escape,
        0 < s.cursor_col < 524_280,
    ensures
        ({
            let sent = terminal_input(pressed(key, modifiers), encoding, held);
            &&& sent matches Ok(bytes) && bytes.len() == 1
            &&& key == Key::Escape ==> sent->Ok_0[0] == 0x1B
            &&& cursor_moves(
                s,
                performed(s, ActionView::Execute(sent->Ok_0[0])),
                s.cursor_row,
                if key == Key::Enter {
                    0
                } else if key == Key::Tab {
                    s.cursor_col / 8 * 8 + 8
                } else if key == Key::Backspace {
                    s.cursor_col - 1
                } else {
                    s.cursor_col
                },
            )
        }),
{
    one_key(key, modifiers, held, encoding);
}

/// What a text is in an encoding, if it can be encoded.
pub open spec fn encoded(text: Seq<char>, encoding: TextEncoding) -> Seq<u8> {
    match encoding {
        TextEncoding::Utf8 => encode_utf8(text),
        TextEncoding::Gbk => gbk_encoded(text).0,
    }
}

/// Text that was typed, pasted or composed is sent as it is, in the encoding, and nothing is put
/// behind it.
pub proof fn text_is_sent_as_it_is(
    text: String,
    event: InputEvent,
    held: Modifiers,
    encoding: TextEncoding,
)
    requires
        event == InputEvent::Text(text) || event == InputEvent::Paste(text) || event
            == InputEvent::Commit(text),
        encoding == TextEncoding::Gbk ==> !gbk_encoded(text@).1,
        encoded(text@, encoding).len() > 0,
        text@.len() > 0,
    ensures
        terminal_input(seq![event], encoding, held) == Ok::<Seq<u8>, Seq<char>>(
            encoded(text@, encoding),
        ),
{
    let events = seq![event];
    assert(events.drop_last() == Seq::<InputEvent>::empty());
    reveal_with_fuel(events_bytes, 2);
    let bytes = encoded(text@, encoding);
    assert(Seq::<u8>::empty() + bytes == bytes);
    assert(bytes + Seq::<u8>::empty() == bytes);
}

/// Text that the encoding lacks characters for is not sent, and the user is told so.
pub proof fn text_that_cannot_be_encoded_is_refused(
    text: String,
    event: InputEvent,
    held: Modifiers,
)
    requires
        event == InputEvent::Text(text) || event == InputEvent::Paste(text) || event
            == InputEvent::Commit(text),
        gbk_encoded(text@).1,
        text@.len() > 0,
    ensures
        terminal_input(seq![event], TextEncoding::Gbk, held) == Err::<Seq<u8>, Seq<char>>(
            "文本包含 GBK 无法表示的字符"@,
        ),
{
    let events = seq![event];
    assert(events.drop_last() == Seq::<InputEvent>::empty());
    reveal_with_fuel(events_bytes, 2);
}

/// Copying and cutting with nothing but Ctrl held, where the key itself is not reported, send
/// what Ctrl+C and Ctrl+X send. A key that is let go and an event of another kind send nothing.
pub proof fn clipboard_events_stand_for_keys(
    key: Key,
    modifiers: Modifiers,
    held: Modifiers,
    encoding: TextEncoding,
)
    ensures
        ({
            let nothing = Ok::<Seq<u8>, Seq<char>>(seq![]);
            let only_ctrl = held.ctrl && !held.alt && !held.shift;
            &&& terminal_input(seq![InputEvent::Copy], encoding, held) == if only_ctrl {
                Ok(seq![('C' as int - 64) as u8])
            } else {
                nothing
            }
            &&& terminal_input(seq![InputEvent::Cut], encoding, held) == if only_ctrl {
                Ok(seq![('X' as int - 64) as u8])
            } else {
                nothing
            }
            &&& terminal_input(seq![InputEvent::Other], encoding, held) == nothing
            &&& terminal_input(
                seq![InputEvent::Key { key, pressed: false, modifiers }],
                encoding,
                held,
            ) == nothing
        }),
{
    reveal_with_fuel(events_bytes, 2);
    let empty = Seq::<u8>::empty();
    let released = InputEvent::Key { key, pressed: false, modifiers };
    assert(seq![InputEvent::Copy].drop_last() == Seq::<InputEvent>::empty());
    assert(seq![InputEvent::Cut].drop_last() == Seq::<InputEvent>::empty());
    assert(seq![InputEvent::Other].drop_last() == Seq::<InputEvent>::empty());
    assert(seq![released].drop_last() == Seq::<InputEvent>::empty());
    assert(empty + empty == empty);
    assert(empty + seq![0x03u8] == seq![0x03u8]);
    assert(empty + seq![0x18u8] == seq![0x18u8]);
    assert(!is_control_key(InputEvent::Copy, Key::C));
    assert(!is_control_key(InputEvent::Cut, Key::X));
}

/// Events are sent in the order in which they come, all of them, up to the first that cannot be.
pub proof fn events_are_sent_in_order(
    a: Seq<InputEvent>,
    b: Seq<InputEvent>,
    encoding: TextEncoding,
    frame: InputFrame,
)
    ensures
        events_bytes(a + b, encoding, frame) == match events_bytes(a, encoding, frame) {
            Err(message) => Err(message),
            Ok(first) => match events_bytes(b, encoding, frame) {
                Err(message) => Err(message),
                Ok(second) => Ok(first + second),
            },
        },
        b.len() == 1 ==> events_bytes(b, encoding, frame) == event_bytes(b[0], encoding, frame),
    decreases b.len(),
{
    if b.len() == 0 {
        assert(a + b == a);
        if let Ok(first) = events_bytes(a, encoding, frame) {
            assert(first + Seq::<u8>::empty() == first);
        }
    } else {
        assert((a + b).drop_last() == a + b.drop_last());
        events_are_sent_in_order(a, b.drop_last(), encoding, frame);
        if let Ok(first) = events_bytes(a, encoding, frame) {
            if let Ok(second) = events_bytes(b.drop_last(), encoding, frame) {
                if let Ok(third) = event_bytes(b.last(), encoding, frame) {
                    assert(first + (second + third) == first + second + third);
                }
            }
        }
        if b.len() == 1 {
            assert(b.drop_last() == Seq::<InputEvent>::empty());
            if let Ok(only) = event_bytes(b[0], encoding, frame) {
                assert(Seq::<u8>::empty() + only == only);
            }
        }
    }
}

/// A paste is not sent twice for its key, nor is a tabulator that comes as text: beside them
/// Ctrl+V and the tabulator key send nothing, and every other key what it sends by itself.
pub proof fn other_events_silence_a_key(
    events: Seq<InputEvent>,
    key: Key,
    modifiers: Modifiers,
    held: Modifiers,
    encoding: TextEncoding,
)
    ensures
        ({
            let frame = input_frame(events, held);
            let event = InputEvent::Key { key, pressed: true, modifiers };
            let alone = terminal_input(pressed(key, modifiers), encoding, held);
            let pasted = exists|i: int| 0 <= i < events.len() && #[trigger] events[i] is Paste;
            let tabbed = exists|i: int|
                0 <= i < events.len() && is_text_with_tab(#[trigger] events[i]);
            let control = modifiers.ctrl && !modifiers.alt;
            &&& forall|i: int|
                0 <= i < events.len() ==> (is_text_with_tab(#[trigger] events[i])
                    <==> match events[i] {
                    InputEvent::Text(text) => exists|k: int|
                        0 <= k < text@.len() && #[trigger] text@[k] == '\t',
                    _ => false,
                })
            &&& event_bytes(event, encoding, frame) == if control && key == Key::V && pasted
                || !control && key == Key::Tab && tabbed {
                Ok(seq![])
            } else {
                alone
            }
        }),
{
    one_key(key, modifiers, held, encoding);
}

} // verus!
