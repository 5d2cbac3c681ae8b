//! What the keyboard sends in terminal mode.

use vstd::prelude::*;

use crate::chars::chars_of;
use crate::encoding::encodable;
use crate::formatting::input::{encode_text, result_view, text_input};
use crate::model::{LineEnding, TextEncoding};

pub mod laws;

verus! {

#[derive(Debug, Clone, Copy, PartialEq, Eq, Structural)]
pub enum Key {
    A,
    B,
    C,
    D,
    E,
    F,
    G,
    H,
    I,
    J,
    K,
    L,
    M,
    N,
    O,
    P,
    Q,
    R,
    S,
    T,
    U,
    V,
    W,
    X,
    Y,
    Z,
    OpenBracket,
    Backslash,
    CloseBracket,
    Minus,
    Space,
    Enter,
    Tab,
    Backspace,
    Escape,
    Delete,
    ArrowUp,
    ArrowDown,
    ArrowRight,
    ArrowLeft,
    Home,
    End,
    Insert,
    PageUp,
    PageDown,
    Other,
}

#[derive(Debug, Clone, Copy, PartialEq, Eq, Structural)]
pub struct Modifiers {
    pub ctrl: bool,
    pub alt: bool,
    pub shift: bool,
}

/// What the window reports of the keyboard and the clipboard.
#[derive(Debug)]
pub enum InputEvent {
    Copy,
    Cut,
    Text(String),
    Paste(String),
    Commit(String),
    Key { key: Key, pressed: bool, modifiers: Modifiers },
    Other,
}

/// The control character that a key stands for while Ctrl is held.
pub open spec fn control_byte(key: Key) -> Option<u8> {
    match key {
        Key::A => Some(0x01),
        Key::B => Some(0x02),
        Key::C => Some(0x03),
        Key::D => Some(0x04),
        Key::E => Some(0x05),
        Key::F => Some(0x06),
        Key::G => Some(0x07),
        Key::H => Some(0x08),
        Key::I => Some(0x09),
        Key::J => Some(0x0A),
        Key::K => Some(0x0B),
        Key::L => Some(0x0C),
        Key::M => Some(0x0D),
        Key::N => Some(0x0E),
        Key::O => Some(0x0F),
        Key::P => Some(0x10),
        Key::Q => Some(0x11),
        Key::R => Some(0x12),
        Key::S => Some(0x13),
        Key::T => Some(0x14),
        Key::U => Some(0x15),
        Key::V => Some(0x16),
        Key::W => Some(0x17),
        Key::X => Some(0x18),
        Key::Y => Some(0x19),
        Key::Z => Some(0x1A),
        Key::OpenBracket => Some(0x1B),
        Key::Backslash => Some(0x1C),
        Key::CloseBracket => Some(0x1D),
        Key::Minus => Some(0x1F),
        Key::Space => Some(0x00),
        _ => None,
    }
}

pub fn terminal_control_byte(key: Key) -> (byte: Option<u8>)
    ensures
        byte == control_byte(key),
{
    match key {
        Key::A => Some(0x01),
        Key::B => Some(0x02),
        Key::C => Some(0x03),
        Key::D => Some(0x04),
        Key::E => Some(0x05),
        Key::F => Some(0x06),
        Key::G => Some(0x07),
        Key::H => Some(0x08),
        Key::I => Some(0x09),
        Key::J => Some(0x0A),
        Key::K => Some(0x0B),
        Key::L => Some(0x0C),
        Key::M => Some(0x0D),
        Key::N => Some(0x0E),
        Key::O => Some(0x0F),
        Key::P => Some(0x10),
        Key::Q => Some(0x11),
        Key::R => Some(0x12),
        Key::S => Some(0x13),
        Key::T => Some(0x14),
        Key::U => Some(0x15),
        Key::V => Some(0x16),
        Key::W => Some(0x17),
        Key::X => Some(0x18),
        Key::Y => Some(0x19),
        Key::Z => Some(0x1A),
        Key::OpenBracket => Some(0x1B),
        Key::Backslash => Some(0x1C),
        Key::CloseBracket => Some(0x1D),
        Key::Minus => Some(0x1F),
        Key::Space => Some(0x00),
        _ => None,
    }
}

/// `ESC [` and what follows it.
pub open spec fn escape_sequence(rest: Seq<u8>) -> Seq<u8> {
    seq![0x1Bu8, 0x5Bu8] + rest
}

/// What a key sends that no text event reports, without Ctrl. Return sends CR alone.
pub open spec fn special_bytes(key: Key) -> Seq<u8> {
    match key {
        Key::Enter => seq![0x0Du8],
        Key::Tab => seq![0x09u8],
        Key::Backspace => seq![0x08u8],
        Key::Escape => seq![0x1Bu8],
        Key::Delete => escape_sequence(seq![0x33u8, 0x7Eu8]),
        Key::ArrowUp => escape_sequence(seq![0x41u8]),
        Key::ArrowDown => escape_sequence(seq![0x42u8]),
        Key::ArrowRight => escape_sequence(seq![0x43u8]),
        Key::ArrowLeft => escape_sequence(seq![0x44u8]),
        Key::Home => escape_sequence(seq![0x31u8, 0x7Eu8]),
        Key::End => escape_sequence(seq![0x34u8, 0x7Eu8]),
        Key::Insert => escape_sequence(seq![0x32u8, 0x7Eu8]),
        Key::PageUp => escape_sequence(seq![0x35u8, 0x7Eu8]),
        Key::PageDown => escape_sequence(seq![0x36u8, 0x7Eu8]),
        _ => Seq::empty(),
    }
}

fn special_key_bytes(key: Key) -> (bytes: Vec<u8>)
    ensures
        bytes@ == special_bytes(key),
{
    match key {
        Key::Enter => vec![0x0D],
        Key::Tab => vec![0x09],
        Key::Backspace => vec![0x08],
        Key::Escape => vec![0x1B],
        Key::Delete => vec![0x1B, 0x5B, 0x33, 0x7E],
        Key::ArrowUp => vec![0x1B, 0x5B, 0x41],
        Key::ArrowDown => vec![0x1B, 0x5B, 0x42],
        Key::ArrowRight => vec![0x1B, 0x5B, 0x43],
        Key::ArrowLeft => vec![0x1B, 0x5B, 0x44],
        Key::Home => vec![0x1B, 0x5B, 0x31, 0x7E],
        Key::End => vec![0x1B, 0x5B, 0x34, 0x7E],
        Key::Insert => vec![0x1B, 0x5B, 0x32, 0x7E],
        Key::PageUp => vec![0x1B, 0x5B, 0x35, 0x7E],
        Key::PageDown => vec![0x1B, 0x5B, 0x36, 0x7E],
        _ => Vec::new(),
    }
}

/// What an event can mean depends on the others that came with it: one keystroke may be reported
/// as a key, as text and as a clipboard action.
pub struct InputFrame {
    /// The clipboard was pasted.
    pub has_paste: bool,
    /// Ctrl+C is reported as a key.
    pub has_ctrl_c_key: bool,
    /// Ctrl+X is reported as a key.
    pub has_ctrl_x_key: bool,
    /// Ctrl alone is held.
    pub control_held: bool,
    /// A tab is reported as text.
    pub text_contains_tab: bool,
}

/// An event is a key pressed with Ctrl alone.
pub open spec fn is_control_key(event: InputEvent, expected: Key) -> bool {
    event matches InputEvent::Key { key, pressed, modifiers } && key == expected && pressed
        && modifiers.ctrl && !modifiers.alt && !modifiers.shift
}

pub open spec fn has_control_key(events: Seq<InputEvent>, expected: Key) -> bool {
    exists|i: int| 0 <= i < events.len() && is_control_key(#[trigger] events[i], expected)
}

pub open spec fn is_text_with_tab(event: InputEvent) -> bool {
    event matches InputEvent::Text(text) && text@.contains('\t')
}

pub open spec fn input_frame(events: Seq<InputEvent>, modifiers: Modifiers) -> InputFrame {
    InputFrame {
        has_paste: exists|i: int| 0 <= i < events.len() && #[trigger] events[i] is Paste,
        has_ctrl_c_key: has_control_key(events, Key::C),
        has_ctrl_x_key: has_control_key(events, Key::X),
        control_held: modifiers.ctrl && !modifiers.alt && !modifiers.shift,
        text_contains_tab: exists|i: int|
            0 <= i < events.len() && is_text_with_tab(#[trigger] events[i]),
    }
}

/// What a key sends that is pressed.
pub open spec fn key_bytes(key: Key, modifiers: Modifiers, frame: InputFrame) -> Seq<u8> {
    if modifiers.ctrl && !modifiers.alt {
        if modifiers.shift && (key == Key::C || key == Key::X) || frame.has_paste && key == Key::V {
            Seq::empty()
        } else {
            match control_byte(key) {
                Some(byte) => seq![byte],
                None => Seq::empty(),
            }
        }
    } else if key == Key::Tab && frame.text_contains_tab {
        Seq::empty()
    } else {
        special_bytes(key)
    }
}

/// What text sends that was typed or pasted.
pub open spec fn typed_text(text: Seq<char>, encoding: TextEncoding) -> Result<
    Seq<u8>,
    Seq<char>,
> {
    if text.len() == 0 {
        Ok(Seq::empty())
    } else {
        text_input(text, encoding, LineEnding::Empty)
    }
}

/// What an event sends. Ctrl+C and Ctrl+X may be reported as `Copy` and `Cut` in place of keys.
pub open spec fn event_bytes(
    event: InputEvent,
    encoding: TextEncoding,
    frame: InputFrame,
) -> Result<Seq<u8>, Seq<char>> {
    match event {
        InputEvent::Copy => Ok(
            if frame.control_held && !frame.has_ctrl_c_key {
                seq![0x03u8]
            } else {
                Seq::empty()
            },
        ),
        InputEvent::Cut => Ok(
            if frame.control_held && !frame.has_ctrl_x_key {
                seq![0x18u8]
            } else {
                Seq::empty()
            },
        ),
        InputEvent::Text(text) => typed_text(text@, encoding),
        InputEvent::Paste(text) => typed_text(text@, encoding),
        InputEvent::Commit(text) => typed_text(text@, encoding),
        InputEvent::Key { key, pressed, modifiers } => Ok(
            if pressed {
                key_bytes(key, modifiers, frame)
            } else {
                Seq::empty()
            },
        ),
        InputEvent::Other => Ok(Seq::empty()),
    }
}

/// What events send, one after the other, or the first thing that is wrong with one.
pub open spec fn events_bytes(
    events: Seq<InputEvent>,
    encoding: TextEncoding,
    frame: InputFrame,
) -> Result<Seq<u8>, Seq<char>>
    decreases events.len(),
{
    if events.len() == 0 {
        Ok(Seq::empty())
    } else {
        match events_bytes(events.drop_last(), encoding, frame) {
            Err(message) => Err(message),
            Ok(before) => match event_bytes(events.last(), encoding, frame) {
                Err(message) => Err(message),
                Ok(bytes) => Ok(before + bytes),
            },
        }
    }
}

/// What the events of one frame send.
pub open spec fn terminal_input(
    events: Seq<InputEvent>,
    encoding: TextEncoding,
    modifiers: Modifiers,
) -> Result<Seq<u8>, Seq<char>> {
    events_bytes(events, encoding, input_frame(events, modifiers))
}

fn has_pressed_control_key(events: &[InputEvent], expected: Key) -> (found: bool)
    ensures
        found == has_control_key(events@, expected),
{
    let mut i: usize = 0;
    while i < events.len()
        invariant
            i <= events.len(),
            forall|k: int| 0 <= k < i ==> !is_control_key(#[trigger] events@[k], expected),
        decreases events.len() - i,
    {
        if let InputEvent::Key { key, pressed, modifiers } = &events[i] {
            if *key == expected && *pressed && modifiers.ctrl && !modifiers.alt && !modifiers.shift {
                assert(is_control_key(events@[i as int], expected));
                return true;
            }
        }
        i += 1;
    }
    false
}

fn has_paste(events: &[InputEvent]) -> (found: bool)
    ensures
        found == exists|i: int| 0 <= i < events.len() && #[trigger] events@[i] is Paste,
{
    let mut i: usize = 0;
    while i < events.len()
        invariant
            i <= events.len(),
            forall|k: int| 0 <= k < i ==> !(#[trigger] events@[k] is Paste),
        decreases events.len() - i,
    {
        if let InputEvent::Paste(_) = &events[i] {
            assert(events@[i as int] is Paste);
            return true;
        }
        i += 1;
    }
    false
}

fn contains_tab(text: &str) -> (found: bool)
    ensures
        found == text@.contains('\t'),
{
    let chars = chars_of(text);
    let mut i: usize = 0;
    while i < chars.len()
        invariant
            i <= chars.len(),
            chars@ == text@,
            forall|k: int| 0 <= k < i ==> #[trigger] chars@[k] != '\t',
        decreases chars.len() - i,
    {
        if chars[i] == '\t' {
            assert(text@[i as int] == '\t');
            return true;
        }
        i += 1;
    }
    false
}

fn has_text_with_tab(events: &[InputEvent]) -> (found: bool)
    ensures
        found == exists|i: int| 0 <= i < events.len() && is_text_with_tab(#[trigger] events@[i]),
{
    let mut i: usize = 0;
    while i < events.len()
        invariant
            i <= events.len(),
            forall|k: int| 0 <= k < i ==> !is_text_with_tab(#[trigger] events@[k]),
        decreases events.len() - i,
    {
        if let InputEvent::Text(text) = &events[i] {
            if contains_tab(text.as_str()) {
                assert(is_text_with_tab(events@[i as int]));
                return true;
            }
        }
        i += 1;
    }
    false
}

/// Appends what text sends that was typed or pasted. Nothing is appended if it cannot be sent.
pub fn append_terminal_text(output: &mut Vec<u8>, text: &str, encoding: TextEncoding) -> (result:
    Result<(), String>)
    requires
        encodable(text@, encoding),
    ensures
        match typed_text(text@, encoding) {
            Ok(bytes) => result is Ok && final(output)@ == old(output)@ + bytes,
            Err(message) => result matches Err(error) && error@ == message && final(output)@
                == old(output)@,
        },
{
    if !text.is_empty() {
        let encoded = encode_text(text, encoding, LineEnding::Empty);
        assert(result_view(encoded) == typed_text(text@, encoding));
        match encoded {
            Ok(bytes) => {
                let mut bytes = bytes;
                output.append(&mut bytes);
            },
            Err(message) => return Err(message),
        }
    }
    Ok(())
}

fn append_key_bytes(
    output: &mut Vec<u8>,
    key: Key,
    modifiers: Modifiers,
    has_paste: bool,
    text_contains_tab: bool,
    Ghost(frame): Ghost<InputFrame>,
)
    requires
        has_paste == frame.has_paste,
        text_contains_tab == frame.text_contains_tab,
    ensures
        final(output)@ == old(output)@ + key_bytes(key, modifiers, frame),
{
    if modifiers.ctrl && !modifiers.alt {
        if (key == Key::C || key == Key::X) && modifiers.shift {
            return;
        }
        if key == Key::V && has_paste {
            return;
        }
        if let Some(byte) = terminal_control_byte(key) {
            output.push(byte);
        }
        return;
    }
    if key == Key::Tab && text_contains_tab {
        return;
    }
    let mut bytes = special_key_bytes(key);
    output.append(&mut bytes);
}

/// The text of an event can be encoded.
pub open spec fn event_encodable(event: InputEvent, encoding: TextEncoding) -> bool {
    match event {
        InputEvent::Text(text) | InputEvent::Paste(text) | InputEvent::Commit(text) => encodable(
            text@,
            encoding,
        ),
        _ => true,
    }
}

pub open spec fn events_encodable(events: Seq<InputEvent>, encoding: TextEncoding) -> bool {
    forall|i: int| 0 <= i < events.len() ==> event_encodable(#[trigger] events[i], encoding)
}

/// The bytes that the events of one frame send to the device.
pub fn terminal_bytes_from_events(
    events: &[InputEvent],
    encoding: TextEncoding,
    frame_modifiers: Modifiers,
) -> (result: Result<Vec<u8>, String>)
    requires
        events_encodable(events@, encoding),
    ensures
        result_view(result) == terminal_input(events@, encoding, frame_modifiers),
{
    let ghost frame = input_frame(events@, frame_modifiers);
    let has_paste = has_paste(events);
    let has_ctrl_c_key = has_pressed_control_key(events, Key::C);
    let has_ctrl_x_key = has_pressed_control_key(events, Key::X);
    let control_held = frame_modifiers.ctrl && !frame_modifiers.alt && !frame_modifiers.shift;
    let text_contains_tab = has_text_with_tab(events);
    let mut bytes: Vec<u8> = Vec::new();
    let mut i: usize = 0;
    while i < events.len()
        invariant
            i <= events.len(),
            events_encodable(events@, encoding),
            frame == input_frame(events@, frame_modifiers),
            has_paste == frame.has_paste,
            has_ctrl_c_key == frame.has_ctrl_c_key,
            has_ctrl_x_key == frame.has_ctrl_x_key,
            control_held == frame.control_held,
            text_contains_tab == frame.text_contains_tab,
            events_bytes(events@.take(i as int), encoding, frame) == Ok::<Seq<u8>, Seq<char>>(
                bytes@,
            ),
        decreases events.len() - i,
    {
        let ghost before = bytes@;
        let ghost next = events@.take(i + 1);
        assert(next.drop_last() == events@.take(i as int));
        assert(next.last() == events@[i as int]);
        let appended = match &events[i] {
            InputEvent::Copy => {
                if control_held && !has_ctrl_c_key {
                    bytes.push(0x03);
                }
                Ok(())
            },
            InputEvent::Cut => {
                if control_held && !has_ctrl_x_key {
                    bytes.push(0x18);
                }
                Ok(())
            },
            InputEvent::Text(text) => append_terminal_text(&mut bytes, text.as_str(), encoding),
            InputEvent::Paste(text) => append_terminal_text(&mut bytes, text.as_str(), encoding),
            InputEvent::Commit(text) => append_terminal_text(&mut bytes, text.as_str(), encoding),
            InputEvent::Key { key, pressed, modifiers } => {
                if *pressed {
                    append_key_bytes(
                        &mut bytes,
                        *key,
                        *modifiers,
                        has_paste,
                        text_contains_tab,
                        Ghost(frame),
                    );
                }
                Ok(())
            },
            InputEvent::Other => Ok(()),
        };
        if let Err(message) = appended {
            proof {
                error_stays(events@, i + 1, encoding, frame);
            }
            return Err(message);
        }
        assert(match event_bytes(events@[i as int], encoding, frame) {
            Ok(added) => bytes@ =~= before + added,
            Err(_) => false,
        });
        i += 1;
    }
    assert(events@.take(i as int) == events@);
    Ok(bytes)
}

/// The first error among the events is the one that is told.
proof fn error_stays(events: Seq<InputEvent>, count: int, encoding: TextEncoding, frame: InputFrame)
    requires
        0 <= count <= events.len(),
        events_bytes(events.take(count), encoding, frame) is Err,
    ensures
        events_bytes(events, encoding, frame) == events_bytes(events.take(count), encoding, frame),
    decreases events.len() - count,
{
    if count == events.len() {
        assert(events.take(count) == events);
    } else {
        assert(events.take(count + 1).drop_last() == events.take(count));
        error_stays(events, count + 1, encoding, frame);
    }
}

proof fn silent_event_adds_nothing(
    a: Seq<InputEvent>,
    event: InputEvent,
    b: Seq<InputEvent>,
    encoding: TextEncoding,
    frame: InputFrame,
)
    requires
        event_bytes(event, encoding, frame) == Ok::<Seq<u8>, Seq<char>>(Seq::empty()),
    ensures
        events_bytes(a.push(event) + b, encoding, frame) == events_bytes(a + b, encoding, frame),
    decreases b.len(),
{
    if b.len() == 0 {
        assert((a.push(event) + b).drop_last() == a);
        assert(a + b == a);
        if let Ok(bytes) = events_bytes(a, encoding, frame) {
            assert(bytes + Seq::<u8>::empty() == bytes);
        }
    } else {
        silent_event_adds_nothing(a, event, b.drop_last(), encoding, frame);
        assert((a.push(event) + b).drop_last() == a.push(event) + b.drop_last());
        assert((a + b).drop_last() == a + b.drop_last());
    }
}

proof fn clipboard_event_leaves_the_frame(
    a: Seq<InputEvent>,
    event: InputEvent,
    b: Seq<InputEvent>,
    modifiers: Modifiers,
)
    requires
        event is Copy || event is Cut,
    ensures
        input_frame(a.push(event) + b, modifiers) == input_frame(a + b, modifiers),
{
    let with = a.push(event) + b;
    let without = a + b;
    assert forall|i: int| 0 <= i < without.len() implies #[trigger] without[i] == with[if i
        < a.len() {
        i
    } else {
        i + 1
    }] by {}
    assert forall|i: int| 0 <= i < with.len() && i != a.len() implies #[trigger] with[i]
        == without[if i < a.len() {
        i
    } else {
        i - 1
    }] by {}
    assert(with[a.len() as int] == event);
    let fw = input_frame(with, modifiers);
    let fo = input_frame(without, modifiers);
    assert(fw.has_paste == fo.has_paste);
    assert(fw.has_ctrl_c_key == fo.has_ctrl_c_key);
    assert(fw.has_ctrl_x_key == fo.has_ctrl_x_key);
    assert(fw.text_contains_tab == fo.text_contains_tab);
}

/// A keystroke that is reported twice is sent once: where Ctrl+C comes as a key, a copy event
/// beside it adds nothing, wherever it stands among the events, and so with Ctrl+X and cut.
pub proof fn reported_twice_is_sent_once(
    a: Seq<InputEvent>,
    event: InputEvent,
    b: Seq<InputEvent>,
    encoding: TextEncoding,
    modifiers: Modifiers,
)
    requires
        event is Copy && has_control_key(a + b, Key::C) || event is Cut && has_control_key(
            a + b,
            Key::X,
        ),
    ensures
        terminal_input(a.push(event) + b, encoding, modifiers) == terminal_input(
            a + b,
            encoding,
            modifiers,
        ),
{
    clipboard_event_leaves_the_frame(a, event, b, modifiers);
    silent_event_adds_nothing(a, event, b, encoding, input_frame(a + b, modifiers));
}

/// Keys are not echoed: a key that types text is sent by the text alone, so with Ctrl up only the
/// special keys send bytes of their own.
pub proof fn printable_keys_send_nothing_themselves(
    key: Key,
    modifiers: Modifiers,
    encoding: TextEncoding,
    frame: InputFrame,
)
    requires
        !modifiers.ctrl,
        control_byte(key) is Some,
    ensures
        event_bytes(InputEvent::Key { key, pressed: true, modifiers }, encoding, frame) == Ok::<
            Seq<u8>,
            Seq<char>,
        >(Seq::empty()),
{
}

} // verus!
