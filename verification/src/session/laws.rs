//! What a session makes of the worker's reports, of typed baud rates and of repetitions.

use vstd::prelude::*;

use crate::chars::{
    decimal_digits_stand_for_the_number, decimal_text, is_space, number_of, trim,
    trimming_takes_the_spaces_at_both_ends,
};
use crate::formatting::input::{hex_input, text_input};
use crate::history::pushed;
use crate::model::{decimal_value, is_digit, LineEnding, SendMode, TextEncoding};
use crate::serial_worker::EventView;
use crate::session::{
    baud_rate_error, baud_rate_of, payload_of, ConnectionView, NoticeView, RepeatView, SessionView,
};

verus! {

proof fn digits_are_worth_their_number(digits: Seq<char>)
    requires
        forall|i: int| 0 <= i < digits.len() ==> is_digit(#[trigger] digits[i]),
    ensures
        decimal_value(digits) == number_of(digits),
        number_of(digits) >= 0,
    decreases digits.len(),
{
    if digits.len() > 0 {
        let before = digits.drop_last();
        assert forall|i: int| 0 <= i < before.len() implies is_digit(#[trigger] before[i]) by {
            assert(before[i] == digits[i]);
        }
        digits_are_worth_their_number(before);
        assert(is_digit(digits[digits.len() - 1]));
    }
}

/// A baud rate is what its digits stand for, from one to four million; spaces around them do not
/// matter. Anything else is none.
pub proof fn typed_digits_are_the_baud_rate(digits: Seq<char>, input: Seq<char>)
    requires
        digits == trim(input),
        digits.len() > 0,
        forall|i: int| 0 <= i < digits.len() ==> is_digit(#[trigger] digits[i]),
    ensures
        1 <= number_of(digits) <= 4_000_000 ==> baud_rate_of(input) is Some && baud_rate_of(
            input,
        )->0 == number_of(digits),
        number_of(digits) < 1 || number_of(digits) > 4_000_000 ==> baud_rate_of(input) is None,
{
    digits_are_worth_their_number(digits);
}

/// What is typed with a letter or a sign in it, or not at all, is no baud rate.
pub proof fn other_texts_are_no_baud_rate(input: Seq<char>, i: int)
    requires
        trim(input).len() == 0 || 0 <= i < trim(input).len() && !is_digit(trim(input)[i]),
    ensures
        baud_rate_of(input) is None,
{
}

/// A baud rate that is written out reads back.
pub proof fn written_baud_rates_read_back(rate: u32)
    requires
        1 <= rate <= 4_000_000,
    ensures
        baud_rate_of(decimal_text(rate as nat)) == Some(rate),
{
    let text = decimal_text(rate as nat);
    decimal_digits_stand_for_the_number(rate as nat);
    let (start, end) = trimming_takes_the_spaces_at_both_ends(text);
    assert(start == 0) by {
        if start > 0 {
            assert(is_space(text[0]));
        }
    }
    assert(end == text.len()) by {
        if end < text.len() {
            assert(is_space(text[end]));
        }
    }
    assert(trim(text) == text);
    assert forall|i: int| 0 <= i < text.len() implies is_digit(#[trigger] text[i]) by {}
    typed_digits_are_the_baud_rate(text, text);
}

/// A port that is reported open is connected, and that is told for six seconds. Messages that
/// wait, the history and a repetition are not touched.
pub proof fn an_open_port_is_connected(
    session: SessionView,
    port: Seq<char>,
    terminal_mode: bool,
    now: u64,
)
    requires
        now <= u64::MAX - 6_000,
    ensures
        ({
            let after = session.after_event(EventView::Opened(port), terminal_mode, now);
            &&& after.connection == ConnectionView::Connected(port)
            &&& after.send_error is None
            &&& after.pending == session.pending
            &&& after.history == session.history
            &&& after.repeat == session.repeat
            &&& after.ports == session.ports
            &&& after.config == session.config
            &&& terminal_mode ==> after.focus_terminal
            &&& after.notice is Some
            &&& after.notice->0.message == "已连接 "@ + port
            &&& !after.notice->0.error
            &&& after.notice->0.expires_at == now + 6_000
        }),
{
}

/// A port that is reported closed is not connected. Nothing is repeated and nothing waits any
/// more; what was sent before is still remembered.
pub proof fn a_closed_port_is_not_connected(
    session: SessionView,
    terminal_mode: bool,
    now: u64,
    id: u64,
)
    ensures
        ({
            let after = session.after_event(EventView::Closed, terminal_mode, now);
            &&& after.connection == ConnectionView::Disconnected
            &&& after.repeat is None
            &&& !after.pending.contains_key(id)
            &&& after.history == session.history
            &&& after.ports == session.ports
            &&& after.config == session.config
            &&& session.connection is Disconnected ==> after.notice == session.notice
            &&& !(session.connection is Disconnected) ==> after.notice is Some
                && after.notice->0.message == "串口已断开"@ && !after.notice->0.error
        }),
{
}

/// The list of ports is the one that is reported. A port that was chosen stays chosen; if none
/// was, the first one is.
pub proof fn reported_ports_are_listed(
    session: SessionView,
    ports: Seq<Seq<char>>,
    terminal_mode: bool,
    now: u64,
)
    ensures
        ({
            let after = session.after_event(EventView::Ports(ports), terminal_mode, now);
            &&& after.ports == ports
            &&& after.connection == session.connection
            &&& after.config.baud_rate == session.config.baud_rate
            &&& session.config.port_name.len() > 0 || ports.len() == 0 ==> after.config
                == session.config
            &&& session.config.port_name.len() == 0 && ports.len() > 0 ==> after.config.port_name
                == ports[0]
        }),
{
}

/// An error of the port stops repeating and is shown where it was sent from; an error of a control
/// is told and changes nothing else.
pub proof fn errors_are_told(session: SessionView, message: Seq<char>, terminal_mode: bool, now: u64)
    requires
        now <= u64::MAX - 6_000,
    ensures
        ({
            let port = session.after_event(EventView::PortError(message), terminal_mode, now);
            let control = session.after_event(EventView::ControlError(message), terminal_mode, now);
            &&& port.repeat is None
            &&& port.send_error == Some(message)
            &&& port.connection == session.connection
            &&& port.history == session.history
            &&& port.notice is Some
            &&& port.notice->0.message == message
            &&& port.notice->0.error
            &&& port.notice->0.expires_at == now + 6_000
            &&& control == (SessionView { notice: port.notice, ..session })
        }),
{
}

/// A port can be opened if a baud rate from one to four million is typed and a port is chosen that
/// is there.
pub proof fn ports_can_be_opened(session: SessionView)
    ensures
        session.open_error() is None <==> {
            &&& baud_rate_of(session.baud_rate_input) is Some
            &&& trim(session.config.port_name).len() > 0
            &&& exists|i: int|
                0 <= i < session.ports.len() && #[trigger] session.ports[i]
                    == session.config.port_name
        },
{
    if session.ports.contains(session.config.port_name) {
        let i = choose|i: int|
            0 <= i < session.ports.len() && session.ports[i] == session.config.port_name;
        assert(session.ports[i] == session.config.port_name);
    }
}

/// A repetition is due once its time has come, as long as the port is connected; each time it
/// sends the same bytes, and the next time is an interval away.
pub proof fn repetitions_are_due_in_time(
    session: SessionView,
    repeat: RepeatView,
    interval: u64,
    now: u64,
)
    requires
        session.repeat == Some(repeat),
        now <= u64::MAX - interval,
    ensures
        session.repeat_due(now) <==> session.connection is Connected && now >= repeat.next_send,
        session.rescheduled(interval, now).repeat == Some(
            RepeatView {
                bytes: repeat.bytes,
                history: repeat.history,
                next_send: (now + interval) as u64,
            },
        ),
        session.rescheduled(interval, now).connection == session.connection,
        session.rescheduled(interval, now).history == session.history,
{
}

/// HEX input is sent as HEX and text as text, as the mode says.
pub proof fn the_mode_decides_what_is_sent(
    input: Seq<char>,
    encoding: TextEncoding,
    line_ending: LineEnding,
)
    ensures
        payload_of(input, SendMode::Hex, encoding, line_ending) == hex_input(input),
        payload_of(input, SendMode::Text, encoding, line_ending) == text_input(
            input,
            encoding,
            line_ending,
        ),
{
}

/// While something is repeated, nothing else is edited or sent, and repeating can be stopped;
/// without a connection nothing can be sent or repeated.
pub proof fn controls_follow_the_session(session: SessionView, input: Seq<char>, mode: SendMode)
    ensures
        ({
            let controls = session.send_controls(input, mode);
            &&& session.repeat is Some ==> !controls.edit && !controls.send && !controls.clear
                && !controls.line_ending && controls.repeat
            &&& session.repeat is None ==> controls.edit && (controls.send
                <==> session.connection is Connected) && (controls.repeat
                <==> session.connection is Connected) && (controls.line_ending <==> mode
                == SendMode::Text) && (controls.clear <==> input.len() > 0
                || session.send_error is Some)
        }),
{
}

/// A notice says what it is given and is shown for six seconds; a typed baud rate is the one that
/// the port is opened with, and a text that is none changes nothing.
pub proof fn notices_and_typed_rates_change_nothing_else(
    session: SessionView,
    message: Seq<char>,
    error: bool,
    now: u64,
)
    requires
        now <= u64::MAX - 6_000,
    ensures
        ({
            let after = session.noticed(message, error, now);
            &&& after.notice == Some(
                NoticeView { message, expires_at: (now + 6_000) as u64, error },
            )
            &&& after == (SessionView { notice: after.notice, ..session })
        }),
        ({
            let after = session.with_typed_baud_rate();
            &&& baud_rate_of(session.baud_rate_input) matches Some(rate) ==> after.config.baud_rate
                == rate
            &&& baud_rate_of(session.baud_rate_input) is None ==> after == session
            &&& after.config.port_name == session.config.port_name
            &&& after.connection == session.connection
            &&& after.history == session.history
            &&& after.notice == session.notice
        }),
        session.closing().repeat is None,
        session.closing() == (SessionView { repeat: None, ..session }),
{
}

/// What was sent is in the history once it is reported as sent, however much that was, and stands
/// first there; a report of something unknown adds nothing. Earlier errors are settled by it, and
/// it is told if nothing was sent.
pub proof fn what_was_sent_is_remembered(
    session: SessionView,
    id: u64,
    count: nat,
    terminal_mode: bool,
    now: u64,
)
    ensures
        ({
            let after = session.after_event(
                EventView::TxCompleted { id, count },
                terminal_mode,
                now,
            );
            &&& session.pending.contains_key(id) ==> after.history.len() > 0
                && after.history.first() == session.pending[id]
            &&& !session.pending.contains_key(id) ==> after.history == session.history
            &&& !after.pending.contains_key(id)
            &&& forall|other: u64|
                other != id ==> (#[trigger] after.pending.contains_key(other)
                    <==> session.pending.contains_key(other)) && (after.pending.contains_key(other)
                    ==> after.pending[other] == session.pending[other])
            &&& after.send_error is None
            &&& count > 0 ==> after.notice == session.notice
            &&& count == 0 ==> after.notice is Some && after.notice->0.error
            &&& after.connection == session.connection
            &&& after.repeat == session.repeat
        }),
{
    if session.pending.contains_key(id) {
        let after = pushed(session.history, session.pending[id]);
        assert(after[0] == session.pending[id]);
    }
}

/// It is told what is wrong with a baud rate: nothing is typed, something that is no digit, or the
/// number cannot be used.
pub proof fn faulty_baud_rates_are_told_of(input: Seq<char>, i: int)
    requires
        baud_rate_of(input) is None,
    ensures
        trim(input).len() == 0 ==> baud_rate_error(input) == "请输入波特率"@,
        0 <= i < trim(input).len() && !('0' <= trim(input)[i] <= '9') ==> baud_rate_error(input)
            == "波特率只能包含数字"@,
        trim(input).len() > 0 && (forall|k: int|
            0 <= k < trim(input).len() ==> '0' <= #[trigger] trim(input)[k] <= '9')
            ==> baud_rate_error(input) == "波特率必须在 1 到 4,000,000 之间"@,
{
    if 0 <= i < trim(input).len() && !('0' <= trim(input)[i] <= '9') {
        assert(!is_digit(trim(input)[i]));
    }
}

} // verus!
