//! The connection to a device and what is sent to it: how the program's state follows what the
//! user does and what the serial worker reports. Times are milliseconds on one steady clock.

use std::collections::HashMap;

use vstd::prelude::*;

use crate::chars::{decimal, decimal_text, trim};
use crate::encoding::encodable;
use crate::formatting::input::{hex_input, parse_send_input, result_view, text_input};
use crate::history::{pushed, SendHistory};
use crate::model::{
    baud_rate_in_range, decimal_value, is_digit, parse_baud_rate, ConfigView, DataBits,
    FlowControl, HistoryItem, HistoryView, LineEnding, Parity, SendMode, SerialConfig, StopBits,
    TextEncoding,
};
use crate::serial_worker::{texts, EventView, WorkerEvent};
use crate::task_state::{elapsed, next_revision};

pub mod controls;
pub mod laws;

verus! {

pub const PORT_REFRESH_INTERVAL: u64 = 2_000;

pub const NOTICE_DURATION: u64 = 6_000;

#[derive(Debug)]
pub enum ConnectionState {
    Disconnected,
    Connecting,
    Connected(String),
}

impl ConnectionState {
    pub fn is_connected(&self) -> (connected: bool)
        ensures
            connected == (*self is Connected),
    {
        matches!(self, ConnectionState::Connected(_))
    }

    pub fn is_disconnected(&self) -> (disconnected: bool)
        ensures
            disconnected == (*self is Disconnected),
    {
        matches!(self, ConnectionState::Disconnected)
    }
}

#[verifier::ext_equal]
pub enum ConnectionView {
    Disconnected,
    Connecting,
    Connected(Seq<char>),
}

impl View for ConnectionState {
    type V = ConnectionView;

    open spec fn view(&self) -> ConnectionView {
        match self {
            ConnectionState::Disconnected => ConnectionView::Disconnected,
            ConnectionState::Connecting => ConnectionView::Connecting,
            ConnectionState::Connected(port) => ConnectionView::Connected(port@),
        }
    }
}

/// Something the user is told for a while.
#[derive(Debug)]
pub struct Notice {
    pub message: String,
    pub expires_at: u64,
    pub error: bool,
}

#[verifier::ext_equal]
pub struct NoticeView {
    pub message: Seq<char>,
    pub expires_at: u64,
    pub error: bool,
}

impl View for Notice {
    type V = NoticeView;

    open spec fn view(&self) -> NoticeView {
        NoticeView { message: self.message@, expires_at: self.expires_at, error: self.error }
    }
}

/// A moment some time from now, as far as the clock goes.
pub open spec fn moment_after(now: u64, wait: u64) -> u64 {
    if now + wait > u64::MAX {
        u64::MAX
    } else {
        (now + wait) as u64
    }
}

pub open spec fn notice_of(message: Seq<char>, error: bool, now: u64) -> Option<NoticeView> {
    Some(NoticeView { message, expires_at: moment_after(now, NOTICE_DURATION), error })
}

/// What is sent again and again.
#[derive(Debug)]
pub struct RepeatState {
    bytes: Vec<u8>,
    history: HistoryItem,
    next_send: u64,
}

#[verifier::ext_equal]
pub struct RepeatView {
    pub bytes: Seq<u8>,
    pub history: HistoryView,
    pub next_send: u64,
}

impl RepeatState {
    pub closed spec fn inner(self) -> RepeatView {
        RepeatView { bytes: self.bytes@, history: self.history@, next_send: self.next_send }
    }
}

/// What repeated sending asks for now.
#[derive(Debug)]
pub enum RepeatStep {
    Idle,
    /// It is not time yet.
    Wait(u64),
    Send { bytes: Vec<u8>, history: HistoryItem },
}

#[derive(Debug)]
pub struct Session {
    pub config: SerialConfig,
    pub baud_rate_input: String,
    connection: ConnectionState,
    ports: Vec<String>,
    last_port_refresh: u64,
    history: SendHistory,
    pending: HashMap<u64, HistoryItem>,
    next_send_id: u64,
    repeat: Option<RepeatState>,
    send_error: Option<String>,
    focus_terminal: bool,
    notice: Option<Notice>,
}

#[verifier::ext_equal]
pub struct SessionView {
    pub config: ConfigView,
    pub baud_rate_input: Seq<char>,
    pub connection: ConnectionView,
    pub ports: Seq<Seq<char>>,
    pub last_port_refresh: u64,
    pub history: Seq<HistoryView>,
    pub pending: Map<u64, HistoryView>,
    pub next_send_id: u64,
    pub repeat: Option<RepeatView>,
    pub send_error: Option<Seq<char>>,
    pub focus_terminal: bool,
    pub notice: Option<NoticeView>,
}

/// The text of an optional string.
pub open spec fn optional_text(text: Option<String>) -> Option<Seq<char>> {
    match text {
        Some(text) => Some(text@),
        None => None,
    }
}

pub open spec fn optional_notice(notice: Option<Notice>) -> Option<NoticeView> {
    match notice {
        Some(notice) => Some(notice@),
        None => None,
    }
}

pub open spec fn optional_repeat(repeat: Option<RepeatState>) -> Option<RepeatView> {
    match repeat {
        Some(repeat) => Some(repeat.inner()),
        None => None,
    }
}

pub open spec fn pending_views(pending: Map<u64, HistoryItem>) -> Map<u64, HistoryView> {
    pending.map_values(|item: HistoryItem| item@)
}

/// A baud rate as `parse_baud_rate` reads it.
pub open spec fn baud_rate_of(input: Seq<char>) -> Option<u32> {
    let digits = trim(input);
    if digits.len() > 0 && (forall|i: int| 0 <= i < trim(input).len() ==> is_digit(trim(input)[i]))
        && baud_rate_in_range(decimal_value(digits) as int) {
        Some(decimal_value(digits) as u32)
    } else {
        None
    }
}

/// Why an input is no baud rate.
pub open spec fn baud_rate_error(input: Seq<char>) -> Seq<char> {
    if trim(input).len() == 0 {
        "请输入波特率"@
    } else if !(forall|i: int| 0 <= i < trim(input).len() ==> is_digit(trim(input)[i])) {
        "波特率只能包含数字"@
    } else {
        "波特率必须在 1 到 4,000,000 之间"@
    }
}

impl SessionView {
    pub open spec fn noticed(self, message: Seq<char>, error: bool, now: u64) -> SessionView {
        SessionView { notice: notice_of(message, error, now), ..self }
    }

    /// The session after the worker has reported something.
    pub open spec fn after_event(
        self,
        event: EventView,
        terminal_mode: bool,
        now: u64,
    ) -> SessionView {
        match event {
            EventView::Ports(ports) => SessionView {
                ports,
                config: if self.config.port_name.len() == 0 && ports.len() > 0 {
                    ConfigView { port_name: ports[0], ..self.config }
                } else {
                    self.config
                },
                ..self
            },
            EventView::Opened(port) => SessionView {
                connection: ConnectionView::Connected(port),
                send_error: None,
                focus_terminal: self.focus_terminal || terminal_mode,
                notice: notice_of("已连接 "@ + port, false, now),
                ..self
            },
            EventView::Closed => SessionView {
                connection: ConnectionView::Disconnected,
                repeat: None,
                pending: Map::empty(),
                notice: if self.connection is Disconnected {
                    self.notice
                } else {
                    notice_of("串口已断开"@, false, now)
                },
                ..self
            },
            EventView::TxCompleted { id, count } => SessionView {
                pending: self.pending.remove(id),
                history: if self.pending.contains_key(id) {
                    pushed(self.history, self.pending[id])
                } else {
                    self.history
                },
                send_error: None,
                notice: if count == 0 {
                    notice_of("没有数据被发送"@, true, now)
                } else {
                    self.notice
                },
                ..self
            },
            EventView::PortError(message) => SessionView {
                repeat: None,
                send_error: Some(message),
                notice: notice_of(message, true, now),
                ..self
            },
            EventView::ControlError(message) => self.noticed(message, true, now),
        }
    }

    /// Why the selected port cannot be opened.
    pub open spec fn open_error(self) -> Option<Seq<char>> {
        if baud_rate_of(self.baud_rate_input) is None {
            Some(baud_rate_error(self.baud_rate_input))
        } else if trim(self.config.port_name).len() == 0 {
            Some("请选择串口"@)
        } else if !self.ports.contains(self.config.port_name) {
            Some("所选串口当前不可用，请刷新后重选"@)
        } else {
            None
        }
    }

    /// The session with the baud rate that was typed in.
    pub open spec fn with_typed_baud_rate(self) -> SessionView {
        match baud_rate_of(self.baud_rate_input) {
            Some(baud_rate) => SessionView {
                config: ConfigView { baud_rate, ..self.config },
                ..self
            },
            None => self,
        }
    }

    pub open spec fn repeat_due(self, now: u64) -> bool {
        self.connection is Connected && match self.repeat {
            Some(repeat) => repeat.next_send <= now,
            None => false,
        }
    }

    pub open spec fn rescheduled(self, interval: u64, now: u64) -> SessionView {
        SessionView {
            repeat: match self.repeat {
                Some(repeat) => Some(
                    RepeatView { next_send: moment_after(now, interval), ..repeat },
                ),
                None => None,
            },
            ..self
        }
    }
}

/// The bytes that the send field stands for.
pub open spec fn payload_of(
    input: Seq<char>,
    mode: SendMode,
    encoding: TextEncoding,
    line_ending: LineEnding,
) -> Result<Seq<u8>, Seq<char>> {
    match mode {
        SendMode::Hex => hex_input(input),
        SendMode::Text => text_input(input, encoding, line_ending),
    }
}

fn contains_text(list: &Vec<String>, text: &String) -> (found: bool)
    ensures
        found == texts(list@).contains(text@),
{
    let mut i: usize = 0;
    while i < list.len()
        invariant
            i <= list.len(),
            forall|k: int| 0 <= k < i ==> #[trigger] texts(list@)[k] != text@,
        decreases list.len() - i,
    {
        if list[i] == *text {
            assert(texts(list@)[i as int] == text@);
            return true;
        }
        i += 1;
    }
    false
}

impl Session {
    pub closed spec fn inner(self) -> SessionView {
        SessionView {
            config: self.config@,
            baud_rate_input: self.baud_rate_input@,
            connection: self.connection@,
            ports: texts(self.ports@),
            last_port_refresh: self.last_port_refresh,
            history: self.history.inner(),
            pending: pending_views(self.pending@),
            next_send_id: self.next_send_id,
            repeat: optional_repeat(self.repeat),
            send_error: optional_text(self.send_error),
            focus_terminal: self.focus_terminal,
            notice: optional_notice(self.notice),
        }
    }

    pub fn new(now: u64) -> (session: Self)
        ensures
            session.inner().connection == ConnectionView::Disconnected,
            session.inner().ports == Seq::<Seq<char>>::empty(),
            session.inner().history == Seq::<HistoryView>::empty(),
            session.inner().pending == Map::<u64, HistoryView>::empty(),
            session.inner().next_send_id == 1,
            session.inner().repeat is None,
            session.inner().send_error is None,
            session.inner().notice is None,
            !session.inner().focus_terminal,
            session.inner().last_port_refresh == elapsed(PORT_REFRESH_INTERVAL, now),
            session.inner().config == (ConfigView {
                port_name: Seq::empty(),
                baud_rate: 115_200,
                data_bits: DataBits::Eight,
                stop_bits: StopBits::One,
                parity: Parity::Off,
                flow_control: FlowControl::Off,
                dtr: false,
                rts: false,
            }),
            session.inner().baud_rate_input == decimal_text(115_200),
    {
        broadcast use vstd::std_specs::hash::group_hash_axioms;

        let config = SerialConfig::default();
        let baud_rate_input = decimal(config.baud_rate as u64);
        let session = Session {
            config,
            baud_rate_input,
            connection: ConnectionState::Disconnected,
            ports: Vec::new(),
            last_port_refresh: now.saturating_sub(PORT_REFRESH_INTERVAL),
            history: SendHistory::new(),
            pending: HashMap::new(),
            next_send_id: 1,
            repeat: None,
            send_error: None,
            focus_terminal: false,
            notice: None,
        };
        assert(session.inner().ports =~= Seq::<Seq<char>>::empty());
        assert(session.inner().pending =~= Map::<u64, HistoryView>::empty());
        session
    }

    pub fn connection(&self) -> (connection: &ConnectionState)
        ensures
            connection@ == self.inner().connection,
    {
        &self.connection
    }

    pub fn ports(&self) -> (ports: &Vec<String>)
        ensures
            texts(ports@) == self.inner().ports,
    {
        &self.ports
    }

    pub fn send_error(&self) -> (error: &Option<String>)
        ensures
            optional_text(*error) == self.inner().send_error,
    {
        &self.send_error
    }

    pub fn clear_send_error(&mut self)
        ensures
            final(self).inner() == (SessionView { send_error: None, ..old(self).inner() }),
    {
        self.send_error = None;
    }

    pub fn is_repeating(&self) -> (repeating: bool)
        ensures
            repeating == (self.inner().repeat is Some),
    {
        self.repeat.is_some()
    }

    pub fn history(&self) -> (history: &SendHistory)
        ensures
            history.inner() == self.inner().history,
    {
        &self.history
    }

    pub fn clear_history(&mut self)
        ensures
            final(self).inner() == (SessionView {
                history: Seq::empty(),
                ..old(self).inner()
            }),
    {
        self.history = SendHistory::new();
    }

    /// Whether the terminal wants the keyboard; asked for once.
    pub fn take_terminal_focus(&mut self) -> (focus: bool)
        ensures
            focus == old(self).inner().focus_terminal,
            final(self).inner() == (SessionView { focus_terminal: false, ..old(self).inner() }),
    {
        let focus = self.focus_terminal;
        self.focus_terminal = false;
        focus
    }

    /// The user turns to the terminal: what is sent again and again stops.
    pub fn enter_terminal(&mut self)
        ensures
            final(self).inner() == (SessionView {
                focus_terminal: true,
                repeat: None,
                ..old(self).inner()
            }),
    {
        self.repeat = None;
        self.focus_terminal = true;
    }

    pub fn set_notice(&mut self, message: String, error: bool, now: u64)
        ensures
            final(self).inner() == old(self).inner().noticed(message@, error, now),
    {
        let expires_at: u64 = now.saturating_add(NOTICE_DURATION);
        self.notice = Some(Notice { message, expires_at, error });
    }

    /// What the user is told at this moment. Later it is forgotten.
    pub fn current_notice(&mut self, now: u64) -> (notice: &Option<Notice>)
        ensures
            final(self).inner() == (SessionView {
                notice: match old(self).inner().notice {
                    Some(notice) => if now < notice.expires_at {
                        Some(notice)
                    } else {
                        None
                    },
                    None => None,
                },
                ..old(self).inner()
            }),
            optional_notice(*notice) == final(self).inner().notice,
    {
        let expired = match &self.notice {
            Some(notice) => now >= notice.expires_at,
            None => false,
        };
        if expired {
            self.notice = None;
        }
        &self.notice
    }

    /// Follows what the worker reports.
    pub fn process_worker_event(&mut self, event: WorkerEvent, terminal_mode: bool, now: u64)
        ensures
            final(self).inner() == old(self).inner().after_event(event@, terminal_mode, now),
    {
        broadcast use vstd::std_specs::hash::group_hash_axioms;

        let ghost before = self.inner();
        let ghost reported = event@;
        match event {
            WorkerEvent::Ports(ports) => {
                if self.config.port_name.as_str().is_empty() && ports.len() > 0 {
                    self.config.port_name = ports[0].clone();
                }
                self.ports = ports;
            },
            WorkerEvent::Opened(port) => {
                let mut message = "已连接 ".to_owned();
                message.append(port.as_str());
                self.connection = ConnectionState::Connected(port);
                self.send_error = None;
                if terminal_mode {
                    self.focus_terminal = true;
                }
                self.set_notice(message, false, now);
            },
            WorkerEvent::Closed => {
                let was_active = !self.connection.is_disconnected();
                self.connection = ConnectionState::Disconnected;
                self.repeat = None;
                self.pending.clear();
                if was_active {
                    self.set_notice("串口已断开".to_owned(), false, now);
                }
                assert(self.inner().pending =~= Map::<u64, HistoryView>::empty());
            },
            WorkerEvent::TxCompleted { id, count } => {
                let ghost all = self.pending@;
                match self.pending.remove(&id) {
                    Some(item) => self.history.push(item),
                    None => {},
                }
                assert(pending_views(self.pending@) =~= pending_views(all).remove(id));
                self.send_error = None;
                if count == 0 {
                    self.set_notice("没有数据被发送".to_owned(), true, now);
                }
            },
            WorkerEvent::PortError(message) => {
                self.repeat = None;
                self.send_error = Some(message.clone());
                self.set_notice(message, true, now);
            },
            WorkerEvent::ControlError(message) => self.set_notice(message, true, now),
        }
        assert(self.inner() =~= before.after_event(reported, terminal_mode, now));
    }

    /// The ports are to be listed again.
    pub fn refresh_due(&self, now: u64) -> (due: bool)
        ensures
            due == (self.inner().connection is Disconnected && elapsed(
                self.inner().last_port_refresh,
                now,
            ) >= PORT_REFRESH_INTERVAL),
    {
        self.connection.is_disconnected() && now.saturating_sub(self.last_port_refresh)
            >= PORT_REFRESH_INTERVAL
    }

    /// The worker was asked to list the ports.
    pub fn refresh_requested(&mut self, outcome: Result<(), String>, now: u64)
        ensures
            final(self).inner() == (SessionView {
                last_port_refresh: now,
                notice: match outcome {
                    Ok(_) => old(self).inner().notice,
                    Err(message) => notice_of(message@, true, now),
                },
                ..old(self).inner()
            }),
    {
        if let Err(message) = outcome {
            self.set_notice(message, true, now);
        }
        self.last_port_refresh = now;
    }

    /// How the selected port is shown.
    pub fn port_display_name(&self) -> (name: String)
        ensures
            name@ == if self.inner().config.port_name.len() == 0 {
                "选择串口"@
            } else if self.inner().ports.contains(self.inner().config.port_name) {
                self.inner().config.port_name
            } else {
                self.inner().config.port_name + "（不可用）"@
            },
    {
        if self.config.port_name.as_str().is_empty() {
            return "选择串口".to_owned();
        }
        let mut name = self.config.port_name.clone();
        if !contains_text(&self.ports, &self.config.port_name) {
            name.append("（不可用）");
        }
        name
    }

    /// The user has typed a baud rate.
    pub fn baud_rate_typed(&mut self)
        ensures
            final(self).inner() == old(self).inner().with_typed_baud_rate(),
    {
        if let Ok(baud_rate) = parse_baud_rate(self.baud_rate_input.as_str()) {
            self.config.baud_rate = baud_rate;
        }
    }

    /// The user has left the field for the baud rate: the number is written plainly.
    pub fn baud_rate_left(&mut self)
        ensures
            final(self).inner() == (SessionView {
                baud_rate_input: match baud_rate_of(old(self).inner().baud_rate_input) {
                    Some(baud_rate) => decimal_text(baud_rate as nat),
                    None => old(self).inner().baud_rate_input,
                },
                ..old(self).inner()
            }),
    {
        if let Ok(baud_rate) = parse_baud_rate(self.baud_rate_input.as_str()) {
            self.baud_rate_input = decimal(baud_rate as u64);
        }
    }

    /// The user has picked a baud rate.
    pub fn select_baud_rate(&mut self, baud_rate: u32)
        ensures
            final(self).inner() == (SessionView {
                config: ConfigView { baud_rate, ..old(self).inner().config },
                baud_rate_input: decimal_text(baud_rate as nat),
                ..old(self).inner()
            }),
    {
        self.config.baud_rate = baud_rate;
        self.baud_rate_input = decimal(baud_rate as u64);
    }

    /// The configuration to open the selected port with, or a notice that says why it cannot be
    /// opened.
    pub fn open_selected_port(&mut self, now: u64) -> (config: Option<SerialConfig>)
        ensures
            match old(self).inner().open_error() {
                Some(message) => config is None && final(self).inner()
                    == old(self).inner().with_typed_baud_rate().noticed(message, true, now),
                None => {
                    &&& config matches Some(config) && config@ == final(self).inner().config
                    &&& final(self).inner() == old(self).inner().with_typed_baud_rate()
                },
            },
    {
        match parse_baud_rate(self.baud_rate_input.as_str()) {
            Ok(baud_rate) => {
                self.config.baud_rate = baud_rate;
            },
            Err(message) => {
                self.set_notice(message.to_owned(), true, now);
                return None;
            },
        }
        if let Err(message) = self.config.validate() {
            self.set_notice(message.to_owned(), true, now);
            return None;
        }
        if !contains_text(&self.ports, &self.config.port_name) {
            self.set_notice("所选串口当前不可用，请刷新后重选".to_owned(), true, now);
            return None;
        }
        Some(self.config.clone())
    }

    /// The worker was asked to open the port.
    pub fn open_requested(&mut self, outcome: Result<(), String>, now: u64)
        ensures
            final(self).inner() == match outcome {
                Ok(_) => SessionView {
                    connection: ConnectionView::Connecting,
                    ..old(self).inner()
                },
                Err(message) => old(self).inner().noticed(message@, true, now),
            },
    {
        match outcome {
            Ok(_) => {
                self.connection = ConnectionState::Connecting;
            },
            Err(message) => self.set_notice(message, true, now),
        }
    }

    /// The bytes to send for what stands in the send field.
    pub fn current_payload(
        &self,
        input: &str,
        mode: SendMode,
        encoding: TextEncoding,
        line_ending: LineEnding,
    ) -> (result: Result<Vec<u8>, String>)
        requires
            mode == SendMode::Text ==> encodable(input@, encoding),
        ensures
            result_view(result) == if self.inner().connection is Connected {
                payload_of(input@, mode, encoding, line_ending)
            } else {
                Err("请先连接串口"@)
            },
    {
        if !self.connection.is_connected() {
            return Err("请先连接串口".to_owned());
        }
        parse_send_input(input, mode, encoding, line_ending)
    }

    /// What is typed in the terminal may be sent.
    pub fn terminal_payload(&self, bytes: Vec<u8>) -> (result: Result<Option<Vec<u8>>, String>)
        ensures
            match result {
                Ok(Some(sent)) => self.inner().connection is Connected && sent == bytes
                    && bytes@.len() > 0,
                Ok(None) => self.inner().connection is Connected && bytes@.len() == 0,
                Err(message) => !(self.inner().connection is Connected) && message@
                    == "请先连接串口"@,
            },
    {
        if !self.connection.is_connected() {
            return Err("请先连接串口".to_owned());
        }
        if bytes.is_empty() {
            Ok(None)
        } else {
            Ok(Some(bytes))
        }
    }

    /// A number for the next thing to send. Zero is never given out.
    pub fn allocate_send_id(&mut self) -> (id: u64)
        ensures
            id == old(self).inner().next_send_id,
            final(self).inner() == (SessionView {
                next_send_id: if next_revision(id) == 0 {
                    1
                } else {
                    next_revision(id)
                },
                ..old(self).inner()
            }),
    {
        let id: u64 = self.next_send_id;
        let next: u64 = id.wrapping_add(1);
        self.next_send_id = if next == 0 {
            1
        } else {
            next
        };
        id
    }

    /// What was handed to the worker is remembered until it is sent.
    pub fn payload_queued(&mut self, id: u64, history: HistoryItem)
        ensures
            final(self).inner() == (SessionView {
                pending: old(self).inner().pending.insert(id, history@),
                send_error: None,
                ..old(self).inner()
            }),
    {
        broadcast use vstd::std_specs::hash::group_hash_axioms;

        let ghost before = self.pending@;
        let ghost item = history@;
        self.pending.insert(id, history);
        assert(pending_views(self.pending@) =~= pending_views(before).insert(id, item));
        self.send_error = None;
    }

    /// Something cannot be sent.
    pub fn send_failed(&mut self, message: String)
        ensures
            final(self).inner() == (SessionView {
                send_error: Some(message@),
                ..old(self).inner()
            }),
    {
        self.send_error = Some(message);
    }

    /// What was typed in the terminal cannot be sent.
    pub fn terminal_failed(&mut self, message: String, now: u64)
        ensures
            final(self).inner() == (SessionView {
                send_error: Some(message@),
                ..old(self).inner()
            }).noticed(message@, true, now),
    {
        self.send_error = Some(message.clone());
        self.set_notice(message, true, now);
    }

    /// What was sent once is sent again and again from now on.
    pub fn start_repeat(&mut self, bytes: Vec<u8>, history: HistoryItem, interval: u64, now: u64)
        ensures
            final(self).inner() == (SessionView {
                repeat: Some(
                    RepeatView {
                        bytes: bytes@,
                        history: history@,
                        next_send: moment_after(now, interval),
                    },
                ),
                ..old(self).inner()
            }),
    {
        let next_send: u64 = now.saturating_add(interval);
        self.repeat = Some(RepeatState { bytes, history, next_send });
    }

    pub fn stop_repeat(&mut self)
        ensures
            final(self).inner() == (SessionView { repeat: None, ..old(self).inner() }),
    {
        self.repeat = None;
    }

    /// What repeated sending asks for now. It ends with the connection.
    pub fn process_repeat(&mut self, now: u64) -> (step: RepeatStep)
        ensures
            final(self).inner() == if old(self).inner().connection is Connected {
                old(self).inner()
            } else {
                SessionView { repeat: None, ..old(self).inner() }
            },
            match final(self).inner().repeat {
                None => step is Idle,
                Some(repeat) => if now < repeat.next_send {
                    step == RepeatStep::Wait((repeat.next_send - now) as u64)
                } else {
                    step matches RepeatStep::Send { bytes, history } && bytes@ == repeat.bytes
                        && history@ == repeat.history
                },
            },
    {
        if !self.connection.is_connected() {
            self.repeat = None;
        }
        match &self.repeat {
            None => RepeatStep::Idle,
            Some(repeat) => if now < repeat.next_send {
                RepeatStep::Wait(repeat.next_send - now)
            } else {
                let bytes = repeat.bytes.clone();
                assert(bytes@ =~= repeat.bytes@);
                RepeatStep::Send { bytes, history: repeat.history.clone() }
            },
        }
    }

    /// A repeated message was handed to the worker, or could not be, which ends it.
    pub fn repeat_sent(&mut self, sent: bool, interval: u64, now: u64)
        ensures
            final(self).inner() == if sent {
                old(self).inner().rescheduled(interval, now)
            } else {
                SessionView { repeat: None, ..old(self).inner() }
            },
    {
        let next_send: u64 = now.saturating_add(interval);
        match self.repeat.take() {
            Some(repeat) => {
                if sent {
                    let mut repeat = repeat;
                    repeat.next_send = next_send;
                    self.repeat = Some(repeat);
                }
            },
            None => {},
        }
    }
}

/// Only what the device has taken is remembered: of all that the worker can report, nothing but a
/// completed message that was waiting changes the history, and it puts that message first.
pub proof fn only_completed_messages_are_remembered(
    session: SessionView,
    event: EventView,
    terminal_mode: bool,
    now: u64,
)
    ensures
        ({
            let after = session.after_event(event, terminal_mode, now);
            match event {
                EventView::TxCompleted { id, .. } => if session.pending.contains_key(id) {
                    after.history == pushed(session.history, session.pending[id])
                        && !after.pending.contains_key(id)
                } else {
                    after.history == session.history
                },
                _ => after.history == session.history,
            }
        }),
{
}

/// Nothing is sent again after the connection is lost.
pub proof fn repeating_ends_with_the_connection(
    session: SessionView,
    event: EventView,
    terminal_mode: bool,
    now: u64,
    later: u64,
)
    requires
        event is Closed || event is PortError,
    ensures
        !session.after_event(event, terminal_mode, now).repeat_due(later),
{
}

/// Between two repetitions there is at least the interval.
pub proof fn repetitions_keep_their_distance(
    session: SessionView,
    interval: u64,
    sent_at: u64,
    later: u64,
)
    requires
        sent_at + interval <= u64::MAX,
        session.rescheduled(interval, sent_at).repeat_due(later),
    ensures
        later >= sent_at + interval,
{
}

} // verus!
