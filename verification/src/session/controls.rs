//! What the controls of a session show and allow.

use vstd::prelude::*;

use crate::chars::{decimal, decimal_text};
use crate::model::{FlowControl, SendMode, SerialConfig};
use crate::session::{ConnectionState, ConnectionView, Session, SessionView};
use crate::status::{bytes_text, human_bytes};

verus! {

/// What the controls for sending allow.
#[derive(Debug, Clone, Copy, PartialEq, Eq, Structural)]
pub struct SendControls {
    /// The text, the mode, the history and the interval can be changed.
    pub edit: bool,
    pub line_ending: bool,
    pub clear: bool,
    pub repeat: bool,
    pub send: bool,
}

/// How a connection is shown.
#[derive(Debug, Clone, Copy, PartialEq, Eq, Structural)]
pub enum ConnectionLight {
    Grey,
    Yellow,
    Green,
}

/// What the button for the connection asks for.
#[derive(Debug)]
pub enum ConnectionStep {
    Close,
    Open(SerialConfig),
    /// A notice tells why there is nothing to do.
    Stay,
}

/// What the status line tells of the bytes that went either way and of the buffer.
#[derive(Debug)]
pub struct TrafficTexts {
    pub received: String,
    pub sent: String,
    pub buffered: String,
    pub dropped: Option<String>,
}

impl SessionView {
    /// While something is sent again and again, nothing about it can be changed.
    pub open spec fn send_controls(self, input: Seq<char>, mode: SendMode) -> SendControls {
        let repeating = self.repeat is Some;
        let connected = self.connection is Connected;
        SendControls {
            edit: !repeating,
            line_ending: !repeating && mode == SendMode::Text,
            clear: !repeating && (input.len() > 0 || self.send_error is Some),
            repeat: connected || repeating,
            send: connected && !repeating,
        }
    }

    /// The session when the connection is to be closed.
    pub open spec fn closing(self) -> SessionView {
        SessionView { repeat: None, ..self }
    }
}

impl Session {
    pub fn send_controls(&self, input: &str, mode: SendMode) -> (controls: SendControls)
        ensures
            controls == self.inner().send_controls(input@, mode),
    {
        let repeating = self.is_repeating();
        let connected = self.connection().is_connected();
        SendControls {
            edit: !repeating,
            line_ending: !repeating && mode == SendMode::Text,
            clear: !repeating && (!input.is_empty() || self.send_error().is_some()),
            repeat: connected || repeating,
            send: connected && !repeating,
        }
    }

    /// The port and its parameters can be changed.
    pub fn can_configure(&self) -> (can: bool)
        ensures
            can == (self.inner().connection is Disconnected),
    {
        self.connection().is_disconnected()
    }

    /// The driver does not manage RTS itself.
    pub fn can_set_rts(&self) -> (can: bool)
        ensures
            can == (self.inner().config.flow_control != FlowControl::Hardware),
    {
        self.config.flow_control != FlowControl::Hardware
    }

    /// The button for the connection, and whether it can be pressed.
    pub fn connection_button(&self) -> (button: (&'static str, bool))
        ensures
            button.0@ == match self.inner().connection {
                ConnectionView::Disconnected => "打开串口"@,
                ConnectionView::Connecting => "正在连接..."@,
                ConnectionView::Connected(_) => "关闭串口"@,
            },
            button.1 == !(self.inner().connection is Connecting),
    {
        match self.connection() {
            ConnectionState::Disconnected => ("打开串口", true),
            ConnectionState::Connecting => ("正在连接...", false),
            ConnectionState::Connected(_) => ("关闭串口", true),
        }
    }

    /// The button for the connection was pressed.
    pub fn press_connection_button(&mut self, now: u64) -> (step: ConnectionStep)
        ensures
            ({
                let before = old(self).inner();
                let after = final(self).inner();
                if before.connection is Connected {
                    step is Close && after == before.closing()
                } else {
                    match before.open_error() {
                        Some(message) => step is Stay && after
                            == before.with_typed_baud_rate().noticed(message, true, now),
                        None => {
                            &&& step matches ConnectionStep::Open(config) && config@
                                == after.config
                            &&& after == before.with_typed_baud_rate()
                        },
                    }
                }
            }),
    {
        if self.connection().is_connected() {
            self.stop_repeat();
            return ConnectionStep::Close;
        }
        match self.open_selected_port(now) {
            Some(config) => ConnectionStep::Open(config),
            None => ConnectionStep::Stay,
        }
    }

    /// How the connection is shown.
    pub fn connection_status(&self) -> (status: (ConnectionLight, String))
        ensures
            match self.inner().connection {
                ConnectionView::Disconnected => status.0 == ConnectionLight::Grey && status.1@
                    == "未连接"@,
                ConnectionView::Connecting => status.0 == ConnectionLight::Yellow && status.1@
                    == "正在连接"@,
                ConnectionView::Connected(port) => status.0 == ConnectionLight::Green && status.1@
                    == "已连接 "@ + port,
            },
    {
        match self.connection() {
            ConnectionState::Disconnected => (ConnectionLight::Grey, "未连接".to_owned()),
            ConnectionState::Connecting => (ConnectionLight::Yellow, "正在连接".to_owned()),
            ConnectionState::Connected(port) => {
                let mut text = "已连接 ".to_owned();
                text.append(port.as_str());
                (ConnectionLight::Green, text)
            },
        }
    }
}

/// What an empty send field says.
pub fn send_hint(mode: SendMode) -> (hint: &'static str)
    ensures
        hint@ == match mode {
            SendMode::Text => "输入要发送的文本"@,
            SendMode::Hex => "例如：AA 01 FF 或 AA01FF"@,
        },
{
    match mode {
        SendMode::Text => "输入要发送的文本",
        SendMode::Hex => "例如：AA 01 FF 或 AA01FF",
    }
}

fn counter(label: &str, count: u64) -> (text: String)
    ensures
        text@ == label@ + decimal_text(count as nat) + " B"@,
{
    let mut text = label.to_owned();
    text.append(decimal(count).as_str());
    text.append(" B");
    text
}

/// What is told of the bytes that were received, sent, kept and dropped.
pub fn traffic_texts(rx_bytes: u64, tx_bytes: u64, buffered: u64, dropped: u64) -> (texts:
    TrafficTexts)
    ensures
        texts.received@ == "RX "@ + decimal_text(rx_bytes as nat) + " B"@,
        texts.sent@ == "TX "@ + decimal_text(tx_bytes as nat) + " B"@,
        texts.buffered@ == "缓存 "@ + bytes_text(buffered as nat),
        match texts.dropped {
            Some(text) => dropped > 0 && text@ == "已淘汰 "@ + bytes_text(dropped as nat),
            None => dropped == 0,
        },
{
    let mut kept = "缓存 ".to_owned();
    kept.append(human_bytes(buffered).as_str());
    let gone = if dropped > 0 {
        let mut text = "已淘汰 ".to_owned();
        text.append(human_bytes(dropped).as_str());
        Some(text)
    } else {
        None
    };
    TrafficTexts {
        received: counter("RX ", rx_bytes),
        sent: counter("TX ", tx_bytes),
        buffered: kept,
        dropped: gone,
    }
}

} // verus!
