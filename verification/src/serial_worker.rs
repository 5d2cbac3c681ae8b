//! The serial port's side of the program: what commands do to the port, what is counted, and what
//! is reported of it.

use vstd::prelude::*;

use crate::model::{FlowControl, SerialConfig};
use crate::store::ReceiveStore;
use crate::timestamp::Timestamp;

pub mod laws;

verus! {

/// What came of reading from a port.
#[derive(Debug)]
pub enum PortRead {
    Data(Vec<u8>),
    /// Nothing has arrived in time.
    Idle,
    Failed(String),
}

/// An open port.
pub trait PortIo {
    fn read(&mut self) -> (outcome: PortRead);

    fn write_all(&mut self, bytes: &Vec<u8>) -> (outcome: Result<(), String>);

    fn set_dtr(&mut self, level: bool) -> (outcome: Result<(), String>);

    fn set_rts(&mut self, level: bool) -> (outcome: Result<(), String>);
}

/// What ports come from.
pub trait SerialBackend {
    type Port: PortIo;

    fn list_ports(&self) -> (outcome: Result<Vec<String>, String>);

    fn open(&self, config: &SerialConfig) -> (outcome: Result<Self::Port, String>);
}

#[derive(Debug)]
pub enum WorkerCommand {
    RefreshPorts,
    Open(SerialConfig),
    Close,
    Send { id: u64, bytes: Vec<u8> },
    SetDtr(bool),
    SetRts(bool),
    Shutdown,
}

#[derive(Debug)]
pub enum WorkerEvent {
    Ports(Vec<String>),
    Opened(String),
    Closed,
    TxCompleted { id: u64, count: usize },
    PortError(String),
    ControlError(String),
}

/// What an event says.
pub enum EventView {
    Ports(Seq<Seq<char>>),
    Opened(Seq<char>),
    Closed,
    TxCompleted { id: u64, count: nat },
    PortError(Seq<char>),
    ControlError(Seq<char>),
}

pub open spec fn texts(strings: Seq<String>) -> Seq<Seq<char>> {
    Seq::new(strings.len(), |i: int| strings[i]@)
}

impl View for WorkerEvent {
    type V = EventView;

    open spec fn view(&self) -> EventView {
        match self {
            WorkerEvent::Ports(ports) => EventView::Ports(texts(ports@)),
            WorkerEvent::Opened(name) => EventView::Opened(name@),
            WorkerEvent::Closed => EventView::Closed,
            WorkerEvent::TxCompleted { id, count } => EventView::TxCompleted {
                id: *id,
                count: *count as nat,
            },
            WorkerEvent::PortError(message) => EventView::PortError(message@),
            WorkerEvent::ControlError(message) => EventView::ControlError(message@),
        }
    }
}

pub open spec fn event_views(events: Seq<WorkerEvent>) -> Seq<EventView> {
    Seq::new(events.len(), |i: int| events[i]@)
}

/// How many bytes came in and went out since the port was opened.
#[derive(Debug, Clone, Copy)]
pub struct SerialStats {
    rx_bytes: u64,
    tx_bytes: u64,
}

/// A counter starts again at zero when it is full.
pub open spec fn counted(counter: u64, count: int) -> u64 {
    ((counter + count) % 0x1_0000_0000_0000_0000) as u64
}

impl SerialStats {
    pub closed spec fn rx(self) -> u64 {
        self.rx_bytes
    }

    pub closed spec fn tx(self) -> u64 {
        self.tx_bytes
    }

    pub fn new() -> (stats: Self)
        ensures
            stats.rx() == 0,
            stats.tx() == 0,
    {
        SerialStats { rx_bytes: 0, tx_bytes: 0 }
    }

    pub fn reset(&mut self)
        ensures
            final(self).rx() == 0,
            final(self).tx() == 0,
    {
        self.rx_bytes = 0;
        self.tx_bytes = 0;
    }

    pub fn rx_bytes(&self) -> (bytes: u64)
        ensures
            bytes == self.rx(),
    {
        self.rx_bytes
    }

    pub fn tx_bytes(&self) -> (bytes: u64)
        ensures
            bytes == self.tx(),
    {
        self.tx_bytes
    }

    fn count_rx(&mut self, count: usize)
        ensures
            final(self).rx() == counted(old(self).rx(), count as int),
            final(self).tx() == old(self).tx(),
    {
        self.rx_bytes = self.rx_bytes.wrapping_add(count as u64);
    }

    fn count_tx(&mut self, count: usize)
        ensures
            final(self).tx() == counted(old(self).tx(), count as int),
            final(self).rx() == old(self).rx(),
    {
        self.tx_bytes = self.tx_bytes.wrapping_add(count as u64);
    }
}

/// Drives a port. `P` is the port while it is open.
pub struct SerialWorker<P: PortIo> {
    port: Option<P>,
    stats: SerialStats,
}

/// What is known of a worker from outside.
pub struct WorkerView {
    pub open: bool,
    pub rx_bytes: u64,
    pub tx_bytes: u64,
}

impl WorkerView {
    pub open spec fn opened(self) -> WorkerView {
        WorkerView { open: true, rx_bytes: 0, tx_bytes: 0 }
    }

    pub open spec fn closed(self) -> WorkerView {
        WorkerView { open: false, ..self }
    }

    pub open spec fn sent(self, count: int) -> WorkerView {
        WorkerView { tx_bytes: counted(self.tx_bytes, count), ..self }
    }

    pub open spec fn received(self, count: int) -> WorkerView {
        WorkerView { rx_bytes: counted(self.rx_bytes, count), ..self }
    }
}

/// What the outside can answer to a command.
pub enum Reply {
    Ports(Seq<Seq<char>>),
    Done,
    Failed(Seq<char>),
}

/// The worker after a command, and what it reports, given what the outside answered. Where the
/// outside is not asked, the answer does not matter.
pub open spec fn after_command(
    worker: WorkerView,
    command: WorkerCommand,
    reply: Reply,
) -> (WorkerView, Seq<EventView>) {
    match command {
        WorkerCommand::RefreshPorts => (
            worker,
            seq![
                match reply {
                    Reply::Failed(message) => EventView::ControlError(message),
                    Reply::Ports(ports) => EventView::Ports(ports),
                    Reply::Done => EventView::Ports(Seq::empty()),
                },
            ],
        ),
        WorkerCommand::Open(config) => match reply {
            Reply::Failed(message) => (
                worker.closed(),
                seq![EventView::PortError(message), EventView::Closed],
            ),
            _ => (worker.opened(), seq![EventView::Opened(config.port_name@)]),
        },
        WorkerCommand::Close => (
            worker.closed(),
            if worker.open {
                seq![EventView::Closed]
            } else {
                Seq::empty()
            },
        ),
        WorkerCommand::Send { id, bytes } => if !worker.open {
            (worker, seq![EventView::ControlError("串口尚未连接"@)])
        } else {
            match reply {
                Reply::Failed(message) => (
                    worker.closed(),
                    seq![
                        EventView::PortError("串口写入失败："@ + message),
                        EventView::Closed,
                    ],
                ),
                _ => (
                    worker.sent(bytes@.len() as int),
                    seq![EventView::TxCompleted { id, count: bytes@.len() }],
                ),
            }
        },
        WorkerCommand::SetDtr(_) | WorkerCommand::SetRts(_) => (
            worker,
            if worker.open && reply is Failed {
                seq![EventView::ControlError(reply->Failed_0)]
            } else {
                Seq::empty()
            },
        ),
        WorkerCommand::Shutdown => (worker, Seq::empty()),
    }
}

/// The worker after the port was read, and what it reports.
pub open spec fn after_read(worker: WorkerView, read: PortRead) -> (WorkerView, Seq<EventView>) {
    match read {
        PortRead::Data(bytes) => (worker.received(bytes@.len() as int), Seq::empty()),
        PortRead::Idle => (worker, Seq::empty()),
        PortRead::Failed(message) => (
            worker.closed(),
            seq![EventView::PortError("串口读取失败："@ + message@), EventView::Closed],
        ),
    }
}

/// What the outside answered.
pub open spec fn done_reply(outcome: Result<(), String>) -> Reply {
    match outcome {
        Ok(_) => Reply::Done,
        Err(message) => Reply::Failed(message@),
    }
}

pub open spec fn ports_reply(outcome: Result<Vec<String>, String>) -> Reply {
    match outcome {
        Ok(ports) => Reply::Ports(texts(ports@)),
        Err(message) => Reply::Failed(message@),
    }
}

pub open spec fn open_reply<P>(outcome: Result<P, String>) -> Reply {
    match outcome {
        Ok(_) => Reply::Done,
        Err(message) => Reply::Failed(message@),
    }
}

impl<P: PortIo> SerialWorker<P> {
    /// The port while it is open.
    pub closed spec fn port(self) -> Option<P> {
        self.port
    }

    pub closed spec fn counters(self) -> SerialStats {
        self.stats
    }

    pub open spec fn inner(self) -> WorkerView {
        WorkerView {
            open: self.port() is Some,
            rx_bytes: self.counters().rx(),
            tx_bytes: self.counters().tx(),
        }
    }

    pub fn new() -> (worker: Self)
        ensures
            worker.inner() == (WorkerView { open: false, rx_bytes: 0, tx_bytes: 0 }),
    {
        SerialWorker { port: None, stats: SerialStats::new() }
    }

    pub fn is_open(&self) -> (open: bool)
        ensures
            open == self.inner().open,
    {
        self.port.is_some()
    }

    pub fn stats(&self) -> (stats: SerialStats)
        ensures
            stats.rx() == self.inner().rx_bytes,
            stats.tx() == self.inner().tx_bytes,
    {
        self.stats
    }

    /// Reports the ports that were found.
    pub fn finish_refresh(&self, outcome: Result<Vec<String>, String>) -> (events: Vec<WorkerEvent>)
        ensures
            event_views(events@) == after_command(
                self.inner(),
                WorkerCommand::RefreshPorts,
                ports_reply(outcome),
            ).1,
    {
        let mut events: Vec<WorkerEvent> = Vec::new();
        match outcome {
            Ok(ports) => events.push(WorkerEvent::Ports(ports)),
            Err(message) => events.push(WorkerEvent::ControlError(message)),
        }
        events
    }

    /// Takes in the port that was opened for a configuration.
    pub fn finish_open(&mut self, config: SerialConfig, outcome: Result<P, String>) -> (events: Vec<
        WorkerEvent,
    >)
        ensures
            (final(self).inner(), event_views(events@)) == after_command(
                old(self).inner(),
                WorkerCommand::Open(config),
                open_reply(outcome),
            ),
            final(self).port() == outcome.ok(),
    {
        let mut events: Vec<WorkerEvent> = Vec::new();
        match outcome {
            Ok(port) => {
                self.stats.reset();
                self.port = Some(port);
                events.push(WorkerEvent::Opened(config.port_name));
            },
            Err(message) => {
                self.port = None;
                events.push(WorkerEvent::PortError(message));
                events.push(WorkerEvent::Closed);
            },
        }
        assert(event_views(events@) =~= after_command(
            old(self).inner(),
            WorkerCommand::Open(config),
            open_reply(outcome),
        ).1);
        events
    }

    /// Counts and reports bytes that were written, or gives up the port.
    pub fn finish_send(&mut self, id: u64, bytes: Vec<u8>, outcome: Result<(), String>) -> (events:
        Vec<WorkerEvent>)
        requires
            old(self).inner().open,
        ensures
            (final(self).inner(), event_views(events@)) == after_command(
                old(self).inner(),
                WorkerCommand::Send { id, bytes },
                done_reply(outcome),
            ),
            outcome is Ok ==> final(self).port() == old(self).port(),
    {
        let mut events: Vec<WorkerEvent> = Vec::new();
        match outcome {
            Ok(_) => {
                self.stats.count_tx(bytes.len());
                events.push(WorkerEvent::TxCompleted { id, count: bytes.len() });
            },
            Err(error) => {
                let mut message = "串口写入失败：".to_owned();
                message.append(error.as_str());
                events.push(WorkerEvent::PortError(message));
                self.port = None;
                events.push(WorkerEvent::Closed);
            },
        }
        assert(event_views(events@) =~= after_command(
            old(self).inner(),
            WorkerCommand::Send { id, bytes },
            done_reply(outcome),
        ).1);
        events
    }

    /// Reports a control line that could not be set.
    fn finish_level(&self, outcome: Result<(), String>) -> (events: Vec<WorkerEvent>)
        ensures
            self.inner().open ==> event_views(events@) == after_command(
                self.inner(),
                WorkerCommand::SetDtr(true),
                done_reply(outcome),
            ).1,
    {
        let mut events: Vec<WorkerEvent> = Vec::new();
        if let Err(message) = outcome {
            events.push(WorkerEvent::ControlError(message));
        }
        assert(self.inner().open ==> event_views(events@) =~= after_command(
            self.inner(),
            WorkerCommand::SetDtr(true),
            done_reply(outcome),
        ).1);
        events
    }

    /// Stores and counts what was read, or gives up the port.
    pub fn finish_read(
        &mut self,
        read: PortRead,
        received_at: Timestamp,
        store: &mut ReceiveStore,
    ) -> (events: Vec<WorkerEvent>)
        requires
            old(store).wf(),
        ensures
            (final(self).inner(), event_views(events@)) == after_read(old(self).inner(), read),
            read !is Failed ==> final(self).port() == old(self).port(),
            final(store).wf(),
            final(store).inner() == match read {
                PortRead::Data(bytes) => old(store).inner().appended(received_at, bytes@),
                _ => old(store).inner(),
            },
    {
        let mut events: Vec<WorkerEvent> = Vec::new();
        match read {
            PortRead::Data(bytes) => {
                self.stats.count_rx(bytes.len());
                store.append(received_at, bytes);
            },
            PortRead::Idle => {},
            PortRead::Failed(error) => {
                let mut message = "串口读取失败：".to_owned();
                message.append(error.as_str());
                events.push(WorkerEvent::PortError(message));
                self.port = None;
                events.push(WorkerEvent::Closed);
            },
        }
        assert(event_views(events@) =~= after_read(old(self).inner(), read).1);
        events
    }

    /// Reads from the port once and hands out what the port answered; there is nothing to read
    /// while it is closed.
    pub fn read_port(&mut self) -> (read: PortRead)
        ensures
            final(self).inner() == old(self).inner(),
            match old(self).port() {
                None => read is Idle,
                Some(port) => exists|handle: &mut P|
                    {
                        &&& #[trigger] call_ensures(P::read, (handle,), read)
                        &&& *handle == port
                        &&& final(self).port() == Some(*final(handle))
                    },
            },
    {
        match self.port.take() {
            None => PortRead::Idle,
            Some(port) => {
                let mut port = port;
                let read = port.read();
                self.port = Some(port);
                read
            },
        }
    }

    /// Carries out a command, with what the backend or the port answers when it is asked once.
    /// The result tells whether the worker has to stop.
    pub fn handle_command<B: SerialBackend<Port = P>>(
        &mut self,
        command: WorkerCommand,
        backend: &B,
        events: &mut Vec<WorkerEvent>,
    ) -> (stop: bool)
        ensures
            stop == (command is Shutdown),
            match (command, old(self).port()) {
                (WorkerCommand::RefreshPorts, port) => exists|outcome: Result<Vec<String>, String>|
                    {
                        &&& #[trigger] call_ensures(B::list_ports, (backend,), outcome)
                        &&& final(self).port() == port
                        &&& command_carried_out(
                            old(self).inner(),
                            command,
                            ports_reply(outcome),
                            event_views(old(events)@),
                            final(self).inner(),
                            event_views(final(events)@),
                        )
                    },
                (WorkerCommand::Open(config), _) => exists|outcome: Result<P, String>|
                    {
                        &&& #[trigger] call_ensures(B::open, (backend, &config), outcome)
                        &&& final(self).port() == outcome.ok()
                        &&& command_carried_out(
                            old(self).inner(),
                            command,
                            open_reply(outcome),
                            event_views(old(events)@),
                            final(self).inner(),
                            event_views(final(events)@),
                        )
                    },
                (WorkerCommand::Send { bytes, .. }, Some(port)) => exists|
                    handle: &mut P,
                    outcome: Result<(), String>,
                |
                    {
                        &&& #[trigger] call_ensures(P::write_all, (handle, &bytes), outcome)
                        &&& *handle == port
                        &&& outcome is Ok ==> final(self).port() == Some(*final(handle))
                        &&& command_carried_out(
                            old(self).inner(),
                            command,
                            done_reply(outcome),
                            event_views(old(events)@),
                            final(self).inner(),
                            event_views(final(events)@),
                        )
                    },
                (WorkerCommand::SetDtr(level), Some(port)) => exists|
                    handle: &mut P,
                    outcome: Result<(), String>,
                |
                    {
                        &&& #[trigger] call_ensures(P::set_dtr, (handle, level), outcome)
                        &&& *handle == port
                        &&& final(self).port() == Some(*final(handle))
                        &&& command_carried_out(
                            old(self).inner(),
                            command,
                            done_reply(outcome),
                            event_views(old(events)@),
                            final(self).inner(),
                            event_views(final(events)@),
                        )
                    },
                (WorkerCommand::SetRts(level), Some(port)) => exists|
                    handle: &mut P,
                    outcome: Result<(), String>,
                |
                    {
                        &&& #[trigger] call_ensures(P::set_rts, (handle, level), outcome)
                        &&& *handle == port
                        &&& final(self).port() == Some(*final(handle))
                        &&& command_carried_out(
                            old(self).inner(),
                            command,
                            done_reply(outcome),
                            event_views(old(events)@),
                            final(self).inner(),
                            event_views(final(events)@),
                        )
                    },
                (_, port) => {
                    &&& command !is Close ==> final(self).port() == port
                    &&& command_carried_out(
                        old(self).inner(),
                        command,
                        Reply::Done,
                        event_views(old(events)@),
                        final(self).inner(),
                        event_views(final(events)@),
                    )
                },
            },
    {
        let ghost worker = self.inner();
        let ghost reported = event_views(events@);
        let ghost mut reply = Reply::Done;
        let stop = matches!(command, WorkerCommand::Shutdown);
        let mut new: Vec<WorkerEvent> = match command {
            WorkerCommand::RefreshPorts => {
                let outcome = backend.list_ports();
                proof {
                    reply = ports_reply(outcome);
                }
                self.finish_refresh(outcome)
            },
            WorkerCommand::Open(config) => {
                self.port = None;
                let outcome = backend.open(&config);
                proof {
                    reply = open_reply(outcome);
                }
                self.finish_open(config, outcome)
            },
            WorkerCommand::Close => {
                let mut closed: Vec<WorkerEvent> = Vec::new();
                if self.port.is_some() {
                    self.port = None;
                    closed.push(WorkerEvent::Closed);
                }
                closed
            },
            WorkerCommand::Send { id, bytes } => match self.port.take() {
                None => {
                    let mut refused: Vec<WorkerEvent> = Vec::new();
                    refused.push(WorkerEvent::ControlError("串口尚未连接".to_owned()));
                    refused
                },
                Some(port) => {
                    let mut port = port;
                    let outcome = port.write_all(&bytes);
                    proof {
                        reply = done_reply(outcome);
                    }
                    self.port = Some(port);
                    self.finish_send(id, bytes, outcome)
                },
            },
            WorkerCommand::SetDtr(level) => match self.port.take() {
                None => Vec::new(),
                Some(port) => {
                    let mut port = port;
                    let outcome = port.set_dtr(level);
                    proof {
                        reply = done_reply(outcome);
                    }
                    self.port = Some(port);
                    self.finish_level(outcome)
                },
            },
            WorkerCommand::SetRts(level) => match self.port.take() {
                None => Vec::new(),
                Some(port) => {
                    let mut port = port;
                    let outcome = port.set_rts(level);
                    proof {
                        reply = done_reply(outcome);
                    }
                    self.port = Some(port);
                    self.finish_level(outcome)
                },
            },
            WorkerCommand::Shutdown => Vec::new(),
        };
        assert(event_views(new@) =~= after_command(worker, command, reply).1);
        let ghost added = new@;
        events.append(&mut new);
        assert(event_views(events@) =~= reported + event_views(added));
        assert((self.inner(), event_views(added)) == after_command(worker, command, reply));
        stop
    }
}

/// A command has done what it has to do, given what the outside answered.
pub open spec fn command_carried_out(
    worker: WorkerView,
    command: WorkerCommand,
    reply: Reply,
    reported: Seq<EventView>,
    after: WorkerView,
    all_reported: Seq<EventView>,
) -> bool {
    let (state, events) = after_command(worker, command, reply);
    after == state && all_reported == reported + events
}

/// One step of a worker's life.
pub enum WorkerStep {
    Command { command: WorkerCommand, reply: Reply },
    Read(PortRead),
}

pub open spec fn after_step(worker: WorkerView, step: WorkerStep) -> (WorkerView, Seq<EventView>) {
    match step {
        WorkerStep::Command { command, reply } => after_command(worker, command, reply),
        WorkerStep::Read(read) => after_read(worker, read),
    }
}

/// A worker's life from the start, and all it has reported.
pub open spec fn after_steps(steps: Seq<WorkerStep>) -> (WorkerView, Seq<EventView>)
    decreases steps.len(),
{
    if steps.len() == 0 {
        (WorkerView { open: false, rx_bytes: 0, tx_bytes: 0 }, Seq::empty())
    } else {
        let (worker, reported) = after_steps(steps.drop_last());
        let (after, events) = after_step(worker, steps.last());
        (after, reported + events)
    }
}

/// The port is open as far as events tell.
pub open spec fn reported_open(events: Seq<EventView>) -> bool
    decreases events.len(),
{
    events.len() > 0 && match events.last() {
        EventView::Opened(_) => true,
        EventView::Closed => false,
        _ => reported_open(events.drop_last()),
    }
}

/// The bytes that events tell were sent since the port was opened last.
pub open spec fn reported_sent(events: Seq<EventView>) -> nat
    decreases events.len(),
{
    if events.len() == 0 {
        0
    } else {
        match events.last() {
            EventView::Opened(_) => 0,
            EventView::TxCompleted { count, .. } => reported_sent(events.drop_last()) + count,
            _ => reported_sent(events.drop_last()),
        }
    }
}

proof fn events_one_by_one(before: Seq<EventView>, event: EventView)
    ensures
        (before + seq![event]).drop_last() == before,
        (before + seq![event]).last() == event,
        before + Seq::<EventView>::empty() == before,
{
    assert(before + Seq::<EventView>::empty() =~= before);
    assert((before + seq![event]).drop_last() =~= before);
}

proof fn two_events(before: Seq<EventView>, first: EventView, second: EventView)
    ensures
        (before + seq![first, second]).drop_last() == before + seq![first],
        (before + seq![first, second]).last() == second,
{
    assert((before + seq![first, second]).drop_last() =~= before + seq![first]);
}

proof fn counted_twice(sum: int, count: int)
    requires
        0 <= sum,
        0 <= count,
    ensures
        (sum % 0x1_0000_0000_0000_0000 + count) % 0x1_0000_0000_0000_0000 == (sum + count)
            % 0x1_0000_0000_0000_0000,
{
}

/// Whoever follows the events knows the worker: the port is open exactly when they say so, and
/// the count of bytes sent is the sum of what they report since the port was opened.
pub proof fn events_tell_the_state(steps: Seq<WorkerStep>)
    ensures
        after_steps(steps).0.open == reported_open(after_steps(steps).1),
        after_steps(steps).0.tx_bytes == reported_sent(after_steps(steps).1)
            % 0x1_0000_0000_0000_0000,
    decreases steps.len(),
{
    if steps.len() > 0 {
        events_tell_the_state(steps.drop_last());
        let (worker, reported) = after_steps(steps.drop_last());
        let (after, events) = after_step(worker, steps.last());
        assert(events.len() <= 2);
        if let WorkerStep::Command { command: WorkerCommand::Send { bytes, .. }, .. } = steps.last() {
            counted_twice(reported_sent(reported) as int, bytes@.len() as int);
        }
        if events.len() == 0 {
            assert(reported + events =~= reported);
        } else if events.len() == 1 {
            assert(events =~= seq![events[0]]);
            events_one_by_one(reported, events[0]);
        } else {
            assert(events =~= seq![events[0], events[1]]);
            events_one_by_one(reported, events[0]);
            two_events(reported, events[0], events[1]);
            assert(reported_sent(reported + seq![events[0]]) == reported_sent(reported));
        }
    }
}

/// A line to set on a port that was just opened.
#[derive(Debug, Clone, Copy, PartialEq, Eq, Structural)]
pub enum ControlLine {
    Dtr(bool),
    Rts(bool),
}

/// The control lines of a port that was just opened, in the order in which they are set. With
/// hardware flow control RTS is left to the driver.
pub fn control_lines(config: &SerialConfig) -> (lines: Vec<ControlLine>)
    ensures
        lines@ == if config.flow_control == FlowControl::Hardware {
            seq![ControlLine::Dtr(config.dtr)]
        } else {
            seq![ControlLine::Dtr(config.dtr), ControlLine::Rts(config.rts)]
        },
{
    let mut lines: Vec<ControlLine> = Vec::new();
    lines.push(ControlLine::Dtr(config.dtr));
    if config.flow_control != FlowControl::Hardware {
        lines.push(ControlLine::Rts(config.rts));
    }
    assert(lines@ =~= if config.flow_control == FlowControl::Hardware {
        seq![ControlLine::Dtr(config.dtr)]
    } else {
        seq![ControlLine::Dtr(config.dtr), ControlLine::Rts(config.rts)]
    });
    lines
}

} // verus!
