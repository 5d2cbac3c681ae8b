//! What the worker reports of each command and of what it reads, and how it counts.

use vstd::prelude::*;

use crate::model::SerialConfig;
use crate::serial_worker::{
    after_command, after_read, EventView, PortRead, Reply, WorkerCommand, WorkerView,
};

verus! {

/// Opening a port starts the counters over, and the port is reported by its name. If it fails,
/// the port is closed, and the reason comes before that.
pub proof fn opening_is_reported(worker: WorkerView, config: SerialConfig, message: Seq<char>)
    ensures
        ({
            let (after, events) = after_command(worker, WorkerCommand::Open(config), Reply::Done);
            &&& after.open
            &&& after.rx_bytes == 0
            &&& after.tx_bytes == 0
            &&& events == seq![EventView::Opened(config.port_name@)]
        }),
        ({
            let (after, events) = after_command(
                worker,
                WorkerCommand::Open(config),
                Reply::Failed(message),
            );
            &&& !after.open
            &&& events == seq![EventView::PortError(message), EventView::Closed]
        }),
{
}

/// Closing is reported if something was open. The counters stay.
pub proof fn closing_is_reported(worker: WorkerView, reply: Reply)
    ensures
        ({
            let (after, events) = after_command(worker, WorkerCommand::Close, reply);
            &&& !after.open
            &&& after.rx_bytes == worker.rx_bytes
            &&& after.tx_bytes == worker.tx_bytes
            &&& worker.open ==> events == seq![EventView::Closed]
            &&& !worker.open ==> events.len() == 0
        }),
{
}

/// What the port has taken is counted and reported with its number and its length. A port that
/// does not take it is closed. Without a port nothing is sent.
pub proof fn sending_is_reported(worker: WorkerView, id: u64, bytes: Vec<u8>, message: Seq<char>)
    requires
        worker.tx_bytes + bytes@.len() <= u64::MAX,
    ensures
        ({
            let send = WorkerCommand::Send { id, bytes };
            let (after, events) = after_command(worker, send, Reply::Done);
            let (failed, told) = after_command(worker, send, Reply::Failed(message));
            &&& worker.open ==> {
                &&& after.open
                &&& after.tx_bytes == worker.tx_bytes + bytes@.len()
                &&& after.rx_bytes == worker.rx_bytes
                &&& events == seq![EventView::TxCompleted { id, count: bytes@.len() }]
                &&& !failed.open
                &&& failed.tx_bytes == worker.tx_bytes
                &&& failed.rx_bytes == worker.rx_bytes
                &&& told == seq![
                    EventView::PortError("串口写入失败："@ + message),
                    EventView::Closed,
                ]
            }
            &&& !worker.open ==> {
                &&& after == worker
                &&& failed == worker
                &&& events == seq![EventView::ControlError("串口尚未连接"@)]
                &&& told == events
            }
        }),
{
}

/// What is read is counted and reported by nothing else; silence changes nothing; a port that
/// cannot be read is closed.
pub proof fn reading_is_counted(worker: WorkerView, bytes: Vec<u8>, message: String)
    requires
        worker.rx_bytes + bytes@.len() <= u64::MAX,
    ensures
        ({
            let (after, events) = after_read(worker, PortRead::Data(bytes));
            &&& after.open == worker.open
            &&& after.rx_bytes == worker.rx_bytes + bytes@.len()
            &&& after.tx_bytes == worker.tx_bytes
            &&& events.len() == 0
        }),
        after_read(worker, PortRead::Idle) == (worker, Seq::<EventView>::empty()),
        ({
            let (after, events) = after_read(worker, PortRead::Failed(message));
            &&& !after.open
            &&& after.rx_bytes == worker.rx_bytes
            &&& after.tx_bytes == worker.tx_bytes
            &&& events == seq![
                EventView::PortError("串口读取失败："@ + message@),
                EventView::Closed,
            ]
        }),
{
}

/// A list of ports is reported as it came; a control line that cannot be set is told of; neither
/// changes the port. Shutting down reports nothing.
pub proof fn controls_are_reported(
    worker: WorkerView,
    ports: Seq<Seq<char>>,
    level: bool,
    message: Seq<char>,
    reply: Reply,
)
    ensures
        after_command(worker, WorkerCommand::RefreshPorts, Reply::Ports(ports)) == (
            worker,
            seq![EventView::Ports(ports)],
        ),
        after_command(worker, WorkerCommand::RefreshPorts, Reply::Failed(message)) == (
            worker,
            seq![EventView::ControlError(message)],
        ),
        after_command(worker, WorkerCommand::SetDtr(level), Reply::Done) == (
            worker,
            Seq::<EventView>::empty(),
        ),
        after_command(worker, WorkerCommand::SetRts(level), Reply::Done) == (
            worker,
            Seq::<EventView>::empty(),
        ),
        worker.open ==> after_command(
            worker,
            WorkerCommand::SetDtr(level),
            Reply::Failed(message),
        ) == (worker, seq![EventView::ControlError(message)]),
        worker.open ==> after_command(
            worker,
            WorkerCommand::SetRts(level),
            Reply::Failed(message),
        ) == (worker, seq![EventView::ControlError(message)]),
        after_command(worker, WorkerCommand::Shutdown, reply) == (
            worker,
            Seq::<EventView>::empty(),
        ),
{
}

} // verus!
