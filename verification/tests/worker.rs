use std::collections::VecDeque;
use std::sync::atomic::{AtomicBool, Ordering};
use std::sync::{Arc, Mutex};

use escom::model::{FlowControl, SerialConfig};
use escom::ports::{port_sort_key, sort_ports};
use escom::serial_worker::{
    control_lines, ControlLine, PortIo, PortRead, SerialBackend, SerialStats, SerialWorker,
    WorkerCommand, WorkerEvent,
};
use escom::store::ReceiveStore;
use escom::timestamp::Timestamp;

struct MockBackend {
    opened: AtomicBool,
    reads: Arc<Mutex<VecDeque<Vec<u8>>>>,
    writes: Arc<Mutex<Vec<u8>>>,
    fail: bool,
}

impl SerialBackend for MockBackend {
    type Port = MockPort;

    fn list_ports(&self) -> Result<Vec<String>, String> {
        if self.fail {
            return Err("no ports".to_owned());
        }
        Ok(vec!["COM12".into(), "COM3".into()])
    }

    fn open(&self, _config: &SerialConfig) -> Result<MockPort, String> {
        if self.fail {
            return Err("busy".to_owned());
        }
        self.opened.store(true, Ordering::Relaxed);
        Ok(MockPort {
            reads: Arc::clone(&self.reads),
            writes: Arc::clone(&self.writes),
        })
    }
}

struct MockPort {
    reads: Arc<Mutex<VecDeque<Vec<u8>>>>,
    writes: Arc<Mutex<Vec<u8>>>,
}

impl PortIo for MockPort {
    fn read(&mut self) -> PortRead {
        match self.reads.lock().unwrap().pop_front() {
            Some(bytes) if bytes.is_empty() => PortRead::Failed("gone".to_owned()),
            Some(bytes) => PortRead::Data(bytes),
            None => PortRead::Idle,
        }
    }

    fn write_all(&mut self, bytes: &Vec<u8>) -> Result<(), String> {
        if bytes.is_empty() {
            return Err("nothing".to_owned());
        }
        self.writes.lock().unwrap().extend_from_slice(bytes);
        Ok(())
    }

    fn set_dtr(&mut self, level: bool) -> Result<(), String> {
        if level {
            Err("dtr".to_owned())
        } else {
            Ok(())
        }
    }

    fn set_rts(&mut self, level: bool) -> Result<(), String> {
        if level {
            Err("rts".to_owned())
        } else {
            Ok(())
        }
    }
}

fn backend(fail: bool) -> MockBackend {
    MockBackend {
        opened: AtomicBool::new(false),
        reads: Arc::new(Mutex::new(VecDeque::new())),
        writes: Arc::new(Mutex::new(Vec::new())),
        fail,
    }
}

fn now() -> Timestamp {
    Timestamp::new(1_785_499_200, 0, 0).unwrap()
}

fn config(port: &str) -> SerialConfig {
    SerialConfig {
        port_name: port.into(),
        ..Default::default()
    }
}

fn perform(
    worker: &mut SerialWorker<MockPort>,
    backend: &MockBackend,
    command: WorkerCommand,
) -> Vec<WorkerEvent> {
    let mut events = Vec::new();
    assert!(!worker.handle_command(command, backend, &mut events));
    events
}

#[test]
fn worker_moves_data_both_directions() {
    let backend = backend(false);
    let mut store = ReceiveStore::new(1024);
    let mut worker = SerialWorker::new();

    let events = perform(&mut worker, &backend, WorkerCommand::Open(config("COM3")));
    assert!(matches!(&events[..], [WorkerEvent::Opened(_)]));
    backend
        .reads
        .lock()
        .unwrap()
        .push_back(b"incoming".to_vec());
    let events = perform(
        &mut worker,
        &backend,
        WorkerCommand::Send {
            id: 7,
            bytes: b"outgoing".to_vec(),
        },
    );
    assert!(matches!(
        &events[..],
        [WorkerEvent::TxCompleted { id: 7, count: 8 }]
    ));

    let read = worker.read_port();
    assert!(worker.finish_read(read, now(), &mut store).is_empty());
    assert_eq!(worker.stats().rx_bytes(), 8);
    assert_eq!(worker.stats().tx_bytes(), 8);
    assert_eq!(&*backend.writes.lock().unwrap(), b"outgoing");
    assert_eq!(store.bytes_len(), 8);
    let mut events = Vec::new();
    assert!(worker.handle_command(WorkerCommand::Shutdown, &backend, &mut events));
    assert!(events.is_empty());
}

#[test]
fn failures_close_the_port_and_are_reported() {
    let working = backend(false);
    let failing = backend(true);
    let mut store = ReceiveStore::new(1024);
    let mut worker = SerialWorker::new();

    let events = perform(&mut worker, &failing, WorkerCommand::Open(config("COM3")));
    assert!(
        matches!(&events[..], [WorkerEvent::PortError(error), WorkerEvent::Closed] if error == "busy")
    );
    assert!(!worker.is_open());
    let events = perform(&mut worker, &failing, WorkerCommand::RefreshPorts);
    assert!(matches!(&events[..], [WorkerEvent::ControlError(error)] if error == "no ports"));
    let events = perform(&mut worker, &working, WorkerCommand::RefreshPorts);
    assert!(matches!(&events[..], [WorkerEvent::Ports(ports)] if ports == &["COM12", "COM3"]));

    let send = WorkerCommand::Send {
        id: 1,
        bytes: vec![1],
    };
    let events = perform(&mut worker, &working, send);
    assert!(matches!(&events[..], [WorkerEvent::ControlError(error)] if error == "串口尚未连接"));
    assert!(perform(&mut worker, &working, WorkerCommand::Close).is_empty());
    assert!(perform(&mut worker, &working, WorkerCommand::SetDtr(true)).is_empty());
    assert!(matches!(worker.read_port(), PortRead::Idle));

    perform(&mut worker, &working, WorkerCommand::Open(config("COM3")));
    assert!(perform(&mut worker, &working, WorkerCommand::SetDtr(false)).is_empty());
    let events = perform(&mut worker, &working, WorkerCommand::SetRts(true));
    assert!(matches!(&events[..], [WorkerEvent::ControlError(error)] if error == "rts"));
    let failing_send = WorkerCommand::Send {
        id: 2,
        bytes: Vec::new(),
    };
    let events = perform(&mut worker, &working, failing_send);
    assert!(
        matches!(&events[..], [WorkerEvent::PortError(error), WorkerEvent::Closed] if error == "串口写入失败：nothing")
    );
    assert!(!worker.is_open());

    perform(&mut worker, &working, WorkerCommand::Open(config("COM3")));
    working.reads.lock().unwrap().push_back(Vec::new());
    let read = worker.read_port();
    let events = worker.finish_read(read, now(), &mut store);
    assert!(
        matches!(&events[..], [WorkerEvent::PortError(error), WorkerEvent::Closed] if error == "串口读取失败：gone")
    );
    assert!(!worker.is_open());
    perform(&mut worker, &working, WorkerCommand::Open(config("COM3")));
    let events = perform(&mut worker, &working, WorkerCommand::Close);
    assert!(matches!(&events[..], [WorkerEvent::Closed]));
}

#[test]
fn statistics_start_again_with_each_port() {
    let backend = backend(false);
    let mut worker = SerialWorker::new();
    perform(&mut worker, &backend, WorkerCommand::Open(config("COM3")));
    let send = WorkerCommand::Send {
        id: 1,
        bytes: vec![1, 2, 3],
    };
    perform(&mut worker, &backend, send);
    assert_eq!(worker.stats().tx_bytes(), 3);
    perform(&mut worker, &backend, WorkerCommand::Open(config("COM4")));
    assert_eq!(worker.stats().tx_bytes(), 0);

    let mut stats = SerialStats::new();
    stats.reset();
    assert_eq!((stats.rx_bytes(), stats.tx_bytes()), (0, 0));
}

#[test]
fn hardware_flow_control_leaves_rts_alone() {
    let mut config = config("COM3");
    config.dtr = true;
    assert_eq!(
        control_lines(&config),
        [ControlLine::Dtr(true), ControlLine::Rts(false)]
    );
    config.flow_control = FlowControl::Hardware;
    assert_eq!(control_lines(&config), [ControlLine::Dtr(true)]);
}

#[test]
fn ports_are_sorted_by_number_then_name() {
    let names = ["ttyS1", "COM10", "com2", "COM+3", "COM99999999999", "COM2", "COM"];
    let sorted = sort_ports(names.iter().map(|name| name.to_string()).collect());
    assert_eq!(
        sorted,
        ["com2", "COM2", "COM+3", "COM10", "COM", "COM99999999999", "ttyS1"]
    );
    assert_eq!(port_sort_key("com7"), (7, "COM7".to_owned()));
    assert_eq!(port_sort_key("COM+"), (u32::MAX, "COM+".to_owned()));
    assert_eq!(
        port_sort_key("COM4294967295"),
        (u32::MAX, "COM4294967295".to_owned())
    );
    assert_eq!(port_sort_key("usbé"), (u32::MAX, "USBé".to_owned()));
}
