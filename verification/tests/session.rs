use escom::background::{
    apply_online_address, background_image_uri, check_opacity_text, compact_opacity, has_configured_background,
    normalized_online_image_url, AppBackgroundSource, BackgroundLoad, BackgroundLoadState,
    BackgroundStatus,
};
use escom::fonts::{applied_fonts, find_case_insensitive, FaceInfo, FontCatalog};
use escom::history::{history_preview, SendHistory, MAX_HISTORY};
use escom::model::{common_baud_rates, HistoryItem, LineEnding, SendMode, TextEncoding};
use escom::serial_worker::WorkerEvent;
use escom::session::controls::{
    send_hint, traffic_texts, ConnectionLight, ConnectionStep, SendControls,
};
use escom::session::{ConnectionState, RepeatStep, Session};
use escom::status::human_bytes;

const NOW: u64 = 50_000;

fn item(input: &str) -> HistoryItem {
    HistoryItem {
        mode: SendMode::Text,
        input: input.to_owned(),
    }
}

fn connected() -> Session {
    let mut session = Session::new(NOW);
    session.process_worker_event(WorkerEvent::Opened("COM3".into()), false, NOW);
    session
}

fn message(session: &mut Session, now: u64) -> Option<(String, bool)> {
    session
        .current_notice(now)
        .as_ref()
        .map(|notice| (notice.message.clone(), notice.error))
}

#[test]
fn events_change_the_connection() {
    let mut session = Session::new(NOW);
    assert!(session.connection().is_disconnected());
    session.process_worker_event(WorkerEvent::Closed, false, NOW);
    assert_eq!(message(&mut session, NOW), None);

    session.process_worker_event(
        WorkerEvent::Ports(vec!["COM3".into(), "COM4".into()]),
        false,
        NOW,
    );
    assert_eq!(session.config.port_name, "COM3");
    assert_eq!(session.port_display_name(), "COM3");
    session.process_worker_event(WorkerEvent::Ports(vec!["COM4".into()]), false, NOW);
    assert_eq!(session.config.port_name, "COM3");
    assert_eq!(session.port_display_name(), "COM3（不可用）");

    session.process_worker_event(WorkerEvent::Opened("COM3".into()), true, NOW);
    assert!(session.connection().is_connected());
    assert!(session.take_terminal_focus());
    assert!(!session.take_terminal_focus());
    assert_eq!(
        message(&mut session, NOW),
        Some(("已连接 COM3".to_owned(), false))
    );
    session.process_worker_event(WorkerEvent::Closed, false, NOW + 1);
    assert!(session.connection().is_disconnected());
    assert_eq!(
        message(&mut session, NOW + 6_000),
        Some(("串口已断开".to_owned(), false))
    );
    assert_eq!(message(&mut session, NOW + 6_001), None);
}

#[test]
fn errors_are_noticed() {
    let mut session = connected();
    session.process_worker_event(WorkerEvent::ControlError("dtr".into()), false, NOW);
    assert_eq!(message(&mut session, NOW), Some(("dtr".to_owned(), true)));
    assert!(session.send_error().is_none());
    session.process_worker_event(WorkerEvent::PortError("gone".into()), false, NOW);
    assert_eq!(session.send_error().as_deref(), Some("gone"));
    session.clear_send_error();
    assert!(session.send_error().is_none());
    session.process_worker_event(
        WorkerEvent::TxCompleted { id: 9, count: 0 },
        false,
        NOW,
    );
    assert_eq!(
        message(&mut session, NOW),
        Some(("没有数据被发送".to_owned(), true))
    );
    session.terminal_failed("no".to_owned(), NOW);
    assert_eq!(session.send_error().as_deref(), Some("no"));
}

#[test]
fn only_sent_messages_enter_the_history() {
    let mut session = connected();
    let first = session.allocate_send_id();
    session.payload_queued(first, item("a"));
    let second = session.allocate_send_id();
    session.payload_queued(second, item("b"));
    assert_ne!(first, second);
    assert!(session.history().items().is_empty());
    session.process_worker_event(
        WorkerEvent::TxCompleted { id: second, count: 1 },
        false,
        NOW,
    );
    assert_eq!(session.history().items().len(), 1);
    assert_eq!(session.history().items()[0].input, "b");
    session.process_worker_event(WorkerEvent::Closed, false, NOW);
    session.process_worker_event(
        WorkerEvent::TxCompleted { id: first, count: 1 },
        false,
        NOW,
    );
    assert_eq!(session.history().items().len(), 1);
    session.clear_history();
    assert!(session.history().items().is_empty());
}

#[test]
fn repetitions_keep_their_interval() {
    let mut session = connected();
    assert!(matches!(session.process_repeat(NOW), RepeatStep::Idle));
    session.start_repeat(vec![1, 2], item("x"), 1_000, NOW);
    assert!(session.is_repeating());
    assert!(matches!(
        session.process_repeat(NOW + 300),
        RepeatStep::Wait(700)
    ));
    let RepeatStep::Send { bytes, history } = session.process_repeat(NOW + 1_000) else {
        panic!("it is time to send");
    };
    assert_eq!(bytes, [1, 2]);
    assert_eq!(history.input, "x");
    session.repeat_sent(true, 500, NOW + 1_000);
    assert!(matches!(
        session.process_repeat(NOW + 1_400),
        RepeatStep::Wait(100)
    ));
    assert!(matches!(
        session.process_repeat(NOW + 1_500),
        RepeatStep::Send { .. }
    ));
    session.repeat_sent(false, 500, NOW + 1_500);
    assert!(!session.is_repeating());

    session.start_repeat(vec![1], item("x"), 1_000, NOW);
    session.process_worker_event(WorkerEvent::Closed, false, NOW);
    assert!(!session.is_repeating());
    let mut session = connected();
    session.start_repeat(vec![1], item("x"), 1_000, NOW);
    session.stop_repeat();
    assert!(!session.is_repeating());
    session.start_repeat(vec![1], item("x"), 1_000, NOW);
    session.enter_terminal();
    assert!(!session.is_repeating());
    assert!(session.take_terminal_focus());
}

#[test]
fn ports_open_only_when_all_is_right() {
    let mut session = Session::new(NOW);
    session.baud_rate_input = "0".to_owned();
    assert!(session.open_selected_port(NOW).is_none());
    assert_eq!(
        message(&mut session, NOW).unwrap().0,
        "波特率必须在 1 到 4,000,000 之间"
    );
    session.baud_rate_input = "9600".to_owned();
    assert!(session.open_selected_port(NOW).is_none());
    assert_eq!(session.port_display_name(), "选择串口");
    session.config.port_name = "COM9".to_owned();
    assert!(session.open_selected_port(NOW).is_none());
    assert_eq!(
        message(&mut session, NOW).unwrap().0,
        "所选串口当前不可用，请刷新后重选"
    );
    session.process_worker_event(WorkerEvent::Ports(vec!["COM9".into()]), false, NOW);
    let config = session.open_selected_port(NOW).unwrap();
    assert_eq!(config.port_name, "COM9");
    assert_eq!(config.baud_rate, 9_600);
    session.open_requested(Err("busy".to_owned()), NOW);
    assert!(session.connection().is_disconnected());
    session.open_requested(Ok(()), NOW);
    assert!(matches!(session.connection(), ConnectionState::Connecting));
}

#[test]
fn baud_rates_follow_the_field() {
    let mut session = Session::new(NOW);
    assert_eq!(session.baud_rate_input, "115200");
    session.baud_rate_input = " 0250000 ".to_owned();
    session.baud_rate_typed();
    assert_eq!(session.config.baud_rate, 250_000);
    session.baud_rate_left();
    assert_eq!(session.baud_rate_input, "250000");
    session.baud_rate_input = "x".to_owned();
    session.baud_rate_typed();
    session.baud_rate_left();
    assert_eq!(session.config.baud_rate, 250_000);
    assert_eq!(session.baud_rate_input, "x");
    session.select_baud_rate(300);
    assert_eq!(session.config.baud_rate, 300);
    assert_eq!(session.baud_rate_input, "300");
    let rates = common_baud_rates();
    assert_eq!(rates.len(), 18);
    assert_eq!(rates[9], 115_200);
}

#[test]
fn ports_are_listed_now_and_then() {
    let mut session = Session::new(NOW);
    assert!(session.refresh_due(NOW));
    session.refresh_requested(Ok(()), NOW);
    assert!(!session.refresh_due(NOW + 1_999));
    assert!(session.refresh_due(NOW + 2_000));
    session.refresh_requested(Err("busy".to_owned()), NOW + 2_000);
    assert_eq!(
        message(&mut session, NOW + 2_000),
        Some(("busy".to_owned(), true))
    );
    session.process_worker_event(WorkerEvent::Opened("COM3".into()), false, NOW);
    assert!(!session.refresh_due(NOW + 100_000));
}

#[test]
fn payloads_need_a_connection() {
    let session = Session::new(NOW);
    assert_eq!(
        session.current_payload("a", SendMode::Text, TextEncoding::Utf8, LineEnding::CrLf),
        Err("请先连接串口".to_owned())
    );
    assert_eq!(
        session.terminal_payload(vec![1]),
        Err("请先连接串口".to_owned())
    );
    let session = connected();
    assert_eq!(
        session.current_payload("a", SendMode::Text, TextEncoding::Utf8, LineEnding::CrLf),
        Ok(b"a\r\n".to_vec())
    );
    assert_eq!(
        session.current_payload("AA 01", SendMode::Hex, TextEncoding::Utf8, LineEnding::CrLf),
        Ok(vec![0xAA, 1])
    );
    assert_eq!(session.terminal_payload(vec![1]), Ok(Some(vec![1])));
    assert_eq!(session.terminal_payload(Vec::new()), Ok(None));
}

#[test]
fn history_holds_the_latest_without_repeats() {
    let mut history = SendHistory::new();
    for number in 0..60 {
        history.push(item(&format!("{number}")));
    }
    assert_eq!(history.items().len(), MAX_HISTORY);
    assert_eq!(history.items()[0].input, "59");
    assert_eq!(history.items()[49].input, "10");
    history.push(item("30"));
    assert_eq!(history.items().len(), MAX_HISTORY);
    assert_eq!(history.items()[0].input, "30");
    assert_eq!(history.items()[1].input, "59");
    history.push(HistoryItem {
        mode: SendMode::Hex,
        input: "30".to_owned(),
    });
    assert_eq!(history.items()[1].input, "30");
    history.clear();
    assert!(history.items().is_empty());
}

#[test]
fn previews_are_cut_after_a_few_characters() {
    assert_eq!(history_preview(&item("a\r\nb")), "文本  a  b");
    let long = "中".repeat(36);
    assert_eq!(history_preview(&item(&long)), format!("文本  {long}"));
    assert_eq!(
        history_preview(&item(&format!("{long}x"))),
        format!("文本  {long}…")
    );
}

#[test]
fn byte_counts_are_rounded_like_floating_point_numbers() {
    let expected = |bytes: u64| {
        let value = bytes as f64;
        if value >= 1_048_576.0 {
            format!("{:.1} MiB", value / 1_048_576.0)
        } else if value >= 1_024.0 {
            format!("{:.1} KiB", value / 1_024.0)
        } else {
            format!("{bytes} B")
        }
    };
    let mut counts: Vec<u64> = (0..5_000).collect();
    for shift in 10..64 {
        for offset in [0, 1, 51, 52, 256, 768, 1_023] {
            counts.push((1_u64 << shift) + offset);
            counts.push((1_u64 << shift) - offset);
            counts.push((5_u64 << (shift - 3)).wrapping_add(offset));
        }
    }
    counts.extend([1_280, 1_331, 1_332, 1_048_575, u64::MAX, u64::MAX - 1_023]);
    for bytes in counts {
        assert_eq!(human_bytes(bytes), expected(bytes));
    }
    assert_eq!(human_bytes(1_280), "1.2 KiB");
}

#[test]
fn background_uris_follow_the_source() {
    let uri = background_image_uri;
    assert_eq!(uri(AppBackgroundSource::Off, "a", "b"), None);
    assert_eq!(
        uri(AppBackgroundSource::Local, " C:\\a.png ", ""),
        Some("file:///C:/a.png".to_owned())
    );
    assert_eq!(uri(AppBackgroundSource::Local, "  ", "b"), None);
    assert_eq!(
        uri(AppBackgroundSource::Online, "", " http://b "),
        Some("http://b".to_owned())
    );
    assert_eq!(uri(AppBackgroundSource::Online, "a", ""), None);
    assert!(has_configured_background(AppBackgroundSource::Local, "a", ""));
    assert!(!has_configured_background(AppBackgroundSource::Off, "a", "b"));
    assert!(!has_configured_background(AppBackgroundSource::Online, "a", " "));
}

#[test]
fn every_fault_of_an_address_is_told() {
    let error = |input: &str| normalized_online_image_url(input).unwrap_err();
    assert_eq!(error("  "), "请输入在线图片地址");
    assert_eq!(error("http://a b"), "在线图片地址不能包含空格");
    assert_eq!(error("ftp://a"), "在线图片地址必须以 http:// 或 https:// 开头");
    assert_eq!(error("https:///a"), "在线图片地址缺少有效的主机名");
    assert_eq!(error("HTTP://?a"), "在线图片地址缺少有效的主机名");
    assert_eq!(normalized_online_image_url("HTTPS://A").unwrap(), "HTTPS://A");
}

#[test]
fn the_status_of_a_picture_has_a_kind() {
    let mut load = BackgroundLoad::new();
    assert_eq!(load.status(true, "a", " a "), BackgroundStatus::Waiting);
    assert_eq!(load.status(true, "a", "b"), BackgroundStatus::DraftChanged);
    assert_eq!(load.status(false, "a", "b"), BackgroundStatus::Waiting);
    load.request("u");
    assert_eq!(load.status(false, "", ""), BackgroundStatus::Loading);
    load.ready();
    assert_eq!(load.status(true, "", ""), BackgroundStatus::Ready);
    let _ = load.failed("no".to_owned());
    assert_eq!(load.status(true, "", ""), BackgroundStatus::Failed);
    assert_eq!(load.status(true, "a", ""), BackgroundStatus::DraftChanged);
}

#[test]
fn pictures_are_loaded_step_by_step() {
    let mut load = BackgroundLoad::new();
    assert!(matches!(load.state(), BackgroundLoadState::Idle));
    assert_eq!(
        load.status_text(true, "a", "a "),
        "输入图片地址并点击“应用地址”。"
    );
    assert_eq!(
        load.status_text(false, "a", "b"),
        "选择图片后将在这里显示加载状态。"
    );
    load.request("u");
    assert_eq!(load.status_text(false, "", ""), "正在加载背景图片…");
    load.ready();
    load.request("u");
    assert_eq!(load.status_text(false, "", ""), "背景图片已加载。");
    assert_eq!(
        load.status_text(true, "a", "b"),
        "地址有修改，点击“应用地址”后生效。"
    );
    assert_eq!(
        load.failed("no".to_owned()).as_deref(),
        Some("背景图片加载失败：no")
    );
    assert_eq!(load.failed("no".to_owned()), None);
    assert_eq!(load.status_text(true, "", ""), "加载失败：no");
    load.pending();
    assert!(matches!(load.state(), BackgroundLoadState::Loading));
    assert_eq!(load.reload().as_deref(), Some("u"));
    assert_eq!(load.reload(), None);
    load.request("v");
    load.clear();
    assert!(matches!(load.state(), BackgroundLoadState::Idle));
}

#[test]
fn opacities_are_written_as_plain_decimals() {
    assert_eq!(check_opacity_text(" "), Err("请输入不透明度小数"));
    for input in ["20%", "-1", "0.1.2", "1e3", "+0.1"] {
        assert_eq!(
            check_opacity_text(input),
            Err("只能输入 0.0 到 1.0 之间的小数")
        );
    }
    assert_eq!(check_opacity_text("."), Err("请输入有效的不透明度小数"));
    for input in ["0", "1.", ".5", " 0.22 ", "007"] {
        assert_eq!(check_opacity_text(input), Ok(()));
        assert!(input.trim().parse::<f32>().is_ok());
    }
    assert_eq!(compact_opacity("0.0000"), "0.0");
    assert_eq!(compact_opacity("0.2200"), "0.22");
    assert_eq!(compact_opacity("0.5000"), "0.5");
    assert_eq!(compact_opacity("1.0000"), "1.0");
    assert_eq!(compact_opacity("0.1234"), "0.1234");
}

fn face(family: &str, upright: bool, monospaced: bool) -> FaceInfo {
    FaceInfo {
        family: Some(family.to_owned()),
        upright,
        monospaced,
        weight: 400,
    }
}

#[test]
fn fonts_are_resolved_by_name() {
    let faces = vec![
        face("Segoe UI", false, false),
        face("Segoe UI", true, false),
        face("Consolas", false, true),
        FaceInfo {
            family: None,
            upright: true,
            monospaced: true,
            weight: 400,
        },
        face("Arial", true, false),
    ];
    let catalog = FontCatalog::from_faces(&faces);
    assert_eq!(catalog.ui_families(), &["Arial", "Consolas", "Segoe UI"]);
    assert_eq!(catalog.mono_families(), &["Consolas"]);
    assert_eq!(catalog.face_of("Segoe UI"), Some(1));
    assert_eq!(catalog.face_of("Consolas"), Some(2));
    assert_eq!(catalog.face_of("segoe ui"), None);
    assert_eq!(catalog.resolve_ui_family("ARIAL"), "Arial");
    assert_eq!(catalog.resolve_ui_family(""), "Segoe UI");
    assert_eq!(catalog.resolve_data_family("Arial"), "Consolas");
    let empty = FontCatalog::from_faces(&Vec::new());
    assert_eq!(empty.resolve_ui_family("Arial"), "");
    let only = FontCatalog::from_faces(&vec![face("B", true, false), face("A", true, false)]);
    assert_eq!(only.resolve_ui_family("C"), "A");
    assert_eq!(
        find_case_insensitive(&vec!["Ä".to_owned(), "b".to_owned()], "B").as_deref(),
        Some("b")
    );
    assert_eq!(find_case_insensitive(&vec!["Ä".to_owned()], "ä"), None);
}

#[test]
fn fonts_that_cannot_be_loaded_are_reported() {
    let applied = applied_fonts("A".to_owned(), "B".to_owned(), 400, 700, false, false);
    assert_eq!((applied.ui_weight, applied.data_weight), (400, 700));
    assert_eq!(
        applied.warnings,
        [
            "无法载入界面字体 A，已使用内置字体",
            "无法载入数据字体 B，已使用内置等宽字体"
        ]
    );
    assert!(applied_fonts(String::new(), String::new(), 400, 400, true, true)
        .warnings
        .is_empty());
}

#[test]
fn weights_are_those_of_the_family() {
    let heavy = |family: &str, upright: bool, weight: u16| FaceInfo {
        weight,
        ..face(family, upright, false)
    };
    let catalog = FontCatalog::from_faces(&vec![
        heavy("Sans", true, 700),
        heavy("Sans", false, 300),
        heavy("Other", true, 500),
        heavy("Sans", true, 400),
        heavy("Sans", true, 700),
        heavy("Slanted", false, 450),
    ]);
    let values = |family: &str| -> Vec<(u16, String)> {
        catalog
            .weight_options(family)
            .into_iter()
            .map(|option| (option.value, option.label))
            .collect()
    };
    assert_eq!(
        values("Sans"),
        [(400, "常规 400".to_owned()), (700, "粗体 700".to_owned())]
    );
    assert_eq!(values("Slanted"), [(450, "450".to_owned())]);
    assert!(values("None").is_empty());
    assert_eq!(catalog.resolve_weight("Sans", 700), 700);
    assert_eq!(catalog.resolve_weight("Sans", 300), 400);
    assert_eq!(catalog.resolve_weight("Other", 400), 500);
    assert_eq!(catalog.resolve_weight("None", 900), 400);
    assert_eq!(catalog.weight_label("Sans", 900), "常规 400");
    assert_eq!(catalog.weight_label("Other", 100), "中等 500");
    assert_eq!(catalog.face_in_weight("Sans", 700), Some(0));
    assert_eq!(catalog.face_in_weight("Sans", 400), Some(3));
    assert_eq!(catalog.face_in_weight("Sans", 300), None);
}

#[test]
fn controls_follow_the_session() {
    let controls = |edit: bool, line_ending: bool, clear: bool, repeat: bool, send: bool| {
        SendControls {
            edit,
            line_ending,
            clear,
            repeat,
            send,
        }
    };
    let mut session = Session::new(NOW);
    assert_eq!(
        session.send_controls("", SendMode::Text),
        controls(true, true, false, false, false)
    );
    session.send_failed("no".to_owned());
    assert_eq!(
        session.send_controls("", SendMode::Hex),
        controls(true, false, true, false, false)
    );
    let mut session = connected();
    assert_eq!(
        session.send_controls("a", SendMode::Text),
        controls(true, true, true, true, true)
    );
    session.start_repeat(vec![1], item("x"), 1_000, NOW);
    assert_eq!(
        session.send_controls("a", SendMode::Text),
        controls(false, false, false, true, false)
    );
    assert!(session.can_set_rts());
    session.config.flow_control = escom::model::FlowControl::Hardware;
    assert!(!session.can_set_rts());
    assert_eq!(send_hint(SendMode::Text), "输入要发送的文本");
    assert_eq!(send_hint(SendMode::Hex), "例如：AA 01 FF 或 AA01FF");
}

#[test]
fn one_button_opens_and_closes() {
    let mut session = Session::new(NOW);
    assert!(session.can_configure());
    assert_eq!(session.connection_button(), ("打开串口", true));
    assert_eq!(
        session.connection_status(),
        (ConnectionLight::Grey, "未连接".to_owned())
    );
    assert!(matches!(
        session.press_connection_button(NOW),
        ConnectionStep::Stay
    ));
    assert_eq!(message(&mut session, NOW).unwrap().0, "请选择串口");
    session.process_worker_event(WorkerEvent::Ports(vec!["COM9".into()]), false, NOW);
    let ConnectionStep::Open(config) = session.press_connection_button(NOW) else {
        panic!("the port is there");
    };
    assert_eq!(config.port_name, "COM9");
    session.open_requested(Ok(()), NOW);
    assert!(!session.can_configure());
    assert_eq!(session.connection_button(), ("正在连接...", false));
    assert_eq!(session.connection_status().0, ConnectionLight::Yellow);
    session.process_worker_event(WorkerEvent::Opened("COM9".into()), false, NOW);
    assert_eq!(session.connection_button(), ("关闭串口", true));
    assert_eq!(
        session.connection_status(),
        (ConnectionLight::Green, "已连接 COM9".to_owned())
    );
    session.start_repeat(vec![1], item("x"), 1_000, NOW);
    assert!(matches!(
        session.press_connection_button(NOW),
        ConnectionStep::Close
    ));
    assert!(!session.is_repeating());
}

#[test]
fn traffic_is_told() {
    let texts = traffic_texts(7, 2_048, 2_048, 0);
    assert_eq!(texts.received, "RX 7 B");
    assert_eq!(texts.sent, "TX 2048 B");
    assert_eq!(texts.buffered, "缓存 2.0 KiB");
    assert_eq!(texts.dropped, None);
    assert_eq!(
        traffic_texts(0, 0, 0, 5).dropped.as_deref(),
        Some("已淘汰 5 B")
    );
}

#[test]
fn applied_addresses_are_normalized() {
    let apply = apply_online_address;
    assert_eq!(
        apply(" http://a ", "http://a", AppBackgroundSource::Online),
        Ok(("http://a".to_owned(), false))
    );
    assert_eq!(
        apply("http://a", "http://a", AppBackgroundSource::Local),
        Ok(("http://a".to_owned(), true))
    );
    assert_eq!(
        apply("http://a", "http://b", AppBackgroundSource::Online),
        Ok(("http://a".to_owned(), true))
    );
    assert_eq!(
        apply("", "", AppBackgroundSource::Online),
        Err("请输入在线图片地址")
    );
}
