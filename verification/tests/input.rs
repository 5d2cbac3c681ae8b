use escom::background::{local_background_uri, normalized_online_image_url};
use escom::formatting::format_snapshot;
use escom::history::history_preview;
use escom::keyboard::{terminal_bytes_from_events, InputEvent, Key, Modifiers};
use escom::model::{HistoryItem, ReceiveMode, SendMode, TextEncoding};
use escom::status::human_bytes;
use escom::store::ReceiveStore;

const NO_MODIFIERS: Modifiers = Modifiers {
    ctrl: false,
    alt: false,
    shift: false,
};

const CTRL: Modifiers = Modifiers {
    ctrl: true,
    alt: false,
    shift: false,
};

fn key_event(key: Key, modifiers: Modifiers) -> InputEvent {
    InputEvent::Key {
        key,
        pressed: true,
        modifiers,
    }
}

#[test]
fn history_preview_is_single_line_and_bounded() {
    let preview = history_preview(&HistoryItem {
        mode: SendMode::Text,
        input: "line one\r\nline two with a very long suffix that is clipped".into(),
    });
    assert!(!preview.contains('\n'));
    assert!(preview.ends_with('…'));
}

#[test]
fn byte_counts_are_readable() {
    assert_eq!(human_bytes(7), "7 B");
    assert_eq!(human_bytes(2048), "2.0 KiB");
    assert_eq!(human_bytes(2 * 1024 * 1024), "2.0 MiB");
}

#[test]
fn online_background_url_requires_http_and_a_host() {
    assert_eq!(
        normalized_online_image_url(" https://example.com/image.png ").unwrap(),
        "https://example.com/image.png"
    );
    assert!(normalized_online_image_url("file:///tmp/image.png").is_err());
    assert!(normalized_online_image_url("https://").is_err());
    assert!(normalized_online_image_url("https://example.com/a b.png").is_err());
}

#[test]
fn local_background_paths_use_windows_file_uri_shape() {
    assert_eq!(
        local_background_uri(r"D:\Pictures\background image.png"),
        "file:///D:/Pictures/background image.png"
    );
    assert_eq!(
        local_background_uri(r"\\server\share\background.png"),
        "file://server/share/background.png"
    );
}

#[test]
fn terminal_printable_key_is_sent_once_without_local_echo() {
    let events = [
        key_event(Key::H, NO_MODIFIERS),
        InputEvent::Text("H".into()),
    ];
    let bytes =
        terminal_bytes_from_events(&events, TextEncoding::Utf8, NO_MODIFIERS).unwrap();
    assert_eq!(bytes, b"H");

    let store = ReceiveStore::new(1024);
    let rows = format_snapshot(&store.snapshot(), ReceiveMode::Terminal, TextEncoding::Utf8);
    assert!(rows.is_empty());
}

#[test]
fn terminal_special_and_control_keys_map_to_serial_bytes() {
    let events = [
        key_event(Key::Enter, NO_MODIFIERS),
        key_event(Key::Backspace, NO_MODIFIERS),
        key_event(Key::ArrowUp, NO_MODIFIERS),
        key_event(Key::C, CTRL),
    ];
    let bytes =
        terminal_bytes_from_events(&events, TextEncoding::Utf8, NO_MODIFIERS).unwrap();
    assert_eq!(bytes, b"\r\x08\x1B[A\x03");
}

#[test]
fn terminal_copy_and_cut_events_send_real_control_bytes() {
    let bytes = terminal_bytes_from_events(
        &[InputEvent::Copy, InputEvent::Cut],
        TextEncoding::Utf8,
        CTRL,
    )
    .unwrap();
    assert_eq!(bytes, [0x03, 0x18]);

    let duplicate_events = [
        InputEvent::Copy,
        key_event(Key::C, CTRL),
        InputEvent::Cut,
        key_event(Key::X, CTRL),
    ];
    let bytes =
        terminal_bytes_from_events(&duplicate_events, TextEncoding::Utf8, CTRL)
            .unwrap();
    assert_eq!(bytes, [0x03, 0x18]);
}

#[test]
fn terminal_shifted_copy_and_cut_remain_clipboard_shortcuts() {
    let modifiers = Modifiers {
        ctrl: true,
        shift: true,
        ..NO_MODIFIERS
    };
    let events = [InputEvent::Copy, InputEvent::Cut];

    let bytes = terminal_bytes_from_events(&events, TextEncoding::Utf8, modifiers).unwrap();
    assert!(bytes.is_empty());

    let bytes =
        terminal_bytes_from_events(&events, TextEncoding::Utf8, NO_MODIFIERS).unwrap();
    assert!(bytes.is_empty());
}

#[test]
fn terminal_navigation_keys_use_rt_thread_compatible_sequences() {
    let events = [
        key_event(Key::Home, NO_MODIFIERS),
        key_event(Key::End, NO_MODIFIERS),
        key_event(Key::Delete, NO_MODIFIERS),
    ];

    let bytes =
        terminal_bytes_from_events(&events, TextEncoding::Utf8, NO_MODIFIERS).unwrap();
    assert_eq!(bytes, b"\x1B[1~\x1B[4~\x1B[3~");
}

#[test]
fn terminal_text_respects_selected_encoding() {
    let bytes = terminal_bytes_from_events(
        &[InputEvent::Text("中".into())],
        TextEncoding::Gbk,
        NO_MODIFIERS,
    )
    .unwrap();
    assert_eq!(bytes, [0xD6, 0xD0]);

    assert!(
        terminal_bytes_from_events(
            &[InputEvent::Text("🙂".into())],
            TextEncoding::Gbk,
            NO_MODIFIERS,
        )
        .is_err()
    );
}
