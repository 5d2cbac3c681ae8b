use escom::encoding::StreamDecoder;
use escom::formatting::export::{write_export, ExportStream, EXPORT_DECODE_INPUT_BYTES};
use escom::formatting::pieces::MAX_PIECE_BYTES;
use escom::formatting::{
    encode_text, format_snapshot, parse_hex, parse_send_input, DEFAULT_TIMESTAMP_FORMAT,
};
use escom::keyboard::{
    append_terminal_text, terminal_bytes_from_events, terminal_control_byte, InputEvent, Key,
    Modifiers,
};
use escom::model::{LineEnding, ReceiveMode, SendMode, TextEncoding};
use escom::search::{search_rows, SearchDisplayOptions};
use escom::store::{ReceiveSnapshot, ReceiveStore, RxChunk};
use escom::timestamp::{export_file_name, format_timestamp, timestamp_prefix, Timestamp};

fn timestamp(second: u32) -> Timestamp {
    Timestamp::new(1_785_499_200 + i64::from(second), 0, 0).unwrap()
}

#[test]
fn streaming_export_releases_chunks_after_writing_them() {
    let first_bytes: std::sync::Arc<[u8]> = vec![0xAA].into();
    let first_chunk = std::sync::Arc::downgrade(&first_bytes);
    let snapshot = ReceiveSnapshot {
        generation: 0,
        stream_id: 0,
        first_sequence: 0,
        next_sequence: 2,
        chunks: vec![
            RxChunk {
                sequence: 0,
                received_at: timestamp(1),
                bytes: first_bytes,
            },
            RxChunk {
                sequence: 1,
                received_at: timestamp(2),
                bytes: vec![0xBB].into(),
            },
        ],
        bytes_len: 2,
        omitted_bytes: 0,
        dropped_bytes: 0,
    };
    let mut stream = ExportStream::new(
        snapshot,
        ReceiveMode::Hex,
        TextEncoding::Utf8,
        false,
        DEFAULT_TIMESTAMP_FORMAT,
    );
    let mut observed_release = false;
    while let Some(_piece) = stream.next_piece() {
        observed_release |= first_chunk.upgrade().is_none();
    }
    assert!(observed_release);
}

#[test]
fn streaming_text_export_bounds_each_write_for_a_long_line() {
    let input_len = 1024 * 1024;
    let mut store = ReceiveStore::new(input_len);
    store.append(timestamp(1), vec![b'x'; input_len]);
    let mut stream = ExportStream::new(
        store.snapshot(),
        ReceiveMode::Text,
        TextEncoding::Utf8,
        false,
        DEFAULT_TIMESTAMP_FORMAT,
    );
    let mut largest_write = 0;
    let mut total = 0;
    while let Some(piece) = stream.next_piece() {
        largest_write = largest_write.max(piece.len());
        total += piece.len();
    }
    assert!(largest_write <= EXPORT_DECODE_INPUT_BYTES);
    assert_eq!(total, "\u{feff}".len() + input_len + 2);
}

fn pieces_of(store: &ReceiveStore, mode: ReceiveMode, timestamps: bool) -> Vec<String> {
    let mut stream = ExportStream::new(
        store.snapshot(),
        mode,
        TextEncoding::Utf8,
        timestamps,
        DEFAULT_TIMESTAMP_FORMAT,
    );
    let mut pieces = Vec::new();
    while let Some(piece) = stream.next_piece() {
        pieces.push(piece);
    }
    pieces
}

#[test]
fn pieces_of_an_export_are_small_in_every_mode() {
    let mut store = ReceiveStore::new(1 << 20);
    store.append(timestamp(1), b"a\r\n".repeat(60_000));
    store.append(timestamp(2), "中".repeat(70_000).into_bytes());
    for mode in [ReceiveMode::Text, ReceiveMode::Hex, ReceiveMode::Terminal] {
        for timestamps in [false, true] {
            let pieces = pieces_of(&store, mode, timestamps);
            assert!(pieces.iter().all(|piece| piece.len() <= MAX_PIECE_BYTES));
            let mut file = Vec::new();
            write_export(
                &mut file,
                store.snapshot(),
                mode,
                TextEncoding::Utf8,
                timestamps,
                DEFAULT_TIMESTAMP_FORMAT,
            );
            assert_eq!(pieces.concat().into_bytes(), file);
        }
    }
    let lines = pieces_of(&store, ReceiveMode::Text, true);
    let prefix = "[2026-07-31 12:00:01.000] ".len();
    assert_eq!(
        lines.concat().len(),
        "\u{feff}".len() + 60_000 * (prefix + 3) + prefix + 210_000 + 2
    );
}

#[test]
fn malformed_text_grows_within_small_pieces() {
    let mut store = ReceiveStore::new(1 << 20);
    store.append(timestamp(1), vec![0xFF; 100_000]);
    let pieces = pieces_of(&store, ReceiveMode::Text, false);
    assert!(pieces.iter().all(|piece| piece.len() <= MAX_PIECE_BYTES));
    assert_eq!(pieces.concat().len(), "\u{feff}".len() + 300_000 + 2);
}

#[test]
fn hex_rows_go_on_over_pieces_of_a_chunk() {
    let mut store = ReceiveStore::new(1 << 20);
    store.append(timestamp(1), vec![0xAB; 7]);
    store.append(timestamp(2), vec![0xCD; EXPORT_DECODE_INPUT_BYTES + 20]);
    let pieces = pieces_of(&store, ReceiveMode::Hex, true);
    let text = pieces.concat();
    let lines: Vec<&str> = text.trim_start_matches('\u{feff}').lines().collect();
    assert_eq!(lines.len(), (EXPORT_DECODE_INPUT_BYTES + 27).div_ceil(16));
    assert_eq!(
        lines[0],
        "[2026-07-31 12:00:01.000] AB AB AB AB AB AB AB CD CD CD CD CD CD CD CD CD"
    );
    assert!(lines[1].starts_with("[2026-07-31 12:00:02.000] CD"));
    assert_eq!(lines.last().unwrap().matches("CD").count(), 11);
}

#[test]
fn text_export_lets_go_of_chunks_that_are_read() {
    let bytes: std::sync::Arc<[u8]> = vec![b'x'; EXPORT_DECODE_INPUT_BYTES + 1].into();
    let held = std::sync::Arc::downgrade(&bytes);
    let mut stream = ExportStream::new(
        ReceiveSnapshot {
            generation: 0,
            stream_id: 0,
            first_sequence: 0,
            next_sequence: 1,
            chunks: vec![RxChunk {
                sequence: 0,
                received_at: timestamp(1),
                bytes,
            }],
            bytes_len: EXPORT_DECODE_INPUT_BYTES + 1,
            omitted_bytes: 0,
            dropped_bytes: 0,
        },
        ReceiveMode::Text,
        TextEncoding::Utf8,
        false,
        DEFAULT_TIMESTAMP_FORMAT,
    );
    assert_eq!(stream.next_piece().as_deref(), Some("\u{feff}"));
    assert_eq!(
        stream.next_piece().map(|piece| piece.len()),
        Some(EXPORT_DECODE_INPUT_BYTES)
    );
    assert!(held.upgrade().is_some());
    assert_eq!(stream.next_piece().as_deref(), Some("x"));
    assert!(held.upgrade().is_none());
    assert_eq!(stream.next_piece().as_deref(), Some("\r\n"));
    assert_eq!(stream.next_piece(), None);
}

#[test]
fn hex_rows_have_the_time_of_their_first_byte() {
    let mut store = ReceiveStore::new(1024);
    store.append(timestamp(1), vec![1; 10]);
    store.append(timestamp(2), vec![2; 6]);
    store.append(timestamp(3), vec![3; 20]);
    store.append(timestamp(4), vec![4; 1]);
    let rows = format_snapshot(&store.snapshot(), ReceiveMode::Hex, TextEncoding::Utf8);
    let seconds: Vec<i64> = rows
        .iter()
        .map(|row| row.received_at.seconds() - timestamp(0).seconds())
        .collect();
    assert_eq!(seconds, [1, 3, 3]);
}

#[test]
fn timestamps_hold_real_moments_only() {
    assert!(Timestamp::new(0, 2_000_000_000, 0).is_none());
    assert!(Timestamp::new(i64::MAX, 0, 0).is_none());
    assert!(Timestamp::new(0, 0, 86_400).is_none());
    let moment = Timestamp::new(1_785_499_200, 45_000_000, 8 * 3_600).unwrap();
    assert_eq!(
        format_timestamp(moment, DEFAULT_TIMESTAMP_FORMAT),
        "2026-07-31 20:00:00.045"
    );
    assert_eq!(timestamp_prefix(moment, "%H:%M"), "[20:00] ");
    assert_eq!(
        format_timestamp(moment, "%Q"),
        format_timestamp(moment, DEFAULT_TIMESTAMP_FORMAT)
    );
    assert_eq!(
        (moment.seconds(), moment.nanos(), moment.offset_seconds()),
        (1_785_499_200, 45_000_000, 28_800)
    );
    assert_eq!(format_timestamp(Timestamp::epoch(), "%Y"), "1970");
    assert_eq!(export_file_name(moment), "ESCOM_20260731_200000.txt");
}

#[test]
fn decoders_hold_back_unfinished_characters() {
    let mut decoder = StreamDecoder::new(TextEncoding::Utf8);
    assert_eq!(decoder.push(&[0xE4, 0xB8]), "");
    assert_eq!(decoder.push(&[0xAD, b'a']), "中a");
    assert_eq!(decoder.push(&[0xE4]), "");
    assert_eq!(decoder.finish(), "\u{fffd}");
    let mut decoder = StreamDecoder::new(TextEncoding::Gbk);
    assert_eq!(decoder.push(&[0xD6]), "");
    assert_eq!(decoder.push(&[0xD0]), "中");
    assert_eq!(decoder.finish(), "");
    let mut decoder = StreamDecoder::new(TextEncoding::Utf8);
    assert_eq!(decoder.push(&[0xEF, 0xBB, 0xBF, b'a']), "\u{feff}a");
}

#[test]
fn text_is_encoded_with_its_line_ending() {
    let encode = |text: &str, encoding: TextEncoding, ending: LineEnding| {
        encode_text(text, encoding, ending)
    };
    assert_eq!(
        encode("中", TextEncoding::Gbk, LineEnding::Lf).unwrap(),
        [0xD6, 0xD0, b'\n']
    );
    assert_eq!(
        encode("a\r\nb", TextEncoding::Utf8, LineEnding::Cr).unwrap(),
        b"a\r\nb\r"
    );
    assert_eq!(
        encode("", TextEncoding::Utf8, LineEnding::CrLf).unwrap(),
        b"\r\n"
    );
    assert_eq!(
        encode("", TextEncoding::Gbk, LineEnding::Empty).unwrap_err(),
        "请输入要发送的数据"
    );
    assert_eq!(
        encode("😀", TextEncoding::Gbk, LineEnding::Lf).unwrap_err(),
        "文本包含 GBK 无法表示的字符"
    );
}

#[test]
fn every_fault_of_hex_input_is_told() {
    for input in ["", "  ", "0x"] {
        assert_eq!(parse_hex(input).unwrap_err(), "请输入要发送的 HEX 数据");
    }
    for input in ["A", "0xA", "AA0", "中", "AA 中"] {
        assert_eq!(parse_hex(input).unwrap_err(), "HEX 字符数量必须为偶数");
    }
    for input in ["GG", "中中", "0x0x", "A-"] {
        assert_eq!(
            parse_hex(input).unwrap_err(),
            "HEX 数据只能包含 0-9、A-F 和空格"
        );
    }
    assert_eq!(parse_hex("A A").unwrap(), [0xAA]);
    assert_eq!(parse_hex("0xAA 0Xbb").unwrap(), [0xAA, 0xBB]);
    assert!(
        parse_send_input("", SendMode::Text, TextEncoding::Utf8, LineEnding::Empty).is_err()
    );
}

#[test]
fn hex_rows_can_be_sent_back() {
    let bytes: Vec<u8> = (0..40).collect();
    let mut store = ReceiveStore::new(1024);
    store.append(timestamp(1), bytes.clone());
    let rows = format_snapshot(&store.snapshot(), ReceiveMode::Hex, TextEncoding::Utf8);
    assert_eq!(rows.len(), 3);
    let mut read_back = Vec::new();
    for row in rows {
        read_back.extend(parse_hex(&row.text).unwrap());
    }
    assert_eq!(read_back, bytes);
}

#[test]
fn literal_queries_are_not_expressions() {
    let mut store = ReceiveStore::new(1024);
    store.append(timestamp(1), b"a.c\nabc\n".to_vec());
    let rows = format_snapshot(&store.snapshot(), ReceiveMode::Text, TextEncoding::Utf8);
    let options = SearchDisplayOptions::new(false, DEFAULT_TIMESTAMP_FORMAT);
    assert_eq!(search_rows(&rows, "a.c", false, false, options).matches.len(), 1);
    let options = SearchDisplayOptions::new(false, DEFAULT_TIMESTAMP_FORMAT);
    assert_eq!(search_rows(&rows, "a.c", false, true, options).matches.len(), 2);
    let options = SearchDisplayOptions::new(true, "%Y");
    let index = search_rows(&rows, "2026", false, false, options);
    assert_eq!(index.matched_rows, [0, 1]);
    assert_eq!(index.matches[0].byte_range, 1..5);
}

fn pressed(key: Key, ctrl: bool, alt: bool, shift: bool) -> InputEvent {
    InputEvent::Key {
        key,
        pressed: true,
        modifiers: Modifiers { ctrl, alt, shift },
    }
}

#[test]
fn keys_are_sent_as_a_terminal_sends_them() {
    let none = Modifiers {
        ctrl: false,
        alt: false,
        shift: false,
    };
    let ctrl = Modifiers {
        ctrl: true,
        alt: false,
        shift: false,
    };
    let send = |events: &[InputEvent], modifiers: Modifiers| {
        terminal_bytes_from_events(events, TextEncoding::Utf8, modifiers).unwrap()
    };
    assert_eq!(
        send(
            &[InputEvent::Text("\t".into()), pressed(Key::Tab, false, false, false)],
            none
        ),
        b"\t"
    );
    assert_eq!(send(&[pressed(Key::Tab, false, false, false)], none), b"\t");
    assert_eq!(
        send(
            &[InputEvent::Paste("x".into()), pressed(Key::V, true, false, false)],
            ctrl
        ),
        b"x"
    );
    assert_eq!(send(&[pressed(Key::V, true, false, false)], ctrl), [0x16]);
    assert_eq!(
        send(&[InputEvent::Copy, pressed(Key::C, true, false, false)], ctrl),
        [0x03]
    );
    assert_eq!(send(&[InputEvent::Copy], none), b"");
    assert_eq!(
        send(&[InputEvent::Commit("中".into()), InputEvent::Other], none),
        "中".as_bytes()
    );
    assert_eq!(
        send(
            &[InputEvent::Key {
                key: Key::Enter,
                pressed: false,
                modifiers: none
            }],
            none
        ),
        b""
    );
    assert_eq!(send(&[pressed(Key::Enter, false, true, false)], none), b"\r");
    assert_eq!(send(&[pressed(Key::Enter, true, false, false)], ctrl), b"");
    assert_eq!(terminal_control_byte(Key::Space), Some(0));
    assert_eq!(terminal_control_byte(Key::Minus), Some(0x1F));
    assert_eq!(terminal_control_byte(Key::Enter), None);
    let mut output = vec![1];
    append_terminal_text(&mut output, "", TextEncoding::Gbk).unwrap();
    append_terminal_text(&mut output, "中", TextEncoding::Gbk).unwrap();
    assert_eq!(output, [1, 0xD6, 0xD0]);
    assert!(append_terminal_text(&mut output, "😀", TextEncoding::Gbk).is_err());
}

#[test]
fn snapshots_and_deltas_make_up_the_buffer() {
    let mut store = ReceiveStore::new(8);
    store.append(timestamp(1), vec![1, 2, 3]);
    let snapshot = store.snapshot();
    let (formatter, _rows) = escom::formatting::DisplayFormatter::rebuild(
        &snapshot,
        ReceiveMode::Hex,
        TextEncoding::Utf8,
    );
    store.append(timestamp(2), vec![4, 5]);
    let delta = store.delta_since(formatter.cursor());
    assert!(!delta.reset_or_gap);
    let joined: Vec<u8> = snapshot
        .chunks
        .iter()
        .chain(&delta.chunks)
        .flat_map(|chunk| chunk.bytes.to_vec())
        .collect();
    assert_eq!(joined, [1, 2, 3, 4, 5]);
    store.append(timestamp(3), vec![0; 7]);
    assert_eq!(store.bytes_len(), 7);
    assert_eq!(store.dropped_bytes(), 5);
    store.append(timestamp(4), vec![9; 10]);
    assert_eq!(store.bytes_len() as u64 + store.dropped_bytes(), 22);
    store.set_limit(0);
    assert_eq!(store.dropped_bytes() + store.bytes_len() as u64, 22);
}
