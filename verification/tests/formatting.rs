use escom::formatting::hex::HEX_BYTES_PER_ROW;
use escom::formatting::{
    display_snapshot_limit, display_text, encode_text, format_snapshot, format_timestamp,
    is_valid_timestamp_format, parse_hex, write_export, DisplayFormatter, DisplayLimits,
    DisplayUpdate, FormattedRow, DEFAULT_TIMESTAMP_FORMAT, MAX_DISPLAY_ROWS,
    MAX_DISPLAY_TEXT_BYTES,
};
use escom::model::{LineEnding, ReceiveMode, TextEncoding};
use escom::store::ReceiveStore;
use escom::timestamp::Timestamp;

/// 2026-07-31 12:00 and some seconds.
fn timestamp(second: u32) -> Timestamp {
    Timestamp::new(1_785_499_200 + i64::from(second), 0, 0).unwrap()
}

fn apply_display_update(rows: &mut Vec<FormattedRow>, update: DisplayUpdate) {
    rows.drain(..update.remove_prefix);
    rows.truncate(rows.len().saturating_sub(update.replace_tail));
    rows.extend(update.rows);
}

#[test]
fn parses_contiguous_spaced_and_prefixed_hex() {
    assert_eq!(parse_hex("0A10ff").unwrap(), [0x0A, 0x10, 0xFF]);
    assert_eq!(parse_hex("0x0A 10 FF").unwrap(), [0x0A, 0x10, 0xFF]);
    assert!(parse_hex("ABC").is_err());
    assert!(parse_hex("GG").is_err());
}

#[test]
fn text_formatter_handles_split_utf8_and_crlf() {
    let mut store = ReceiveStore::new(1024);
    let bytes = "第一行\r\n第二行".as_bytes();
    store.append(timestamp(1), bytes[..4].to_vec());
    store.append(timestamp(2), bytes[4..10].to_vec());
    store.append(timestamp(3), bytes[10..].to_vec());

    let rows = format_snapshot(&store.snapshot(), ReceiveMode::Text, TextEncoding::Utf8);
    assert_eq!(rows.len(), 2);
    assert_eq!(rows[0].text, "第一行");
    assert_eq!(rows[1].text, "第二行");
    assert_eq!(rows[0].received_at, timestamp(1));
}

#[test]
fn split_crlf_does_not_timestamp_next_line_from_lf_chunk() {
    let mut store = ReceiveStore::new(1024);
    store.append(timestamp(1), b"first\r".to_vec());
    store.append(timestamp(2), b"\n".to_vec());
    store.append(timestamp(3), b"second".to_vec());

    let rows = format_snapshot(&store.snapshot(), ReceiveMode::Text, TextEncoding::Utf8);
    assert_eq!(rows.len(), 2);
    assert_eq!(rows[1].text, "second");
    assert_eq!(rows[1].received_at, timestamp(3));
}

#[test]
fn text_formatter_handles_split_gbk_character() {
    let (encoded, _, _) = encoding_rs::GBK.encode("中文\n完成");
    let bytes = encoded.into_owned();
    let mut store = ReceiveStore::new(1024);
    store.append(timestamp(1), bytes[..1].to_vec());
    store.append(timestamp(2), bytes[1..3].to_vec());
    store.append(timestamp(3), bytes[3..].to_vec());

    let rows = format_snapshot(&store.snapshot(), ReceiveMode::Text, TextEncoding::Gbk);
    assert_eq!(
        rows.iter().map(|row| row.text.as_str()).collect::<Vec<_>>(),
        ["中文", "完成"]
    );
    assert_eq!(rows[0].received_at, timestamp(1));
}

#[test]
fn terminal_mode_uses_streaming_text_formatter() {
    let mut store = ReceiveStore::new(1024);
    store.append(timestamp(1), b"ready> ".to_vec());
    store.append(timestamp(2), b"ok\r\n".to_vec());

    let rows = format_snapshot(&store.snapshot(), ReceiveMode::Terminal, TextEncoding::Utf8);
    assert_eq!(rows.len(), 1);
    assert_eq!(rows[0].text, "ready> ok");
    assert_eq!(rows[0].received_at, timestamp(1));
}

#[test]
fn incremental_formatter_matches_complete_utf8_snapshot() {
    let mut store = ReceiveStore::new(1024);
    let (mut formatter, mut rows) =
        DisplayFormatter::rebuild(&store.snapshot(), ReceiveMode::Text, TextEncoding::Utf8);
    let bytes = "第一行\r\n第二行".as_bytes();
    for (index, part) in [&bytes[..4], &bytes[4..10], &bytes[10..]]
        .into_iter()
        .enumerate()
    {
        store.append(timestamp(index as u32 + 1), part.to_vec());
        let delta = store.delta_since(formatter.cursor());
        apply_display_update(&mut rows, formatter.apply_delta(&delta).unwrap());
    }

    assert_eq!(
        rows,
        format_snapshot(&store.snapshot(), ReceiveMode::Text, TextEncoding::Utf8)
    );
}

#[test]
fn incremental_formatter_replaces_visible_partial_row() {
    let mut store = ReceiveStore::new(1024);
    store.append(timestamp(1), b"ready".to_vec());
    let (mut formatter, mut rows) =
        DisplayFormatter::rebuild(&store.snapshot(), ReceiveMode::Terminal, TextEncoding::Utf8);
    assert_eq!(rows[0].text, "ready");

    store.append(timestamp(2), b"> ok\r\n".to_vec());
    let update = formatter
        .apply_delta(&store.delta_since(formatter.cursor()))
        .unwrap();
    assert_eq!(update.replace_tail, 1);
    apply_display_update(&mut rows, update);
    assert_eq!(rows.len(), 1);
    assert_eq!(rows[0].text, "ready> ok");
}

#[test]
fn incremental_formatter_handles_split_gbk_character() {
    let (encoded, _, _) = encoding_rs::GBK.encode("中文\n完成");
    let bytes = encoded.into_owned();
    let mut store = ReceiveStore::new(1024);
    let (mut formatter, mut rows) =
        DisplayFormatter::rebuild(&store.snapshot(), ReceiveMode::Text, TextEncoding::Gbk);
    for (index, part) in [&bytes[..1], &bytes[1..3], &bytes[3..]]
        .into_iter()
        .enumerate()
    {
        store.append(timestamp(index as u32 + 1), part.to_vec());
        let delta = store.delta_since(formatter.cursor());
        apply_display_update(&mut rows, formatter.apply_delta(&delta).unwrap());
    }

    assert_eq!(
        rows.iter().map(|row| row.text.as_str()).collect::<Vec<_>>(),
        ["中文", "完成"]
    );
}

#[test]
fn hex_rebuild_is_independent_of_receive_chunk_boundaries() {
    let bytes: Vec<u8> = (0..=32).collect();
    let mut single_chunk = ReceiveStore::new(1024);
    single_chunk.append(timestamp(1), bytes.clone());
    let mut fragmented = ReceiveStore::new(1024);
    for part in [&bytes[..1], &bytes[1..8], &bytes[8..17], &bytes[17..]] {
        fragmented.append(timestamp(1), part.to_vec());
    }

    let single_rows = format_snapshot(
        &single_chunk.snapshot(),
        ReceiveMode::Hex,
        TextEncoding::Utf8,
    );
    let fragmented_rows =
        format_snapshot(&fragmented.snapshot(), ReceiveMode::Hex, TextEncoding::Utf8);

    assert_eq!(fragmented_rows, single_rows);
    assert_eq!(
        single_rows
            .iter()
            .map(|row| row.text.as_str())
            .collect::<Vec<_>>(),
        [
            "00 01 02 03 04 05 06 07 08 09 0A 0B 0C 0D 0E 0F",
            "10 11 12 13 14 15 16 17 18 19 1A 1B 1C 1D 1E 1F",
            "20",
        ]
    );
}

#[test]
fn incremental_hex_formatter_replaces_and_completes_partial_rows() {
    let mut store = ReceiveStore::new(1024);
    store.append(timestamp(1), (0..5).collect());
    let (mut formatter, mut rows) =
        DisplayFormatter::rebuild(&store.snapshot(), ReceiveMode::Hex, TextEncoding::Utf8);
    assert_eq!(rows[0].text, "00 01 02 03 04");

    store.append(timestamp(2), (5..16).collect());
    let update = formatter
        .apply_delta(&store.delta_since(formatter.cursor()))
        .unwrap();
    assert_eq!(update.replace_tail, 1);
    assert_eq!(update.rows[0].received_at, timestamp(1));
    apply_display_update(&mut rows, update);
    assert_eq!(
        rows[0].text,
        "00 01 02 03 04 05 06 07 08 09 0A 0B 0C 0D 0E 0F"
    );

    store.append(timestamp(3), vec![0x10, 0x11]);
    let update = formatter
        .apply_delta(&store.delta_since(formatter.cursor()))
        .unwrap();
    assert_eq!(update.replace_tail, 0);
    apply_display_update(&mut rows, update);
    assert_eq!(rows[1].text, "10 11");

    store.append(timestamp(4), (0x12..0x20).collect());
    let update = formatter
        .apply_delta(&store.delta_since(formatter.cursor()))
        .unwrap();
    assert_eq!(update.replace_tail, 1);
    assert_eq!(update.rows[0].received_at, timestamp(3));
    apply_display_update(&mut rows, update);

    assert_eq!(
        rows,
        format_snapshot(&store.snapshot(), ReceiveMode::Hex, TextEncoding::Utf8)
    );
}

#[test]
fn hex_tail_snapshot_preserves_the_original_sixteen_byte_alignment() {
    let mut store = ReceiveStore::new(1024);
    store.append(timestamp(1), (0..20).collect());
    let snapshot = store.tail_snapshot(18);
    let rows = format_snapshot(&snapshot, ReceiveMode::Hex, TextEncoding::Utf8);

    let mut evicted_store = ReceiveStore::new(18);
    evicted_store.append(timestamp(1), vec![0, 1]);
    evicted_store.append(timestamp(1), (2..20).collect());
    let evicted_snapshot = evicted_store.snapshot();
    let evicted_rows = format_snapshot(&evicted_snapshot, ReceiveMode::Hex, TextEncoding::Utf8);

    assert_eq!(snapshot.omitted_bytes, 2);
    assert_eq!(evicted_snapshot.dropped_bytes, 2);
    assert_eq!(evicted_rows, rows);
    assert_eq!(
        rows.iter().map(|row| row.text.as_str()).collect::<Vec<_>>(),
        ["02 03 04 05 06 07 08 09 0A 0B 0C 0D 0E 0F", "10 11 12 13",]
    );
}

#[test]
fn incremental_formatter_prunes_rows_from_evicted_chunks() {
    let mut store = ReceiveStore::new(6);
    store.append(timestamp(1), b"a\n".to_vec());
    store.append(timestamp(2), b"b\n".to_vec());
    store.append(timestamp(3), b"c\n".to_vec());
    let (mut formatter, mut rows) =
        DisplayFormatter::rebuild(&store.snapshot(), ReceiveMode::Text, TextEncoding::Utf8);

    store.set_limit(4);
    let update = formatter
        .apply_delta(&store.delta_since(formatter.cursor()))
        .unwrap();
    assert_eq!(update.remove_prefix, 1);
    apply_display_update(&mut rows, update);
    assert_eq!(
        rows.iter().map(|row| row.text.as_str()).collect::<Vec<_>>(),
        ["b", "c"]
    );
}

#[test]
fn eviction_without_new_chunks_does_not_duplicate_partial_row() {
    let mut store = ReceiveStore::new(6);
    store.append(timestamp(1), b"a\n".to_vec());
    store.append(timestamp(2), b"tail".to_vec());
    let (mut formatter, mut rows) =
        DisplayFormatter::rebuild(&store.snapshot(), ReceiveMode::Text, TextEncoding::Utf8);

    store.set_limit(4);
    let update = formatter
        .apply_delta(&store.delta_since(formatter.cursor()))
        .unwrap();
    assert_eq!(update.remove_prefix, 1);
    assert_eq!(update.replace_tail, 0);
    assert!(update.rows.is_empty());
    apply_display_update(&mut rows, update);
    assert_eq!(rows.len(), 1);
    assert_eq!(rows[0].text, "tail");
}

#[test]
fn incremental_formatter_waits_for_incomplete_multibyte_character() {
    let bytes = "中".as_bytes();
    let mut store = ReceiveStore::new(1024);
    let (mut formatter, mut rows) =
        DisplayFormatter::rebuild(&store.snapshot(), ReceiveMode::Text, TextEncoding::Utf8);
    store.append(timestamp(1), bytes[..1].to_vec());
    let delta = store.delta_since(formatter.cursor());
    apply_display_update(&mut rows, formatter.apply_delta(&delta).unwrap());
    assert!(rows.is_empty());

    store.append(timestamp(2), bytes[1..].to_vec());
    let delta = store.delta_since(formatter.cursor());
    apply_display_update(&mut rows, formatter.apply_delta(&delta).unwrap());
    assert_eq!(rows[0].text, "中");
    assert_eq!(rows[0].received_at, timestamp(1));
}

#[test]
fn display_formatter_limits_rows_during_rebuild() {
    let mut store = ReceiveStore::new(1024);
    for (index, row) in [b"a\n", b"b\n", b"c\n", b"d\n"].into_iter().enumerate() {
        store.append(timestamp(index as u32 + 1), row.to_vec());
    }
    let limits = DisplayLimits {
        max_rows: 3,
        max_text_bytes: 1024,
        max_line_bytes: 128,
    };

    let (formatter, rows) = DisplayFormatter::rebuild_with_limits(
        &store.snapshot(),
        ReceiveMode::Text,
        TextEncoding::Utf8,
        limits,
    );

    assert!(formatter.is_limited());
    assert_eq!(
        rows.iter().map(|row| row.text.as_str()).collect::<Vec<_>>(),
        ["b", "c", "d"]
    );
}

#[test]
fn display_formatter_limits_total_text_bytes() {
    let mut store = ReceiveStore::new(1024);
    store.append(timestamp(1), b"aaaa\nbbbb\n".to_vec());
    let limits = DisplayLimits {
        max_rows: 10,
        max_text_bytes: 6,
        max_line_bytes: 128,
    };

    let (formatter, rows) = DisplayFormatter::rebuild_with_limits(
        &store.snapshot(),
        ReceiveMode::Text,
        TextEncoding::Utf8,
        limits,
    );

    assert!(formatter.is_limited());
    assert_eq!(rows.len(), 1);
    assert_eq!(rows[0].text, "bbbb");
}

#[test]
fn display_formatter_bounds_a_line_without_newlines() {
    let mut store = ReceiveStore::new(1024);
    store.append(
        timestamp(1),
        b"0123456789abcdefghijklmnopqrstuvwxyz".to_vec(),
    );
    let limits = DisplayLimits {
        max_rows: 10,
        max_text_bytes: 1024,
        max_line_bytes: 16,
    };

    let (formatter, rows) = DisplayFormatter::rebuild_with_limits(
        &store.snapshot(),
        ReceiveMode::Text,
        TextEncoding::Utf8,
        limits,
    );

    assert!(formatter.is_limited());
    assert_eq!(rows.len(), 1);
    assert!(rows[0].text.starts_with('…'));
    assert!(rows[0].text.len() <= 16);
    assert!(rows[0].text.ends_with("stuvwxyz"));
}

#[test]
fn incremental_display_limit_prunes_existing_rows() {
    let mut store = ReceiveStore::new(1024);
    store.append(timestamp(1), b"a\nb\nc\n".to_vec());
    let limits = DisplayLimits {
        max_rows: 3,
        max_text_bytes: 1024,
        max_line_bytes: 128,
    };
    let (mut formatter, mut rows) = DisplayFormatter::rebuild_with_limits(
        &store.snapshot(),
        ReceiveMode::Text,
        TextEncoding::Utf8,
        limits,
    );

    store.append(timestamp(2), b"d\n".to_vec());
    let update = formatter
        .apply_delta(&store.delta_since(formatter.cursor()))
        .unwrap();
    assert_eq!(update.remove_prefix, 1);
    apply_display_update(&mut rows, update);

    assert!(formatter.is_limited());
    assert_eq!(
        rows.iter().map(|row| row.text.as_str()).collect::<Vec<_>>(),
        ["b", "c", "d"]
    );
}

#[test]
fn default_hex_display_window_never_exceeds_the_row_limit() {
    let mut store = ReceiveStore::new(4 * 1024 * 1024);
    store.append(
        timestamp(1),
        vec![0xA5; (MAX_DISPLAY_ROWS + 128) * HEX_BYTES_PER_ROW],
    );
    let snapshot = store.tail_snapshot(display_snapshot_limit(ReceiveMode::Hex));

    let (formatter, rows) =
        DisplayFormatter::rebuild(&snapshot, ReceiveMode::Hex, TextEncoding::Utf8);

    assert!(formatter.is_limited());
    assert_eq!(rows.len(), MAX_DISPLAY_ROWS);
    assert!(rows.iter().map(|row| row.text.len()).sum::<usize>() <= MAX_DISPLAY_TEXT_BYTES);
}

#[test]
fn export_is_utf8_bom_and_crlf() {
    let mut store = ReceiveStore::new(1024);
    store.append(timestamp(1), "数据".as_bytes().to_vec());
    let mut bytes = Vec::new();

    write_export(
        &mut bytes,
        store.snapshot(),
        ReceiveMode::Text,
        TextEncoding::Utf8,
        false,
        DEFAULT_TIMESTAMP_FORMAT,
    );

    assert!(bytes.starts_with(&[0xEF, 0xBB, 0xBF]));
    assert_eq!(std::str::from_utf8(&bytes[3..]).unwrap(), "数据\r\n");
}

#[test]
fn timestamp_format_is_validated_and_applied_to_display_text() {
    let row = FormattedRow {
        received_at: timestamp(1),
        text: "ready".to_owned(),
    };

    assert!(is_valid_timestamp_format(DEFAULT_TIMESTAMP_FORMAT));
    assert!(is_valid_timestamp_format("%H:%M:%S"));
    assert!(!is_valid_timestamp_format(""));
    assert!(!is_valid_timestamp_format("%Q"));
    assert_eq!(display_text(&row, true, "%H:%M:%S"), "[12:00:01] ready");
    assert_eq!(
        format_timestamp(row.received_at, "%Q"),
        "2026-07-31 12:00:01.000"
    );
}

#[test]
fn streaming_text_export_handles_split_utf8_and_crlf() {
    let mut store = ReceiveStore::new(1024);
    let input = "第一行\r\n第二行".as_bytes();
    store.append(timestamp(1), input[..4].to_vec());
    store.append(timestamp(2), input[4..10].to_vec());
    store.append(timestamp(3), input[10..].to_vec());
    let mut output = Vec::new();

    write_export(
        &mut output,
        store.snapshot(),
        ReceiveMode::Text,
        TextEncoding::Utf8,
        false,
        DEFAULT_TIMESTAMP_FORMAT,
    );

    assert_eq!(
        std::str::from_utf8(&output[3..]).unwrap(),
        "第一行\r\n第二行\r\n"
    );
}

#[test]
fn streaming_text_export_timestamps_a_split_character_from_its_first_byte() {
    let mut store = ReceiveStore::new(1024);
    let input = "中".as_bytes();
    store.append(timestamp(1), input[..1].to_vec());
    store.append(timestamp(2), input[1..].to_vec());
    let mut output = Vec::new();

    write_export(
        &mut output,
        store.snapshot(),
        ReceiveMode::Text,
        TextEncoding::Utf8,
        true,
        DEFAULT_TIMESTAMP_FORMAT,
    );

    assert_eq!(
        std::str::from_utf8(&output[3..]).unwrap(),
        "[2026-07-31 12:00:01.000] 中\r\n"
    );
}

#[test]
fn streaming_text_export_preserves_line_and_blank_line_timestamps() {
    let mut store = ReceiveStore::new(1024);
    store.append(timestamp(1), b"first".to_vec());
    store.append(timestamp(2), b" line\r".to_vec());
    store.append(timestamp(3), b"\n\nlast".to_vec());
    let mut output = Vec::new();

    write_export(
        &mut output,
        store.snapshot(),
        ReceiveMode::Text,
        TextEncoding::Utf8,
        true,
        DEFAULT_TIMESTAMP_FORMAT,
    );

    assert_eq!(
        std::str::from_utf8(&output[3..]).unwrap(),
        [
            "[2026-07-31 12:00:01.000] first line\r\n",
            "[2026-07-31 12:00:03.000] \r\n",
            "[2026-07-31 12:00:03.000] last\r\n"
        ]
        .concat()
    );
}

#[test]
fn streaming_text_export_decodes_split_gbk() {
    let (encoded, _, _) = encoding_rs::GBK.encode("中文\r\n完成");
    let input = encoded.into_owned();
    let mut store = ReceiveStore::new(1024);
    store.append(timestamp(1), input[..1].to_vec());
    store.append(timestamp(2), input[1..3].to_vec());
    store.append(timestamp(3), input[3..].to_vec());
    let mut output = Vec::new();

    write_export(
        &mut output,
        store.snapshot(),
        ReceiveMode::Text,
        TextEncoding::Gbk,
        false,
        DEFAULT_TIMESTAMP_FORMAT,
    );

    assert_eq!(
        std::str::from_utf8(&output[3..]).unwrap(),
        "中文\r\n完成\r\n"
    );
}

#[test]
fn terminal_export_writes_the_interpreted_screen_instead_of_ansi_input() {
    let mut store = ReceiveStore::new(1024);
    store.append(timestamp(1), b"msh >list".to_vec());
    store.append(timestamp(2), b"\x1b[2K\rmsh >thread\r\n".to_vec());
    store.append(timestamp(3), b"normal \x1b[31mred\x1b[0m text".to_vec());
    let mut output = Vec::new();

    write_export(
        &mut output,
        store.snapshot(),
        ReceiveMode::Terminal,
        TextEncoding::Utf8,
        false,
        DEFAULT_TIMESTAMP_FORMAT,
    );

    assert_eq!(
        std::str::from_utf8(&output[3..]).unwrap(),
        "msh >thread\r\nnormal red text\r\n"
    );
    assert!(!output.contains(&0x1B));
}

#[test]
fn terminal_export_handles_split_csi_and_split_gbk() {
    let (encoded, _, _) = encoding_rs::GBK.encode("中文");
    let encoded = encoded.into_owned();
    let mut clear_and_first_byte = b"2J".to_vec();
    clear_and_first_byte.extend_from_slice(&encoded[..1]);
    let mut store = ReceiveStore::new(1024);
    store.append(timestamp(1), b"obsolete\r\n\x1b[".to_vec());
    store.append(timestamp(2), clear_and_first_byte);
    store.append(timestamp(3), encoded[1..].to_vec());
    let mut output = Vec::new();

    write_export(
        &mut output,
        store.snapshot(),
        ReceiveMode::Terminal,
        TextEncoding::Gbk,
        false,
        DEFAULT_TIMESTAMP_FORMAT,
    );

    assert_eq!(
        std::str::from_utf8(&output[3..]).unwrap(),
        "中文\r\n"
    );
}

#[test]
fn terminal_export_uses_rendered_row_timestamps() {
    let mut store = ReceiveStore::new(1024);
    store.append(timestamp(1), b"first\r\n".to_vec());
    store.append(timestamp(2), b"second".to_vec());
    let mut output = Vec::new();

    write_export(
        &mut output,
        store.snapshot(),
        ReceiveMode::Terminal,
        TextEncoding::Utf8,
        true,
        "%H:%M:%S",
    );

    assert_eq!(
        std::str::from_utf8(&output[3..]).unwrap(),
        "[12:00:01] first\r\n[12:00:02] second\r\n"
    );
}

#[test]
fn streaming_hex_export_joins_chunks_and_uses_the_first_byte_timestamp() {
    let mut store = ReceiveStore::new(1024);
    store.append(timestamp(1), vec![0x00, 0x01, 0xAB]);
    store.append(timestamp(2), vec![0xFF]);
    let mut output = Vec::new();

    write_export(
        &mut output,
        store.snapshot(),
        ReceiveMode::Hex,
        TextEncoding::Utf8,
        true,
        "%H:%M:%S",
    );

    assert_eq!(
        std::str::from_utf8(&output[3..]).unwrap(),
        "[12:00:01] 00 01 AB FF\r\n"
    );
}

#[test]
fn streaming_hex_export_preserves_alignment_after_an_omitted_prefix() {
    let mut store = ReceiveStore::new(1024);
    store.append(timestamp(1), (0..20).collect());
    let mut output = Vec::new();

    write_export(
        &mut output,
        store.tail_snapshot(18),
        ReceiveMode::Hex,
        TextEncoding::Utf8,
        false,
        DEFAULT_TIMESTAMP_FORMAT,
    );

    assert_eq!(
        std::str::from_utf8(&output[3..]).unwrap(),
        [
            "02 03 04 05 06 07 08 09 0A 0B 0C 0D 0E 0F\r\n",
            "10 11 12 13\r\n"
        ]
        .concat()
    );
}

#[test]
fn gbk_send_rejects_unrepresentable_characters() {
    assert!(encode_text("😀", TextEncoding::Gbk, LineEnding::Empty).is_err());
}

#[test]
fn formats_that_cannot_be_written_are_replaced() {
    let row = FormattedRow {
        received_at: timestamp(1),
        text: "ready".to_owned(),
    };
    assert_eq!(
        format_timestamp(row.received_at, "%#z"),
        "2026-07-31 12:00:01.000"
    );
    assert_eq!(
        display_text(&row, true, "%H:%M %#z"),
        "[2026-07-31 12:00:01.000] ready"
    );
    assert_eq!(format_timestamp(row.received_at, "%z"), "+0000");
}

#[test]
fn completed_lines_are_bounded_too() {
    let limits = DisplayLimits {
        max_rows: 10,
        max_text_bytes: 1024,
        max_line_bytes: 16,
    };
    let rebuild = |store: &ReceiveStore| {
        DisplayFormatter::rebuild_with_limits(
            &store.snapshot(),
            ReceiveMode::Text,
            TextEncoding::Utf8,
            limits,
        )
    };
    let mut store = ReceiveStore::new(1024);
    store.append(timestamp(1), b"short\n0123456789abcdef\n".to_vec());
    let (mut formatter, rows) = rebuild(&store);
    assert!(!formatter.is_limited());
    assert_eq!(rows[1].text, "0123456789abcdef");

    store.append(timestamp(2), b"0123456789abcdefghij\nnext".to_vec());
    let update = formatter
        .apply_delta(&store.delta_since(formatter.cursor()))
        .unwrap();
    assert!(formatter.is_limited());
    assert_eq!(
        update
            .rows
            .iter()
            .map(|row| row.text.as_str())
            .collect::<Vec<_>>(),
        ["…cdefghij", "next"]
    );
    assert_eq!(update.rows[0].received_at, timestamp(2));
    let (formatter, rows) = rebuild(&store);
    assert!(formatter.is_limited());
    assert_eq!(rows[2].text, "…cdefghij");
    assert_eq!(
        format_snapshot(&store.snapshot(), ReceiveMode::Text, TextEncoding::Utf8)[2].text,
        "0123456789abcdefghij"
    );
}

#[test]
fn following_gives_what_rebuilding_gives() {
    for mode in [ReceiveMode::Text, ReceiveMode::Hex] {
        let mut store = ReceiveStore::new(4096);
        let bytes = "第一行\r\n第二行\nend of it\r".as_bytes();
        let (mut formatter, mut rows) =
            DisplayFormatter::rebuild(&store.snapshot(), mode, TextEncoding::Utf8);
        for (index, piece) in bytes.chunks(5).enumerate() {
            store.append(timestamp(index as u32), piece.to_vec());
            let update = formatter
                .apply_delta(&store.delta_since(formatter.cursor()))
                .unwrap();
            assert!(update.replace_tail <= 1);
            apply_display_update(&mut rows, update);
            let (_, complete) =
                DisplayFormatter::rebuild(&store.snapshot(), mode, TextEncoding::Utf8);
            assert_eq!(rows, complete);
        }
        assert!(!formatter.is_limited());
    }
}

#[test]
fn limited_displays_keep_the_latest_rows() {
    let limits = DisplayLimits {
        max_rows: 3,
        max_text_bytes: 8,
        max_line_bytes: 64,
    };
    let mut store = ReceiveStore::new(4096);
    let (mut formatter, mut rows) = DisplayFormatter::rebuild_with_limits(
        &store.snapshot(),
        ReceiveMode::Text,
        TextEncoding::Utf8,
        limits,
    );
    let mut was_limited = false;
    for index in 0..20_u32 {
        let line = "x".repeat((index % 4) as usize) + &index.to_string() + "\n";
        store.append(timestamp(index), line.into_bytes());
        let update = formatter
            .apply_delta(&store.delta_since(formatter.cursor()))
            .unwrap();
        apply_display_update(&mut rows, update);
        assert!(rows.len() <= 3);
        assert!(rows.iter().map(|row| row.text.len()).sum::<usize>() <= 8);
        assert!(rows.last().unwrap().text.ends_with(&index.to_string()));
        assert!(!was_limited || formatter.is_limited());
        was_limited = formatter.is_limited();
    }
    assert!(was_limited);
}
