use escom::model::TextEncoding;
use escom::store::RxChunk;
use escom::terminal::{IncrementalTerminalFormatter, TerminalUpdate};
use escom::timestamp::Timestamp;

/// 2026-07-31 12:00 and some seconds.
fn timestamp(second: u32) -> Timestamp {
    Timestamp::new(1_785_499_200 + i64::from(second), 0, 0).unwrap()
}

fn chunk(sequence: u64, second: u32, bytes: &[u8]) -> RxChunk {
    RxChunk {
        sequence,
        received_at: timestamp(second),
        bytes: bytes.to_vec().into(),
    }
}

fn apply(formatter: &mut IncrementalTerminalFormatter, chunks: Vec<RxChunk>) -> TerminalUpdate {
    formatter.apply_chunks(&chunks, 100, 4096, 1024)
}

#[test]
fn rt_thread_history_redraw_replaces_the_current_line() {
    let mut formatter = IncrementalTerminalFormatter::new(TextEncoding::Utf8);
    let update = apply(
        &mut formatter,
        vec![chunk(0, 1, b"msh >list\x1b[2K\rmsh >thread")],
    );

    assert_eq!(update.rows[0].text, "msh >thread");
    assert_eq!(formatter.cursor(), Some((0, 11)));
}

#[test]
fn backspace_space_backspace_erases_the_echoed_character() {
    let mut formatter = IncrementalTerminalFormatter::new(TextEncoding::Utf8);
    let update = apply(&mut formatter, vec![chunk(0, 1, b"msh >abc\x08 \x08")]);

    assert_eq!(update.rows[0].text, "msh >ab");
    assert_eq!(formatter.cursor(), Some((0, 7)));
}

#[test]
fn split_csi_and_split_gbk_are_incremental() {
    let mut formatter = IncrementalTerminalFormatter::new(TextEncoding::Gbk);
    let (encoded, _, _) = encoding_rs::GBK.encode("中文");
    let encoded = encoded.into_owned();
    let first = chunk(0, 1, &encoded[..1]);
    let second = chunk(1, 2, &encoded[1..]);
    let escape = chunk(2, 3, b"\x1b[");
    let redraw = chunk(3, 4, b"2K\rready");

    let first_update = apply(&mut formatter, vec![first, second, escape]);
    assert_eq!(first_update.rows[0].text, "中文");
    let second_update = apply(&mut formatter, vec![redraw]);
    assert_eq!(second_update.replace_tail, 1);
    assert_eq!(second_update.rows[0].text, "ready");
}

#[test]
fn cursor_movement_overwrites_instead_of_inserting() {
    let mut formatter = IncrementalTerminalFormatter::new(TextEncoding::Utf8);
    let update = apply(&mut formatter, vec![chunk(0, 1, b"abcd\x08\x08X")]);

    assert_eq!(update.rows[0].text, "abXd");
    assert_eq!(formatter.cursor(), Some((0, 3)));
}

#[test]
fn sgr_sequences_are_consumed_without_becoming_visible_text() {
    let mut formatter = IncrementalTerminalFormatter::new(TextEncoding::Utf8);
    let update = apply(
        &mut formatter,
        vec![chunk(0, 1, b"normal \x1b[31mred\x1b[0m text")],
    );

    assert_eq!(update.rows[0].text, "normal red text");
}

#[test]
fn row_limit_prunes_the_prefix_and_keeps_incremental_updates_valid() {
    let mut formatter = IncrementalTerminalFormatter::new(TextEncoding::Utf8);
    let mut rows = Vec::new();
    let first = formatter.apply_chunks(&vec![chunk(0, 1, b"a\r\nb\r\nc\r\nd")], 3, 4096, 1024);
    rows.extend(first.rows);
    assert_eq!(
        rows.iter().map(|row| row.text.as_str()).collect::<Vec<_>>(),
        ["b", "c", "d"]
    );

    let second = formatter.apply_chunks(&vec![chunk(1, 2, b"\r\ne")], 3, 4096, 1024);
    assert_eq!(second.remove_prefix, 1);
    assert_eq!(second.replace_tail, 0);
    rows.drain(..second.remove_prefix);
    rows.extend(second.rows);
    assert_eq!(
        rows.iter().map(|row| row.text.as_str()).collect::<Vec<_>>(),
        ["c", "d", "e"]
    );
    assert!(formatter.is_limited());
}

#[test]
fn plain_lines_show_as_they_are() {
    let mut formatter = IncrementalTerminalFormatter::new(TextEncoding::Utf8);
    let update = apply(
        &mut formatter,
        vec![
            chunk(0, 1, b"first line \r"),
            chunk(1, 2, b"\n\r\n~third"),
            chunk(2, 3, b" line"),
        ],
    );
    assert_eq!(
        update
            .rows
            .iter()
            .map(|row| row.text.as_str())
            .collect::<Vec<_>>(),
        ["first line", "", "~third line"]
    );
    assert!(!formatter.is_limited());
}
