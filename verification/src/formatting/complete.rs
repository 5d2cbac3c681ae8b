//! Complete formatting of a snapshot, without the limits of the display.

use std::collections::VecDeque;

use vstd::prelude::*;

use crate::encoding::{added_text, closing_text, StreamDecoder};
use crate::formatting::display::{default_limits, rebuilt, DisplayFormatter};
use crate::formatting::hex::{
    fresh_hex, hex_skipped_bytes_modulo, partial_hex_row, push_bytes, push_hex_chunks,
    IncrementalHexFormatter,
};
use crate::formatting::rows::{ended_in, plain_rows, row_views, FormattedRow, RowView};
use crate::formatting::text::{
    fresh_line, line_wf, note_input, partial_row, push_text, push_text_keeps_wf, LineState,
    TextLines,
};
use crate::model::{ReceiveMode, TextEncoding};
use crate::store::{chunk_views, joined_bytes, ChunkView, ReceiveSnapshot};

verus! {

/// The open line after a row of chunks, and the lines that end in them, however long.
pub open spec fn split_chunks(encoding: TextEncoding, chunks: Seq<ChunkView>) -> (
    LineState,
    Seq<RowView>,
)
    decreases chunks.len(),
{
    if chunks.len() == 0 {
        (fresh_line(), Seq::empty())
    } else {
        let last = chunks.last();
        let (before, rows) = split_chunks(encoding, chunks.drop_last());
        let noted = if last.bytes.len() > 0 {
            note_input(before, last.received_at)
        } else {
            before
        };
        let text = added_text(encoding, joined_bytes(chunks.drop_last()), last.bytes);
        let (after, more) = push_text(noted, text, last.received_at, last.sequence);
        (after, rows + more)
    }
}

/// The open line once the stream has ended, and the lines before it.
pub open spec fn split_stream(encoding: TextEncoding, chunks: Seq<ChunkView>) -> (
    LineState,
    Seq<RowView>,
) {
    let (line, rows) = split_chunks(encoding, chunks);
    let text = closing_text(encoding, joined_bytes(chunks));
    if chunks.len() == 0 {
        (line, rows)
    } else {
        let last = chunks.last();
        let (after, more) = push_text(line, text, last.received_at, last.sequence);
        (after, rows + more)
    }
}

/// All lines of a stream of text. What is left of an incomplete character at its end counts.
pub open spec fn text_lines(encoding: TextEncoding, chunks: Seq<ChunkView>) -> Seq<RowView> {
    let (line, rows) = split_stream(encoding, chunks);
    rows + plain_rows(partial_row(line))
}

/// All HEX rows of a stream of which `skipped` bytes are missing at the start.
pub open spec fn hex_rows(skipped: nat, chunks: Seq<ChunkView>) -> Seq<RowView> {
    let (state, rows) = push_hex_chunks(fresh_hex(skipped), chunks);
    plain_rows(rows + partial_hex_row(state))
}

/// The number of bytes of the stream that a snapshot lacks at its start.
pub open spec fn missing_bytes(snapshot: ReceiveSnapshot) -> nat {
    (snapshot.dropped_bytes + snapshot.omitted_bytes) as nat
}

pub fn format_snapshot(snapshot: &ReceiveSnapshot, mode: ReceiveMode, encoding: TextEncoding) -> (rows:
    Vec<FormattedRow>)
    ensures
        match mode {
            ReceiveMode::Text => row_views(rows@) == text_lines(
                encoding,
                chunk_views(snapshot.chunks@),
            ),
            ReceiveMode::Hex => row_views(rows@) == hex_rows(
                missing_bytes(*snapshot),
                chunk_views(snapshot.chunks@),
            ),
            ReceiveMode::Terminal => exists|formatter: DisplayFormatter| #[trigger]
                rebuilt(
                    formatter,
                    row_views(rows@),
                    *snapshot,
                    mode,
                    encoding,
                    default_limits(),
                ),
        },
{
    match mode {
        ReceiveMode::Text => format_text(snapshot, encoding),
        ReceiveMode::Terminal => DisplayFormatter::rebuild(snapshot, mode, encoding).1,
        ReceiveMode::Hex => format_hex(snapshot),
    }
}

fn format_hex(snapshot: &ReceiveSnapshot) -> (rows: Vec<FormattedRow>)
    ensures
        row_views(rows@) == hex_rows(
            missing_bytes(*snapshot),
            chunk_views(snapshot.chunks@),
        ),
{
    let mut state = IncrementalHexFormatter::new(hex_skipped_bytes_modulo(snapshot));
    let ghost start = state.state();
    assert(start == fresh_hex(missing_bytes(*snapshot)));
    let mut rows: Vec<FormattedRow> = Vec::new();
    let mut ends: VecDeque<u64> = VecDeque::new();
    let ghost views = chunk_views(snapshot.chunks@);
    assert(views.take(0) == Seq::<ChunkView>::empty());
    let mut i: usize = 0;
    while i < snapshot.chunks.len()
        invariant
            i <= snapshot.chunks@.len(),
            views == chunk_views(snapshot.chunks@),
            state.wf(),
            state.state() == push_hex_chunks(start, views.take(i as int)).0,
            row_views(rows@) == plain_rows(push_hex_chunks(start, views.take(i as int)).1),
        decreases snapshot.chunks@.len() - i,
    {
        let ghost done = push_hex_chunks(start, views.take(i as int)).1;
        let ghost chunk = views[i as int];
        proof {
            assert(views.take(i + 1).drop_last() == views.take(i as int));
            let more = push_bytes(state.state(), chunk.bytes, chunk.received_at, chunk.sequence).1;
            assert(plain_rows(done + ended_in(more, chunk.sequence)) == plain_rows(done) + more);
        }
        state.push_chunk(&snapshot.chunks[i], &mut rows, &mut ends);
        i += 1;
    }
    assert(views.take(i as int) == views);
    state.push_partial_row(&mut rows, &mut ends);
    proof {
        let (last, done) = push_hex_chunks(start, views);
        assert(plain_rows(done + partial_hex_row(last)) == plain_rows(done) + plain_rows(
            partial_hex_row(last),
        ));
    }
    rows
}

fn format_text(snapshot: &ReceiveSnapshot, encoding: TextEncoding) -> (rows: Vec<FormattedRow>)
    ensures
        row_views(rows@) == text_lines(encoding, chunk_views(snapshot.chunks@)),
{
    let mut decoder = StreamDecoder::new(encoding);
    let mut lines = TextLines::new();
    let mut rows: Vec<FormattedRow> = Vec::new();
    let ghost views = chunk_views(snapshot.chunks@);
    assert(views.take(0) == Seq::<ChunkView>::empty());
    assert(row_views(rows@) == Seq::<RowView>::empty());
    let mut i: usize = 0;
    while i < snapshot.chunks.len()
        invariant
            i <= snapshot.chunks@.len(),
            views == chunk_views(snapshot.chunks@),
            decoder.encoding() == encoding,
            decoder.input() == joined_bytes(views.take(i as int)),
            line_wf(lines.state()),
            lines.state() == split_chunks(encoding, views.take(i as int)).0,
            row_views(rows@) == split_chunks(encoding, views.take(i as int)).1,
        decreases snapshot.chunks@.len() - i,
    {
        assert(views.take(i + 1).drop_last() == views.take(i as int));
        let chunk = &snapshot.chunks[i];
        if chunk.bytes.len() > 0 {
            lines.note_input(chunk.received_at);
        }
        let text = decoder.push(&*chunk.bytes);
        proof {
            push_text_keeps_wf(lines.state(), text@, chunk.received_at, chunk.sequence);
        }
        lines.push_text(text.as_str(), chunk.received_at, chunk.sequence, &mut rows);
        i += 1;
    }
    assert(views.take(i as int) == views);
    let text = decoder.finish();
    if snapshot.chunks.len() > 0 {
        let last = &snapshot.chunks[snapshot.chunks.len() - 1];
        proof {
            push_text_keeps_wf(lines.state(), text@, last.received_at, last.sequence);
        }
        lines.push_text(text.as_str(), last.received_at, last.sequence, &mut rows);
    }
    lines.finish(&mut rows);
    rows
}

} // verus!
