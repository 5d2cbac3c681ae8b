//! What is shown of rows and written to a file, and which rows a display lets go.

use vstd::prelude::*;
use vstd::utf8::encode_utf8;

use crate::chars::text_bytes_is_encoded_len;
use crate::formatting::complete::{hex_rows, missing_bytes, text_lines};
use crate::formatting::display::{
    default_limits, evicted, excess, excess_bounds, noted_bytes, row_notes, rows_made,
    screen_limits, DisplayLimits, DisplayView, RowNote, RowState,
};
use crate::formatting::export::{exported_rows, file_text};
use crate::formatting::hex::first_row_capacity;
use crate::formatting::laws::row_start;
use crate::formatting::rows::{shown_text, EndedRow, RowView};
use crate::formatting::text::{line_bound, push_text_chunk, push_text_chunks, TextState};
use crate::model::{ReceiveMode, TextEncoding};
use crate::store::{chunk_views, ChunkView, ReceiveCursor, ReceiveSnapshot};
use crate::timestamp::{timestamp_text, written, Timestamp};

verus! {

/// A row shows its text, and with times switched on the time in brackets and a space before it.
pub proof fn rows_show_text_and_time(row: RowView, format: Seq<char>)
    ensures
        shown_text(row, false, format) == row.text,
        shown_text(row, true, format) == seq!['['] + timestamp_text(row.received_at, format)
            + seq![']', ' '] + row.text,
{
}

/// A time is written in the format that was asked for wherever that can be done, and otherwise in
/// the default one: year, month, day, hour, minute, second and milliseconds.
pub proof fn times_are_written_as_asked(at: Timestamp, format: Seq<char>)
    ensures
        format.len() > 0 && crate::timestamp::strftime_accepts(format) && written(at, format)
            is Some ==> timestamp_text(at, format) == written(at, format)->0,
        format.len() == 0 || !crate::timestamp::strftime_accepts(format) || written(at, format)
            is None ==> timestamp_text(at, format) == written(at, "%Y-%m-%d %H:%M:%S%.3f"@)->0,
        written(at, format) == crate::timestamp::strftime_text(
            at.spec_seconds(),
            at.spec_nanos(),
            at.spec_offset_seconds(),
            format,
        ),
{
}

/// A file begins with a byte order mark, and then has each row as it is shown, followed by a
/// carriage return and a line feed.
pub proof fn files_hold_all_rows(rows: Seq<RowView>, timestamps: bool, format: Seq<char>)
    ensures
        file_text(rows, timestamps, format) == rows.fold_left(
            seq!['\u{feff}'],
            |text: Seq<char>, row: RowView|
                text + shown_text(row, timestamps, format) + seq!['\r', '\n'],
        ),
    decreases rows.len(),
{
    if rows.len() == 0 {
        assert(file_text(rows, timestamps, format) == seq!['\u{feff}']);
    } else {
        files_hold_all_rows(rows.drop_last(), timestamps, format);
        let before = file_text(rows.drop_last(), timestamps, format);
        let last = shown_text(rows.last(), timestamps, format);
        assert(file_text(rows, timestamps, format) == before + last + seq!['\r', '\n']);
    }
}

/// What is exported are the lines of the text, or the HEX rows counted from the start of the
/// stream, of all that the snapshot holds.
pub proof fn exports_hold_the_whole_snapshot(
    rows: Seq<RowView>,
    snapshot: ReceiveSnapshot,
    encoding: TextEncoding,
)
    ensures
        exported_rows(rows, snapshot, ReceiveMode::Text, encoding) ==> rows == text_lines(
            encoding,
            chunk_views(snapshot.chunks@),
        ),
        exported_rows(rows, snapshot, ReceiveMode::Hex, encoding) ==> rows == hex_rows(
            (snapshot.dropped_bytes + snapshot.omitted_bytes) as nat,
            chunk_views(snapshot.chunks@),
        ),
        missing_bytes(snapshot) == snapshot.dropped_bytes + snapshot.omitted_bytes,
{
}

/// Every HEX row but the first begins at a multiple of sixteen in the stream, whatever is missing
/// at its start.
pub proof fn hex_rows_are_aligned(missing: nat, row: int)
    requires
        row > 0,
    ensures
        (missing + row_start(first_row_capacity(missing), row)) % 16 == 0,
        1 <= first_row_capacity(missing) <= 16,
        row_start(first_row_capacity(missing), row + 1) - row_start(
            first_row_capacity(missing),
            row,
        ) == 16,
{
}

/// The bytes of the texts of noted rows.
pub open spec fn bytes_of_notes(notes: Seq<RowNote>) -> nat {
    notes.fold_left(0nat, |sum: nat, note: RowNote| sum + note.bytes)
}

proof fn notes_are_added_up(notes: Seq<RowNote>)
    ensures
        noted_bytes(notes) == bytes_of_notes(notes),
    decreases notes.len(),
{
    if notes.len() > 0 {
        notes_are_added_up(notes.drop_last());
    }
}

/// A display that holds too much lets go of its oldest rows, and of no more than it has to: with
/// one more it would still hold too much.
pub proof fn only_the_excess_leaves(notes: Seq<RowNote>, limits: DisplayLimits)
    ensures
        ({
            let gone = excess(notes, limits);
            &&& 0 <= gone <= notes.len()
            &&& notes.len() - gone <= limits.max_rows
            &&& bytes_of_notes(notes.skip(gone)) <= limits.max_text_bytes
            &&& gone > 0 ==> {
                ||| notes.len() - (gone - 1) > limits.max_rows
                ||| bytes_of_notes(notes.skip(gone - 1)) > limits.max_text_bytes
            }
        }),
    decreases notes.len(),
{
    let gone = excess(notes, limits);
    notes_are_added_up(notes);
    assert(notes.skip(0) == notes);
    if notes.len() > 0 && (notes.len() > limits.max_rows || noted_bytes(notes)
        > limits.max_text_bytes) {
        let rest = notes.skip(1);
        only_the_excess_leaves(rest, limits);
        assert(rest.skip(gone - 1) == notes.skip(gone));
        if gone > 1 {
            assert(rest.skip(gone - 2) == notes.skip(gone - 1));
        }
    }
}

/// Rows leave with the bytes that they came from: exactly the first ones that ended in a chunk
/// that is no longer there, as far as they may leave.
pub proof fn rows_leave_with_their_bytes(notes: Seq<RowNote>, among: int, first: u64)
    requires
        0 <= among <= notes.len(),
    ensures
        ({
            let gone = evicted(notes, among, first);
            &&& 0 <= gone <= among
            &&& forall|i: int| 0 <= i < gone ==> (#[trigger] notes[i]).end_sequence < first
            &&& gone < among ==> notes[gone].end_sequence >= first
        }),
    decreases notes.len(),
{
    if among > 0 && notes.len() > 0 && notes[0].end_sequence < first {
        let rest = notes.skip(1);
        rows_leave_with_their_bytes(rest, among - 1, first);
        let gone = evicted(notes, among, first);
        assert forall|i: int| 0 <= i < gone implies (#[trigger] notes[i]).end_sequence < first by {
            if i > 0 {
                assert(rest[i - 1] == notes[i]);
            }
        }
        if gone < among {
            assert(rest[gone - 1] == notes[gone]);
        }
    }
}

/// A row that is not complete never leaves with old bytes, and is replaced when more of it comes.
pub proof fn open_rows_stay(view: DisplayView, first: u64)
    requires
        view.partial_visible,
        view.notes.len() > 0,
    ensures
        view.outdated(first) < view.notes.len(),
        view.staying(first, false).last() == view.notes.last(),
        view.staying(first, true).len() == view.notes.len() - view.outdated(first) - 1,
{
    rows_leave_with_their_bytes(view.notes, view.notes.len() - 1, first);
}

/// What is noted of a row are the bytes of its text and the chunk it ends in.
pub proof fn rows_are_noted(rows: Seq<EndedRow>, i: int)
    requires
        0 <= i < rows.len(),
    ensures
        row_notes(rows).len() == rows.len(),
        row_notes(rows)[i].bytes == encode_utf8(rows[i].row.text).len(),
        row_notes(rows)[i].end_sequence == rows[i].end_sequence,
{
    text_bytes_is_encoded_len(rows[i].row.text);
}

/// The lines that end in a chunk carry its number, and come behind those that ended before.
pub proof fn lines_carry_the_number_of_their_chunk(
    state: TextState,
    encoding: TextEncoding,
    max_line_bytes: nat,
    chunks: Seq<ChunkView>,
    chunk: ChunkView,
)
    ensures
        ({
            let (before, rows) = push_text_chunks(state, encoding, max_line_bytes, chunks);
            let all = push_text_chunks(state, encoding, max_line_bytes, chunks.push(chunk)).1;
            let more = push_text_chunk(before, encoding, max_line_bytes, chunk).1;
            &&& all.len() == rows.len() + more.len()
            &&& all.take(rows.len() as int) == rows
            &&& forall|i: int|
                rows.len() <= i < all.len() ==> (#[trigger] all[i]).end_sequence == chunk.sequence
                    && all[i].row == more[i - rows.len()]
        }),
{
    assert(chunks.push(chunk).drop_last() == chunks);
    let rows = push_text_chunks(state, encoding, max_line_bytes, chunks).1;
    let all = push_text_chunks(state, encoding, max_line_bytes, chunks.push(chunk)).1;
    assert(all.take(rows.len() as int) == rows);
}

/// A display holds a hundred thousand rows and sixteen mebibytes of text, in lines of half a
/// mebibyte; a line may have sixteen bytes in any case.
pub proof fn what_a_display_may_hold(limits: DisplayLimits)
    ensures
        default_limits().max_rows == 100_000,
        default_limits().max_text_bytes == 16 * 1024 * 1024,
        default_limits().max_line_bytes == 512 * 1024,
        limits.max_line_bytes >= 16 ==> line_bound(limits.max_line_bytes) == limits.max_line_bytes,
        limits.max_line_bytes < 16 ==> line_bound(limits.max_line_bytes) == 16,
        screen_limits(limits).max_rows == limits.max_rows,
        screen_limits(limits).max_text_bytes == limits.max_text_bytes,
        screen_limits(limits).max_line_bytes == limits.max_line_bytes,
{
}

/// What is added to a display comes from the chunks that were added to it, and none of it is left
/// out unless the display holds too much.
pub proof fn added_rows_are_shown(view: DisplayView, first: u64, chunks: Seq<ChunkView>)
    requires
        chunks.len() > 0,
        !(view.state is Terminal),
    ensures
        ({
            let (state, made) = crate::formatting::display::rows_made(view, chunks);
            let all = view.staying(first, true) + row_notes(made);
            let change = view.change(first, chunks);
            all.len() <= view.limits.max_rows && bytes_of_notes(all) <= view.limits.max_text_bytes
                ==> {
                &&& change.remove_prefix == view.outdated(first)
                &&& change.rows.len() == made.len()
                &&& forall|i: int| 0 <= i < made.len() ==> #[trigger] change.rows[i] == made[i].row
                &&& view.partial_visible ==> change.replace_tail == 1
                &&& !view.partial_visible ==> change.replace_tail == 0
            }
        }),
{
    let made = crate::formatting::display::rows_made(view, chunks).1;
    let all = view.staying(first, true) + row_notes(made);
    notes_are_added_up(all);
}

/// Once a line was cut or a row had to leave because there are too many, that is known ever after;
/// without either it is not said. Whether the last row is still open is known too.
pub proof fn what_is_missing_is_known(
    view: DisplayView,
    cursor: ReceiveCursor,
    first: u64,
    chunks: Seq<ChunkView>,
)
    requires
        chunks.len() > 0,
    ensures
        ({
            let after = view.applied(cursor, first, chunks);
            let (state, made) = rows_made(view, chunks);
            let leaving = view.staying(first, true).len() + made.len() - after.notes.len();
            &&& leaving >= 0
            &&& after.limited <==> {
                ||| view.limited
                ||| leaving > 0
                ||| state matches RowState::Text(text) && text.line_limited
            }
            &&& state matches RowState::Text(text) ==> (after.partial_visible
                <==> text.line.current.len() > 0)
            &&& state matches RowState::Hex(hex) ==> (after.partial_visible <==> hex.current.len()
                > 0)
            &&& after.cursor == cursor
            &&& after.mode == view.mode
            &&& after.encoding == view.encoding
            &&& after.limits == view.limits
            &&& after.state == state
        }),
        ({
            let none = view.applied(cursor, first, Seq::empty());
            &&& none.limited == view.limited
            &&& none.partial_visible == view.partial_visible
            &&& none.state == view.state
            &&& none.cursor == cursor
        }),
{
    let staying = view.staying(first, true);
    let all = staying + row_notes(rows_made(view, chunks).1);
    excess_bounds(all, view.limits);
}

} // verus!
