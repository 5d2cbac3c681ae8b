//! What holds of the display and of complete formatting together.

use vstd::prelude::*;

use crate::chars::{char_bytes, tail_within, tail_within_fits, text_bytes, text_bytes_concat};
use crate::encoding::{added_text, closing_text};
use crate::formatting::complete::{hex_rows, split_chunks, text_lines};
use crate::formatting::display::{
    completed_rows, cut_a_line, evicted, excess, excess_bounds, has_open_row, noted_bytes,
    open_row, row_notes, rows_made, DisplayView, RowNote, RowState,
};
use crate::formatting::hex::{
    first_row_capacity, fresh_hex, hex_text, partial_hex_row, push_byte, push_bytes,
    push_hex_chunks, push_hex_chunks_concat, HexState, HEX_BYTES_PER_ROW,
};
use crate::formatting::rows::{ended_in, plain_rows, EndedRow, RowView};
use crate::formatting::text::{
    bounded_line, fresh_text, line_bound, note_input, partial_row, push_text, push_text_chunk,
    push_text_chunks, push_text_chunks_concat, LineState, TextState,
};
use crate::model::TextEncoding;
use crate::store::{joined_bytes, ChunkView, ReceiveCursor};
use crate::terminal::formatter::update_applied;
use crate::terminal::screen::{max, min};
use crate::timestamp::Timestamp;

verus! {

/// `shown` is on display, and it is what is left of the rows of `chunks` when the first `from`
/// of them are left out. `fresh` is the display before the first chunk.
pub open spec fn shows_from(
    view: DisplayView,
    shown: Seq<RowView>,
    fresh: DisplayView,
    chunks: Seq<ChunkView>,
    from: int,
) -> bool {
    let (state, rows) = rows_made(fresh, chunks);
    &&& fresh.state !is Terminal
    &&& view.encoding == fresh.encoding
    &&& view.limits == fresh.limits
    &&& view.state == state
    &&& view.partial_visible == has_open_row(state)
    &&& 0 <= from <= rows.len()
    &&& shown == plain_rows(rows).skip(from)
    &&& view.notes == row_notes(rows).skip(from)
}

/// How many of the rows of all chunks are left out after an update.
pub open spec fn left_out(
    view: DisplayView,
    fresh: DisplayView,
    a: Seq<ChunkView>,
    b: Seq<ChunkView>,
    from: int,
    first: u64,
) -> int {
    let outdated = view.outdated(first);
    if b.len() == 0 {
        from + outdated
    } else {
        let staying = view.staying(first, true);
        min(from + outdated, completed_rows(fresh, a).1.len() as int) + excess(
            staying + row_notes(rows_made(view, b).1),
            view.limits,
        )
    }
}

pub proof fn evicted_bounds(notes: Seq<RowNote>, among: int, first: u64)
    ensures
        0 <= evicted(notes, among, first) <= notes.len(),
        evicted(notes, among, first) <= max(among, 0),
    decreases notes.len(),
{
    if among > 0 && notes.len() > 0 && notes[0].end_sequence < first {
        evicted_bounds(notes.skip(1), among - 1, first);
    }
}

/// Chunks in two batches complete the rows that they complete in one.
proof fn completed_rows_concat(fresh: DisplayView, view: DisplayView, a: Seq<ChunkView>, b: Seq<
    ChunkView,
>)
    requires
        fresh.state !is Terminal,
        view.encoding == fresh.encoding,
        view.limits == fresh.limits,
        view.state == completed_rows(fresh, a).0,
    ensures
        completed_rows(fresh, a + b) == (
            completed_rows(view, b).0,
            completed_rows(fresh, a).1 + completed_rows(view, b).1,
        ),
{
    match fresh.state {
        RowState::Text(state) => push_text_chunks_concat(
            state,
            fresh.encoding,
            line_bound(fresh.limits.max_line_bytes),
            a,
            b,
        ),
        RowState::Hex(state) => push_hex_chunks_concat(state, a, b),
        RowState::Terminal(_) => {},
    }
}

/// What stays of `done` and at most one open element when the first ones leave and the open one
/// is withdrawn.
proof fn staying_part<T>(done: Seq<T>, open: Seq<T>, from: int, outdated: int)
    requires
        open.len() <= 1,
        0 <= from,
        0 <= outdated,
        from + outdated <= done.len() + open.len(),
    ensures
        ({
            let rest = (done + open).skip(from).skip(outdated);
            let staying = if open.len() > 0 && rest.len() > 0 {
                rest.drop_last()
            } else {
                rest
            };
            staying == done.skip(min(from + outdated, done.len() as int))
        }),
{
}

/// The same on display, where elements leave at the start for two reasons.
proof fn shown_part<T>(done: Seq<T>, open: Seq<T>, made: Seq<T>, from: int, outdated: int, gone: int)
    requires
        open.len() <= 1,
        0 <= from,
        0 <= outdated,
        from + outdated <= done.len() + open.len(),
        ({
            let kept = min(from + outdated, done.len() as int);
            0 <= gone <= done.len() - kept + made.len()
        }),
    ensures
        ({
            let kept = min(from + outdated, done.len() as int);
            let staying = done.len() - kept;
            let shown = (done + open).skip(from);
            let rest = shown.skip(min(outdated + min(gone, staying), shown.len() as int));
            rest.take(max(rest.len() - open.len(), 0)) + made.skip(max(gone - staying, 0)) == (done
                + made).skip(kept + gone)
        }),
{
    let kept = min(from + outdated, done.len() as int);
    let staying = done.len() - kept;
    let shown = (done + open).skip(from);
    let rest = shown.skip(min(outdated + min(gone, staying), shown.len() as int));
    assert(rest.take(max(rest.len() - open.len(), 0)) == done.skip(kept + min(gone, staying)));
    assert(done.skip(kept + min(gone, staying)) + made.skip(max(gone - staying, 0)) == (done
        + made).skip(kept + gone));
}

proof fn row_lists_concat(a: Seq<EndedRow>, b: Seq<EndedRow>)
    ensures
        row_notes(a + b) == row_notes(a) + row_notes(b),
        plain_rows(a + b) == plain_rows(a) + plain_rows(b),
{
    assert(row_notes(a + b) == row_notes(a) + row_notes(b));
    assert(plain_rows(a + b) == plain_rows(a) + plain_rows(b));
}

/// The display always shows the last rows of the stream, exactly as formatting all of it in one
/// go gives them; as long as it is not limited and nothing has left the buffer, it shows all.
#[verifier::rlimit(60)]
pub proof fn display_follows_the_stream(
    view: DisplayView,
    shown: Seq<RowView>,
    fresh: DisplayView,
    a: Seq<ChunkView>,
    b: Seq<ChunkView>,
    from: int,
    cursor: ReceiveCursor,
    first: u64,
)
    requires
        shows_from(view, shown, fresh, a, from),
    ensures
        shows_from(
            view.applied(cursor, first, b),
            update_applied(shown, view.change(first, b)),
            fresh,
            a + b,
            left_out(view, fresh, a, b, from, first),
        ),
        from == 0 && view.outdated(first) == 0 && !view.applied(cursor, first, b).limited
            ==> left_out(view, fresh, a, b, from, first) == 0,
{
    let (state, done) = completed_rows(fresh, a);
    let open = open_row(state);
    let outdated = view.outdated(first);
    let open_count = if view.partial_visible {
        1int
    } else {
        0
    };
    evicted_bounds(view.notes, max(view.notes.len() - open_count, 0), first);
    row_lists_concat(done, open);
    assert(open.len() == open_count);
    if b.len() == 0 {
        assert(a + b == a);
        let rows = done + open;
        assert(row_notes(rows).skip(from).skip(outdated) == row_notes(rows).skip(from + outdated));
        assert(update_applied(shown, view.change(first, b)) == plain_rows(rows).skip(
            from + outdated,
        ));
    } else {
        completed_rows_concat(fresh, view, a, b);
        let (last, more) = completed_rows(view, b);
        let made = more + open_row(last);
        assert(done + more + open_row(last) == done + made);
        assert(rows_made(fresh, a + b) == (last, done + made));
        row_lists_concat(done, made);
        let kept = min(from + outdated, done.len() as int);
        let staying = view.staying(first, true);
        staying_part(row_notes(done), row_notes(open), from, outdated);
        assert(staying == row_notes(done).skip(kept));
        let all = staying + row_notes(made);
        let gone = excess(all, view.limits);
        excess_bounds(all, view.limits);
        assert((row_notes(done) + row_notes(made)).skip(kept) == all);
        assert(all.skip(gone) == (row_notes(done) + row_notes(made)).skip(kept + gone));
        shown_part(
            plain_rows(done),
            plain_rows(open),
            plain_rows(made),
            from,
            outdated,
            gone,
        );
    }
}

/// The bytes of the texts of rows.
pub open spec fn shown_bytes(rows: Seq<RowView>) -> nat
    decreases rows.len(),
{
    if rows.len() == 0 {
        0
    } else {
        shown_bytes(rows.drop_last()) + text_bytes(rows.last().text)
    }
}

pub proof fn notes_count_the_shown_bytes(rows: Seq<EndedRow>)
    ensures
        noted_bytes(row_notes(rows)) == shown_bytes(plain_rows(rows)),
    decreases rows.len(),
{
    if rows.len() > 0 {
        notes_count_the_shown_bytes(rows.drop_last());
        assert(row_notes(rows).drop_last() == row_notes(rows.drop_last()));
        assert(plain_rows(rows).drop_last() == plain_rows(rows.drop_last()));
    }
}

/// After chunks were added, the display holds no more rows and no more text than its limits
/// allow.
pub proof fn display_stays_within_its_limits(
    view: DisplayView,
    shown: Seq<RowView>,
    fresh: DisplayView,
    a: Seq<ChunkView>,
    b: Seq<ChunkView>,
    from: int,
    cursor: ReceiveCursor,
    first: u64,
)
    requires
        shows_from(view, shown, fresh, a, from),
        b.len() > 0,
    ensures
        update_applied(shown, view.change(first, b)).len() <= view.limits.max_rows,
        shown_bytes(update_applied(shown, view.change(first, b))) <= view.limits.max_text_bytes,
{
    display_follows_the_stream(view, shown, fresh, a, b, from, cursor, first);
    let rows = rows_made(fresh, a + b).1;
    let out = left_out(view, fresh, a, b, from, first);
    let after = view.applied(cursor, first, b);
    assert(row_notes(rows).skip(out) == row_notes(rows.skip(out)));
    assert(plain_rows(rows).skip(out) == plain_rows(rows.skip(out)));
    notes_count_the_shown_bytes(rows.skip(out));
    excess_bounds(view.staying(first, true) + row_notes(rows_made(view, b).1), view.limits);
}

proof fn bounded_line_fits(line: Seq<char>, max_line_bytes: usize)
    ensures
        text_bytes(bounded_line(line, line_bound(max_line_bytes))) <= line_bound(max_line_bytes),
{
    let bound = line_bound(max_line_bytes);
    let tail = tail_within(line, bound / 2);
    tail_within_fits(line, bound / 2);
    text_bytes_concat(seq!['…'], tail);
    assert(text_bytes(seq!['…']) == char_bytes('…')) by {
        reveal_with_fuel(text_bytes, 2);
    }
}

/// The texts of rows are within the limit of a line.
pub open spec fn lines_fit(rows: Seq<EndedRow>, max_line_bytes: usize) -> bool {
    forall|i: int|
        0 <= i < rows.len() ==> text_bytes((#[trigger] rows[i]).row.text) <= line_bound(
            max_line_bytes,
        )
}

/// With every chunk, the lines that end in it and the line that is then open are within the
/// limit of a line. Where one had to be cut for that, the formatter knows.
pub proof fn lines_stay_short(
    state: TextState,
    encoding: TextEncoding,
    max_line_bytes: usize,
    chunk: ChunkView,
)
    ensures
        ({
            let bound = line_bound(max_line_bytes);
            let (after, rows) = push_text_chunk(state, encoding, bound, chunk);
            let (line, whole) = split_chunk(state, encoding, chunk);
            &&& text_bytes(after.line.current) <= bound
            &&& forall|i: int|
                0 <= i < rows.len() ==> text_bytes((#[trigger] rows[i]).text) <= bound
            &&& after.line_limited || (after.line == line && rows == whole)
        }),
{
    let bound = line_bound(max_line_bytes);
    let (line, whole) = split_chunk(state, encoding, chunk);
    let (after, rows) = push_text_chunk(state, encoding, bound, chunk);
    bounded_line_fits(line.current, max_line_bytes);
    assert forall|i: int| 0 <= i < rows.len() implies text_bytes((#[trigger] rows[i]).text)
        <= bound by {
        bounded_line_fits(whole[i].text, max_line_bytes);
    }
    uncut_lines_stay(state, encoding, bound, chunk);
}

/// The open line after a chunk, and the lines that end in it, however long.
pub open spec fn split_chunk(state: TextState, encoding: TextEncoding, chunk: ChunkView) -> (
    LineState,
    Seq<RowView>,
) {
    let noted = if chunk.bytes.len() > 0 {
        note_input(state.line, chunk.received_at)
    } else {
        state.line
    };
    let text = added_text(encoding, state.input, chunk.bytes);
    push_text(noted, text, chunk.received_at, chunk.sequence)
}

/// All rows that a display of text makes are within the limit of a line.
pub proof fn displayed_lines_stay_short(view: DisplayView, chunks: Seq<ChunkView>)
    requires
        view.state is Text,
        chunks.len() > 0 || lines_fit(open_row(view.state), view.limits.max_line_bytes),
    ensures
        lines_fit(rows_made(view, chunks).1, view.limits.max_line_bytes),
{
    let max_line_bytes = view.limits.max_line_bytes;
    let state = view.state->Text_0;
    if chunks.len() == 0 && state.line.current.len() > 0 {
        assert(open_row(view.state)[0].row.text == state.line.current);
    }
    short_lines_so_far(state, view.encoding, max_line_bytes, chunks);
}

proof fn short_lines_so_far(
    state: TextState,
    encoding: TextEncoding,
    max_line_bytes: usize,
    chunks: Seq<ChunkView>,
)
    ensures
        ({
            let bound = line_bound(max_line_bytes);
            let (after, rows) = push_text_chunks(state, encoding, bound, chunks);
            &&& chunks.len() > 0 ==> text_bytes(after.line.current) <= bound
            &&& lines_fit(rows, max_line_bytes)
        }),
    decreases chunks.len(),
{
    let bound = line_bound(max_line_bytes);
    if chunks.len() > 0 {
        short_lines_so_far(state, encoding, max_line_bytes, chunks.drop_last());
        let (before, rows) = push_text_chunks(state, encoding, bound, chunks.drop_last());
        lines_stay_short(before, encoding, max_line_bytes, chunks.last());
    }
}

proof fn uncut_lines_stay(
    state: TextState,
    encoding: TextEncoding,
    bound: nat,
    chunk: ChunkView,
)
    ensures
        ({
            let (after, rows) = push_text_chunk(state, encoding, bound, chunk);
            after.line_limited || (after.line, rows) == split_chunk(state, encoding, chunk)
        }),
{
    let (line, whole) = split_chunk(state, encoding, chunk);
    let (after, rows) = push_text_chunk(state, encoding, bound, chunk);
    if !after.line_limited {
        assert(forall|i: int| 0 <= i < whole.len() ==> text_bytes((#[trigger] whole[i]).text)
            <= bound);
        assert(rows == whole);
    }
}

/// As long as no line had to be cut, the display splits text into the lines that complete
/// formatting gives.
proof fn uncut_lines_are_complete(encoding: TextEncoding, bound: nat, chunks: Seq<ChunkView>)
    requires
        !push_text_chunks(fresh_text(), encoding, bound, chunks).0.line_limited,
    ensures
        ({
            let (state, rows) = push_text_chunks(fresh_text(), encoding, bound, chunks);
            &&& state.input == joined_bytes(chunks)
            &&& (state.line, plain_rows(rows)) == split_chunks(encoding, chunks)
        }),
    decreases chunks.len(),
{
    if chunks.len() == 0 {
        assert(plain_rows(Seq::empty()) == Seq::<RowView>::empty());
    } else {
        let (before, rows) = push_text_chunks(fresh_text(), encoding, bound, chunks.drop_last());
        let more = push_text_chunk(before, encoding, bound, chunks.last()).1;
        assert(!before.line_limited);
        uncut_lines_stay(before, encoding, bound, chunks.last());
        uncut_lines_are_complete(encoding, bound, chunks.drop_last());
        assert(plain_rows(rows + ended_in(more, chunks.last().sequence)) == plain_rows(rows)
            + more);
    }
}

/// Showing a stream of text piece by piece gives the rows of complete formatting, as long as no
/// line had to be cut and the stream does not end within a character.
pub proof fn display_matches_complete_text(fresh: DisplayView, chunks: Seq<ChunkView>)
    requires
        fresh.state == RowState::Text(fresh_text()),
        !cut_a_line(completed_rows(fresh, chunks).0),
        closing_text(fresh.encoding, joined_bytes(chunks)).len() == 0,
    ensures
        plain_rows(rows_made(fresh, chunks).1) == text_lines(fresh.encoding, chunks),
{
    let bound = line_bound(fresh.limits.max_line_bytes);
    uncut_lines_are_complete(fresh.encoding, bound, chunks);
    let (state, rows) = push_text_chunks(fresh_text(), fresh.encoding, bound, chunks);
    assert(plain_rows(rows + partial_row(state.line)) == plain_rows(rows) + plain_rows(
        partial_row(state.line),
    ));
    assert(split_chunks(fresh.encoding, chunks).1 + Seq::<RowView>::empty() == split_chunks(
        fresh.encoding,
        chunks,
    ).1);
    assert(closing_text(fresh.encoding, joined_bytes(chunks)) == Seq::<char>::empty());
}

/// Showing a stream as HEX piece by piece gives the rows of complete formatting.
pub proof fn display_matches_complete_hex(fresh: DisplayView, skipped: nat, chunks: Seq<ChunkView>)
    requires
        fresh.state == RowState::Hex(fresh_hex(skipped)),
    ensures
        plain_rows(rows_made(fresh, chunks).1) == hex_rows(skipped, chunks),
{
}

/// The HEX texts of a row of bytes, of which the first row takes `capacity` bytes.
pub open spec fn hex_texts(capacity: nat, bytes: Seq<u8>) -> Seq<Seq<char>>
    decreases bytes.len(),
{
    if bytes.len() == 0 {
        Seq::empty()
    } else if bytes.len() <= capacity || capacity == 0 {
        seq![hex_text(bytes)]
    } else {
        seq![hex_text(bytes.take(capacity as int))] + hex_texts(16, bytes.skip(capacity as int))
    }
}

/// The texts of rows.
pub open spec fn texts_of(rows: Seq<RowView>) -> Seq<Seq<char>> {
    Seq::new(rows.len(), |i: int| rows[i].text)
}

/// The last of `len` bytes are a row, or the start of one, that begins at `open`.
spec fn last_row_begins(capacity: int, open: int, len: int) -> bool {
    ||| open == 0 && 0 < len <= capacity
    ||| open >= capacity && (open - capacity) % 16 == 0 && 0 < len - open <= 16
}

proof fn hex_texts_push_row(capacity: nat, bytes: Seq<u8>, open: int)
    requires
        1 <= capacity <= 16,
        last_row_begins(capacity as int, open, bytes.len() as int),
    ensures
        hex_texts(capacity, bytes) == hex_texts(capacity, bytes.take(open)).push(
            hex_text(bytes.skip(open)),
        ),
    decreases bytes.len(),
{
    let c = capacity as int;
    if open == 0 {
        assert(bytes.take(0) == Seq::<u8>::empty());
        assert(bytes.skip(0) == bytes);
        assert(hex_texts(capacity, bytes) == Seq::<Seq<char>>::empty().push(hex_text(bytes)));
    } else {
        let rest = bytes.skip(c);
        let first = hex_text(bytes.take(c));
        assert(last_row_begins(16, open - c, rest.len() as int));
        hex_texts_push_row(16, rest, open - c);
        assert(rest.skip(open - c) == bytes.skip(open));
        assert(bytes.take(open).take(c) == bytes.take(c));
        assert(bytes.take(open).skip(c) == rest.take(open - c));
        let before = hex_texts(16, rest.take(open - c));
        if open == c {
            assert(bytes.take(open) == bytes.take(c));
            assert(rest.take(0) == Seq::<u8>::empty());
            assert(hex_texts(capacity, bytes.take(open)) == seq![first]);
        }
        assert(hex_texts(capacity, bytes.take(open)) == seq![first] + before);
        assert(seq![first] + before.push(hex_text(bytes.skip(open))) == (seq![first]
            + before).push(hex_text(bytes.skip(open))));
    }
}

/// The open row and the texts of the complete ones, from the bytes of the stream alone.
spec fn is_cut_into_rows(
    capacity: nat,
    bytes: Seq<u8>,
    state: HexState,
    texts: Seq<Seq<char>>,
) -> bool {
    let open = bytes.len() - state.current.len();
    &&& state.current.len() <= bytes.len()
    &&& state.current.len() < state.capacity
    &&& state.current == bytes.skip(open)
    &&& texts == hex_texts(capacity, bytes.take(open))
    &&& if open == 0 {
        state.capacity == capacity
    } else {
        open >= capacity && (open - capacity) % 16 == 0 && state.capacity == 16
    }
}

proof fn bytes_are_cut_into_rows(
    capacity: nat,
    before: Seq<u8>,
    state: HexState,
    rows: Seq<RowView>,
    bytes: Seq<u8>,
    chunk: ChunkView,
)
    requires
        1 <= capacity <= 16,
        is_cut_into_rows(capacity, before, state, texts_of(rows)),
    ensures
        ({
            let (after, more) = push_bytes(state, bytes, chunk.received_at, chunk.sequence);
            is_cut_into_rows(capacity, before + bytes, after, texts_of(rows + more))
        }),
    decreases bytes.len(),
{
    if bytes.len() == 0 {
        assert(before + bytes == before);
        assert(rows + Seq::<RowView>::empty() == rows);
    } else {
        let (at, sequence) = (chunk.received_at, chunk.sequence);
        bytes_are_cut_into_rows(capacity, before, state, rows, bytes.drop_last(), chunk);
        let (mid, some) = push_bytes(state, bytes.drop_last(), at, sequence);
        let (after, row) = push_byte(mid, bytes.last(), at, sequence);
        let read = before + bytes.drop_last();
        let all = before + bytes;
        assert(all == read.push(bytes.last()));
        let open = read.len() - mid.current.len();
        assert(all.skip(open) == mid.current.push(bytes.last()));
        assert(all.take(open) == read.take(open));
        if let Some(row) = row {
            assert(last_row_begins(capacity as int, open, all.len() as int));
            hex_texts_push_row(capacity, all, open);
            assert(all.take(all.len() as int) == all);
            assert(all.skip(all.len() as int) == Seq::<u8>::empty());
            assert(rows + some.push(row) == (rows + some).push(row));
            assert(texts_of((rows + some).push(row)) == texts_of(rows + some).push(row.text));
        }
    }
}

proof fn chunks_are_cut_into_rows(skipped: nat, chunks: Seq<ChunkView>)
    ensures
        ({
            let (state, rows) = push_hex_chunks(fresh_hex(skipped), chunks);
            is_cut_into_rows(
                first_row_capacity(skipped),
                joined_bytes(chunks),
                state,
                texts_of(plain_rows(rows)),
            )
        }),
    decreases chunks.len(),
{
    let capacity = first_row_capacity(skipped);
    if chunks.len() == 0 {
        assert(joined_bytes(chunks).take(0) == Seq::<u8>::empty());
        assert(joined_bytes(chunks).skip(0) == Seq::<u8>::empty());
        assert(texts_of(plain_rows(Seq::empty())) == Seq::<Seq<char>>::empty());
    } else {
        let last = chunks.last();
        let (state, rows) = push_hex_chunks(fresh_hex(skipped), chunks.drop_last());
        chunks_are_cut_into_rows(skipped, chunks.drop_last());
        bytes_are_cut_into_rows(
            capacity,
            joined_bytes(chunks.drop_last()),
            state,
            plain_rows(rows),
            last.bytes,
            last,
        );
        let more = push_bytes(state, last.bytes, last.received_at, last.sequence).1;
        assert(plain_rows(rows + ended_in(more, last.sequence)) == plain_rows(rows) + more);
    }
}

/// HEX rows hold sixteen bytes each, counted from the start of the stream: which chunks the
/// bytes came in makes no difference.
pub proof fn hex_rows_ignore_chunk_boundaries(skipped: nat, chunks: Seq<ChunkView>)
    ensures
        texts_of(hex_rows(skipped, chunks)) == hex_texts(
            first_row_capacity(skipped),
            joined_bytes(chunks),
        ),
{
    let (state, rows) = push_hex_chunks(fresh_hex(skipped), chunks);
    let bytes = joined_bytes(chunks);
    let capacity = first_row_capacity(skipped);
    chunks_are_cut_into_rows(skipped, chunks);
    row_lists_concat(rows, partial_hex_row(state));
    let open = bytes.len() - state.current.len();
    if state.current.len() == 0 {
        assert(bytes.take(open) == bytes);
        assert(texts_of(hex_rows(skipped, chunks)) == texts_of(plain_rows(rows)));
    } else {
        assert(last_row_begins(capacity as int, open, bytes.len() as int));
        hex_texts_push_row(capacity, bytes, open);
        assert(texts_of(hex_rows(skipped, chunks)) == texts_of(plain_rows(rows)).push(
            hex_text(state.current),
        ));
    }
}

/// When each byte of some chunks arrived.
pub open spec fn arrival_times(chunks: Seq<ChunkView>) -> Seq<Timestamp>
    decreases chunks.len(),
{
    if chunks.len() == 0 {
        Seq::empty()
    } else {
        let last = chunks.last();
        arrival_times(chunks.drop_last()) + Seq::new(last.bytes.len(), |i: int| last.received_at)
    }
}

/// Where a HEX row begins, if the first one has room for `capacity` bytes.
pub open spec fn row_start(capacity: nat, row: int) -> int {
    if row == 0 {
        0
    } else {
        capacity + HEX_BYTES_PER_ROW * (row - 1)
    }
}

/// Rows, and the open one after them, have the times of their first bytes.
spec fn rows_are_timed(
    capacity: nat,
    times: Seq<Timestamp>,
    state: HexState,
    rows: Seq<RowView>,
) -> bool {
    let start = row_start(capacity, rows.len() as int);
    &&& start + state.current.len() == times.len()
    &&& state.current.len() < state.capacity
    &&& state.capacity == if rows.len() == 0 {
        capacity
    } else {
        HEX_BYTES_PER_ROW as nat
    }
    &&& state.current.len() > 0 ==> state.started_at == Some(times[start])
    &&& forall|i: int|
        0 <= i < rows.len() ==> row_start(capacity, i) < times.len() && (
        #[trigger] rows[i]).received_at == times[row_start(capacity, i)]
}

proof fn bytes_are_timed(
    capacity: nat,
    times: Seq<Timestamp>,
    state: HexState,
    rows: Seq<RowView>,
    bytes: Seq<u8>,
    at: Timestamp,
    sequence: u64,
)
    requires
        rows_are_timed(capacity, times, state, rows),
    ensures
        ({
            let (after, more) = push_bytes(state, bytes, at, sequence);
            rows_are_timed(capacity, times + Seq::new(bytes.len(), |i: int| at), after, rows + more)
        }),
    decreases bytes.len(),
{
    let all = times + Seq::new(bytes.len(), |i: int| at);
    let (after, more) = push_bytes(state, bytes, at, sequence);
    if bytes.len() == 0 {
        assert(all == times);
        assert(rows + more == rows);
    } else {
        let (before, some) = push_bytes(state, bytes.drop_last(), at, sequence);
        let earlier = times + Seq::new(bytes.drop_last().len(), |i: int| at);
        bytes_are_timed(capacity, times, state, rows, bytes.drop_last(), at, sequence);
        assert(all == earlier.push(at));
        match push_byte(before, bytes.last(), at, sequence).1 {
            Some(row) => {
                assert(rows + more == (rows + some).push(row));
            },
            None => {
                assert(rows + more == rows + some);
            },
        }
    }
}

proof fn chunks_are_timed(skipped: nat, chunks: Seq<ChunkView>)
    ensures
        ({
            let (state, rows) = push_hex_chunks(fresh_hex(skipped), chunks);
            rows_are_timed(
                first_row_capacity(skipped),
                arrival_times(chunks),
                state,
                plain_rows(rows),
            )
        }),
    decreases chunks.len(),
{
    if chunks.len() > 0 {
        let last = chunks.last();
        let (state, rows) = push_hex_chunks(fresh_hex(skipped), chunks.drop_last());
        let more = push_bytes(state, last.bytes, last.received_at, last.sequence).1;
        chunks_are_timed(skipped, chunks.drop_last());
        bytes_are_timed(
            first_row_capacity(skipped),
            arrival_times(chunks.drop_last()),
            state,
            plain_rows(rows),
            last.bytes,
            last.received_at,
            last.sequence,
        );
        assert(plain_rows(rows + ended_in(more, last.sequence)) == plain_rows(rows) + more);
    }
}

proof fn one_time_for_each_byte(chunks: Seq<ChunkView>)
    ensures
        arrival_times(chunks).len() == joined_bytes(chunks).len(),
    decreases chunks.len(),
{
    if chunks.len() > 0 {
        one_time_for_each_byte(chunks.drop_last());
    }
}

/// The time of a HEX row is that of the chunk that holds the row's first byte.
pub proof fn hex_rows_have_the_time_of_their_first_byte(skipped: nat, chunks: Seq<ChunkView>)
    ensures
        arrival_times(chunks).len() == joined_bytes(chunks).len(),
        forall|i: int|
            0 <= i < hex_rows(skipped, chunks).len() ==> row_start(first_row_capacity(skipped), i)
                < joined_bytes(chunks).len() && (#[trigger] hex_rows(
                skipped,
                chunks,
            )[i]).received_at == arrival_times(chunks)[row_start(first_row_capacity(skipped), i)],
{
    let (state, rows) = push_hex_chunks(fresh_hex(skipped), chunks);
    chunks_are_timed(skipped, chunks);
    row_lists_concat(rows, partial_hex_row(state));
    one_time_for_each_byte(chunks);
}

} // verus!
