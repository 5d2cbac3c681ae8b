//! A display over time: made once, then changed with everything that arrives.

use vstd::prelude::*;

use crate::chars::text_bytes;
use crate::encoding::added_text;
use crate::formatting::display::{
    cut_a_line, excess, excess_bounds, excess_of_fewer, followed, rebuilt, row_notes, rows_made,
    DisplayFormatter, DisplayLimits, DisplayView, RowNote, RowState,
};
use crate::formatting::hex::{fresh_hex, push_bytes, push_hex_chunks, HexState};
use crate::formatting::laws::{
    display_follows_the_stream, displayed_lines_stay_short, evicted_bounds, left_out,
    notes_count_the_shown_bytes, shown_bytes, shows_from,
};
use crate::formatting::rows::{plain_rows, EndedRow, RowView};
use crate::formatting::text::{
    fresh_text, line_bound, note_input, push_text, push_text_chunks, LineState, TextState,
};
use crate::model::{ReceiveMode, TextEncoding};
use crate::store::{
    chunk_views, newest_within, numbered_from, snapshot_and_delta_make_up_the_buffer, total_bytes,
    ChunkView, ReceiveCursor, ReceiveSnapshot, StoreView,
};
use crate::terminal::formatter::{update_applied, UpdateView};
use crate::terminal::screen::max;
use crate::timestamp::Timestamp;

verus! {

/// What one update of the display takes in: `cursor` is where the stream goes on, `first` is the
/// oldest chunk in the buffer.
pub struct DisplayStep {
    pub cursor: ReceiveCursor,
    pub first: u64,
    pub chunks: Seq<ChunkView>,
}

/// The formatter and the rows on display after a row of updates.
pub open spec fn display_after(start: DisplayView, steps: Seq<DisplayStep>) -> (
    DisplayView,
    Seq<RowView>,
)
    decreases steps.len(),
{
    if steps.len() == 0 {
        (start, Seq::empty())
    } else {
        let step = steps.last();
        let (view, shown) = display_after(start, steps.drop_last());
        (
            view.applied(step.cursor, step.first, step.chunks),
            update_applied(shown, view.change(step.first, step.chunks)),
        )
    }
}

/// All chunks that a row of updates takes in.
pub open spec fn all_chunks(steps: Seq<DisplayStep>) -> Seq<ChunkView>
    decreases steps.len(),
{
    if steps.len() == 0 {
        Seq::empty()
    } else {
        all_chunks(steps.drop_last()) + steps.last().chunks
    }
}

/// A formatter in the text or HEX mode before its first chunk.
pub open spec fn is_fresh(view: DisplayView) -> bool {
    &&& view.notes.len() == 0
    &&& !view.partial_visible
    &&& match view.state {
        RowState::Text(state) => state == fresh_text(),
        RowState::Hex(state) => exists|skipped: nat| state == #[trigger] fresh_hex(skipped),
        RowState::Terminal(_) => false,
    }
}

/// What holds of a display at all times.
spec fn kept_in_bounds(
    view: DisplayView,
    shown: Seq<RowView>,
    start: DisplayView,
    chunks: Seq<ChunkView>,
    from: int,
) -> bool {
    &&& shows_from(view, shown, start, chunks, from)
    &&& excess(view.notes, view.limits) == 0
    &&& cut_a_line(view.state) ==> view.limited
    &&& start.limited ==> view.limited
}

proof fn bounds_are_kept(start: DisplayView, steps: Seq<DisplayStep>) -> (from: int)
    requires
        is_fresh(start),
    ensures
        ({
            let (view, shown) = display_after(start, steps);
            kept_in_bounds(view, shown, start, all_chunks(steps), from)
        }),
    decreases steps.len(),
{
    if steps.len() == 0 {
        assert(rows_made(start, Seq::empty()).1 == Seq::<EndedRow>::empty());
        assert(plain_rows(Seq::empty()).skip(0) == Seq::<RowView>::empty());
        assert(row_notes(Seq::empty()).skip(0) == Seq::<RowNote>::empty());
        assert(start.notes == Seq::<RowNote>::empty());
        0
    } else {
        let step = steps.last();
        let before = bounds_are_kept(start, steps.drop_last());
        let (view, shown) = display_after(start, steps.drop_last());
        let chunks = all_chunks(steps.drop_last());
        bounds_are_kept_by_an_update(view, shown, start, chunks, before, step);
        left_out(view, start, chunks, step.chunks, before, step.first)
    }
}

proof fn bounds_are_kept_by_an_update(
    view: DisplayView,
    shown: Seq<RowView>,
    start: DisplayView,
    chunks: Seq<ChunkView>,
    from: int,
    step: DisplayStep,
)
    requires
        kept_in_bounds(view, shown, start, chunks, from),
    ensures
        kept_in_bounds(
            view.applied(step.cursor, step.first, step.chunks),
            update_applied(shown, view.change(step.first, step.chunks)),
            start,
            chunks + step.chunks,
            left_out(view, start, chunks, step.chunks, from, step.first),
        ),
{
    display_follows_the_stream(
        view,
        shown,
        start,
        chunks,
        step.chunks,
        from,
        step.cursor,
        step.first,
    );
    let after = view.applied(step.cursor, step.first, step.chunks);
    if step.chunks.len() == 0 {
        let rows = rows_made(start, chunks).1;
        let out = left_out(view, start, chunks, step.chunks, from, step.first);
        assert(chunks + step.chunks == chunks);
        assert(row_notes(rows).skip(from).skip(view.outdated(step.first)) == after.notes);
        let open = if view.partial_visible {
            1int
        } else {
            0
        };
        evicted_bounds(view.notes, max(view.notes.len() - open, 0), step.first);
        excess_of_fewer(view.notes, view.outdated(step.first), view.limits);
    } else {
        let all = view.staying(step.first, true) + row_notes(rows_made(view, step.chunks).1);
        excess_bounds(all, view.limits);
        excess_is_over(all, view.limits);
    }
}

/// Once the excess has left, there is none.
proof fn excess_is_over(notes: Seq<RowNote>, limits: DisplayLimits)
    ensures
        excess(notes.skip(excess(notes, limits)), limits) == 0,
{
    excess_bounds(notes, limits);
}

/// However often a display is changed, it holds no more rows and no more text than its limits
/// allow, they are the most recent rows of all that came in, and no line of text is longer than
/// a line may be.
pub proof fn every_display_is_within_its_limits(start: DisplayView, steps: Seq<DisplayStep>)
    requires
        is_fresh(start),
    ensures
        ({
            let (view, shown) = display_after(start, steps);
            let rows = plain_rows(rows_made(start, all_chunks(steps)).1);
            &&& shown.len() <= start.limits.max_rows
            &&& shown_bytes(shown) <= start.limits.max_text_bytes
            &&& shown.len() <= rows.len()
            &&& shown == rows.skip(rows.len() - shown.len())
            &&& start.state is Text ==> forall|i: int|
                0 <= i < shown.len() ==> text_bytes((#[trigger] shown[i]).text) <= line_bound(
                    start.limits.max_line_bytes,
                )
        }),
{
    let from = bounds_are_kept(start, steps);
    let (view, shown) = display_after(start, steps);
    let chunks = all_chunks(steps);
    let rows = rows_made(start, chunks).1;
    assert(row_notes(rows).skip(from) == row_notes(rows.skip(from)));
    assert(plain_rows(rows).skip(from) == plain_rows(rows.skip(from)));
    notes_count_the_shown_bytes(rows.skip(from));
    excess_bounds(view.notes, view.limits);
    assert(view.notes.skip(0) == view.notes);
    if start.state is Text {
        displayed_lines_stay_short(start, chunks);
        assert forall|i: int| 0 <= i < shown.len() implies text_bytes((#[trigger] shown[i]).text)
            <= line_bound(start.limits.max_line_bytes) by {
            assert(shown[i] == rows[from + i].row);
        }
    }
}

/// A formatter for a snapshot, before its first chunk. The modes are those that show rows of text
/// or HEX.
pub open spec fn begun_from(
    snapshot: ReceiveSnapshot,
    mode: ReceiveMode,
    encoding: TextEncoding,
    limits: DisplayLimits,
) -> DisplayView {
    DisplayView {
        mode,
        encoding,
        cursor: snapshot_end(snapshot),
        notes: Seq::empty(),
        partial_visible: false,
        limited: snapshot.omitted_bytes != 0,
        limits,
        state: if mode == ReceiveMode::Text {
            RowState::Text(fresh_text())
        } else {
            RowState::Hex(fresh_hex((snapshot.dropped_bytes + snapshot.omitted_bytes) as nat))
        },
    }
}

pub open spec fn snapshot_end(snapshot: ReceiveSnapshot) -> ReceiveCursor {
    ReceiveCursor { stream_id: snapshot.stream_id, next_sequence: snapshot.next_sequence }
}

/// What `DisplayFormatter::rebuild_with_limits` makes of a snapshot is a display after its first
/// update.
pub proof fn rebuilding_is_the_first_update(
    snapshot: ReceiveSnapshot,
    formatter: DisplayFormatter,
    rows: Seq<RowView>,
    mode: ReceiveMode,
    encoding: TextEncoding,
    limits: DisplayLimits,
)
    requires
        mode != ReceiveMode::Terminal,
        rebuilt(formatter, rows, snapshot, mode, encoding, limits),
    ensures
        ({
            let start = begun_from(snapshot, mode, encoding, limits);
            let step = DisplayStep {
                cursor: snapshot_end(snapshot),
                first: snapshot.first_sequence,
                chunks: chunk_views(snapshot.chunks@),
            };
            &&& is_fresh(start)
            &&& display_after(start, seq![step]) == (formatter.inner(), rows)
        }),
{
    let start = begun_from(snapshot, mode, encoding, limits);
    let chunks = chunk_views(snapshot.chunks@);
    let step = DisplayStep {
        cursor: snapshot_end(snapshot),
        first: snapshot.first_sequence,
        chunks,
    };
    if mode != ReceiveMode::Text {
        let skipped = (snapshot.dropped_bytes + snapshot.omitted_bytes) as nat;
        assert(start.state == RowState::Hex(fresh_hex(skipped)));
    }
    assert(seq![step].drop_last() == Seq::<DisplayStep>::empty());
    assert(display_after(start, Seq::empty()) == (start, Seq::<RowView>::empty()));
    let change = start.change(step.first, chunks);
    assert(start.outdated(step.first) == 0);
    assert(start.staying(step.first, true) == Seq::<RowNote>::empty());
    if chunks.len() > 0 {
        let made = row_notes(rows_made(start, chunks).1);
        excess_bounds(Seq::<RowNote>::empty() + made, limits);
    }
    assert(update_applied(Seq::empty(), change) == change.rows);
}

/// What `DisplayFormatter::apply_delta` does is one more update of the display.
pub proof fn applying_a_delta_is_one_more_update(
    start: DisplayView,
    steps: Seq<DisplayStep>,
    step: DisplayStep,
    before: DisplayFormatter,
    after: DisplayFormatter,
    shown: Seq<RowView>,
    update: UpdateView,
)
    requires
        display_after(start, steps) == (before.inner(), shown),
        before.inner().state !is Terminal,
        followed(before, after, step.cursor, step.first, step.chunks, update),
    ensures
        display_after(start, steps.push(step)) == (after.inner(), update_applied(shown, update)),
{
    reveal(followed);
    assert(steps.push(step).drop_last() == steps);
}

/// Once a display is limited, it stays so.
pub proof fn limited_displays_stay_limited(start: DisplayView, steps: Seq<DisplayStep>, n: int)
    requires
        0 <= n <= steps.len(),
    ensures
        display_after(start, steps.take(n)).0.limited ==> display_after(start, steps).0.limited,
    decreases steps.len(),
{
    if n == steps.len() {
        assert(steps.take(n) == steps);
    } else {
        assert(steps.drop_last().take(n) == steps.take(n));
        limited_displays_stay_limited(start, steps.drop_last(), n);
    }
}

impl StoreView {
    /// Where a reader stands that has seen the whole buffer.
    pub open spec fn end(self) -> ReceiveCursor {
        ReceiveCursor { stream_id: self.stream_id, next_sequence: self.next_sequence }
    }

    /// What a reader has not seen yet.
    pub open spec fn unread(self, cursor: ReceiveCursor) -> Seq<ChunkView> {
        self.chunks.skip(self.position_of(cursor)->0)
    }
}

/// A formatter for what is in the buffer, before its first chunk. The modes are those that show
/// rows of text or HEX.
pub open spec fn begun_display(
    store: StoreView,
    mode: ReceiveMode,
    encoding: TextEncoding,
    limits: DisplayLimits,
) -> DisplayView {
    DisplayView {
        mode,
        encoding,
        cursor: store.end(),
        notes: Seq::empty(),
        partial_visible: false,
        limited: false,
        limits,
        state: if mode == ReceiveMode::Text {
            RowState::Text(fresh_text())
        } else {
            RowState::Hex(fresh_hex(store.dropped_bytes as nat))
        },
    }
}

/// A display that is made from the whole buffer, and its rows.
pub open spec fn made_display(
    store: StoreView,
    mode: ReceiveMode,
    encoding: TextEncoding,
    limits: DisplayLimits,
) -> (DisplayView, Seq<RowView>) {
    let start = begun_display(store, mode, encoding, limits);
    (
        start.applied(store.end(), store.first_sequence(), store.chunks),
        start.change(store.first_sequence(), store.chunks).rows,
    )
}

/// A display and its rows after an update with what they have not shown yet of the buffer.
pub open spec fn followed_display(display: (DisplayView, Seq<RowView>), store: StoreView) -> (
    DisplayView,
    Seq<RowView>,
) {
    let (view, shown) = display;
    let unread = store.unread(view.cursor);
    (
        view.applied(store.end(), store.first_sequence(), unread),
        update_applied(shown, view.change(store.first_sequence(), unread)),
    )
}

/// Bytes that arrive together.
pub struct Arrival {
    pub received_at: Timestamp,
    pub bytes: Seq<u8>,
}

/// The buffer after arrivals.
pub open spec fn store_after(store: StoreView, arrivals: Seq<Arrival>) -> StoreView
    decreases arrivals.len(),
{
    if arrivals.len() == 0 {
        store
    } else {
        store_after(store, arrivals.drop_last()).appended(
            arrivals.last().received_at,
            arrivals.last().bytes,
        )
    }
}

/// A display that is made from the buffer and then follows it, with an update after each arrival.
pub open spec fn followed_arrivals(
    store: StoreView,
    mode: ReceiveMode,
    encoding: TextEncoding,
    limits: DisplayLimits,
    arrivals: Seq<Arrival>,
) -> (DisplayView, Seq<RowView>)
    decreases arrivals.len(),
{
    if arrivals.len() == 0 {
        made_display(store, mode, encoding, limits)
    } else {
        followed_display(
            followed_arrivals(store, mode, encoding, limits, arrivals.drop_last()),
            store_after(store, arrivals),
        )
    }
}

/// The bytes of all arrivals.
pub open spec fn arrived_bytes(arrivals: Seq<Arrival>) -> nat
    decreases arrivals.len(),
{
    if arrivals.len() == 0 {
        0
    } else {
        arrived_bytes(arrivals.drop_last()) + arrivals.last().bytes.len()
    }
}

/// The chunks are numbered one after the other, and the numbers have not started over.
pub open spec fn numbers_ascend(store: StoreView) -> bool {
    &&& numbered_from(store.chunks, store.first_sequence())
    &&& store.first_sequence() + store.chunks.len() == store.next_sequence
}

/// What `DisplayFormatter::rebuild_with_limits` makes of a snapshot of the whole buffer is the
/// display that is made from the buffer.
pub proof fn rebuilding_makes_the_display(
    store: StoreView,
    snapshot: ReceiveSnapshot,
    formatter: DisplayFormatter,
    rows: Seq<RowView>,
    mode: ReceiveMode,
    encoding: TextEncoding,
    limits: DisplayLimits,
)
    requires
        mode != ReceiveMode::Terminal,
        total_bytes(store.chunks) <= usize::MAX,
        store.is_tail(snapshot, total_bytes(store.chunks)),
        rebuilt(formatter, rows, snapshot, mode, encoding, limits),
    ensures
        (formatter.inner(), rows) == made_display(store, mode, encoding, limits),
{
    let start = begun_display(store, mode, encoding, limits);
    assert((snapshot.dropped_bytes + snapshot.omitted_bytes) as nat == store.dropped_bytes as nat);
    assert(start.state == if mode == ReceiveMode::Text {
        RowState::Text(fresh_text())
    } else {
        RowState::Hex(fresh_hex((snapshot.dropped_bytes + snapshot.omitted_bytes) as nat))
    });
}

/// What `DisplayFormatter::apply_delta` does with all that the formatter has not seen yet is the
/// update of the display.
pub proof fn applying_a_delta_follows_the_store(
    store: StoreView,
    before: DisplayFormatter,
    after: DisplayFormatter,
    shown: Seq<RowView>,
    update: UpdateView,
)
    requires
        before.inner().state !is Terminal,
        store.position_of(before.inner().cursor) is Some,
        followed(
            before,
            after,
            store.end(),
            store.first_sequence(),
            store.unread(before.inner().cursor),
            update,
        ),
    ensures
        (after.inner(), update_applied(shown, update)) == followed_display(
            (before.inner(), shown),
            store,
        ),
{
    reveal(followed);
}

/// All rows end in chunks from `first` on.
spec fn rows_end_from(rows: Seq<EndedRow>, first: u64) -> bool {
    forall|i: int| 0 <= i < rows.len() ==> (#[trigger] rows[i]).end_sequence >= first
}

spec fn chunks_from(chunks: Seq<ChunkView>, first: u64) -> bool {
    forall|i: int| 0 <= i < chunks.len() ==> (#[trigger] chunks[i]).sequence >= first
}

spec fn line_ends_from(line: LineState, first: u64) -> bool {
    line.current.len() > 0 ==> line.end_sequence is Some && line.end_sequence->0 >= first
}

spec fn hex_ends_from(state: HexState, first: u64) -> bool {
    state.current.len() > 0 ==> state.end_sequence is Some && state.end_sequence->0 >= first
}

proof fn text_ends_from(line: LineState, text: Seq<char>, at: Timestamp, sequence: u64, first: u64)
    requires
        line_ends_from(line, first),
        sequence >= first,
    ensures
        line_ends_from(push_text(line, text, at, sequence).0, first),
    decreases text.len(),
{
    if text.len() > 0 {
        text_ends_from(line, text.drop_last(), at, sequence, first);
    }
}

proof fn text_rows_end_from(
    encoding: TextEncoding,
    bound: nat,
    chunks: Seq<ChunkView>,
    first: u64,
)
    requires
        chunks_from(chunks, first),
    ensures
        ({
            let (state, rows) = push_text_chunks(fresh_text(), encoding, bound, chunks);
            line_ends_from(state.line, first) && rows_end_from(rows, first)
        }),
    decreases chunks.len(),
{
    if chunks.len() > 0 {
        let last = chunks.last();
        text_rows_end_from(encoding, bound, chunks.drop_last(), first);
        let before = push_text_chunks(fresh_text(), encoding, bound, chunks.drop_last()).0;
        let (noted, text) = chunk_text(before, encoding, last);
        text_ends_from(noted, text, last.received_at, last.sequence, first);
    }
}

/// The open line and the text that a chunk adds to it.
spec fn chunk_text(state: TextState, encoding: TextEncoding, chunk: ChunkView) -> (
    LineState,
    Seq<char>,
) {
    (
        if chunk.bytes.len() > 0 {
            note_input(state.line, chunk.received_at)
        } else {
            state.line
        },
        added_text(encoding, state.input, chunk.bytes),
    )
}

proof fn bytes_end_from(state: HexState, bytes: Seq<u8>, at: Timestamp, sequence: u64, first: u64)
    requires
        hex_ends_from(state, first),
        sequence >= first,
    ensures
        hex_ends_from(push_bytes(state, bytes, at, sequence).0, first),
    decreases bytes.len(),
{
    if bytes.len() > 0 {
        bytes_end_from(state, bytes.drop_last(), at, sequence, first);
    }
}

proof fn hex_rows_end_from(skipped: nat, chunks: Seq<ChunkView>, first: u64)
    requires
        chunks_from(chunks, first),
    ensures
        ({
            let (state, rows) = push_hex_chunks(fresh_hex(skipped), chunks);
            hex_ends_from(state, first) && rows_end_from(rows, first)
        }),
    decreases chunks.len(),
{
    if chunks.len() > 0 {
        let last = chunks.last();
        hex_rows_end_from(skipped, chunks.drop_last(), first);
        let before = push_hex_chunks(fresh_hex(skipped), chunks.drop_last()).0;
        bytes_end_from(before, last.bytes, last.received_at, last.sequence, first);
    }
}

/// Rows of chunks that are all in the buffer are not outdated.
proof fn nothing_is_outdated(
    view: DisplayView,
    shown: Seq<RowView>,
    start: DisplayView,
    chunks: Seq<ChunkView>,
    first: u64,
)
    requires
        is_fresh(start),
        shows_from(view, shown, start, chunks, 0),
        chunks_from(chunks, first),
    ensures
        view.outdated(first) == 0,
{
    let rows = rows_made(start, chunks).1;
    match start.state {
        RowState::Text(state) => text_rows_end_from(
            start.encoding,
            line_bound(start.limits.max_line_bytes),
            chunks,
            first,
        ),
        RowState::Hex(state) => {
            let skipped = choose|skipped: nat| state == #[trigger] fresh_hex(skipped);
            hex_rows_end_from(skipped, chunks, first);
        },
        RowState::Terminal(_) => {},
    }
    assert(rows_end_from(rows, first));
    if view.notes.len() > 0 {
        assert(view.notes[0] == row_notes(rows)[0]);
        assert(rows[0].end_sequence >= first);
    }
}

/// The buffer after arrivals that it has room for.
proof fn arrivals_are_added(store: StoreView, arrivals: Seq<Arrival>)
    requires
        numbers_ascend(store),
        store.next_sequence + arrivals.len() <= u64::MAX,
        total_bytes(store.chunks) + arrived_bytes(arrivals) <= store.limit_bytes,
    ensures
        ({
            let after = store_after(store, arrivals);
            &&& numbers_ascend(after)
            &&& after.first_sequence() == store.first_sequence()
            &&& after.next_sequence <= store.next_sequence + arrivals.len()
            &&& after.limit_bytes == store.limit_bytes
            &&& after.dropped_bytes == store.dropped_bytes
            &&& after.stream_id == store.stream_id
            &&& total_bytes(after.chunks) == total_bytes(store.chunks) + arrived_bytes(arrivals)
        }),
    decreases arrivals.len(),
{
    if arrivals.len() > 0 {
        arrivals_are_added(store, arrivals.drop_last());
        an_arrival_is_added(store_after(store, arrivals.drop_last()), arrivals.last());
    }
}

proof fn an_arrival_is_added(store: StoreView, arrival: Arrival)
    requires
        numbers_ascend(store),
        store.next_sequence < u64::MAX,
        total_bytes(store.chunks) + arrival.bytes.len() <= store.limit_bytes,
    ensures
        ({
            let after = store.appended(arrival.received_at, arrival.bytes);
            &&& numbers_ascend(after)
            &&& after.first_sequence() == store.first_sequence()
            &&& after.next_sequence <= store.next_sequence + 1
            &&& after.limit_bytes == store.limit_bytes
            &&& after.dropped_bytes == store.dropped_bytes
            &&& after.stream_id == store.stream_id
            &&& total_bytes(after.chunks) == total_bytes(store.chunks) + arrival.bytes.len()
            &&& after.position_of(store.end()) is Some
            &&& store.chunks + after.unread(store.end()) == after.chunks
        }),
{
    snapshot_and_delta_make_up_the_buffer(store, arrival.received_at, arrival.bytes);
    if arrival.bytes.len() > 0 {
        let chunk = ChunkView {
            sequence: store.next_sequence,
            received_at: arrival.received_at,
            bytes: arrival.bytes,
        };
        let all = store.chunks.push(chunk);
        assert(all.drop_last() == store.chunks);
        assert(newest_within(all, store.limit_bytes as nat) == all);
    }
}

/// A display shows all of a buffer, and has reached no limit.
spec fn shows_all(
    display: (DisplayView, Seq<RowView>),
    store: StoreView,
    mode: ReceiveMode,
    encoding: TextEncoding,
    limits: DisplayLimits,
) -> bool {
    let start = begun_display(store, mode, encoding, limits);
    &&& kept_in_bounds(display.0, display.1, start, store.chunks, 0)
    &&& display.0.cursor == store.end()
    &&& display.0.mode == mode
}

proof fn begun_is_fresh(
    store: StoreView,
    mode: ReceiveMode,
    encoding: TextEncoding,
    limits: DisplayLimits,
)
    ensures
        is_fresh(begun_display(store, mode, encoding, limits)),
{
    let start = begun_display(store, mode, encoding, limits);
    if mode != ReceiveMode::Text {
        assert(start.state == RowState::Hex(fresh_hex(store.dropped_bytes as nat)));
    }
}

#[verifier::spinoff_prover]
#[verifier::rlimit(40)]
proof fn made_displays_show_all(
    store: StoreView,
    mode: ReceiveMode,
    encoding: TextEncoding,
    limits: DisplayLimits,
)
    requires
        !made_display(store, mode, encoding, limits).0.limited,
    ensures
        shows_all(made_display(store, mode, encoding, limits), store, mode, encoding, limits),
{
    let start = begun_display(store, mode, encoding, limits);
    begun_is_fresh(store, mode, encoding, limits);
    let step = DisplayStep {
        cursor: store.end(),
        first: store.first_sequence(),
        chunks: store.chunks,
    };
    let none = Seq::<DisplayStep>::empty();
    let zero = bounds_are_kept(start, none);
    assert(display_after(start, none) == (start, Seq::<RowView>::empty()));
    assert(kept_in_bounds(start, Seq::empty(), start, Seq::empty(), zero));
    assert(rows_made(start, Seq::empty()).1 == Seq::<EndedRow>::empty());
    bounds_are_kept_by_an_update(start, Seq::empty(), start, Seq::empty(), 0, step);
    assert(Seq::<ChunkView>::empty() + store.chunks == store.chunks);
    assert(start.outdated(step.first) == 0);
    display_follows_the_stream(
        start,
        Seq::empty(),
        start,
        Seq::empty(),
        store.chunks,
        0,
        step.cursor,
        step.first,
    );
    let change = start.change(step.first, step.chunks);
    assert(update_applied(Seq::empty(), change) == change.rows);
}

#[verifier::spinoff_prover]
#[verifier::rlimit(40)]
proof fn followed_displays_show_all(
    display: (DisplayView, Seq<RowView>),
    before: StoreView,
    arrival: Arrival,
    mode: ReceiveMode,
    encoding: TextEncoding,
    limits: DisplayLimits,
)
    requires
        shows_all(display, before, mode, encoding, limits),
        numbers_ascend(before),
        before.next_sequence < u64::MAX,
        total_bytes(before.chunks) + arrival.bytes.len() <= before.limit_bytes,
        !followed_display(
            display,
            before.appended(arrival.received_at, arrival.bytes),
        ).0.limited,
    ensures
        ({
            let after = before.appended(arrival.received_at, arrival.bytes);
            shows_all(followed_display(display, after), after, mode, encoding, limits)
        }),
{
    let after = before.appended(arrival.received_at, arrival.bytes);
    let (view, shown) = display;
    an_arrival_is_added(before, arrival);
    let unread = after.unread(view.cursor);
    let step = DisplayStep { cursor: after.end(), first: after.first_sequence(), chunks: unread };
    let then = begun_display(before, mode, encoding, limits);
    let now = begun_display(after, mode, encoding, limits);
    begun_is_fresh(before, mode, encoding, limits);
    nothing_is_outdated(view, shown, then, before.chunks, step.first);
    bounds_are_kept_by_an_update(view, shown, then, before.chunks, 0, step);
    display_follows_the_stream(
        view,
        shown,
        then,
        before.chunks,
        unread,
        0,
        step.cursor,
        step.first,
    );
    assert(rows_made(then, after.chunks) == rows_made(now, after.chunks));
}

/// A display that follows a buffer from which nothing is dropped shows all of it.
proof fn arrivals_are_shown(
    store: StoreView,
    mode: ReceiveMode,
    encoding: TextEncoding,
    limits: DisplayLimits,
    arrivals: Seq<Arrival>,
)
    requires
        numbers_ascend(store),
        store.next_sequence + arrivals.len() <= u64::MAX,
        total_bytes(store.chunks) + arrived_bytes(arrivals) <= store.limit_bytes,
        !followed_arrivals(store, mode, encoding, limits, arrivals).0.limited,
    ensures
        shows_all(
            followed_arrivals(store, mode, encoding, limits, arrivals),
            store_after(store, arrivals),
            mode,
            encoding,
            limits,
        ),
    decreases arrivals.len(),
{
    if arrivals.len() == 0 {
        made_displays_show_all(store, mode, encoding, limits);
    } else {
        let fewer = arrivals.drop_last();
        let display = followed_arrivals(store, mode, encoding, limits, fewer);
        arrivals_are_added(store, fewer);
        arrivals_are_shown(store, mode, encoding, limits, fewer);
        followed_displays_show_all(
            display,
            store_after(store, fewer),
            arrivals.last(),
            mode,
            encoding,
            limits,
        );
    }
}

/// A display that is made once and then follows what arrives is the display that is made from
/// the whole buffer at once, wherever the arrivals split characters, line ends or HEX rows: as
/// long as nothing is dropped from the buffer and the display has not reached a limit.
pub proof fn following_matches_rebuilding(
    store: StoreView,
    mode: ReceiveMode,
    encoding: TextEncoding,
    limits: DisplayLimits,
    arrivals: Seq<Arrival>,
)
    requires
        mode != ReceiveMode::Terminal,
        numbers_ascend(store),
        store.next_sequence + arrivals.len() <= u64::MAX,
        total_bytes(store.chunks) + arrived_bytes(arrivals) <= store.limit_bytes,
        !followed_arrivals(store, mode, encoding, limits, arrivals).0.limited,
    ensures
        followed_arrivals(store, mode, encoding, limits, arrivals) == made_display(
            store_after(store, arrivals),
            mode,
            encoding,
            limits,
        ),
{
    arrivals_are_shown(store, mode, encoding, limits, arrivals);
    let (view, shown) = followed_arrivals(store, mode, encoding, limits, arrivals);
    let after = store_after(store, arrivals);
    let start = begun_display(after, mode, encoding, limits);
    let (state, rows) = rows_made(start, after.chunks);
    assert(view.notes == row_notes(rows));
    assert(shown == plain_rows(rows));
    if after.chunks.len() == 0 {
        assert(rows == Seq::<EndedRow>::empty());
        assert(start.notes.skip(0) == start.notes);
    } else {
        assert(start.staying(after.first_sequence(), true) == Seq::<RowNote>::empty());
        assert(Seq::<RowNote>::empty() + row_notes(rows) == row_notes(rows));
        assert(row_notes(rows).skip(0) == row_notes(rows));
        assert(plain_rows(rows).skip(0) == plain_rows(rows));
    }
    let (made, made_rows) = made_display(after, mode, encoding, limits);
    assert(made_rows == shown);
    assert(made == view);
}

} // verus!
