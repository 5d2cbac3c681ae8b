//! The display: rows that follow the received bytes, kept within limits.

use std::collections::VecDeque;

use vstd::prelude::*;

use crate::chars::{byte_len, text_bytes};
use crate::formatting::hex::{
    fresh_hex, hex_skipped_bytes_modulo, partial_hex_row, push_bytes, push_hex_chunks, HexState,
    IncrementalHexFormatter, HEX_BYTES_PER_ROW,
};
use crate::formatting::laws::displayed_lines_stay_short;
use crate::formatting::rows::{
    ended_in, plain_rows, row_views, EndedRow, FormattedRow, RowView,
};
use crate::formatting::text::{
    end_sequences, fresh_text, line_bound, partial_row, push_text_chunk, push_text_chunks,
    IncrementalTextFormatter, TextState,
};
use crate::model::{ReceiveMode, TextEncoding};
use crate::store::{chunk_views, ChunkView, ReceiveCursor, ReceiveDelta, ReceiveSnapshot, RxChunk};
use crate::terminal::formatter::{
    fresh_terminal, screen_update, IncrementalTerminalFormatter, ScreenLimits, TerminalState,
    UpdateView,
};
use crate::terminal::screen::{max, min};
use crate::timestamp::Timestamp;

verus! {

pub const MAX_DISPLAY_ROWS: usize = 100_000;

pub const MAX_DISPLAY_TEXT_BYTES: usize = 16_777_216;

pub const MAX_DISPLAY_LINE_BYTES: usize = 524_288;

pub const MAX_DISPLAY_INCREMENT_BYTES: usize = 131_072;

const MAX_TEXT_REBUILD_BYTES: usize = 16_777_216;

/// The number of bytes at the end of the buffer that a complete display is made from.
pub fn display_snapshot_limit(mode: ReceiveMode) -> (limit: usize)
    ensures
        limit == match mode {
            ReceiveMode::Text | ReceiveMode::Terminal => 16_777_216int,
            ReceiveMode::Hex => MAX_DISPLAY_ROWS * HEX_BYTES_PER_ROW,
        },
{
    match mode {
        ReceiveMode::Text | ReceiveMode::Terminal => MAX_TEXT_REBUILD_BYTES,
        ReceiveMode::Hex => MAX_DISPLAY_ROWS * HEX_BYTES_PER_ROW,
    }
}

/// How much the display may hold.
#[derive(Debug, Clone, Copy, PartialEq, Eq, Structural)]
pub struct DisplayLimits {
    pub max_rows: usize,
    pub max_text_bytes: usize,
    pub max_line_bytes: usize,
}

pub open spec fn default_limits() -> DisplayLimits {
    DisplayLimits {
        max_rows: MAX_DISPLAY_ROWS,
        max_text_bytes: MAX_DISPLAY_TEXT_BYTES,
        max_line_bytes: MAX_DISPLAY_LINE_BYTES,
    }
}

/// A change of the display: rows to remove at the start and at the end, then rows to add.
#[derive(Debug)]
pub struct DisplayUpdate {
    pub generation: u64,
    pub remove_prefix: usize,
    pub replace_tail: usize,
    pub rows: Vec<FormattedRow>,
}

impl View for DisplayUpdate {
    type V = UpdateView;

    open spec fn view(&self) -> UpdateView {
        UpdateView {
            remove_prefix: self.remove_prefix as int,
            replace_tail: self.replace_tail as int,
            rows: row_views(self.rows@),
        }
    }
}

#[derive(Debug, Clone, Copy, PartialEq, Eq, Structural)]
pub enum DisplayUpdateError {
    ResetOrGap,
}

/// What the formatter remembers of a row on display.
#[verifier::ext_equal]
pub struct RowNote {
    /// The chunk that the row ends in.
    pub end_sequence: u64,
    /// The number of bytes of its text.
    pub bytes: nat,
}

pub open spec fn row_note(row: EndedRow) -> RowNote {
    RowNote { end_sequence: row.end_sequence, bytes: text_bytes(row.row.text) }
}

pub open spec fn row_notes(rows: Seq<EndedRow>) -> Seq<RowNote> {
    Seq::new(rows.len(), |i: int| row_note(rows[i]))
}

pub open spec fn noted_bytes(notes: Seq<RowNote>) -> nat
    decreases notes.len(),
{
    if notes.len() == 0 {
        0
    } else {
        noted_bytes(notes.drop_last()) + notes.last().bytes
    }
}

/// The number of rows that have to leave at the start until the rest is within the limits.
pub open spec fn excess(notes: Seq<RowNote>, limits: DisplayLimits) -> int
    decreases notes.len(),
{
    if notes.len() > 0 && (notes.len() > limits.max_rows || noted_bytes(notes)
        > limits.max_text_bytes) {
        1 + excess(notes.skip(1), limits)
    } else {
        0
    }
}

/// The number of the first `among` rows whose bytes are all gone from the buffer, which begins
/// with the chunk `first`.
pub open spec fn evicted(notes: Seq<RowNote>, among: int, first: u64) -> int
    decreases notes.len(),
{
    if among > 0 && notes.len() > 0 && notes[0].end_sequence < first {
        1 + evicted(notes.skip(1), among - 1, first)
    } else {
        0
    }
}

/// The rows of one mode in the making.
pub enum RowState {
    Text(TextState),
    Hex(HexState),
    Terminal(TerminalState),
}

/// A formatter in the text and HEX modes.
#[verifier::ext_equal]
pub struct DisplayView {
    pub mode: ReceiveMode,
    pub encoding: TextEncoding,
    pub cursor: ReceiveCursor,
    /// The rows on display.
    pub notes: Seq<RowNote>,
    /// The last row on display is not complete yet.
    pub partial_visible: bool,
    pub limited: bool,
    pub limits: DisplayLimits,
    pub state: RowState,
}

/// The rows that chunks complete, in the text and HEX modes.
pub open spec fn completed_rows(view: DisplayView, chunks: Seq<ChunkView>) -> (
    RowState,
    Seq<EndedRow>,
) {
    match view.state {
        RowState::Text(state) => {
            let bound = line_bound(view.limits.max_line_bytes);
            let (after, rows) = push_text_chunks(state, view.encoding, bound, chunks);
            (RowState::Text(after), rows)
        },
        RowState::Hex(state) => {
            let (after, rows) = push_hex_chunks(state, chunks);
            (RowState::Hex(after), rows)
        },
        RowState::Terminal(_) => (view.state, Seq::empty()),
    }
}

/// The open row as it stands, if there is anything in it.
pub open spec fn open_row(state: RowState) -> Seq<EndedRow> {
    match state {
        RowState::Text(state) => partial_row(state.line),
        RowState::Hex(state) => partial_hex_row(state),
        RowState::Terminal(_) => Seq::empty(),
    }
}

/// The rows that chunks complete and the open row after them.
pub open spec fn rows_made(view: DisplayView, chunks: Seq<ChunkView>) -> (RowState, Seq<EndedRow>) {
    let (state, rows) = completed_rows(view, chunks);
    (state, rows + open_row(state))
}

/// There is something in the open row.
pub open spec fn has_open_row(state: RowState) -> bool {
    match state {
        RowState::Text(state) => state.line.current.len() > 0,
        RowState::Hex(state) => state.current.len() > 0,
        RowState::Terminal(_) => false,
    }
}

/// A line had to be cut.
pub open spec fn cut_a_line(state: RowState) -> bool {
    state matches RowState::Text(state) && state.line_limited
}

impl DisplayView {
    /// The number of rows whose bytes are gone from a buffer that begins with the chunk `first`.
    pub open spec fn outdated(self, first: u64) -> int {
        let open = if self.partial_visible {
            1int
        } else {
            0
        };
        evicted(self.notes, max(self.notes.len() - open, 0), first)
    }

    /// The rows that stay on display when the outdated ones leave and the open one is shown anew.
    pub open spec fn staying(self, first: u64, has_chunks: bool) -> Seq<RowNote> {
        let rest = self.notes.skip(self.outdated(first));
        if self.partial_visible && has_chunks && rest.len() > 0 {
            rest.drop_last()
        } else {
            rest
        }
    }

    /// The formatter after chunks were added in the text or HEX mode.
    pub open spec fn applied(
        self,
        cursor: ReceiveCursor,
        first: u64,
        chunks: Seq<ChunkView>,
    ) -> DisplayView {
        let staying = self.staying(first, chunks.len() > 0);
        if chunks.len() == 0 {
            DisplayView { cursor, notes: staying, ..self }
        } else {
            let (state, made) = rows_made(self, chunks);
            let all = staying + row_notes(made);
            DisplayView {
                cursor,
                notes: all.skip(excess(all, self.limits)),
                partial_visible: has_open_row(state),
                limited: self.limited || cut_a_line(state) || excess(all, self.limits) > 0,
                state,
                ..self
            }
        }
    }

    /// How the display changes when chunks are added in the text or HEX mode.
    pub open spec fn change(self, first: u64, chunks: Seq<ChunkView>) -> UpdateView {
        let staying = self.staying(first, chunks.len() > 0);
        if chunks.len() == 0 {
            UpdateView { remove_prefix: self.outdated(first), replace_tail: 0, rows: Seq::empty() }
        } else {
            let made = rows_made(self, chunks).1;
            let leaving = excess(staying + row_notes(made), self.limits);
            UpdateView {
                remove_prefix: self.outdated(first) + min(leaving, staying.len() as int),
                replace_tail: if self.partial_visible {
                    1
                } else {
                    0
                },
                rows: plain_rows(made).skip(max(leaving - staying.len(), 0)),
            }
        }
    }
}

proof fn noted_bytes_concat(a: Seq<RowNote>, b: Seq<RowNote>)
    ensures
        noted_bytes(a + b) == noted_bytes(a) + noted_bytes(b),
    decreases b.len(),
{
    if b.len() == 0 {
        assert(a + b == a);
    } else {
        assert((a + b).drop_last() == a + b.drop_last());
        noted_bytes_concat(a, b.drop_last());
    }
}

proof fn noted_bytes_of_one(note: RowNote)
    ensures
        noted_bytes(seq![note]) == note.bytes,
{
    reveal_with_fuel(noted_bytes, 2);
}

pub proof fn excess_bounds(notes: Seq<RowNote>, limits: DisplayLimits)
    ensures
        0 <= excess(notes, limits) <= notes.len(),
        notes.skip(excess(notes, limits)).len() <= limits.max_rows,
        noted_bytes(notes.skip(excess(notes, limits))) <= limits.max_text_bytes,
    decreases notes.len(),
{
    if notes.len() > 0 && (notes.len() > limits.max_rows || noted_bytes(notes)
        > limits.max_text_bytes) {
        excess_bounds(notes.skip(1), limits);
        let n = excess(notes.skip(1), limits);
        assert(notes.skip(1).skip(n) == notes.skip(1 + n));
    } else {
        assert(notes.skip(0) == notes);
    }
}

/// Rows may leave whenever some are added or once at the end: the same ones stay.
proof fn excess_extends(x: Seq<RowNote>, y: Seq<RowNote>, limits: DisplayLimits)
    ensures
        excess(x + y, limits) == excess(x, limits) + excess(
            x.skip(excess(x, limits)) + y,
            limits,
        ),
    decreases x.len(),
{
    noted_bytes_concat(x, y);
    if x.len() > 0 && (x.len() > limits.max_rows || noted_bytes(x) > limits.max_text_bytes) {
        excess_extends(x.skip(1), y, limits);
        excess_bounds(x.skip(1), limits);
        let n = excess(x.skip(1), limits);
        assert(x.skip(1).skip(n) == x.skip(1 + n));
        assert((x + y).skip(1) == x.skip(1) + y);
    } else {
        assert(x.skip(0) == x);
    }
}

/// Rows that leave are counted apart: those that were on display and those that are new.
pub struct Removals {
    pub retained_existing: usize,
    pub removed_existing: usize,
    pub removed_new: usize,
}

/// What is remembered of the rows on display.
pub(crate) struct RowQueue {
    end_sequences: VecDeque<u64>,
    row_bytes: VecDeque<usize>,
    text_bytes: u128,
}

proof fn noted_bytes_fit(notes: Seq<RowNote>)
    requires
        notes.len() <= usize::MAX,
        forall|i: int| 0 <= i < notes.len() ==> (#[trigger] notes[i]).bytes <= usize::MAX,
    ensures
        noted_bytes(notes) <= u128::MAX,
        noted_bytes(notes) <= notes.len() * usize::MAX,
    decreases notes.len(),
{
    if notes.len() > 0 {
        noted_bytes_fit(notes.drop_last());
        assert(notes.len() * usize::MAX == (notes.len() - 1) * usize::MAX + usize::MAX)
            by (nonlinear_arith);
    }
    assert(notes.len() * usize::MAX <= u64::MAX * u64::MAX) by (nonlinear_arith)
        requires
            notes.len() <= u64::MAX,
            usize::MAX <= u64::MAX,
    ;
    assert(u64::MAX * u64::MAX <= u128::MAX) by (nonlinear_arith);
}

impl RowQueue {
    closed spec fn notes(self) -> Seq<RowNote> {
        Seq::new(
            self.end_sequences@.len(),
            |i: int|
                RowNote {
                    end_sequence: self.end_sequences@[i],
                    bytes: self.row_bytes@[i] as nat,
                },
        )
    }

    closed spec fn wf(self) -> bool {
        &&& self.end_sequences@.len() == self.row_bytes@.len()
        &&& self.text_bytes == noted_bytes(self.notes())
    }

    fn new() -> (queue: Self)
        ensures
            queue.wf(),
            queue.notes() == Seq::<RowNote>::empty(),
    {
        let queue = RowQueue {
            end_sequences: VecDeque::new(),
            row_bytes: VecDeque::new(),
            text_bytes: 0,
        };
        assert(queue.notes() == Seq::<RowNote>::empty());
        queue
    }

    fn len(&self) -> (len: usize)
        ensures
            len == self.notes().len(),
    {
        self.end_sequences.len()
    }

    /// The first row leaves.
    fn pop_front(&mut self)
        requires
            old(self).wf(),
            old(self).notes().len() > 0,
        ensures
            final(self).wf(),
            final(self).notes() == old(self).notes().skip(1),
    {
        let ghost before = self.notes();
        proof {
            assert(before == seq![before[0]] + before.skip(1));
            noted_bytes_concat(seq![before[0]], before.skip(1));
            noted_bytes_of_one(before[0]);
        }
        let bytes: usize = self.row_bytes.pop_front().unwrap();
        let _ = self.end_sequences.pop_front();
        self.text_bytes = self.text_bytes - bytes as u128;
        assert(self.notes() == before.skip(1));
    }

    /// The last row leaves, if there is one.
    fn pop_back(&mut self)
        requires
            old(self).wf(),
        ensures
            final(self).wf(),
            final(self).notes() == if old(self).notes().len() > 0 {
                old(self).notes().drop_last()
            } else {
                old(self).notes()
            },
    {
        let ghost before = self.notes();
        if let Some(bytes) = self.row_bytes.pop_back() {
            let _ = self.end_sequences.pop_back();
            self.text_bytes = self.text_bytes - bytes as u128;
            assert(self.notes() == before.drop_last());
        }
    }

    /// Rows leave at the start until the rest is within the limits.
    fn enforce_display_limits(
        &mut self,
        removals: &mut Removals,
        limits: DisplayLimits,
    ) -> (limited: bool)
        requires
            old(self).wf(),
            old(removals).retained_existing <= old(self).notes().len(),
            old(removals).removed_existing + old(removals).retained_existing <= usize::MAX,
            old(removals).removed_new + old(self).notes().len() - old(removals).retained_existing
                <= usize::MAX,
        ensures
            final(self).wf(),
            ({
                let leaving = excess(old(self).notes(), limits);
                let existing = min(leaving, old(removals).retained_existing as int);
                &&& limited == (leaving > 0)
                &&& final(self).notes() == old(self).notes().skip(leaving)
                &&& final(removals).retained_existing == old(removals).retained_existing - existing
                &&& final(removals).removed_existing == old(removals).removed_existing + existing
                &&& final(removals).removed_new == old(removals).removed_new + leaving - existing
            }),
    {
        let mut limited = false;
        let ghost all = self.notes();
        let ghost mut gone: int = 0;
        assert(all.skip(0) == all);
        while self.end_sequences.len() > limits.max_rows || self.text_bytes
            > limits.max_text_bytes as u128
            invariant
                self.wf(),
                0 <= gone <= all.len(),
                self.notes() == all.skip(gone),
                limited == (gone > 0),
                excess(all, limits) == gone + excess(self.notes(), limits),
                old(removals).retained_existing <= all.len(),
                old(removals).removed_existing + old(removals).retained_existing <= usize::MAX,
                old(removals).removed_new + all.len() - old(removals).retained_existing
                    <= usize::MAX,
                ({
                    let existing = min(gone, old(removals).retained_existing as int);
                    &&& removals.retained_existing == old(removals).retained_existing - existing
                    &&& removals.removed_existing == old(removals).removed_existing + existing
                    &&& removals.removed_new == old(removals).removed_new + gone - existing
                }),
            decreases self.notes().len(),
        {
            assert(self.notes().len() == self.end_sequences@.len());
            self.pop_front();
            proof {
                assert(all.skip(gone).skip(1) == all.skip(gone + 1));
                gone = gone + 1;
            }
            if removals.retained_existing != 0 {
                removals.retained_existing = removals.retained_existing - 1;
                removals.removed_existing = removals.removed_existing + 1;
            } else {
                removals.removed_new = removals.removed_new + 1;
            }
            limited = true;
        }
        limited
    }

    /// Takes note of the rows from `from` on, which end in the chunks `ends`.
    fn register_new_rows(&mut self, rows: &Vec<FormattedRow>, from: usize, ends: VecDeque<u64>)
        requires
            old(self).wf(),
            from <= rows@.len(),
            ends@.len() == rows@.len() - from,
        ensures
            final(self).wf(),
            final(self).notes() == old(self).notes() + Seq::new(
                ends@.len(),
                |i: int|
                    RowNote {
                        end_sequence: ends@[i],
                        bytes: text_bytes(rows@[from + i].text@),
                    },
            ),
    {
        let mut i: usize = from;
        let mut ends = ends;
        let ghost all_ends = ends@;
        while i < rows.len()
            invariant
                from <= i <= rows@.len(),
                self.wf(),
                all_ends.len() == rows@.len() - from,
                ends@ == all_ends.skip(i - from),
                self.notes() == old(self).notes() + Seq::new(
                    (i - from) as nat,
                    |k: int|
                        RowNote {
                            end_sequence: all_ends[k],
                            bytes: text_bytes(rows@[from + k].text@),
                        },
                ),
            decreases rows@.len() - i,
        {
            let ghost before = self.notes();
            let end: u64 = ends.pop_front().unwrap();
            let bytes: usize = byte_len(rows[i].text.as_str());
            self.end_sequences.push_back(end);
            self.row_bytes.push_back(bytes);
            let ghost note = RowNote { end_sequence: end, bytes: bytes as nat };
            proof {
                assert(self.notes() == before.push(note));
                assert(before.push(note).drop_last() == before);
                assert(self.notes().len() == self.row_bytes.len());
                noted_bytes_fit(self.notes());
            }
            self.text_bytes = self.text_bytes + bytes as u128;
            i += 1;
        }
    }

    /// The rows at the start whose bytes are gone leave, at most `among` of them.
    fn evict(&mut self, among: usize, first: u64) -> (gone: usize)
        requires
            old(self).wf(),
            among <= old(self).notes().len(),
        ensures
            final(self).wf(),
            gone == evicted(old(self).notes(), among as int, first),
            gone <= among,
            final(self).notes() == old(self).notes().skip(gone as int),
    {
        let mut gone: usize = 0;
        let ghost all = self.notes();
        assert(all.skip(0) == all);
        while gone < among && self.end_sequences[0] < first
            invariant
                self.wf(),
                gone <= among <= all.len(),
                self.notes() == all.skip(gone as int),
                self.notes().len() == self.end_sequences@.len(),
                evicted(all, among as int, first) == gone + evicted(
                    self.notes(),
                    among - gone,
                    first,
                ),
            decreases among - gone,
        {
            assert(self.notes()[0].end_sequence == self.end_sequences@[0]);
            self.pop_front();
            assert(all.skip(gone as int).skip(1) == all.skip(gone + 1));
            gone += 1;
        }
        assert(gone < among ==> self.notes()[0].end_sequence == self.end_sequences@[0]);
        gone
    }
}

enum DisplayFormatterState {
    Text(IncrementalTextFormatter),
    Terminal(Box<IncrementalTerminalFormatter>),
    Hex(IncrementalHexFormatter),
}

pub struct DisplayFormatter {
    mode: ReceiveMode,
    encoding: TextEncoding,
    cursor: ReceiveCursor,
    queue: RowQueue,
    limited: bool,
    limits: DisplayLimits,
    state: DisplayFormatterState,
}

impl DisplayFormatter {
    pub closed spec fn inner(self) -> DisplayView {
        DisplayView {
            mode: self.mode,
            encoding: self.encoding,
            cursor: self.cursor,
            notes: self.queue.notes(),
            partial_visible: match self.state {
                DisplayFormatterState::Text(state) => state.shows_partial(),
                DisplayFormatterState::Hex(state) => state.shows_partial(),
                DisplayFormatterState::Terminal(_) => false,
            },
            limited: self.limited,
            limits: self.limits,
            state: match self.state {
                DisplayFormatterState::Text(state) => RowState::Text(state.state()),
                DisplayFormatterState::Hex(state) => RowState::Hex(state.state()),
                DisplayFormatterState::Terminal(state) => RowState::Terminal(state.state()),
            },
        }
    }

    /// The number of rows on the terminal screen after the last update.
    pub closed spec fn screen_rows(self) -> int {
        match self.state {
            DisplayFormatterState::Terminal(state) => state.displayed(),
            _ => 0,
        }
    }

    /// The rows on display are within the limits, and all parts agree.
    pub closed spec fn wf(self) -> bool {
        &&& self.parts_agree()
        &&& excess(self.queue.notes(), self.limits) == 0
    }

    closed spec fn parts_agree(self) -> bool {
        &&& self.queue.wf()
        &&& match self.state {
            DisplayFormatterState::Text(state) => state.wf() && state.encoding() == self.encoding
                && state.bound() == line_bound(self.limits.max_line_bytes) && (
            state.state().line_limited ==> self.limited),
            DisplayFormatterState::Hex(state) => state.wf(),
            DisplayFormatterState::Terminal(state) => state.wf() && state.encoding()
                == self.encoding,
        }
    }

    pub fn cursor(&self) -> (cursor: ReceiveCursor)
        ensures
            cursor == self.inner().cursor,
    {
        self.cursor
    }

    pub fn is_compatible(&self, mode: ReceiveMode, encoding: TextEncoding) -> (compatible: bool)
        ensures
            compatible == (self.inner().mode == mode && self.inner().encoding == encoding),
    {
        self.mode == mode && self.encoding == encoding
    }

    pub fn is_limited(&self) -> (limited: bool)
        ensures
            limited == self.inner().limited,
    {
        self.limited
    }

    /// The terminal cursor, if it is on a row that is shown.
    pub fn terminal_cursor(&self) -> (cursor: Option<(usize, usize)>)
        ensures
            match self.inner().state {
                RowState::Terminal(state) => match cursor {
                    Some(cursor) => cursor.0 == state.screen.cursor_row && cursor.1
                        == state.screen.cursor_col && state.screen.cursor_row
                        < state.screen.rendered_len(),
                    None => state.screen.cursor_row >= state.screen.rendered_len(),
                },
                _ => cursor is None,
            },
    {
        match &self.state {
            DisplayFormatterState::Terminal(state) => state.cursor(),
            _ => None,
        }
    }

    fn is_partial_visible(&self) -> (visible: bool)
        ensures
            visible == self.inner().partial_visible,
    {
        match &self.state {
            DisplayFormatterState::Text(state) => state.is_partial_visible(),
            DisplayFormatterState::Hex(state) => state.is_partial_visible(),
            DisplayFormatterState::Terminal(_) => false,
        }
    }

    /// Adds the rows that end in the chunk to `rows` and to the queue.
    fn push_chunk(&mut self, chunk: &RxChunk, rows: &mut Vec<FormattedRow>)
        requires
            old(self).parts_agree(),
            old(self).inner().state !is Terminal,
        ensures
            final(self).parts_agree(),
            ({
                let before = old(self).inner();
                let (state, made) = chunk_rows(before, chunk@);
                &&& final(self).inner() == DisplayView {
                    notes: before.notes + row_notes(made),
                    limited: before.limited || cut_a_line(state),
                    state,
                    ..before
                }
                &&& row_views(final(rows)@) == row_views(old(rows)@) + plain_rows(made)
            }),
    {
        let first_new: usize = rows.len();
        let mut ends: VecDeque<u64> = VecDeque::new();
        let ghost made = chunk_rows(self.inner(), chunk@).1;
        match &mut self.state {
            DisplayFormatterState::Text(state) => {
                state.push_chunk(chunk, rows, &mut ends);
                self.limited = self.limited || state.is_line_limited();
            },
            DisplayFormatterState::Hex(state) => {
                state.push_chunk(chunk, rows, &mut ends);
            },
            DisplayFormatterState::Terminal(_) => {},
        }
        proof {
            assert(ends@ == end_sequences(made));
            assert(row_views(rows@).len() == rows@.len());
            assert(row_views(rows@) == row_views(old(rows)@) + plain_rows(made));
            assert forall|i: int| 0 <= i < made.len() implies rows@[first_new + i].text@
                == #[trigger] made[i].row.text by {
                assert(row_views(rows@)[first_new + i] == plain_rows(made)[i]);
            }
        }
        self.queue.register_new_rows(rows, first_new, ends);
        assert(self.queue.notes() == old(self).queue.notes() + row_notes(made));
    }

    /// Adds the open row to `rows` and to the queue.
    fn push_partial_row(&mut self, rows: &mut Vec<FormattedRow>)
        requires
            old(self).parts_agree(),
            old(self).inner().state !is Terminal,
        ensures
            final(self).parts_agree(),
            ({
                let before = old(self).inner();
                let open = open_row(before.state);
                &&& final(self).inner() == DisplayView {
                    notes: before.notes + row_notes(open),
                    partial_visible: has_open_row(before.state),
                    ..before
                }
                &&& row_views(final(rows)@) == row_views(old(rows)@) + plain_rows(open)
            }),
    {
        let first_new: usize = rows.len();
        let mut ends: VecDeque<u64> = VecDeque::new();
        let ghost open = open_row(self.inner().state);
        match &mut self.state {
            DisplayFormatterState::Text(state) => {
                state.push_partial_row(rows, &mut ends);
            },
            DisplayFormatterState::Hex(state) => {
                state.push_partial_row(rows, &mut ends);
            },
            DisplayFormatterState::Terminal(_) => {},
        }
        proof {
            assert(ends@ == end_sequences(open));
            assert(row_views(rows@).len() == rows@.len());
            assert forall|i: int| 0 <= i < open.len() implies rows@[first_new + i].text@
                == #[trigger] open[i].row.text by {
                assert(row_views(rows@)[first_new + i] == plain_rows(open)[i]);
            }
        }
        self.queue.register_new_rows(rows, first_new, ends);
        assert(self.queue.notes() == old(self).queue.notes() + row_notes(open));
    }

    /// The row of the open line is about to be shown anew.
    fn withdraw_partial(&mut self)
        requires
            old(self).parts_agree(),
        ensures
            final(self).parts_agree(),
            final(self).inner() == (DisplayView { partial_visible: false, ..old(self).inner() }),
    {
        match &mut self.state {
            DisplayFormatterState::Text(state) => state.withdraw_partial(),
            DisplayFormatterState::Hex(state) => state.withdraw_partial(),
            DisplayFormatterState::Terminal(_) => {},
        }
    }
}

/// The rows that end in one chunk, in the text and HEX modes.
pub open spec fn chunk_rows(view: DisplayView, chunk: ChunkView) -> (RowState, Seq<EndedRow>) {
    match view.state {
        RowState::Text(state) => {
            let bound = line_bound(view.limits.max_line_bytes);
            let (after, rows) = push_text_chunk(state, view.encoding, bound, chunk);
            (RowState::Text(after), ended_in(rows, chunk.sequence))
        },
        RowState::Hex(state) => {
            let (after, rows) = push_bytes(state, chunk.bytes, chunk.received_at, chunk.sequence);
            (RowState::Hex(after), ended_in(rows, chunk.sequence))
        },
        RowState::Terminal(_) => (view.state, Seq::empty()),
    }
}

proof fn completed_rows_push(view: DisplayView, chunks: Seq<ChunkView>, chunk: ChunkView)
    requires
        view.state !is Terminal,
    ensures
        ({
            let (state, rows) = completed_rows(view, chunks);
            let (after, more) = chunk_rows(DisplayView { state, ..view }, chunk);
            completed_rows(view, chunks.push(chunk)) == (after, rows + more)
        }),
{
    assert(chunks.push(chunk).drop_last() == chunks);
}

proof fn row_notes_concat(a: Seq<EndedRow>, b: Seq<EndedRow>)
    ensures
        row_notes(a + b) == row_notes(a) + row_notes(b),
        plain_rows(a + b) == plain_rows(a) + plain_rows(b),
{
    assert(row_notes(a + b) == row_notes(a) + row_notes(b));
    assert(plain_rows(a + b) == plain_rows(a) + plain_rows(b));
}

impl DisplayFormatter {
    /// A display of the whole snapshot, within the usual limits.
    pub fn rebuild(snapshot: &ReceiveSnapshot, mode: ReceiveMode, encoding: TextEncoding) -> (result:
        (Self, Vec<FormattedRow>))
        ensures
            result.0.wf(),
            rebuilt(result.0, row_views(result.1@), *snapshot, mode, encoding, default_limits()),
            mode == ReceiveMode::Text ==> forall|i: int|
                0 <= i < result.1@.len() ==> text_bytes((#[trigger] result.1@[i]).text@)
                    <= MAX_DISPLAY_LINE_BYTES,
    {
        Self::rebuild_with_limits(
            snapshot,
            mode,
            encoding,
            DisplayLimits {
                max_rows: MAX_DISPLAY_ROWS,
                max_text_bytes: MAX_DISPLAY_TEXT_BYTES,
                max_line_bytes: MAX_DISPLAY_LINE_BYTES,
            },
        )
    }

    /// A display of the whole snapshot.
    pub fn rebuild_with_limits(
        snapshot: &ReceiveSnapshot,
        mode: ReceiveMode,
        encoding: TextEncoding,
        limits: DisplayLimits,
    ) -> (result: (Self, Vec<FormattedRow>))
        ensures
            result.0.wf(),
            rebuilt(result.0, row_views(result.1@), *snapshot, mode, encoding, limits),
            mode == ReceiveMode::Text ==> forall|i: int|
                0 <= i < result.1@.len() ==> text_bytes((#[trigger] result.1@[i]).text@)
                    <= line_bound(limits.max_line_bytes),
    {
        let skipped: usize = hex_skipped_bytes_modulo(snapshot);
        let state = match mode {
            ReceiveMode::Text => DisplayFormatterState::Text(
                IncrementalTextFormatter::new(encoding, limits.max_line_bytes),
            ),
            ReceiveMode::Terminal => DisplayFormatterState::Terminal(
                Box::new(IncrementalTerminalFormatter::new(encoding)),
            ),
            ReceiveMode::Hex => DisplayFormatterState::Hex(IncrementalHexFormatter::new(skipped)),
        };
        let mut formatter = DisplayFormatter {
            mode,
            encoding,
            cursor: ReceiveCursor {
                stream_id: snapshot.stream_id,
                next_sequence: snapshot.first_sequence,
            },
            queue: RowQueue::new(),
            limited: snapshot.omitted_bytes != 0,
            limits,
            state,
        };
        let ghost fresh = formatter.inner();
        let ghost cursor = ReceiveCursor {
            stream_id: snapshot.stream_id,
            next_sequence: snapshot.next_sequence,
        };
        proof {
            assert(fresh.notes == Seq::<RowNote>::empty());
            fresh_hex_modulo(skipped as nat, (snapshot.dropped_bytes + snapshot.omitted_bytes) as nat);
        }
        let rows = if let DisplayFormatterState::Terminal(_) = &formatter.state {
            formatter.apply_terminal_chunks(&snapshot.chunks).2
        } else {
            formatter.apply_chunks(snapshot.first_sequence, &snapshot.chunks).2
        };
        formatter.cursor = ReceiveCursor {
            stream_id: snapshot.stream_id,
            next_sequence: snapshot.next_sequence,
        };
        proof {
            if mode == ReceiveMode::Text {
                changed_lines_fit(fresh, snapshot.first_sequence, chunk_views(snapshot.chunks@));
                assert forall|i: int| 0 <= i < rows@.len() implies text_bytes(
                    (#[trigger] rows@[i]).text@,
                ) <= line_bound(limits.max_line_bytes) by {
                    assert(row_views(rows@)[i].text == rows@[i].text@);
                }
            }
        }
        (formatter, rows)
    }

    /// Follows the stream: tells how the display changes with what has arrived, or that it has
    /// to be made anew.
    pub fn apply_delta(&mut self, delta: &ReceiveDelta) -> (result: Result<
        DisplayUpdate,
        DisplayUpdateError,
    >)
        requires
            old(self).wf(),
        ensures
            final(self).wf(),
            result is Err <==> (delta.reset_or_gap || delta.stream_id
                != old(self).inner().cursor.stream_id || delta.next_sequence
                < old(self).inner().cursor.next_sequence),
            match result {
                Err(error) => error == DisplayUpdateError::ResetOrGap && *final(self)
                    == *old(self),
                Ok(update) => update.generation == delta.generation && followed(
                    *old(self),
                    *final(self),
                    ReceiveCursor {
                        stream_id: delta.stream_id,
                        next_sequence: delta.next_sequence,
                    },
                    delta.first_sequence,
                    chunk_views(delta.chunks@),
                    update@,
                ),
            },
            result matches Ok(update) ==> {
                &&& old(self).inner().state !is Terminal ==> update.replace_tail <= 1
                &&& old(self).inner().state is Text ==> forall|i: int|
                    0 <= i < update.rows@.len() ==> text_bytes((#[trigger] update.rows@[i]).text@)
                        <= line_bound(old(self).inner().limits.max_line_bytes)
            },
    {
        if delta.reset_or_gap || delta.stream_id != self.cursor.stream_id || delta.next_sequence
            < self.cursor.next_sequence {
            return Err(DisplayUpdateError::ResetOrGap);
        }
        proof {
            reveal(followed);
        }
        let (remove_prefix, replace_tail, rows) = if let DisplayFormatterState::Terminal(_) =
            &self.state {
            self.apply_terminal_chunks(&delta.chunks)
        } else {
            self.apply_chunks(delta.first_sequence, &delta.chunks)
        };
        self.cursor = ReceiveCursor {
            stream_id: delta.stream_id,
            next_sequence: delta.next_sequence,
        };
        proof {
            if old(self).inner().state is Text {
                changed_lines_fit(
                    old(self).inner(),
                    delta.first_sequence,
                    chunk_views(delta.chunks@),
                );
                assert forall|i: int| 0 <= i < rows@.len() implies text_bytes(
                    (#[trigger] rows@[i]).text@,
                ) <= line_bound(old(self).inner().limits.max_line_bytes) by {
                    assert(row_views(rows@)[i].text == rows@[i].text@);
                }
            }
        }
        Ok(DisplayUpdate { generation: delta.generation, remove_prefix, replace_tail, rows })
    }

    /// Adds chunks in the text or HEX mode. Gives the number of rows to remove at the start and
    /// at the end of the display, and the rows to add.
    fn apply_chunks(&mut self, first_sequence: u64, chunks: &Vec<RxChunk>) -> (update: (
        usize,
        usize,
        Vec<FormattedRow>,
    ))
        requires
            old(self).wf(),
            old(self).inner().state !is Terminal,
        ensures
            final(self).wf(),
            final(self).inner() == old(self).inner().applied(
                old(self).inner().cursor,
                first_sequence,
                chunk_views(chunks@),
            ),
            ({
                let change = old(self).inner().change(first_sequence, chunk_views(chunks@));
                &&& update.0 == change.remove_prefix
                &&& update.1 == change.replace_tail
                &&& row_views(update.2@) == change.rows
            }),
    {
        let ghost before = self.inner();
        let partial_visible = self.is_partial_visible();
        let completed: usize = if partial_visible {
            self.queue.len().saturating_sub(1)
        } else {
            self.queue.len()
        };
        let outdated: usize = self.queue.evict(completed, first_sequence);
        assert(outdated == before.outdated(first_sequence));
        proof {
            excess_of_fewer(before.notes, outdated as int, before.limits);
        }
        if chunks.len() == 0 {
            let rows: Vec<FormattedRow> = Vec::new();
            assert(row_views(rows@) == Seq::<RowView>::empty());
            return (outdated, 0, rows);
        }
        if partial_visible {
            self.queue.pop_back();
            self.withdraw_partial();
        }
        let ghost base = self.inner();
        let ghost views = chunk_views(chunks@);
        assert(base.notes == before.staying(first_sequence, true));
        assert(rows_made(before, views) == rows_made(base, views));
        let (removals, rows) = self.add_chunks(chunks);
        let ghost all_rows = rows@;
        let mut rows = rows;
        let shown = rows.split_off(removals.removed_new);
        assert(row_views(shown@) == row_views(all_rows).skip(removals.removed_new as int));
        (
            outdated + removals.removed_existing,
            if partial_visible {
                1
            } else {
                0
            },
            shown,
        )
    }

    /// Adds the rows of chunks to a display without an open row, and the open row after them.
    fn add_chunks(&mut self, chunks: &Vec<RxChunk>) -> (result: (Removals, Vec<FormattedRow>))
        requires
            old(self).wf(),
            old(self).inner().state !is Terminal,
        ensures
            final(self).wf(),
            ({
                let base = old(self).inner();
                let (state, made) = rows_made(base, chunk_views(chunks@));
                let all = base.notes + row_notes(made);
                let gone = excess(all, base.limits);
                &&& 0 <= gone <= all.len()
                &&& final(self).inner() == DisplayView {
                    notes: all.skip(gone),
                    partial_visible: has_open_row(state),
                    limited: base.limited || cut_a_line(state) || gone > 0,
                    state,
                    ..base
                }
                &&& removals_match(result.0, base.notes.len() as int, gone)
                &&& row_views(result.1@) == plain_rows(made)
            }),
    {
        let ghost base = self.inner();
        let ghost staying = base.notes;
        let ghost views = chunk_views(chunks@);
        let existing: usize = self.queue.len();
        let mut removals = Removals {
            retained_existing: existing,
            removed_existing: 0,
            removed_new: 0,
        };
        let mut rows: Vec<FormattedRow> = Vec::new();
        proof {
            assert(views.take(0) == Seq::<ChunkView>::empty());
            progress_begins(base, staying);
            assert(row_views(rows@) == plain_rows(completed_rows(base, views.take(0)).1));
        }
        let mut i: usize = 0;
        while i < chunks.len()
            invariant
                i <= chunks.len(),
                views == chunk_views(chunks@),
                base.state !is Terminal,
                self.parts_agree(),
                existing == staying.len(),
                self.inner() == progress(base, staying, views.take(i as int)),
                row_views(rows@) == plain_rows(completed_rows(base, views.take(i as int)).1),
                removals_match(
                    removals,
                    staying.len() as int,
                    leaving(base, staying, views.take(i as int)),
                ),
            decreases chunks.len() - i,
        {
            let ghost done = views.take(i as int);
            let ghost chunk = views[i as int];
            proof {
                assert(views.take(i + 1) == done.push(chunk));
                progress_step(base, staying, done, chunk);
            }
            self.push_chunk(&chunks[i], &mut rows);
            assert(row_views(rows@).len() == rows.len());
            self.limit_rows(&mut removals);
            i += 1;
        }
        assert(views.take(i as int) == views);
        proof {
            progress_ends(base, staying, views);
        }
        self.push_partial_row(&mut rows);
        assert(row_views(rows@).len() == rows.len());
        self.limit_rows(&mut removals);
        (removals, rows)
    }

    /// Rows leave at the start until the rest is within the limits.
    fn limit_rows(&mut self, removals: &mut Removals)
        requires
            old(self).parts_agree(),
            old(removals).retained_existing <= old(self).inner().notes.len(),
            old(removals).removed_existing + old(removals).retained_existing <= usize::MAX,
            old(removals).removed_new + old(self).inner().notes.len()
                - old(removals).retained_existing <= usize::MAX,
        ensures
            final(self).wf(),
            ({
                let before = old(self).inner();
                let gone = excess(before.notes, before.limits);
                let existing = min(gone, old(removals).retained_existing as int);
                &&& final(self).inner() == DisplayView {
                    notes: before.notes.skip(gone),
                    limited: before.limited || gone > 0,
                    ..before
                }
                &&& final(removals).retained_existing == old(removals).retained_existing - existing
                &&& final(removals).removed_existing == old(removals).removed_existing + existing
                &&& final(removals).removed_new == old(removals).removed_new + gone - existing
            }),
    {
        let limits = self.limits;
        proof {
            excess_bounds(self.queue.notes(), limits);
        }
        let limited = self.queue.enforce_display_limits(removals, limits);
        self.limited = self.limited || limited;
    }

    /// Draws chunks on the terminal screen.
    fn apply_terminal_chunks(&mut self, chunks: &Vec<RxChunk>) -> (update: (
        usize,
        usize,
        Vec<FormattedRow>,
    ))
        requires
            old(self).wf(),
            old(self).inner().state is Terminal,
        ensures
            final(self).wf(),
            ({
                let before = old(self).inner();
                let after = before.state->Terminal_0.updated(
                    before.encoding,
                    screen_limits(before.limits),
                    chunk_views(chunks@),
                );
                let change = screen_update(after.screen, old(self).screen_rows());
                &&& final(self).inner() == DisplayView {
                    state: RowState::Terminal(after),
                    limited: before.limited || after.limited,
                    ..before
                }
                &&& final(self).screen_rows() == after.screen.rendered_len()
                &&& update.0 == change.remove_prefix
                &&& update.1 == change.replace_tail
                &&& row_views(update.2@) == change.rows
            }),
    {
        let limits = self.limits;
        match &mut self.state {
            DisplayFormatterState::Terminal(state) => {
                let update = state.apply_chunks(
                    chunks,
                    limits.max_rows,
                    limits.max_text_bytes,
                    limits.max_line_bytes,
                );
                self.limited = self.limited || state.is_limited();
                (update.remove_prefix, update.replace_tail, update.rows)
            },
            _ => {
                let rows: Vec<FormattedRow> = Vec::new();
                (0, 0, rows)
            },
        }
    }
}

/// The limits of the display, for a screen.
pub open spec fn screen_limits(limits: DisplayLimits) -> ScreenLimits {
    ScreenLimits {
        max_rows: limits.max_rows,
        max_text_bytes: limits.max_text_bytes,
        max_line_bytes: limits.max_line_bytes,
    }
}

/// The rows that an update adds are within the limit of a line.
proof fn changed_lines_fit(view: DisplayView, first: u64, chunks: Seq<ChunkView>)
    requires
        view.state is Text,
    ensures
        ({
            let rows = view.change(first, chunks).rows;
            forall|i: int|
                0 <= i < rows.len() ==> text_bytes((#[trigger] rows[i]).text) <= line_bound(
                    view.limits.max_line_bytes,
                )
        }),
{
    if chunks.len() > 0 {
        displayed_lines_stay_short(view, chunks);
        let made = rows_made(view, chunks).1;
        let all = view.staying(first, true) + row_notes(made);
        let new = max(excess(all, view.limits) - view.staying(first, true).len(), 0);
        excess_bounds(all, view.limits);
        let rows = view.change(first, chunks).rows;
        assert forall|i: int| 0 <= i < rows.len() implies text_bytes((#[trigger] rows[i]).text)
            <= line_bound(view.limits.max_line_bytes) by {
            assert(rows[i] == made[new + i].row);
        }
    }
}

proof fn fresh_hex_modulo(skipped: nat, all: nat)
    requires
        skipped == all % 16,
    ensures
        fresh_hex(skipped) == fresh_hex(all),
{
}

pub proof fn excess_of_fewer(notes: Seq<RowNote>, gone: int, limits: DisplayLimits)
    requires
        excess(notes, limits) == 0,
        0 <= gone <= notes.len(),
    ensures
        excess(notes.skip(gone), limits) == 0,
        notes.skip(gone).len() > 0 ==> excess(notes.skip(gone).drop_last(), limits) == 0,
{
    let rest = notes.skip(gone);
    assert(notes == notes.take(gone) + rest);
    noted_bytes_concat(notes.take(gone), rest);
    excess_bounds(notes, limits);
    assert(notes.skip(0) == notes);
}

/// The number of rows that have to leave after some of the chunks.
spec fn leaving(base: DisplayView, staying: Seq<RowNote>, done: Seq<ChunkView>) -> int {
    excess(staying + row_notes(completed_rows(base, done).1), base.limits)
}

/// A formatter without its open row, after some of the chunks.
spec fn progress(base: DisplayView, staying: Seq<RowNote>, done: Seq<ChunkView>) -> DisplayView {
    let (state, made) = completed_rows(base, done);
    let all = staying + row_notes(made);
    DisplayView {
        notes: all.skip(excess(all, base.limits)),
        limited: base.limited || cut_a_line(state) || excess(all, base.limits) > 0,
        state,
        ..base
    }
}

proof fn progress_begins(base: DisplayView, staying: Seq<RowNote>)
    requires
        base.state !is Terminal,
        base.notes == staying,
        excess(staying, base.limits) == 0,
        cut_a_line(base.state) ==> base.limited,
    ensures
        progress(base, staying, Seq::empty()) == base,
        leaving(base, staying, Seq::empty()) == 0,
{
    assert(staying + row_notes(Seq::empty()) == staying);
    assert(staying.skip(0) == staying);
}

proof fn progress_step(
    base: DisplayView,
    staying: Seq<RowNote>,
    done: Seq<ChunkView>,
    chunk: ChunkView,
)
    requires
        base.state !is Terminal,
    ensures
        ({
            let before = progress(base, staying, done);
            let (state, more) = chunk_rows(before, chunk);
            let notes = before.notes + row_notes(more);
            let gone = excess(notes, base.limits);
            let made = completed_rows(base, done).1;
            &&& progress(base, staying, done.push(chunk)) == DisplayView {
                notes: notes.skip(gone),
                limited: before.limited || cut_a_line(state) || gone > 0,
                state,
                ..before
            }
            &&& leaving(base, staying, done.push(chunk)) == leaving(base, staying, done) + gone
            &&& 0 <= leaving(base, staying, done) <= staying.len() + made.len()
            &&& notes.len() == staying.len() + made.len() + more.len() - leaving(
                base,
                staying,
                done,
            )
            &&& 0 <= gone <= notes.len()
            &&& completed_rows(base, done.push(chunk)).1 == made + more
            &&& plain_rows(made + more) == plain_rows(made) + plain_rows(more)
            &&& plain_rows(made + more).len() == made.len() + more.len()
        }),
{
    let limits = base.limits;
    let (state, made) = completed_rows(base, done);
    let (after, more) = chunk_rows(DisplayView { state, ..base }, chunk);
    let all = staying + row_notes(made);
    let gone = excess(all, limits);
    completed_rows_push(base, done, chunk);
    row_notes_concat(made, more);
    excess_bounds(all, limits);
    excess_extends(all, row_notes(more), limits);
    assert(all + row_notes(more) == staying + row_notes(made + more));
    let notes = all.skip(gone) + row_notes(more);
    excess_bounds(notes, limits);
    assert(notes.skip(excess(notes, limits)) == (all + row_notes(more)).skip(
        gone + excess(notes, limits),
    ));
}

proof fn progress_ends(base: DisplayView, staying: Seq<RowNote>, done: Seq<ChunkView>)
    requires
        base.state !is Terminal,
    ensures
        ({
            let before = progress(base, staying, done);
            let open = open_row(before.state);
            let notes = before.notes + row_notes(open);
            let gone = excess(notes, base.limits);
            let (state, made) = completed_rows(base, done);
            let all = staying + row_notes(rows_made(base, done).1);
            &&& before.state == state
            &&& excess(all, base.limits) == leaving(base, staying, done) + gone
            &&& all.skip(excess(all, base.limits)) == notes.skip(gone)
            &&& 0 <= leaving(base, staying, done) <= staying.len() + made.len()
            &&& notes.len() == staying.len() + made.len() + open.len() - leaving(
                base,
                staying,
                done,
            )
            &&& 0 <= gone <= notes.len()
            &&& plain_rows(made + open) == plain_rows(made) + plain_rows(open)
            &&& plain_rows(made + open).len() == made.len() + open.len()
        }),
{
    let limits = base.limits;
    let (state, made) = completed_rows(base, done);
    let open = open_row(state);
    let all = staying + row_notes(made);
    let gone = excess(all, limits);
    row_notes_concat(made, open);
    excess_bounds(all, limits);
    excess_extends(all, row_notes(open), limits);
    assert(all + row_notes(open) == staying + row_notes(made + open));
    let notes = all.skip(gone) + row_notes(open);
    excess_bounds(notes, limits);
    assert(notes.skip(excess(notes, limits)) == (all + row_notes(open)).skip(
        gone + excess(notes, limits),
    ));
}

spec fn removals_match(removals: Removals, existing: int, gone: int) -> bool {
    &&& removals.removed_existing == min(gone, existing)
    &&& removals.retained_existing == existing - min(gone, existing)
    &&& removals.removed_new == max(gone - existing, 0)
}

/// A formatter has taken in chunks and tells how the display changes: `cursor` is where the stream
/// goes on, `first` is the oldest chunk in the buffer.
#[verifier::opaque]
pub open spec fn followed(
    before: DisplayFormatter,
    after: DisplayFormatter,
    cursor: ReceiveCursor,
    first: u64,
    chunks: Seq<ChunkView>,
    update: UpdateView,
) -> bool {
    let view = before.inner();
    match view.state {
        RowState::Terminal(state) => {
            let updated = state.updated(view.encoding, screen_limits(view.limits), chunks);
            &&& after.inner() == DisplayView {
                cursor,
                state: RowState::Terminal(updated),
                limited: view.limited || updated.limited,
                ..view
            }
            &&& after.screen_rows() == updated.screen.rendered_len()
            &&& update == screen_update(updated.screen, before.screen_rows())
        },
        _ => {
            &&& after.inner() == view.applied(cursor, first, chunks)
            &&& update == view.change(first, chunks)
        },
    }
}

/// A formatter and its rows right after a display was made from a snapshot.
pub open spec fn rebuilt(
    formatter: DisplayFormatter,
    rows: Seq<RowView>,
    snapshot: ReceiveSnapshot,
    mode: ReceiveMode,
    encoding: TextEncoding,
    limits: DisplayLimits,
) -> bool {
    let cursor = ReceiveCursor {
        stream_id: snapshot.stream_id,
        next_sequence: snapshot.next_sequence,
    };
    let chunks = chunk_views(snapshot.chunks@);
    let fresh = DisplayView {
        mode,
        encoding,
        cursor,
        notes: Seq::empty(),
        partial_visible: false,
        limited: snapshot.omitted_bytes != 0,
        limits,
        state: formatter.inner().state,
    };
    match mode {
        ReceiveMode::Text => {
            let start = DisplayView { state: RowState::Text(fresh_text()), ..fresh };
            &&& formatter.inner() == start.applied(cursor, snapshot.first_sequence, chunks)
            &&& rows == start.change(snapshot.first_sequence, chunks).rows
        },
        ReceiveMode::Hex => {
            let skipped = (snapshot.dropped_bytes + snapshot.omitted_bytes) as nat;
            let start = DisplayView { state: RowState::Hex(fresh_hex(skipped)), ..fresh };
            &&& formatter.inner() == start.applied(cursor, snapshot.first_sequence, chunks)
            &&& rows == start.change(snapshot.first_sequence, chunks).rows
        },
        ReceiveMode::Terminal => exists|at: Timestamp| #[trigger]
            at.is_epoch() && {
                let after = fresh_terminal(at).updated(encoding, screen_limits(limits), chunks);
                &&& formatter.inner() == DisplayView {
                    state: RowState::Terminal(after),
                    limited: fresh.limited || after.limited,
                    ..fresh
                }
                &&& formatter.screen_rows() == after.screen.rendered_len()
                &&& rows == screen_update(after.screen, 0).rows
            },
    }
}

} // verus!
