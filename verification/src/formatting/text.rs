//! Decoded text as lines.
//!
//! A carriage return, a line feed, or one of each in this order ends a line. A line counts as
//! received when its first byte arrived.

use std::collections::VecDeque;

use vstd::prelude::*;

use crate::chars::{byte_len, chars_of, string_of, tail_start, tail_within, text_bytes};
use crate::encoding::{added_text, StreamDecoder};
use crate::formatting::rows::{
    ended_in, plain_rows, row_views, EndedRow, FormattedRow, RowView,
};
use crate::model::TextEncoding;
use crate::store::{ChunkView, RxChunk};
use crate::timestamp::Timestamp;

verus! {

/// The line that is still open, and what is known about it.
#[verifier::ext_equal]
pub struct LineState {
    /// The characters of the open line.
    pub current: Seq<char>,
    /// When its first byte arrived.
    pub started_at: Option<Timestamp>,
    /// The chunk that its last character came from.
    pub end_sequence: Option<u64>,
    /// The last line was ended by a carriage return, so a line feed right after it adds nothing.
    pub skip_lf: bool,
}

pub open spec fn fresh_line() -> LineState {
    LineState {
        current: Seq::empty(),
        started_at: None,
        end_sequence: None,
        skip_lf: false,
    }
}

/// The time of the open line, or that of the character that ends it.
pub open spec fn line_time(state: LineState, fallback: Timestamp) -> Timestamp {
    match state.started_at {
        Some(at) => at,
        None => fallback,
    }
}

/// The open line with one more character, and the line that the character ends, if it does.
pub open spec fn push_char(state: LineState, c: char, at: Timestamp, sequence: u64) -> (
    LineState,
    Option<RowView>,
) {
    if state.skip_lf && c == '\n' {
        (LineState { skip_lf: false, ..state }, None)
    } else if c == '\r' || c == '\n' {
        (
            LineState { skip_lf: c == '\r', ..fresh_line() },
            Some(RowView { received_at: line_time(state, at), text: state.current }),
        )
    } else {
        (
            LineState {
                current: state.current.push(c),
                started_at: Some(line_time(state, at)),
                end_sequence: Some(sequence),
                skip_lf: false,
            },
            None,
        )
    }
}

/// The open line after a text, and the lines that the text ends.
pub open spec fn push_text(
    state: LineState,
    text: Seq<char>,
    at: Timestamp,
    sequence: u64,
) -> (LineState, Seq<RowView>)
    decreases text.len(),
{
    if text.len() == 0 {
        (state, Seq::empty())
    } else {
        let (before, rows) = push_text(state, text.drop_last(), at, sequence);
        let (after, row) = push_char(before, text.last(), at, sequence);
        (
            after,
            match row {
                Some(row) => rows.push(row),
                None => rows,
            },
        )
    }
}

/// Bytes that arrive while no line is open give the next line its time, unless they may still
/// belong to the end of the last one.
pub open spec fn note_input(state: LineState, at: Timestamp) -> LineState {
    if state.started_at is None && !state.skip_lf {
        LineState { started_at: Some(at), ..state }
    } else {
        state
    }
}

/// A line of more than `max_bytes` bytes keeps its end, after an ellipsis.
pub open spec fn bounded_line(line: Seq<char>, max_bytes: nat) -> Seq<char> {
    if text_bytes(line) <= max_bytes {
        line
    } else {
        seq!['…'] + tail_within(line, max_bytes / 2)
    }
}

/// A row whose line is too long keeps the end of it, and counts as received when that end was.
pub open spec fn bounded_row(row: RowView, max_bytes: nat, at: Timestamp) -> RowView {
    if text_bytes(row.text) <= max_bytes {
        row
    } else {
        RowView { received_at: at, text: bounded_line(row.text, max_bytes) }
    }
}

pub open spec fn bounded_rows(rows: Seq<RowView>, max_bytes: nat, at: Timestamp) -> Seq<RowView> {
    Seq::new(rows.len(), |i: int| bounded_row(rows[i], max_bytes, at))
}

/// One of the lines is too long.
pub open spec fn has_long_row(rows: Seq<RowView>, max_bytes: nat) -> bool {
    exists|i: int| 0 <= i < rows.len() && text_bytes((#[trigger] rows[i]).text) > max_bytes
}

/// The state of a text formatter: the bytes so far, the open line, and whether a line was cut.
#[verifier::ext_equal]
pub struct TextState {
    pub input: Seq<u8>,
    pub line: LineState,
    pub line_limited: bool,
}

pub open spec fn fresh_text() -> TextState {
    TextState { input: Seq::empty(), line: fresh_line(), line_limited: false }
}

/// The state after a chunk, and the lines that end in it.
pub open spec fn push_text_chunk(
    state: TextState,
    encoding: TextEncoding,
    max_line_bytes: nat,
    chunk: ChunkView,
) -> (TextState, Seq<RowView>) {
    let noted = if chunk.bytes.len() > 0 {
        note_input(state.line, chunk.received_at)
    } else {
        state.line
    };
    let text = added_text(encoding, state.input, chunk.bytes);
    let (line, rows) = push_text(noted, text, chunk.received_at, chunk.sequence);
    let too_long = text_bytes(line.current) > max_line_bytes;
    (
        TextState {
            input: state.input + chunk.bytes,
            line: LineState {
                current: bounded_line(line.current, max_line_bytes),
                started_at: if too_long {
                    Some(chunk.received_at)
                } else {
                    line.started_at
                },
                ..line
            },
            line_limited: state.line_limited || too_long || has_long_row(rows, max_line_bytes),
        },
        bounded_rows(rows, max_line_bytes, chunk.received_at),
    )
}

/// The state after a row of chunks, and the lines that end in them.
pub open spec fn push_text_chunks(
    state: TextState,
    encoding: TextEncoding,
    max_line_bytes: nat,
    chunks: Seq<ChunkView>,
) -> (TextState, Seq<EndedRow>)
    decreases chunks.len(),
{
    if chunks.len() == 0 {
        (state, Seq::empty())
    } else {
        let (before, rows) = push_text_chunks(state, encoding, max_line_bytes, chunks.drop_last());
        let (after, more) = push_text_chunk(before, encoding, max_line_bytes, chunks.last());
        (after, rows + ended_in(more, chunks.last().sequence))
    }
}

/// The open line as a row, if there is anything in it.
pub open spec fn partial_row(line: LineState) -> Seq<EndedRow> {
    if line.current.len() == 0 {
        Seq::empty()
    } else {
        seq![
            (EndedRow {
                row: RowView { received_at: line.started_at->0, text: line.current },
                end_sequence: line.end_sequence->0,
            }),
        ]
    }
}

/// A line with text knows its time and where it ends.
pub open spec fn line_wf(line: LineState) -> bool {
    line.current.len() > 0 ==> line.started_at is Some && line.end_sequence is Some
}

pub proof fn push_text_keeps_wf(state: LineState, text: Seq<char>, at: Timestamp, sequence: u64)
    requires
        line_wf(state),
    ensures
        line_wf(push_text(state, text, at, sequence).0),
    decreases text.len(),
{
    if text.len() > 0 {
        push_text_keeps_wf(state, text.drop_last(), at, sequence);
    }
}

/// A text in two parts ends the lines that it ends as a whole.
pub proof fn push_text_concat(
    state: LineState,
    a: Seq<char>,
    b: Seq<char>,
    at: Timestamp,
    sequence: u64,
)
    ensures
        ({
            let first = push_text(state, a, at, sequence);
            let second = push_text(first.0, b, at, sequence);
            push_text(state, a + b, at, sequence) == (second.0, first.1 + second.1)
        }),
    decreases b.len(),
{
    if b.len() == 0 {
        assert(a + b == a);
    } else {
        assert((a + b).drop_last() == a + b.drop_last());
        push_text_concat(state, a, b.drop_last(), at, sequence);
        let first = push_text(state, a, at, sequence);
        let second = push_text(first.0, b, at, sequence);
        assert(push_text(state, a + b, at, sequence).1 == first.1 + second.1);
    }
}

/// Chunks in two batches end the lines that they end in one.
pub proof fn push_text_chunks_concat(
    state: TextState,
    encoding: TextEncoding,
    max_line_bytes: nat,
    a: Seq<ChunkView>,
    b: Seq<ChunkView>,
)
    ensures
        ({
            let first = push_text_chunks(state, encoding, max_line_bytes, a);
            let second = push_text_chunks(first.0, encoding, max_line_bytes, b);
            push_text_chunks(state, encoding, max_line_bytes, a + b) == (
                second.0,
                first.1 + second.1,
            )
        }),
    decreases b.len(),
{
    if b.len() == 0 {
        assert(a + b == a);
    } else {
        assert((a + b).drop_last() == a + b.drop_last());
        push_text_chunks_concat(state, encoding, max_line_bytes, a, b.drop_last());
        let first = push_text_chunks(state, encoding, max_line_bytes, a);
        let second = push_text_chunks(first.0, encoding, max_line_bytes, b);
        assert(push_text_chunks(state, encoding, max_line_bytes, a + b).1 == first.1 + second.1);
    }
}

/// Turns chunks into lines as they arrive.
pub struct IncrementalTextFormatter {
    decoder: StreamDecoder,
    lines: TextLines,
    max_line_bytes: usize,
    line_limited: bool,
    partial_visible: bool,
}

/// Splits text into lines.
pub(crate) struct TextLines {
    current: String,
    started_at: Option<Timestamp>,
    end_sequence: Option<u64>,
    skip_lf: bool,
}

impl TextLines {
    pub(crate) closed spec fn state(self) -> LineState {
        LineState {
            current: self.current@,
            started_at: self.started_at,
            end_sequence: self.end_sequence,
            skip_lf: self.skip_lf,
        }
    }

    pub(crate) fn new() -> (lines: Self)
        ensures
            lines.state() == fresh_line(),
    {
        TextLines {
            current: String::new(),
            started_at: None,
            end_sequence: None,
            skip_lf: false,
        }
    }

    pub(crate) fn note_input(&mut self, at: Timestamp)
        ensures
            final(self).state() == note_input(old(self).state(), at),
    {
        if self.started_at.is_none() && !self.skip_lf {
            self.started_at = Some(at);
        }
    }

    /// Adds the lines that `text` ends to `rows`.
    pub(crate) fn push_text(
        &mut self,
        text: &str,
        at: Timestamp,
        sequence: u64,
        rows: &mut Vec<FormattedRow>,
    )
        ensures
            final(self).state() == push_text(old(self).state(), text@, at, sequence).0,
            row_views(final(rows)@) == row_views(old(rows)@) + push_text(
                old(self).state(),
                text@,
                at,
                sequence,
            ).1,
    {
        for c in it: text.chars()
            invariant
                it.seq() == text@,
                self.state() == push_text(
                    old(self).state(),
                    text@.take(it.index()),
                    at,
                    sequence,
                ).0,
                row_views(rows@) == row_views(old(rows)@) + push_text(
                    old(self).state(),
                    text@.take(it.index()),
                    at,
                    sequence,
                ).1,
        {
            let ghost before = self.state();
            let ghost rows_before = rows@;
            assert(text@.take(it.index() + 1).drop_last() == text@.take(it.index()));
            if self.skip_lf && c == '\n' {
                self.skip_lf = false;
            } else if c == '\r' || c == '\n' {
                self.push_row(at, rows);
                self.skip_lf = c == '\r';
            } else {
                self.skip_lf = false;
                if self.started_at.is_none() {
                    self.started_at = Some(at);
                }
                self.current.push(c);
                self.end_sequence = Some(sequence);
            }
            proof {
                let step = push_char(before, c, at, sequence);
                assert(self.state() == step.0);
                assert(row_views(rows@) == match step.1 {
                    Some(row) => row_views(rows_before).push(row),
                    None => row_views(rows_before),
                });
            }
        }
        assert(text@.take(text@.len() as int) == text@);
    }

    /// The open line becomes a row, if there is anything in it.
    pub(crate) fn finish(self, rows: &mut Vec<FormattedRow>)
        requires
            line_wf(self.state()),
        ensures
            row_views(final(rows)@) == row_views(old(rows)@) + plain_rows(
                partial_row(self.state()),
            ),
    {
        if !self.current.as_str().is_empty() {
            rows.push(FormattedRow { received_at: self.started_at.unwrap(), text: self.current });
        }
        assert(row_views(rows@) == row_views(old(rows)@) + plain_rows(partial_row(self.state())));
    }

    /// Moves the open line to `rows`.
    fn push_row(&mut self, fallback: Timestamp, rows: &mut Vec<FormattedRow>)
        ensures
            final(self).state() == (LineState { skip_lf: old(self).skip_lf, ..fresh_line() }),
            row_views(final(rows)@) == row_views(old(rows)@).push(
                RowView {
                    received_at: line_time(old(self).state(), fallback),
                    text: old(self).state().current,
                },
            ),
    {
        let received_at = match self.started_at {
            Some(at) => at,
            None => fallback,
        };
        let mut text = String::new();
        std::mem::swap(&mut text, &mut self.current);
        rows.push(FormattedRow { received_at, text });
        self.started_at = None;
        self.end_sequence = None;
        assert(row_views(rows@) == row_views(old(rows)@).push(
            RowView {
                received_at: line_time(old(self).state(), fallback),
                text: old(self).state().current,
            },
        ));
    }
}

/// The number of bytes that a line may have, at least a few.
pub open spec fn line_bound(max_line_bytes: usize) -> nat {
    if max_line_bytes < 16 {
        16
    } else {
        max_line_bytes as nat
    }
}

/// Rows are pushed to the end of a queue of chunk numbers.
pub open spec fn end_sequences(rows: Seq<EndedRow>) -> Seq<u64> {
    Seq::new(rows.len(), |i: int| rows[i].end_sequence)
}

impl IncrementalTextFormatter {
    pub closed spec fn state(self) -> TextState {
        TextState {
            input: self.decoder.input(),
            line: self.lines.state(),
            line_limited: self.line_limited,
        }
    }

    pub closed spec fn encoding(self) -> TextEncoding {
        self.decoder.encoding()
    }

    pub closed spec fn bound(self) -> nat {
        self.max_line_bytes as nat
    }

    pub closed spec fn shows_partial(self) -> bool {
        self.partial_visible
    }

    pub closed spec fn wf(self) -> bool {
        line_wf(self.lines.state())
    }

    pub fn new(encoding: TextEncoding, max_line_bytes: usize) -> (formatter: Self)
        ensures
            formatter.wf(),
            formatter.state() == fresh_text(),
            formatter.encoding() == encoding,
            formatter.bound() == line_bound(max_line_bytes),
            !formatter.shows_partial(),
    {
        IncrementalTextFormatter {
            decoder: StreamDecoder::new(encoding),
            lines: TextLines::new(),
            max_line_bytes: if max_line_bytes < 16 {
                16
            } else {
                max_line_bytes
            },
            line_limited: false,
            partial_visible: false,
        }
    }

    pub fn is_line_limited(&self) -> (limited: bool)
        ensures
            limited == self.state().line_limited,
    {
        self.line_limited
    }

    pub fn is_partial_visible(&self) -> (visible: bool)
        ensures
            visible == self.shows_partial(),
    {
        self.partial_visible
    }

    /// The row of the open line is about to be shown anew.
    pub fn withdraw_partial(&mut self)
        requires
            old(self).wf(),
        ensures
            final(self).wf(),
            final(self).encoding() == old(self).encoding(),
            final(self).bound() == old(self).bound(),
            final(self).state() == old(self).state(),
            !final(self).shows_partial(),
    {
        self.partial_visible = false;
    }

    /// Adds the lines that end in the chunk to `rows`, and the number of the chunk for each of
    /// them to `row_end_sequences`.
    pub fn push_chunk(
        &mut self,
        chunk: &RxChunk,
        rows: &mut Vec<FormattedRow>,
        row_end_sequences: &mut VecDeque<u64>,
    )
        requires
            old(self).wf(),
        ensures
            final(self).wf(),
            final(self).encoding() == old(self).encoding(),
            final(self).bound() == old(self).bound(),
            final(self).shows_partial() == old(self).shows_partial(),
            ({
                let (state, new_rows) = push_text_chunk(
                    old(self).state(),
                    old(self).encoding(),
                    old(self).bound(),
                    chunk@,
                );
                &&& final(self).state() == state
                &&& row_views(final(rows)@) == row_views(old(rows)@) + new_rows
                &&& final(row_end_sequences)@ == old(row_end_sequences)@ + end_sequences(
                    ended_in(new_rows, chunk.sequence),
                )
            }),
    {
        if chunk.bytes.len() > 0 {
            self.lines.note_input(chunk.received_at);
        }
        let ghost noted = self.lines.state();
        let decoded = self.decoder.push(&*chunk.bytes);
        let first_new: usize = rows.len();
        self.lines.push_text(decoded.as_str(), chunk.received_at, chunk.sequence, rows);
        let ghost text = added_text(old(self).encoding(), old(self).state().input, chunk@.bytes);
        let ghost new_rows = push_text(noted, text, chunk.received_at, chunk.sequence).1;
        proof {
            push_text_keeps_wf(noted, text, chunk.received_at, chunk.sequence);
            assert(row_views(rows@).len() == rows@.len());
        }
        push_numbers(row_end_sequences, rows.len() - first_new, chunk.sequence);
        let ghost all_rows = row_views(rows@);
        if trim_rows(rows, first_new, self.max_line_bytes, chunk.received_at) {
            self.line_limited = true;
        }
        self.trim_current_line(chunk.received_at);
        proof {
            let bounded = bounded_rows(new_rows, self.bound(), chunk.received_at);
            assert(all_rows.skip(first_new as int) == new_rows);
            assert(all_rows.take(first_new as int) == row_views(old(rows)@));
            assert(end_sequences(ended_in(bounded, chunk.sequence)) == end_sequences(
                ended_in(new_rows, chunk.sequence),
            ));
        }
    }

    fn trim_current_line(&mut self, at: Timestamp)
        requires
            old(self).wf(),
        ensures
            final(self).wf(),
            final(self).encoding() == old(self).encoding(),
            final(self).bound() == old(self).bound(),
            final(self).shows_partial() == old(self).shows_partial(),
            ({
                let line = old(self).state().line;
                let too_long = text_bytes(line.current) > old(self).bound();
                final(self).state() == TextState {
                    line: LineState {
                        current: bounded_line(line.current, old(self).bound()),
                        started_at: if too_long {
                            Some(at)
                        } else {
                            line.started_at
                        },
                        ..line
                    },
                    line_limited: old(self).state().line_limited || too_long,
                    ..old(self).state()
                }
            }),
    {
        if let Some(line) = cut_line(self.lines.current.as_str(), self.max_line_bytes) {
            self.lines.current = line;
            self.lines.started_at = Some(at);
            self.line_limited = true;
        }
    }

    /// Adds the open line as a row, if there is anything in it.
    pub fn push_partial_row(
        &mut self,
        rows: &mut Vec<FormattedRow>,
        row_end_sequences: &mut VecDeque<u64>,
    )
        requires
            old(self).wf(),
        ensures
            final(self).wf(),
            final(self).encoding() == old(self).encoding(),
            final(self).bound() == old(self).bound(),
            final(self).state() == old(self).state(),
            final(self).shows_partial() == (old(self).state().line.current.len() > 0),
            ({
                let partial = partial_row(old(self).state().line);
                &&& row_views(final(rows)@) == row_views(old(rows)@) + plain_rows(partial)
                &&& final(row_end_sequences)@ == old(row_end_sequences)@ + end_sequences(partial)
            }),
    {
        if self.lines.current.as_str().is_empty() {
            self.partial_visible = false;
            return ;
        }
        rows.push(
            FormattedRow {
                received_at: self.lines.started_at.unwrap(),
                text: self.lines.current.clone(),
            },
        );
        row_end_sequences.push_back(self.lines.end_sequence.unwrap());
        self.partial_visible = true;
        proof {
            let partial = partial_row(old(self).state().line);
            assert(row_views(rows@) == row_views(old(rows)@) + plain_rows(partial));
            assert(row_end_sequences@ == old(row_end_sequences)@ + end_sequences(partial));
        }
    }
}

/// The end of a line that is too long, after an ellipsis; `None` for a line that is not.
fn cut_line(line: &str, max_bytes: usize) -> (cut: Option<String>)
    ensures
        cut is Some <==> text_bytes(line@) > max_bytes,
        cut matches Some(cut) ==> cut@ == bounded_line(line@, max_bytes as nat),
{
    if byte_len(line) <= max_bytes {
        return None;
    }
    let chars = chars_of(line);
    let start: usize = tail_start(&chars, max_bytes / 2);
    let mut cut = String::new();
    cut.push('…');
    let tail = string_of(vstd::slice::slice_subrange(chars.as_slice(), start, chars.len()));
    cut.append(tail.as_str());
    assert(cut@ == seq!['…'] + chars@.skip(start as int));
    Some(cut)
}

/// Cuts the rows from `from` on whose lines are too long, and tells whether there are any.
fn trim_rows(rows: &mut Vec<FormattedRow>, from: usize, max_bytes: usize, at: Timestamp) -> (trimmed:
    bool)
    requires
        from <= old(rows)@.len(),
    ensures
        trimmed == has_long_row(row_views(old(rows)@).skip(from as int), max_bytes as nat),
        row_views(final(rows)@) == row_views(old(rows)@).take(from as int) + bounded_rows(
            row_views(old(rows)@).skip(from as int),
            max_bytes as nat,
            at,
        ),
{
    let ghost all = row_views(rows@);
    let ghost new = all.skip(from as int);
    let mut trimmed = false;
    let mut i: usize = from;
    while i < rows.len()
        invariant
            from <= i <= rows@.len(),
            rows@.len() == all.len(),
            new == all.skip(from as int),
            forall|k: int| 0 <= k < from || i <= k < all.len() ==> (#[trigger] rows@[k])@ == all[k],
            forall|k: int|
                from <= k < i ==> (#[trigger] rows@[k])@ == bounded_row(
                    all[k],
                    max_bytes as nat,
                    at,
                ),
            trimmed == has_long_row(new.take(i - from), max_bytes as nat),
        decreases rows@.len() - i,
    {
        let ghost done = new.take(i - from);
        assert(new.take(i - from + 1) == done.push(all[i as int]));
        assert(forall|k: int| 0 <= k < done.len() ==> done.push(all[i as int])[k] == done[k]);
        assert(done.push(all[i as int])[done.len() as int] == all[i as int]);
        if let Some(text) = cut_line(rows[i].text.as_str(), max_bytes) {
            rows[i] = FormattedRow { received_at: at, text };
            trimmed = true;
        }
        proof {
            if trimmed && has_long_row(done, max_bytes as nat) {
                let k = choose|k: int|
                    0 <= k < done.len() && text_bytes((#[trigger] done[k]).text) > max_bytes;
                assert(text_bytes(new.take(i - from + 1)[k].text) > max_bytes);
            }
        }
        i += 1;
    }
    assert(new.take(i - from) == new);
    assert(row_views(rows@) == all.take(from as int) + bounded_rows(new, max_bytes as nat, at));
    trimmed
}

/// Adds `count` times the same number to the end of a queue.
pub(crate) fn push_numbers(queue: &mut VecDeque<u64>, count: usize, number: u64)
    ensures
        final(queue)@ == old(queue)@ + Seq::new(count as nat, |i: int| number),
{
    let mut i: usize = 0;
    while i < count
        invariant
            i <= count,
            queue@ == old(queue)@ + Seq::new(i as nat, |j: int| number),
        decreases count - i,
    {
        queue.push_back(number);
        i += 1;
    }
}

} // verus!
