//! Received bytes as rows of sixteen HEX numbers.
//!
//! Rows are aligned to the stream: bytes that are no longer there still count, so the first row
//! may be shorter.

use std::collections::VecDeque;

use vstd::prelude::*;

use crate::formatting::rows::{
    ended_in, plain_rows, row_views, EndedRow, FormattedRow, RowView,
};
use crate::formatting::text::{end_sequences, push_numbers};
use crate::store::{ChunkView, ReceiveSnapshot, RxChunk};
use crate::timestamp::Timestamp;

verus! {

pub const HEX_BYTES_PER_ROW: usize = 16;

/// The digit for a number below sixteen.
pub open spec fn hex_digit(value: int) -> char {
    if value < 10 {
        ('0' as int + value) as char
    } else {
        ('A' as int + (value - 10)) as char
    }
}

/// Two digits for each byte, with a space between bytes.
pub open spec fn hex_text(bytes: Seq<u8>) -> Seq<char>
    decreases bytes.len(),
{
    if bytes.len() == 0 {
        Seq::empty()
    } else {
        let before = if bytes.len() == 1 {
            Seq::empty()
        } else {
            hex_text(bytes.drop_last()).push(' ')
        };
        before.push(hex_digit(bytes.last() as int / 16)).push(hex_digit(bytes.last() as int % 16))
    }
}

/// The row that is still open.
#[verifier::ext_equal]
pub struct HexState {
    /// Its bytes so far.
    pub current: Seq<u8>,
    /// The number of bytes that complete it.
    pub capacity: nat,
    /// When its first byte arrived.
    pub started_at: Option<Timestamp>,
    /// The chunk that its last byte came from.
    pub end_sequence: Option<u64>,
}

pub open spec fn first_row_capacity(skipped: nat) -> nat {
    (HEX_BYTES_PER_ROW - skipped % (HEX_BYTES_PER_ROW as nat)) as nat
}

/// The state before the first byte of a stream of which `skipped` bytes are missing.
pub open spec fn fresh_hex(skipped: nat) -> HexState {
    HexState {
        current: Seq::empty(),
        capacity: first_row_capacity(skipped),
        started_at: None,
        end_sequence: None,
    }
}

/// The open row with one more byte, and the row that the byte completes, if it does.
pub open spec fn push_byte(state: HexState, byte: u8, at: Timestamp, sequence: u64) -> (
    HexState,
    Option<RowView>,
) {
    let started_at = if state.current.len() == 0 {
        at
    } else {
        state.started_at->0
    };
    let current = state.current.push(byte);
    if current.len() == state.capacity {
        (fresh_hex(0), Some(RowView { received_at: started_at, text: hex_text(current) }))
    } else {
        (
            HexState {
                current,
                started_at: Some(started_at),
                end_sequence: Some(sequence),
                ..state
            },
            None,
        )
    }
}

/// The open row after some bytes, and the rows that they complete.
pub open spec fn push_bytes(state: HexState, bytes: Seq<u8>, at: Timestamp, sequence: u64) -> (
    HexState,
    Seq<RowView>,
)
    decreases bytes.len(),
{
    if bytes.len() == 0 {
        (state, Seq::empty())
    } else {
        let (before, rows) = push_bytes(state, bytes.drop_last(), at, sequence);
        let (after, row) = push_byte(before, bytes.last(), at, sequence);
        (
            after,
            match row {
                Some(row) => rows.push(row),
                None => rows,
            },
        )
    }
}

/// The open row after a row of chunks, and the rows that they complete.
pub open spec fn push_hex_chunks(state: HexState, chunks: Seq<ChunkView>) -> (
    HexState,
    Seq<EndedRow>,
)
    decreases chunks.len(),
{
    if chunks.len() == 0 {
        (state, Seq::empty())
    } else {
        let last = chunks.last();
        let (before, rows) = push_hex_chunks(state, chunks.drop_last());
        let (after, more) = push_bytes(before, last.bytes, last.received_at, last.sequence);
        (after, rows + ended_in(more, last.sequence))
    }
}

/// The open row as it stands, if there is anything in it.
pub open spec fn partial_hex_row(state: HexState) -> Seq<EndedRow> {
    if state.current.len() == 0 {
        Seq::empty()
    } else {
        seq![
            (EndedRow {
                row: RowView { received_at: state.started_at->0, text: hex_text(state.current) },
                end_sequence: state.end_sequence->0,
            }),
        ]
    }
}

/// The open row has room for more, and one with bytes knows its time and where it ends.
pub open spec fn hex_wf(state: HexState) -> bool {
    &&& state.current.len() < state.capacity <= HEX_BYTES_PER_ROW
    &&& state.current.len() > 0 ==> state.started_at is Some && state.end_sequence is Some
}

pub proof fn push_bytes_keeps_wf(state: HexState, bytes: Seq<u8>, at: Timestamp, sequence: u64)
    requires
        hex_wf(state),
    ensures
        hex_wf(push_bytes(state, bytes, at, sequence).0),
    decreases bytes.len(),
{
    if bytes.len() > 0 {
        push_bytes_keeps_wf(state, bytes.drop_last(), at, sequence);
    }
}

/// Bytes in two parts complete the rows that they complete as a whole.
pub proof fn push_bytes_concat(
    state: HexState,
    a: Seq<u8>,
    b: Seq<u8>,
    at: Timestamp,
    sequence: u64,
)
    ensures
        ({
            let first = push_bytes(state, a, at, sequence);
            let second = push_bytes(first.0, b, at, sequence);
            push_bytes(state, a + b, at, sequence) == (second.0, first.1 + second.1)
        }),
    decreases b.len(),
{
    if b.len() == 0 {
        assert(a + b == a);
    } else {
        assert((a + b).drop_last() == a + b.drop_last());
        push_bytes_concat(state, a, b.drop_last(), at, sequence);
        let first = push_bytes(state, a, at, sequence);
        let second = push_bytes(first.0, b, at, sequence);
        assert(push_bytes(state, a + b, at, sequence).1 == first.1 + second.1);
    }
}

/// Chunks in two batches complete the rows that they complete in one.
pub proof fn push_hex_chunks_concat(state: HexState, a: Seq<ChunkView>, b: Seq<ChunkView>)
    ensures
        ({
            let first = push_hex_chunks(state, a);
            let second = push_hex_chunks(first.0, b);
            push_hex_chunks(state, a + b) == (second.0, first.1 + second.1)
        }),
    decreases b.len(),
{
    if b.len() == 0 {
        assert(a + b == a);
    } else {
        assert((a + b).drop_last() == a + b.drop_last());
        push_hex_chunks_concat(state, a, b.drop_last());
        let first = push_hex_chunks(state, a);
        let second = push_hex_chunks(first.0, b);
        assert(push_hex_chunks(state, a + b).1 == first.1 + second.1);
    }
}

/// The bytes that are missing from the start of a snapshot, counted up to a whole row.
pub(crate) fn hex_skipped_bytes_modulo(snapshot: &ReceiveSnapshot) -> (skipped: usize)
    ensures
        skipped == (snapshot.dropped_bytes + snapshot.omitted_bytes) % 16,
{
    ((snapshot.dropped_bytes % 16) as usize + snapshot.omitted_bytes % 16) % 16
}

pub fn hex_first_row_capacity(skipped_bytes_modulo: usize) -> (capacity: usize)
    ensures
        capacity == first_row_capacity(skipped_bytes_modulo as nat),
        1 <= capacity <= HEX_BYTES_PER_ROW,
{
    let skipped: usize = skipped_bytes_modulo % HEX_BYTES_PER_ROW;
    if skipped == 0 {
        HEX_BYTES_PER_ROW
    } else {
        HEX_BYTES_PER_ROW - skipped
    }
}

pub(crate) fn digit(value: u8) -> (c: char)
    requires
        value < 16,
    ensures
        c == hex_digit(value as int),
        c <= '\u{7f}',
{
    if value < 10 {
        (0x30 + value) as char
    } else {
        (0x41 + (value - 10)) as char
    }
}

pub fn format_hex_row(bytes: &[u8]) -> (text: String)
    ensures
        text@ == hex_text(bytes@),
{
    let mut text = String::new();
    let mut i: usize = 0;
    while i < bytes.len()
        invariant
            i <= bytes.len(),
            text@ == hex_text(bytes@.take(i as int)),
        decreases bytes.len() - i,
    {
        assert(bytes@.take(i + 1).drop_last() == bytes@.take(i as int));
        if i != 0 {
            text.push(' ');
        }
        text.push(digit(bytes[i] / 16));
        text.push(digit(bytes[i] % 16));
        i += 1;
    }
    assert(bytes@.take(bytes@.len() as int) == bytes@);
    text
}

/// Turns chunks into HEX rows as they arrive.
pub struct IncrementalHexFormatter {
    current: Vec<u8>,
    capacity: usize,
    started_at: Option<Timestamp>,
    end_sequence: Option<u64>,
    partial_visible: bool,
}

impl IncrementalHexFormatter {
    pub closed spec fn state(self) -> HexState {
        HexState {
            current: self.current@,
            capacity: self.capacity as nat,
            started_at: self.started_at,
            end_sequence: self.end_sequence,
        }
    }

    pub closed spec fn shows_partial(self) -> bool {
        self.partial_visible
    }

    pub open spec fn wf(self) -> bool {
        hex_wf(self.state())
    }

    pub fn new(skipped_bytes_modulo: usize) -> (formatter: Self)
        ensures
            formatter.wf(),
            formatter.state() == fresh_hex(skipped_bytes_modulo as nat),
            !formatter.shows_partial(),
    {
        IncrementalHexFormatter {
            current: Vec::new(),
            capacity: hex_first_row_capacity(skipped_bytes_modulo),
            started_at: None,
            end_sequence: None,
            partial_visible: false,
        }
    }

    pub fn is_partial_visible(&self) -> (visible: bool)
        ensures
            visible == self.shows_partial(),
    {
        self.partial_visible
    }

    /// The open row is about to be shown anew.
    pub fn withdraw_partial(&mut self)
        ensures
            final(self).state() == old(self).state(),
            !final(self).shows_partial(),
    {
        self.partial_visible = false;
    }

    /// Adds the rows that end in the chunk to `rows`, and the number of the chunk for each of
    /// them to `row_end_sequences`.
    pub fn push_chunk(
        &mut self,
        chunk: &RxChunk,
        rows: &mut Vec<FormattedRow>,
        row_end_sequences: &mut VecDeque<u64>,
    )
        requires
            old(self).wf(),
        ensures
            final(self).wf(),
            final(self).shows_partial() == old(self).shows_partial(),
            ({
                let (state, new_rows) = push_bytes(
                    old(self).state(),
                    chunk@.bytes,
                    chunk.received_at,
                    chunk.sequence,
                );
                &&& final(self).state() == state
                &&& row_views(final(rows)@) == row_views(old(rows)@) + new_rows
                &&& final(row_end_sequences)@ == old(row_end_sequences)@ + end_sequences(
                    ended_in(new_rows, chunk.sequence),
                )
            }),
    {
        let bytes: &[u8] = &*chunk.bytes;
        let first_new: usize = rows.len();
        let mut i: usize = 0;
        while i < bytes.len()
            invariant
                i <= bytes.len(),
                bytes@ == chunk@.bytes,
                self.wf(),
                self.shows_partial() == old(self).shows_partial(),
                self.state() == push_bytes(
                    old(self).state(),
                    bytes@.take(i as int),
                    chunk.received_at,
                    chunk.sequence,
                ).0,
                row_views(rows@) == row_views(old(rows)@) + push_bytes(
                    old(self).state(),
                    bytes@.take(i as int),
                    chunk.received_at,
                    chunk.sequence,
                ).1,
            decreases bytes.len() - i,
        {
            assert(bytes@.take(i + 1).drop_last() == bytes@.take(i as int));
            self.push_byte(bytes[i], chunk.received_at, chunk.sequence, rows);
            i += 1;
        }
        assert(bytes@.take(bytes@.len() as int) == bytes@);
        assert(row_views(rows@).len() == rows@.len());
        push_numbers(row_end_sequences, rows.len() - first_new, chunk.sequence);
    }

    fn push_byte(&mut self, byte: u8, at: Timestamp, sequence: u64, rows: &mut Vec<FormattedRow>)
        requires
            old(self).wf(),
        ensures
            final(self).wf(),
            final(self).shows_partial() == old(self).shows_partial(),
            ({
                let (state, row) = push_byte(old(self).state(), byte, at, sequence);
                &&& final(self).state() == state
                &&& row_views(final(rows)@) == match row {
                    Some(row) => row_views(old(rows)@).push(row),
                    None => row_views(old(rows)@),
                }
            }),
    {
        let started_at = match self.started_at {
            Some(started_at) if self.current.len() > 0 => started_at,
            _ => at,
        };
        self.current.push(byte);
        if self.current.len() == self.capacity {
            rows.push(
                FormattedRow {
                    received_at: started_at,
                    text: format_hex_row(self.current.as_slice()),
                },
            );
            self.current.clear();
            self.capacity = HEX_BYTES_PER_ROW;
            self.started_at = None;
            self.end_sequence = None;
            assert(self.state().current == Seq::<u8>::empty());
            assert(row_views(rows@) == row_views(old(rows)@).push(rows@.last()@));
        } else {
            self.started_at = Some(started_at);
            self.end_sequence = Some(sequence);
        }
    }

    /// Adds the open row as it stands, if there is anything in it.
    pub fn push_partial_row(
        &mut self,
        rows: &mut Vec<FormattedRow>,
        row_end_sequences: &mut VecDeque<u64>,
    )
        requires
            old(self).wf(),
        ensures
            final(self).state() == old(self).state(),
            final(self).shows_partial() == (old(self).state().current.len() > 0),
            ({
                let partial = partial_hex_row(old(self).state());
                &&& row_views(final(rows)@) == row_views(old(rows)@) + plain_rows(partial)
                &&& final(row_end_sequences)@ == old(row_end_sequences)@ + end_sequences(partial)
            }),
    {
        if self.current.is_empty() {
            self.partial_visible = false;
            return ;
        }
        rows.push(
            FormattedRow {
                received_at: self.started_at.unwrap(),
                text: format_hex_row(self.current.as_slice()),
            },
        );
        row_end_sequences.push_back(self.end_sequence.unwrap());
        self.partial_visible = true;
        proof {
            let partial = partial_hex_row(old(self).state());
            assert(row_views(rows@) == row_views(old(rows)@) + plain_rows(partial));
            assert(row_end_sequences@ == old(row_end_sequences)@ + end_sequences(partial));
        }
    }
}

} // verus!
