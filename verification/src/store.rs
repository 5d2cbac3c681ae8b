//! The bounded buffer of received bytes.
//!
//! Bytes are kept in the chunks they arrived in. When the limit is exceeded, whole chunks are
//! dropped, oldest first. Readers either take a snapshot or follow the stream with a cursor.

use std::collections::VecDeque;
use std::sync::Arc;

use vstd::prelude::*;

use crate::timestamp::Timestamp;

pub mod laws;

verus! {

/// Bytes that arrived together.
#[derive(Debug)]
pub struct RxChunk {
    pub sequence: u64,
    pub received_at: Timestamp,
    pub bytes: Arc<[u8]>,
}

/// What a chunk holds.
#[verifier::ext_equal]
pub struct ChunkView {
    pub sequence: u64,
    pub received_at: Timestamp,
    pub bytes: Seq<u8>,
}

impl View for RxChunk {
    type V = ChunkView;

    open spec fn view(&self) -> ChunkView {
        ChunkView { sequence: self.sequence, received_at: self.received_at, bytes: (*self.bytes)@ }
    }
}

impl Clone for RxChunk {
    fn clone(&self) -> (copy: Self)
        ensures
            copy@ == self@,
    {
        RxChunk {
            sequence: self.sequence,
            received_at: self.received_at,
            bytes: Arc::clone(&self.bytes),
        }
    }
}

/// `Arc::from` moves the elements of a vector into a shared slice.
#[verifier::external_body]
pub(crate) fn shared_bytes(bytes: Vec<u8>) -> (shared: Arc<[u8]>)
    ensures
        (*shared)@ == bytes@,
{
    Arc::from(bytes)
}

/// What each of a row of chunks holds.
pub open spec fn chunk_views(chunks: Seq<RxChunk>) -> Seq<ChunkView> {
    Seq::new(chunks.len(), |i: int| chunks[i]@)
}

/// The number of bytes in a row of chunks.
pub open spec fn total_bytes(chunks: Seq<ChunkView>) -> nat
    decreases chunks.len(),
{
    if chunks.len() == 0 {
        0
    } else {
        total_bytes(chunks.drop_last()) + chunks.last().bytes.len()
    }
}

/// The bytes of a row of chunks, one chunk after the other.
pub open spec fn joined_bytes(chunks: Seq<ChunkView>) -> Seq<u8>
    decreases chunks.len(),
{
    if chunks.len() == 0 {
        Seq::empty()
    } else {
        joined_bytes(chunks.drop_last()) + chunks.last().bytes
    }
}

/// The chunks that remain when the oldest ones are dropped until at most `limit` bytes are left.
pub open spec fn newest_within(chunks: Seq<ChunkView>, limit: nat) -> Seq<ChunkView>
    decreases chunks.len(),
{
    if total_bytes(chunks) <= limit || chunks.len() == 0 {
        chunks
    } else {
        newest_within(chunks.skip(1), limit)
    }
}

/// The last `count` bytes of a row of chunks, still in chunks; the first one may be cut.
pub open spec fn tail_chunks(chunks: Seq<ChunkView>, count: nat) -> Seq<ChunkView>
    decreases chunks.len(),
{
    if count == 0 || chunks.len() == 0 {
        Seq::empty()
    } else if chunks.last().bytes.len() <= count {
        tail_chunks(
            chunks.drop_last(),
            (count - chunks.last().bytes.len()) as nat,
        ).push(chunks.last())
    } else {
        let last = chunks.last();
        seq![(ChunkView { bytes: last.bytes.skip(last.bytes.len() - count), ..last })]
    }
}

/// The sequence number `steps` after `first`. Numbers start over after the largest one.
pub open spec fn sequence_after(first: u64, steps: int) -> u64 {
    ((first + steps) % 0x1_0000_0000_0000_0000) as u64
}

/// Chunks are numbered one after the other, starting with `first`.
pub open spec fn numbered_from(chunks: Seq<ChunkView>, first: u64) -> bool {
    forall|i: int|
        0 <= i < chunks.len() ==> (#[trigger] chunks[i]).sequence == sequence_after(first, i)
}

/// The buffer at one moment, or the end of it.
#[derive(Debug, Clone)]
pub struct ReceiveSnapshot {
    pub generation: u64,
    pub stream_id: u64,
    pub first_sequence: u64,
    pub next_sequence: u64,
    pub chunks: Vec<RxChunk>,
    pub bytes_len: usize,
    pub omitted_bytes: usize,
    pub dropped_bytes: u64,
}

/// How far a reader has followed the stream.
#[derive(Debug, Clone, Copy, PartialEq, Eq, Structural)]
pub struct ReceiveCursor {
    pub stream_id: u64,
    pub next_sequence: u64,
}

/// What arrived after a cursor, or the news that the reader has to start over.
#[derive(Debug, Clone)]
pub struct ReceiveDelta {
    pub generation: u64,
    pub stream_id: u64,
    pub first_sequence: u64,
    pub next_sequence: u64,
    pub chunks: Vec<RxChunk>,
    pub reset_or_gap: bool,
}

#[derive(Debug)]
pub struct ReceiveStore {
    chunks: VecDeque<RxChunk>,
    bytes_len: usize,
    limit_bytes: usize,
    next_sequence: u64,
    stream_id: u64,
    generation: u64,
    dropped_bytes: u64,
}

/// What a store holds.
#[verifier::ext_equal]
pub struct StoreView {
    pub chunks: Seq<ChunkView>,
    pub limit_bytes: usize,
    pub next_sequence: u64,
    pub stream_id: u64,
    pub generation: u64,
    pub dropped_bytes: u64,
}

/// The number of the oldest chunk, or of the next one where there is none.
pub open spec fn first_sequence_of(chunks: Seq<ChunkView>, next_sequence: u64) -> u64 {
    if chunks.len() == 0 {
        next_sequence
    } else {
        chunks[0].sequence
    }
}

impl StoreView {
    pub open spec fn first_sequence(self) -> u64 {
        first_sequence_of(self.chunks, self.next_sequence)
    }

    /// A snapshot holds the last `max_bytes` bytes of the buffer.
    pub open spec fn is_tail(self, snapshot: ReceiveSnapshot, max_bytes: nat) -> bool {
        let total = total_bytes(self.chunks);
        let kept = if total <= max_bytes {
            self.chunks
        } else {
            tail_chunks(self.chunks, max_bytes)
        };
        &&& snapshot.generation == self.generation
        &&& snapshot.stream_id == self.stream_id
        &&& snapshot.first_sequence == first_sequence_of(kept, self.next_sequence)
        &&& snapshot.next_sequence == self.next_sequence
        &&& chunk_views(snapshot.chunks@) == kept
        &&& snapshot.bytes_len == if total <= max_bytes {
            total
        } else {
            max_bytes
        }
        &&& snapshot.omitted_bytes == total - snapshot.bytes_len
        &&& snapshot.dropped_bytes == self.dropped_bytes
    }

    /// Keeps the newest chunks within the limit and counts what is dropped.
    pub open spec fn trimmed(self) -> StoreView {
        let kept = newest_within(self.chunks, self.limit_bytes as nat);
        let dropped = self.dropped_bytes + total_bytes(self.chunks) - total_bytes(kept);
        StoreView {
            chunks: kept,
            dropped_bytes: if dropped > u64::MAX {
                u64::MAX
            } else {
                dropped as u64
            },
            ..self
        }
    }

    pub open spec fn appended(self, received_at: Timestamp, bytes: Seq<u8>) -> StoreView {
        if bytes.len() == 0 {
            self
        } else {
            let chunk = ChunkView { sequence: self.next_sequence, received_at, bytes };
            StoreView {
                chunks: self.chunks.push(chunk),
                next_sequence: sequence_after(self.next_sequence, 1),
                generation: sequence_after(self.generation, 1),
                ..self
            }.trimmed()
        }
    }

    pub open spec fn cleared(self) -> StoreView {
        StoreView {
            chunks: Seq::empty(),
            dropped_bytes: 0,
            stream_id: sequence_after(self.stream_id, 1),
            generation: sequence_after(self.generation, 1),
            ..self
        }
    }

    pub open spec fn limited(self, limit_bytes: usize) -> StoreView {
        StoreView {
            generation: sequence_after(self.generation, 1),
            ..(StoreView { limit_bytes, ..self }).trimmed()
        }
    }

    /// The position in the buffer from which a cursor reads on, if it is still there.
    pub open spec fn position_of(self, cursor: ReceiveCursor) -> Option<int> {
        if cursor.stream_id != self.stream_id || cursor.next_sequence < self.first_sequence()
            || cursor.next_sequence > self.next_sequence {
            None
        } else {
            Some(cursor.next_sequence - self.first_sequence())
        }
    }
}

proof fn total_bytes_concat(a: Seq<ChunkView>, b: Seq<ChunkView>)
    ensures
        total_bytes(a + b) == total_bytes(a) + total_bytes(b),
    decreases b.len(),
{
    if b.len() == 0 {
        assert(a + b == a);
    } else {
        assert((a + b).drop_last() == a + b.drop_last());
        total_bytes_concat(a, b.drop_last());
    }
}

proof fn total_bytes_split(chunks: Seq<ChunkView>, at: int)
    requires
        0 <= at <= chunks.len(),
    ensures
        total_bytes(chunks) == total_bytes(chunks.take(at)) + total_bytes(chunks.skip(at)),
{
    assert(chunks.take(at) + chunks.skip(at) == chunks);
    total_bytes_concat(chunks.take(at), chunks.skip(at));
}

proof fn total_bytes_of_one(chunk: ChunkView)
    ensures
        total_bytes(seq![chunk]) == chunk.bytes.len(),
{
    reveal_with_fuel(total_bytes, 2);
}

/// No chunk is empty, and they are numbered in a row that ends before the next number.
#[verifier::opaque]
spec fn is_numbered(chunks: Seq<ChunkView>, next: u64) -> bool {
    let first = first_sequence_of(chunks, next);
    &&& numbered_from(chunks, first)
    &&& next == sequence_after(first, chunks.len() as int)
    &&& forall|i: int| 0 <= i < chunks.len() ==> (#[trigger] chunks[i]).bytes.len() > 0
}

proof fn numbered_when_empty(next: u64)
    ensures
        is_numbered(Seq::empty(), next),
{
    reveal(is_numbered);
}

proof fn numbered_with_one_more(chunks: Seq<ChunkView>, chunk: ChunkView)
    requires
        is_numbered(chunks, chunk.sequence),
        chunk.bytes.len() > 0,
    ensures
        is_numbered(chunks.push(chunk), sequence_after(chunk.sequence, 1)),
{
    reveal(is_numbered);
    let next = sequence_after(chunk.sequence, 1);
    assert(first_sequence_of(chunks.push(chunk), next) == first_sequence_of(
        chunks,
        chunk.sequence,
    ));
}

proof fn numbered_without_the_first(chunks: Seq<ChunkView>, next: u64)
    requires
        is_numbered(chunks, next),
        chunks.len() > 0,
    ensures
        is_numbered(chunks.skip(1), next),
{
    reveal(is_numbered);
    assert(forall|i: int|
        0 <= i < chunks.len() - 1 ==> (#[trigger] chunks.skip(1)[i]) == chunks[i + 1]);
}

impl ReceiveStore {
    pub closed spec fn inner(self) -> StoreView {
        StoreView {
            chunks: chunk_views(self.chunks@),
            limit_bytes: self.limit_bytes,
            next_sequence: self.next_sequence,
            stream_id: self.stream_id,
            generation: self.generation,
            dropped_bytes: self.dropped_bytes,
        }
    }

    /// The counter of bytes agrees with the chunks, no chunk is empty, the limit holds, and the
    /// chunks are numbered in a row that ends before the next number.
    pub closed spec fn wf(self) -> bool {
        &&& self.bytes_len == total_bytes(self.inner().chunks)
        &&& self.bytes_len <= self.limit_bytes
        &&& self.numbered()
    }

    spec fn numbered(self) -> bool {
        is_numbered(self.inner().chunks, self.inner().next_sequence)
    }

    pub fn new(limit_bytes: usize) -> (store: Self)
        ensures
            store.wf(),
            store.inner() == (StoreView {
                chunks: Seq::empty(),
                limit_bytes,
                next_sequence: 0,
                stream_id: 0,
                generation: 0,
                dropped_bytes: 0,
            }),
    {
        let store = ReceiveStore {
            chunks: VecDeque::new(),
            bytes_len: 0,
            limit_bytes,
            next_sequence: 0,
            stream_id: 0,
            generation: 0,
            dropped_bytes: 0,
        };
        assert(store.inner().chunks == Seq::<ChunkView>::empty());
        proof {
            numbered_when_empty(0);
        }
        store
    }

    /// Takes in what has arrived.
    pub fn append(&mut self, received_at: Timestamp, bytes: Vec<u8>)
        requires
            old(self).wf(),
        ensures
            final(self).wf(),
            final(self).inner() == old(self).inner().appended(received_at, bytes@),
    {
        if bytes.is_empty() {
            return ;
        }
        let held: u128 = self.bytes_len as u128 + bytes.len() as u128;
        let chunk = RxChunk {
            sequence: self.next_sequence,
            received_at,
            bytes: shared_bytes(bytes),
        };
        let ghost before = self.inner();
        let ghost added = chunk@;
        self.chunks.push_back(chunk);
        self.next_sequence = self.next_sequence.wrapping_add(1);
        self.generation = self.generation.wrapping_add(1);
        proof {
            let after = self.inner();
            assert(after.chunks == before.chunks.push(added));
            assert(after.chunks.drop_last() == before.chunks);
            assert(after.next_sequence == sequence_after(before.next_sequence, 1));
            numbered_with_one_more(before.chunks, added);
        }
        self.trim_to_limit(held);
    }

    /// Forgets everything and begins a new stream.
    pub fn clear(&mut self)
        requires
            old(self).wf(),
        ensures
            final(self).wf(),
            final(self).inner() == old(self).inner().cleared(),
    {
        self.chunks.clear();
        self.bytes_len = 0;
        self.dropped_bytes = 0;
        self.stream_id = self.stream_id.wrapping_add(1);
        self.generation = self.generation.wrapping_add(1);
        assert(self.inner().chunks == Seq::<ChunkView>::empty());
        proof {
            numbered_when_empty(self.next_sequence);
        }
    }

    pub fn set_limit(&mut self, limit_bytes: usize)
        requires
            old(self).wf(),
        ensures
            final(self).wf(),
            final(self).inner() == old(self).inner().limited(limit_bytes),
    {
        self.limit_bytes = limit_bytes;
        let held: u128 = self.bytes_len as u128;
        self.trim_to_limit(held);
        self.generation = self.generation.wrapping_add(1);
    }

    pub fn generation(&self) -> (generation: u64)
        ensures
            generation == self.inner().generation,
    {
        self.generation
    }

    pub fn bytes_len(&self) -> (len: usize)
        requires
            self.wf(),
        ensures
            len == total_bytes(self.inner().chunks),
    {
        self.bytes_len
    }

    pub fn dropped_bytes(&self) -> (dropped: u64)
        ensures
            dropped == self.inner().dropped_bytes,
    {
        self.dropped_bytes
    }

    fn first_sequence(&self) -> (first: u64)
        ensures
            first == self.inner().first_sequence(),
    {
        if self.chunks.len() == 0 {
            self.next_sequence
        } else {
            self.chunks[0].sequence
        }
    }

    fn chunks_from(&self, start: usize) -> (chunks: Vec<RxChunk>)
        requires
            start <= self.inner().chunks.len(),
        ensures
            chunk_views(chunks@) == self.inner().chunks.skip(start as int),
    {
        let mut chunks: Vec<RxChunk> = Vec::new();
        let mut i: usize = start;
        while i < self.chunks.len()
            invariant
                start <= i <= self.chunks.len(),
                chunk_views(chunks@) == self.inner().chunks.subrange(start as int, i as int),
            decreases self.chunks.len() - i,
        {
            let ghost before = chunks@;
            chunks.push(self.chunks[i].clone());
            assert(chunk_views(chunks@) == chunk_views(before).push(self.chunks@[i as int]@));
            i += 1;
        }
        chunks
    }

    /// All of the buffer.
    pub fn snapshot(&self) -> (snapshot: ReceiveSnapshot)
        requires
            self.wf(),
        ensures
            snapshot.generation == self.inner().generation,
            snapshot.stream_id == self.inner().stream_id,
            snapshot.first_sequence == self.inner().first_sequence(),
            snapshot.next_sequence == self.inner().next_sequence,
            chunk_views(snapshot.chunks@) == self.inner().chunks,
            snapshot.bytes_len == total_bytes(self.inner().chunks),
            snapshot.omitted_bytes == 0,
            snapshot.dropped_bytes == self.inner().dropped_bytes,
            self.inner().is_tail(snapshot, total_bytes(self.inner().chunks)),
    {
        let chunks = self.chunks_from(0);
        assert(self.inner().chunks.skip(0) == self.inner().chunks);
        ReceiveSnapshot {
            generation: self.generation,
            stream_id: self.stream_id,
            first_sequence: self.first_sequence(),
            next_sequence: self.next_sequence,
            chunks,
            bytes_len: self.bytes_len,
            omitted_bytes: 0,
            dropped_bytes: self.dropped_bytes,
        }
    }

    /// The last `max_bytes` bytes of the buffer; the oldest chunk of them may be cut.
    pub fn tail_snapshot(&self, max_bytes: usize) -> (snapshot: ReceiveSnapshot)
        requires
            self.wf(),
        ensures
            self.inner().is_tail(snapshot, max_bytes as nat),
    {
        if self.bytes_len <= max_bytes {
            return self.snapshot();
        }
        let ghost all = self.inner().chunks;
        let mut remaining: usize = max_bytes;
        let mut reversed: Vec<RxChunk> = Vec::new();
        let mut i: usize = self.chunks.len();
        assert(all.take(i as int) == all);
        assert(all.skip(all.len() as int) == Seq::<ChunkView>::empty());
        assert(tail_chunks(all, max_bytes as nat) == tail_chunks(all, max_bytes as nat)
            + chunk_views(reversed@).reverse());
        while i > 0 && remaining > 0
            invariant
                i <= self.chunks.len(),
                all == self.inner().chunks,
                remaining <= max_bytes,
                tail_chunks(all, max_bytes as nat) == tail_chunks(
                    all.take(i as int),
                    remaining as nat,
                ) + chunk_views(reversed@).reverse(),
                remaining > 0 ==> max_bytes - remaining == total_bytes(all.skip(i as int)),
                total_bytes(all) > max_bytes,
            decreases i,
        {
            let chunk = &self.chunks[i - 1];
            let ghost prefix = all.take(i as int);
            assert(prefix.last() == chunk@);
            assert(prefix.drop_last() == all.take(i - 1));
            let len: usize = chunk.bytes.len();
            let take: usize = if len <= remaining {
                len
            } else {
                remaining
            };
            let bytes = if take == len {
                Arc::clone(&chunk.bytes)
            } else {
                shared_bytes(vstd::slice::slice_to_vec(vstd::slice::slice_subrange(&*chunk.bytes, len - take, len)))
            };
            let piece = RxChunk { sequence: chunk.sequence, received_at: chunk.received_at, bytes };
            let ghost before = chunk_views(reversed@);
            let ghost added = piece@;
            reversed.push(piece);
            proof {
                assert(chunk_views(reversed@) == before.push(added));
                assert(before.push(added).reverse() == seq![added] + before.reverse());
                assert(all.skip(i - 1) == seq![chunk@] + all.skip(i as int));
                total_bytes_concat(seq![chunk@], all.skip(i as int));
                total_bytes_of_one(chunk@);
                if len <= remaining {
                    assert(added == chunk@);
                    assert(tail_chunks(prefix, remaining as nat) == tail_chunks(
                        prefix.drop_last(),
                        (remaining - len) as nat,
                    ).push(added));
                } else {
                    assert(added == (ChunkView {
                        bytes: chunk@.bytes.skip(len - remaining),
                        ..chunk@
                    }));
                    assert(tail_chunks(all.take(i - 1), 0) == Seq::<ChunkView>::empty());
                }
            }
            remaining -= take;
            i -= 1;
        }
        proof {
            if remaining > 0 {
                assert(all.skip(0) == all);
            }
            assert(tail_chunks(all.take(i as int), remaining as nat) == Seq::<ChunkView>::empty());
        }
        let ghost pieces = reversed@;
        let chunks = crate::lists::reversed(reversed);
        assert(chunk_views(chunks@) == chunk_views(pieces).reverse());
        let first_sequence: u64 = if chunks.len() == 0 {
            self.next_sequence
        } else {
            chunks[0].sequence
        };
        ReceiveSnapshot {
            generation: self.generation,
            stream_id: self.stream_id,
            first_sequence,
            next_sequence: self.next_sequence,
            chunks,
            bytes_len: max_bytes,
            omitted_bytes: self.bytes_len - max_bytes,
            dropped_bytes: self.dropped_bytes,
        }
    }

    /// What arrived after the cursor, however much it is.
    pub fn delta_since(&self, cursor: ReceiveCursor) -> (delta: ReceiveDelta)
        requires
            self.wf(),
        ensures
            delta.generation == self.inner().generation,
            delta.stream_id == self.inner().stream_id,
            delta.first_sequence == self.inner().first_sequence(),
            delta.next_sequence == self.inner().next_sequence,
            match self.inner().position_of(cursor) {
                None => delta.reset_or_gap && delta.chunks@.len() == 0,
                Some(start) => !delta.reset_or_gap && chunk_views(delta.chunks@)
                    == self.inner().chunks.skip(start),
            },
    {
        proof {
            let all = self.inner().chunks;
            if let Some(start) = self.inner().position_of(cursor) {
                self.position_is_in_buffer(cursor);
                total_bytes_split(all, start);
            }
        }
        self.delta_since_bounded(cursor, usize::MAX)
    }

    /// What arrived after the cursor, unless that is more than `max_bytes` bytes.
    pub fn delta_since_bounded(&self, cursor: ReceiveCursor, max_bytes: usize) -> (delta:
        ReceiveDelta)
        requires
            self.wf(),
        ensures
            delta.generation == self.inner().generation,
            delta.stream_id == self.inner().stream_id,
            delta.first_sequence == self.inner().first_sequence(),
            delta.next_sequence == self.inner().next_sequence,
            match self.inner().position_of(cursor) {
                None => delta.reset_or_gap && delta.chunks@.len() == 0,
                Some(start) => {
                    let unread = self.inner().chunks.skip(start);
                    if total_bytes(unread) > max_bytes {
                        delta.reset_or_gap && delta.chunks@.len() == 0
                    } else {
                        !delta.reset_or_gap && chunk_views(delta.chunks@) == unread
                    }
                },
            },
    {
        let first_sequence: u64 = self.first_sequence();
        let mut reset_or_gap = cursor.stream_id != self.stream_id || cursor.next_sequence
            < first_sequence || cursor.next_sequence > self.next_sequence;
        let mut chunks: Vec<RxChunk> = Vec::new();
        if !reset_or_gap {
            proof {
                self.position_is_in_buffer(cursor);
            }
            let start: usize = (cursor.next_sequence - first_sequence) as usize;
            let ghost unread = self.inner().chunks.skip(start as int);
            proof {
                total_bytes_split(self.inner().chunks, start as int);
            }
            let mut len: usize = 0;
            let mut i: usize = start;
            while i < self.chunks.len() && !reset_or_gap
                invariant
                    start <= i <= self.chunks.len(),
                    unread == self.inner().chunks.skip(start as int),
                    unread.len() == self.chunks.len() - start,
                    total_bytes(unread) <= usize::MAX,
                    len == total_bytes(unread.take(i - start)),
                    reset_or_gap <==> len > max_bytes,
                decreases self.chunks.len() - i,
            {
                proof {
                    assert(unread.take(i - start + 1).drop_last() == unread.take(i - start));
                    assert(unread.take(i - start + 1).last() == self.chunks@[i as int]@);
                    total_bytes_split(unread, i - start + 1);
                }
                len = len + self.chunks[i].bytes.len();
                if len > max_bytes {
                    reset_or_gap = true;
                }
                i += 1;
            }
            proof {
                total_bytes_split(unread, i - start);
                if i == self.chunks.len() {
                    assert(unread.take(i - start) == unread);
                }
            }
            if !reset_or_gap {
                chunks = self.chunks_from(start);
            }
        }
        ReceiveDelta {
            generation: self.generation,
            stream_id: self.stream_id,
            first_sequence,
            next_sequence: self.next_sequence,
            chunks,
            reset_or_gap,
        }
    }

    /// A cursor that can read on points into the buffer or to its end.
    proof fn position_is_in_buffer(self, cursor: ReceiveCursor)
        requires
            self.wf(),
        ensures
            self.inner().position_of(cursor) matches Some(start) ==> 0 <= start
                <= self.inner().chunks.len(),
    {
        reveal(is_numbered);
        assert(self.inner().chunks.len() == self.chunks.len());
    }

    /// Drops the oldest chunks until the limit holds. `held` is the number of bytes at hand.
    #[verifier::rlimit(40)]
    fn trim_to_limit(&mut self, held: u128)
        requires
            old(self).numbered(),
            held == total_bytes(old(self).inner().chunks),
        ensures
            final(self).wf(),
            final(self).inner() == old(self).inner().trimmed(),
    {
        let mut held: u128 = held;
        let ghost target = newest_within(self.inner().chunks, self.limit_bytes as nat);
        while held > self.limit_bytes as u128
            invariant
                self.numbered(),
                self.limit_bytes == old(self).limit_bytes,
                self.next_sequence == old(self).next_sequence,
                self.stream_id == old(self).stream_id,
                self.generation == old(self).generation,
                held == total_bytes(self.inner().chunks),
                held <= total_bytes(old(self).inner().chunks),
                target == newest_within(self.inner().chunks, self.limit_bytes as nat),
                ({
                    let dropped = old(self).dropped_bytes + total_bytes(old(self).inner().chunks)
                        - held;
                    self.dropped_bytes == if dropped > u64::MAX {
                        u64::MAX as int
                    } else {
                        dropped
                    }
                }),
            decreases self.chunks.len(),
        {
            let ghost before = self.inner();
            if let Some(oldest) = self.chunks.pop_front() {
                proof {
                    assert(before.chunks[0] == oldest@);
                    assert(self.inner().chunks == before.chunks.skip(1));
                    total_bytes_split(before.chunks, 1);
                    assert(before.chunks.take(1) == seq![oldest@]);
                    total_bytes_of_one(oldest@);
                    numbered_without_the_first(before.chunks, before.next_sequence);
                }
                let len: usize = oldest.bytes.len();
                held = held - len as u128;
                self.dropped_bytes = self.dropped_bytes.saturating_add(len as u64);
            } else {
                assert(before.chunks =~= Seq::<ChunkView>::empty());
                assert(self.inner() == before);
            }
        }
        self.bytes_len = held as usize;
    }
}

/// After any number of arrivals the buffer holds at most as many bytes as its limit allows.
pub proof fn buffer_stays_within_its_limit(store: ReceiveStore)
    requires
        store.wf(),
    ensures
        total_bytes(store.inner().chunks) <= store.inner().limit_bytes,
{
}

/// No chunk in the buffer is empty, and they are numbered one after the other, up to the number
/// that the next one gets.
pub proof fn chunks_are_numbered_in_order(store: ReceiveStore)
    requires
        store.wf(),
    ensures
        forall|i: int|
            0 <= i < store.inner().chunks.len() ==> (
            #[trigger] store.inner().chunks[i]).bytes.len() > 0,
        numbered_from(store.inner().chunks, store.inner().first_sequence()),
        store.inner().next_sequence == sequence_after(
            store.inner().first_sequence(),
            store.inner().chunks.len() as int,
        ),
{
    reveal(is_numbered);
}

proof fn newest_within_is_a_suffix(chunks: Seq<ChunkView>, limit: nat)
    ensures
        exists|n: int|
            0 <= n <= chunks.len() && newest_within(chunks, limit) == #[trigger] chunks.skip(n),
        total_bytes(newest_within(chunks, limit)) <= limit,
        forall|n: int|
            0 <= n <= chunks.len() && total_bytes(#[trigger] chunks.skip(n)) <= limit
                ==> chunks.skip(n).len() <= newest_within(chunks, limit).len(),
    decreases chunks.len(),
{
    assert(chunks.skip(0) == chunks);
    if !(total_bytes(chunks) <= limit || chunks.len() == 0) {
        newest_within_is_a_suffix(chunks.skip(1), limit);
        let n = choose|n: int|
            0 <= n <= chunks.skip(1).len() && newest_within(chunks.skip(1), limit)
                == #[trigger] chunks.skip(1).skip(n);
        assert(chunks.skip(1).skip(n) == chunks.skip(n + 1));
        assert forall|n: int|
            0 <= n <= chunks.len() && total_bytes(#[trigger] chunks.skip(n)) <= limit implies
            chunks.skip(n).len() <= newest_within(chunks, limit).len() by {
            if n > 0 {
                assert(chunks.skip(1).skip(n - 1) == chunks.skip(n));
            }
        }
    }
}

/// Dropping keeps the newest chunks whole and in order, and drops no more of them than the limit
/// asks for.
pub proof fn oldest_chunks_are_dropped_first(view: StoreView)
    ensures
        exists|n: int|
            0 <= n <= view.chunks.len() && view.trimmed().chunks == #[trigger] view.chunks.skip(n),
        total_bytes(view.trimmed().chunks) <= view.limit_bytes,
        forall|n: int|
            0 <= n <= view.chunks.len() && total_bytes(#[trigger] view.chunks.skip(n))
                <= view.limit_bytes ==> view.chunks.skip(n).len() <= view.trimmed().chunks.len(),
{
    newest_within_is_a_suffix(view.chunks, view.limit_bytes as nat);
}

/// Bytes are either in the buffer or counted as dropped, as long as the counter has room.
pub proof fn received_bytes_are_kept_or_counted(
    view: StoreView,
    received_at: Timestamp,
    bytes: Seq<u8>,
)
    requires
        view.dropped_bytes + total_bytes(view.chunks) + bytes.len() <= u64::MAX,
    ensures
        ({
            let after = view.appended(received_at, bytes);
            after.dropped_bytes + total_bytes(after.chunks) == view.dropped_bytes + total_bytes(
                view.chunks,
            ) + bytes.len()
        }),
{
    if bytes.len() > 0 {
        let chunk = ChunkView { sequence: view.next_sequence, received_at, bytes };
        let all = view.chunks.push(chunk);
        assert(all.drop_last() == view.chunks);
        newest_within_is_a_suffix(all, view.limit_bytes as nat);
        let n = choose|n: int|
            0 <= n <= all.len() && newest_within(all, view.limit_bytes as nat)
                == #[trigger] all.skip(n);
        total_bytes_split(all, n);
    }
}

/// A reader that has seen a snapshot and then reads on from its end, with nothing dropped
/// meanwhile, has seen exactly the buffer.
pub proof fn snapshot_and_delta_make_up_the_buffer(
    before: StoreView,
    received_at: Timestamp,
    bytes: Seq<u8>,
)
    requires
        numbered_from(before.chunks, before.first_sequence()),
        before.first_sequence() + before.chunks.len() == before.next_sequence,
        before.next_sequence < u64::MAX,
        total_bytes(before.chunks) + bytes.len() <= before.limit_bytes,
    ensures
        ({
            let after = before.appended(received_at, bytes);
            let cursor = ReceiveCursor {
                stream_id: before.stream_id,
                next_sequence: before.next_sequence,
            };
            &&& after.position_of(cursor) is Some
            &&& before.chunks + after.chunks.skip(after.position_of(cursor)->0) == after.chunks
        }),
{
    if bytes.len() > 0 {
        let chunk = ChunkView { sequence: before.next_sequence, received_at, bytes };
        let all = before.chunks.push(chunk);
        assert(all.drop_last() == before.chunks);
        assert(newest_within(all, before.limit_bytes as nat) == all);
    } else {
        assert(before.chunks + before.chunks.skip(before.chunks.len() as int) == before.chunks);
    }
}

proof fn joined_bytes_concat(a: Seq<ChunkView>, b: Seq<ChunkView>)
    ensures
        joined_bytes(a + b) == joined_bytes(a) + joined_bytes(b),
    decreases b.len(),
{
    if b.len() == 0 {
        assert(a + b == a);
    } else {
        assert((a + b).drop_last() == a + b.drop_last());
        joined_bytes_concat(a, b.drop_last());
        assert(joined_bytes(a) + joined_bytes(b.drop_last()) + b.last().bytes == joined_bytes(a)
            + (joined_bytes(b.drop_last()) + b.last().bytes));
    }
}

/// The end of a buffer is exactly its last bytes.
pub proof fn tail_is_the_last_bytes(chunks: Seq<ChunkView>, count: nat)
    requires
        count <= total_bytes(chunks),
    ensures
        joined_bytes(chunks).len() == total_bytes(chunks),
        joined_bytes(tail_chunks(chunks, count)) == joined_bytes(chunks).skip(
            total_bytes(chunks) - count,
        ),
    decreases chunks.len(),
{
    joined_len(chunks);
    if count == 0 || chunks.len() == 0 {
    } else if chunks.last().bytes.len() <= count {
        let rest = (count - chunks.last().bytes.len()) as nat;
        tail_is_the_last_bytes(chunks.drop_last(), rest);
        let tail = tail_chunks(chunks.drop_last(), rest);
        assert(tail.push(chunks.last()).drop_last() == tail);
    } else {
        let last = chunks.last();
        let cut = ChunkView { bytes: last.bytes.skip(last.bytes.len() - count), ..last };
        assert(joined_bytes(seq![cut]) == cut.bytes) by {
            reveal_with_fuel(joined_bytes, 2);
        }
        joined_len(chunks.drop_last());
    }
}

proof fn joined_len(chunks: Seq<ChunkView>)
    ensures
        joined_bytes(chunks).len() == total_bytes(chunks),
    decreases chunks.len(),
{
    if chunks.len() > 0 {
        joined_len(chunks.drop_last());
    }
}

} // verus!
