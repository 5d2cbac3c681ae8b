//! What the buffer does with bytes that arrive, and what its readers get of them.

use vstd::prelude::*;

use crate::store::{
    first_sequence_of, joined_bytes, newest_within, numbered_from, tail_chunks, total_bytes,
    ChunkView, ReceiveCursor, StoreView,
};
use crate::timestamp::Timestamp;

verus! {

/// Bytes that arrive become the newest chunk, exactly as they are, with their time and the next
/// number, unless they are more than the buffer may hold. Nothing arriving changes nothing.
pub proof fn arrivals_are_kept_as_they_are(view: StoreView, received_at: Timestamp, bytes: Seq<u8>)
    requires
        view.next_sequence < u64::MAX,
        view.generation < u64::MAX,
    ensures
        bytes.len() == 0 ==> view.appended(received_at, bytes) == view,
        bytes.len() > 0 ==> {
            let after = view.appended(received_at, bytes);
            &&& after.next_sequence == view.next_sequence + 1
            &&& after.generation == view.generation + 1
            &&& after.stream_id == view.stream_id
            &&& after.limit_bytes == view.limit_bytes
            &&& bytes.len() <= view.limit_bytes ==> after.chunks.len() > 0 && after.chunks.last()
                == (ChunkView { sequence: view.next_sequence, received_at, bytes })
            &&& bytes.len() > view.limit_bytes ==> after.chunks.len() == 0
        },
{
    if bytes.len() > 0 {
        let chunk = ChunkView { sequence: view.next_sequence, received_at, bytes };
        the_newest_chunk_stays(view.chunks.push(chunk), view.limit_bytes as nat);
    }
}

proof fn the_newest_chunk_stays(chunks: Seq<ChunkView>, limit: nat)
    requires
        chunks.len() > 0,
    ensures
        chunks.last().bytes.len() <= limit ==> newest_within(chunks, limit).len() > 0
            && newest_within(chunks, limit).last() == chunks.last(),
        chunks.last().bytes.len() > limit ==> newest_within(chunks, limit).len() == 0,
    decreases chunks.len(),
{
    if total_bytes(chunks) > limit {
        if chunks.len() == 1 {
            reveal_with_fuel(total_bytes, 2);
            reveal_with_fuel(newest_within, 2);
            assert(chunks.drop_last() == Seq::<ChunkView>::empty());
            assert(total_bytes(chunks) == chunks.last().bytes.len());
            assert(chunks.skip(1) == Seq::<ChunkView>::empty());
        } else {
            the_newest_chunk_stays(chunks.skip(1), limit);
        }
    }
}

/// As long as there is room, every byte that has arrived since the buffer was empty is in it, in
/// the order of arrival.
pub proof fn all_that_fits_is_there(view: StoreView, received_at: Timestamp, bytes: Seq<u8>)
    requires
        joined_bytes(view.chunks).len() + bytes.len() <= view.limit_bytes,
    ensures
        joined_bytes(view.appended(received_at, bytes).chunks) == joined_bytes(view.chunks)
            + bytes,
        view.appended(received_at, bytes).dropped_bytes == view.dropped_bytes,
{
    if bytes.len() > 0 {
        let chunk = ChunkView { sequence: view.next_sequence, received_at, bytes };
        let all = view.chunks.push(chunk);
        assert(all.drop_last() == view.chunks);
        bytes_are_counted(view.chunks);
        assert(newest_within(all, view.limit_bytes as nat) == all);
    } else {
        assert(joined_bytes(view.chunks) + bytes == joined_bytes(view.chunks));
    }
}

proof fn bytes_are_counted(chunks: Seq<ChunkView>)
    ensures
        joined_bytes(chunks).len() == total_bytes(chunks),
    decreases chunks.len(),
{
    if chunks.len() > 0 {
        bytes_are_counted(chunks.drop_last());
    }
}

/// Clearing leaves nothing, and what was dropped before is forgotten. A reader of the old stream
/// cannot read on, but numbers go on.
pub proof fn clearing_starts_a_new_stream(view: StoreView, cursor: ReceiveCursor)
    requires
        view.stream_id < u64::MAX,
        view.generation < u64::MAX,
        cursor.stream_id == view.stream_id,
    ensures
        view.cleared().chunks.len() == 0,
        view.cleared().dropped_bytes == 0,
        view.cleared().stream_id == view.stream_id + 1,
        view.cleared().generation == view.generation + 1,
        view.cleared().next_sequence == view.next_sequence,
        view.cleared().limit_bytes == view.limit_bytes,
        view.cleared().position_of(cursor) is None,
{
}

/// A new limit takes effect at once; the newest chunks within it stay as they are, and readers
/// are told that something may have changed.
pub proof fn a_new_limit_takes_effect(view: StoreView, limit: usize) -> (gone: int)
    requires
        view.generation < u64::MAX,
        view.dropped_bytes + joined_bytes(view.chunks).len() <= u64::MAX,
    ensures
        ({
            let after = view.limited(limit);
            &&& after.limit_bytes == limit
            &&& after.generation == view.generation + 1
            &&& after.stream_id == view.stream_id
            &&& after.next_sequence == view.next_sequence
            &&& 0 <= gone <= view.chunks.len()
            &&& after.chunks == view.chunks.skip(gone)
            &&& joined_bytes(after.chunks).len() <= limit
            &&& gone > 0 ==> joined_bytes(view.chunks.skip(gone - 1)).len() > limit
            &&& after.dropped_bytes == view.dropped_bytes + joined_bytes(view.chunks).len()
                - joined_bytes(after.chunks).len()
        }),
{
    bytes_are_counted(view.chunks);
    bytes_are_counted(view.limited(limit).chunks);
    the_oldest_chunks_go(view.chunks, limit as nat)
}

proof fn the_oldest_chunks_go(chunks: Seq<ChunkView>, limit: nat) -> (gone: int)
    ensures
        0 <= gone <= chunks.len(),
        newest_within(chunks, limit) == chunks.skip(gone),
        joined_bytes(chunks.skip(gone)).len() <= limit,
        gone > 0 ==> joined_bytes(chunks.skip(gone - 1)).len() > limit,
        total_bytes(chunks.skip(gone)) <= total_bytes(chunks),
    decreases chunks.len(),
{
    assert(chunks.skip(0) == chunks);
    bytes_are_counted(chunks);
    if total_bytes(chunks) <= limit {
        0
    } else {
        let rest = chunks.skip(1);
        let gone = the_oldest_chunks_go(rest, limit);
        assert(rest.skip(gone) == chunks.skip(gone + 1));
        if gone > 0 {
            assert(rest.skip(gone - 1) == chunks.skip(gone));
        }
        bytes_are_counted(chunks.skip(gone + 1));
        gone + 1
    }
}

/// The end of a buffer consists of whole chunks, but for the first, of which the end is taken;
/// all keep their times and their numbers.
pub proof fn the_end_keeps_times_and_numbers(chunks: Seq<ChunkView>, count: nat)
    ensures
        ({
            let tail = tail_chunks(chunks, count);
            let gone = chunks.len() - tail.len();
            &&& gone >= 0
            &&& forall|i: int| 0 < i < tail.len() ==> #[trigger] tail[i] == chunks[i + gone]
            &&& tail.len() > 0 ==> {
                &&& tail[0].sequence == chunks[gone].sequence
                &&& tail[0].received_at == chunks[gone].received_at
                &&& tail[0].bytes.len() <= chunks[gone].bytes.len()
                &&& tail[0].bytes == chunks[gone].bytes.skip(
                    chunks[gone].bytes.len() - tail[0].bytes.len(),
                )
            }
        }),
    decreases chunks.len(),
{
    if count == 0 || chunks.len() == 0 {
    } else if chunks.last().bytes.len() <= count {
        let rest = (count - chunks.last().bytes.len()) as nat;
        the_end_keeps_times_and_numbers(chunks.drop_last(), rest);
        let before = tail_chunks(chunks.drop_last(), rest);
        let tail = tail_chunks(chunks, count);
        assert(tail == before.push(chunks.last()));
        assert forall|i: int| 0 < i < tail.len() implies #[trigger] tail[i] == chunks[i + (
        chunks.len() - tail.len())] by {
            if i < before.len() {
                assert(before[i] == tail[i]);
            }
        }
        assert(chunks.last().bytes.skip(0) == chunks.last().bytes);
    }
}

/// A reader that has not fallen behind is given exactly the chunks with the numbers from where it
/// stands on; one that has, or that follows another stream, has to start over.
pub proof fn readers_go_on_where_they_stand(view: StoreView, cursor: ReceiveCursor, i: int)
    requires
        numbered_from(view.chunks, view.first_sequence()),
        view.first_sequence() + view.chunks.len() == view.next_sequence,
        0 <= i < view.chunks.len(),
    ensures
        view.position_of(cursor) is Some <==> cursor.stream_id == view.stream_id
            && view.first_sequence() <= cursor.next_sequence <= view.next_sequence,
        view.position_of(cursor) matches Some(start) ==> (i >= start <==> view.chunks[i].sequence
            >= cursor.next_sequence),
        first_sequence_of(view.chunks, view.next_sequence) == view.chunks[0].sequence,
{
}

} // verus!
