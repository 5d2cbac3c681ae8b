use escom::store::{ReceiveCursor, ReceiveStore};
use escom::timestamp::Timestamp;

fn now() -> Timestamp {
    Timestamp::new(1_785_499_200, 0, 0).unwrap()
}

#[test]
fn bounded_store_drops_oldest_complete_chunks() {
    let mut store = ReceiveStore::new(5);
    store.append(now(), vec![1, 2, 3]);
    store.append(now(), vec![4, 5, 6]);

    let snapshot = store.snapshot();
    assert_eq!(snapshot.bytes_len, 3);
    assert_eq!(snapshot.dropped_bytes, 3);
    assert_eq!(&*snapshot.chunks[0].bytes, &[4, 5, 6]);
}

#[test]
fn clear_resets_session_eviction_notice() {
    let mut store = ReceiveStore::new(1);
    store.append(now(), vec![1, 2]);
    assert_eq!(store.dropped_bytes(), 2);
    store.clear();
    assert_eq!(store.dropped_bytes(), 0);
    assert_eq!(store.bytes_len(), 0);
}

#[test]
fn delta_only_contains_chunks_after_cursor() {
    let mut store = ReceiveStore::new(1024);
    store.append(now(), vec![1]);
    let snapshot = store.snapshot();
    store.append(now(), vec![2]);
    store.append(now(), vec![3]);

    let delta = store.delta_since(ReceiveCursor {
        stream_id: snapshot.stream_id,
        next_sequence: snapshot.next_sequence,
    });
    assert!(!delta.reset_or_gap);
    assert_eq!(delta.chunks.len(), 2);
    assert_eq!(&*delta.chunks[0].bytes, &[2]);
    assert_eq!(&*delta.chunks[1].bytes, &[3]);
}

#[test]
fn delta_detects_evicted_unread_chunks() {
    let mut store = ReceiveStore::new(2);
    let cursor = ReceiveCursor {
        stream_id: 0,
        next_sequence: 0,
    };
    store.append(now(), vec![1, 2]);
    store.append(now(), vec![3, 4]);

    let delta = store.delta_since(cursor);
    assert!(delta.reset_or_gap);
    assert!(delta.chunks.is_empty());
}

#[test]
fn delta_detects_clear_even_when_sequence_matches() {
    let mut store = ReceiveStore::new(1024);
    store.append(now(), vec![1]);
    let snapshot = store.snapshot();
    store.clear();

    let delta = store.delta_since(ReceiveCursor {
        stream_id: snapshot.stream_id,
        next_sequence: snapshot.next_sequence,
    });
    assert!(delta.reset_or_gap);
    assert_ne!(delta.stream_id, snapshot.stream_id);
}

#[test]
fn tail_snapshot_retains_only_the_latest_bytes() {
    let mut store = ReceiveStore::new(1024);
    store.append(now(), vec![1, 2, 3]);
    store.append(now(), vec![4, 5, 6]);

    let snapshot = store.tail_snapshot(4);

    assert_eq!(snapshot.bytes_len, 4);
    assert_eq!(snapshot.omitted_bytes, 2);
    assert_eq!(snapshot.first_sequence, 0);
    assert_eq!(snapshot.next_sequence, 2);
    assert_eq!(&*snapshot.chunks[0].bytes, &[3]);
    assert_eq!(&*snapshot.chunks[1].bytes, &[4, 5, 6]);
}

#[test]
fn bounded_delta_rejects_an_excessive_backlog_without_cloning_it() {
    let mut store = ReceiveStore::new(1024);
    let cursor = ReceiveCursor {
        stream_id: 0,
        next_sequence: 0,
    };
    store.append(now(), vec![1, 2, 3]);
    store.append(now(), vec![4, 5, 6]);

    let delta = store.delta_since_bounded(cursor, 5);

    assert!(delta.reset_or_gap);
    assert!(delta.chunks.is_empty());
    assert_eq!(delta.next_sequence, 2);
}

#[test]
fn chunks_are_numbered_without_gaps() {
    let mut store = ReceiveStore::new(4);
    for byte in 0..7_u8 {
        store.append(now(), vec![byte]);
        store.append(now(), Vec::new());
    }
    let snapshot = store.snapshot();
    let numbers: Vec<u64> = snapshot.chunks.iter().map(|chunk| chunk.sequence).collect();
    assert_eq!(numbers, [3, 4, 5, 6]);
    assert_eq!((snapshot.first_sequence, snapshot.next_sequence), (3, 7));
    assert!(snapshot.chunks.iter().all(|chunk| !chunk.bytes.is_empty()));
}
