//! The scroll-back buffer's bound and truncation, and the fan-out ring's
//! ordering and lag behaviour.

use raven::session::{ScrollBuffer, SessionCore, PollOutcome, SCROLLBACK_CAPACITY, RING_CAPACITY};

#[test]
fn scrollback_keeps_small_appends() {
    let mut buf = ScrollBuffer::new();
    buf.push_chunk(b"hello ");
    buf.push_chunk(b"world");
    assert_eq!(buf.contents(), b"hello world");
}

#[test]
fn scrollback_never_exceeds_capacity() {
    let mut buf = ScrollBuffer::new();
    let chunk = vec![0x61u8; 10000];
    for _ in 0..8 {
        buf.push_chunk(&chunk);
        assert!(buf.contents().len() <= SCROLLBACK_CAPACITY);
    }
}

#[test]
fn scrollback_truncates_after_a_newline() {
    let mut buf = ScrollBuffer::new();
    let mut chunk = vec![0x61u8; SCROLLBACK_CAPACITY];
    chunk[100] = 0x0a;
    buf.push_chunk(&chunk);
    // ten more bytes overflow; the cut lands right after the newline
    buf.push_chunk(b"0123456789");
    let kept = buf.contents();
    assert_eq!(kept.len(), SCROLLBACK_CAPACITY - 101 + 10);
    assert_eq!(kept[0], 0x61);
    assert_eq!(&kept[kept.len() - 10..], b"0123456789");
}

#[test]
fn scrollback_cut_respects_character_boundaries() {
    let mut buf = ScrollBuffer::new();
    // fill to one byte under capacity, no newline anywhere
    buf.push_chunk(&vec![0x61u8; SCROLLBACK_CAPACITY - 1]);
    // a three-byte character straddles the overflow boundary
    let euro = "€".as_bytes();
    buf.push_chunk(euro);
    let kept = buf.contents();
    assert!(kept.len() <= SCROLLBACK_CAPACITY);
    // the retained bytes still decode: no character was split
    assert!(String::from_utf8(kept).is_ok());
}

#[test]
fn core_snapshot_precedes_stream() {
    let mut core = SessionCore::new();
    core.publish(b"early ".to_vec());
    core.publish(b"output".to_vec());
    let (snapshot, cursor) = core.snapshot();
    assert_eq!(snapshot, b"early output");
    core.publish(b" late".to_vec());
    match core.poll(cursor) {
        PollOutcome::Item { data, next } => {
            assert_eq!(data, b" late");
            assert_eq!(next, cursor + 1);
            assert!(matches!(core.poll(next), PollOutcome::Empty));
        }
        _ => panic!("expected the chunk published after the snapshot"),
    }
}

#[test]
fn core_close_ends_the_stream() {
    let mut core = SessionCore::new();
    core.publish(b"x".to_vec());
    let (_, cursor) = core.snapshot();
    core.close();
    assert!(matches!(core.poll(cursor), PollOutcome::Closed));
}

#[test]
fn slow_subscriber_lags_but_resumes() {
    let mut core = SessionCore::new();
    let (_, cursor) = core.snapshot();
    assert_eq!(cursor, 0);
    for i in 0..(RING_CAPACITY + 10) {
        core.publish(vec![(i % 256) as u8]);
    }
    match core.poll(cursor) {
        PollOutcome::Lagged { next, missed } => {
            assert_eq!(missed, 10);
            assert_eq!(next, 10);
            match core.poll(next) {
                PollOutcome::Item { data, .. } => assert_eq!(data, vec![10u8]),
                _ => panic!("expected the oldest retained chunk"),
            }
        }
        _ => panic!("expected a lag"),
    }
}
