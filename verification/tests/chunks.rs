use rangefetch::chunk::{Chunk, FetchCause, FetchError};
use rangefetch::range::ByteRange;

#[test]
fn a_new_chunk_is_empty() {
    let range = ByteRange { index: 2, start: 10, end: 19 };
    let chunk = Chunk::new(range);
    assert_eq!(chunk.range(), range);
    assert_eq!(chunk.data(), b"");
    assert_eq!(chunk.received_bytes(), 0);
}

#[test]
fn segments_are_appended_and_counted() {
    let range = ByteRange { index: 0, start: 0, end: 9 };
    let mut chunk = Chunk::new(range);
    assert_eq!(chunk.receive(b"abcd"), Ok(()));
    assert_eq!(chunk.received_bytes(), 4);
    assert_eq!(chunk.receive(b""), Ok(()));
    assert_eq!(chunk.received_bytes(), 4);
    assert_eq!(chunk.receive(b"efghij"), Ok(()));
    assert_eq!(chunk.received_bytes(), 10);
    assert_eq!(chunk.data(), b"abcdefghij");
    assert_eq!(chunk.range(), range);
}

#[test]
fn a_segment_too_many_is_refused_and_changes_nothing() {
    let range = ByteRange { index: 1, start: 4, end: 7 };
    let mut chunk = Chunk::new(range);
    assert_eq!(chunk.receive(b"abc"), Ok(()));
    assert_eq!(
        chunk.receive(b"de"),
        Err(FetchError { range, cause: FetchCause::LengthMismatch })
    );
    assert_eq!(chunk.data(), b"abc");
    assert_eq!(chunk.received_bytes(), 3);
    assert_eq!(chunk.receive(b"d"), Ok(()));
    assert_eq!(chunk.data(), b"abcd");
    assert_eq!(
        chunk.receive(b"e"),
        Err(FetchError { range, cause: FetchCause::LengthMismatch })
    );
}

#[test]
fn a_stream_that_ends_early_is_truncated() {
    let range = ByteRange { index: 0, start: 0, end: 3 };
    let mut chunk = Chunk::new(range);
    assert_eq!(
        chunk.end_of_stream(),
        Err(FetchError { range, cause: FetchCause::Truncated })
    );
    assert_eq!(chunk.receive(b"abc"), Ok(()));
    assert_eq!(
        chunk.end_of_stream(),
        Err(FetchError { range, cause: FetchCause::Truncated })
    );
    assert_eq!(chunk.receive(b"d"), Ok(()));
    assert_eq!(chunk.end_of_stream(), Ok(()));
}

#[test]
fn the_unbounded_chunk_ends_where_its_stream_ends() {
    let mut chunk = Chunk::new(ByteRange::whole_stream());
    assert_eq!(chunk.end_of_stream(), Ok(()));
    assert_eq!(chunk.receive(b"some bytes"), Ok(()));
    assert_eq!(chunk.end_of_stream(), Ok(()));
    assert_eq!(chunk.receive(b" and more"), Ok(()));
    assert_eq!(chunk.end_of_stream(), Ok(()));
    assert_eq!(chunk.data(), b"some bytes and more");
    assert_eq!(chunk.received_bytes(), 19);
}

#[test]
fn a_range_that_ends_before_it_starts_holds_nothing() {
    let range = ByteRange { index: 0, start: 9, end: 3 };
    let mut chunk = Chunk::new(range);
    assert_eq!(chunk.receive(b""), Ok(()));
    assert_eq!(chunk.end_of_stream(), Ok(()));
    assert_eq!(
        chunk.receive(b"x"),
        Err(FetchError { range, cause: FetchCause::LengthMismatch })
    );
    assert_eq!(chunk.received_bytes(), 0);
}

#[test]
fn received_bytes_only_grow() {
    let range = ByteRange { index: 0, start: 0, end: 99 };
    let mut chunk = Chunk::new(range);
    let mut last: u64 = 0;
    let mut i: usize = 0;
    while i < 30 {
        let _ = chunk.receive(b"1234567");
        assert!(chunk.received_bytes() >= last);
        last = chunk.received_bytes();
        i += 1;
    }
    assert_eq!(last, 98);
}
