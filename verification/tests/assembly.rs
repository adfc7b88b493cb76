use rangefetch::chunk::FetchCause;
use rangefetch::coordinator::{Directive, FetchEvent, Outcome};
use rangefetch::descriptor::ResourceDescriptor;
use rangefetch::session::DownloadSession;

fn descriptor(total_size: Option<u64>) -> ResourceDescriptor {
    ResourceDescriptor {
        url: String::from("https://example.org/file.bin"),
        total_size,
        supports_range: true,
    }
}

fn content(total: usize) -> Vec<u8> {
    let mut bytes: Vec<u8> = Vec::new();
    let mut i: usize = 0;
    while i < total {
        bytes.push((i * 31 % 251) as u8);
        i += 1;
    }
    bytes
}

fn fetch_all(total: usize, threads: u8, order: &[usize], piece: usize) -> DownloadSession {
    let source = content(total);
    let mut session = DownloadSession::new(descriptor(Some(total as u64)), threads);
    let mut o: usize = 0;
    while o < order.len() {
        let index: usize = order[o];
        let range = session.ranges()[index];
        let mut at: usize = range.start as usize;
        let end: usize = range.end as usize + 1;
        while at < end {
            let upto: usize = if at + piece < end { at + piece } else { end };
            let event = FetchEvent::Segment { index, bytes: source[at..upto].to_vec() };
            assert_eq!(session.apply(&event), Directive::Proceed);
            at = upto;
        }
        let directive = session.apply(&FetchEvent::EndOfStream { index });
        if o + 1 == order.len() {
            assert_eq!(directive, Directive::Finished);
        } else {
            assert_eq!(directive, Directive::Proceed);
        }
        o += 1;
    }
    session
}

fn write_to(file: &mut Vec<u8>, offset: u64, data: &[u8]) {
    let offset: usize = offset as usize;
    if file.len() < offset + data.len() {
        file.resize(offset + data.len(), 0);
    }
    file[offset..offset + data.len()].copy_from_slice(data);
}

#[test]
fn assembles_the_chunks_in_the_order_of_their_ranges() {
    let session = fetch_all(1000, 4, &[2, 0, 3, 1], 64);
    assert_eq!(session.outcome(), Outcome::Succeeded);
    assert_eq!(session.assemble(), Some(content(1000)));
}

#[test]
fn the_output_is_as_long_as_the_resource() {
    let totals: [usize; 6] = [1, 2, 10, 255, 1000, 1003];
    let mut t: usize = 0;
    while t < totals.len() {
        let mut threads: u8 = 1;
        while threads <= 9 {
            let mut session =
                DownloadSession::new(descriptor(Some(totals[t] as u64)), threads);
            let count: usize = session.ranges().len();
            let mut index: usize = 0;
            while index < count {
                let len: usize = session.ranges()[index].expected_len().unwrap() as usize;
                let _ = session.apply(&FetchEvent::Segment { index, bytes: vec![9; len] });
                let _ = session.apply(&FetchEvent::EndOfStream { index });
                index += 1;
            }
            assert_eq!(session.assemble().unwrap().len(), totals[t]);
            assert_eq!(session.aggregate_progress(), totals[t] as u64);
            threads += 1;
        }
        t += 1;
    }
}

#[test]
fn assembling_twice_gives_the_same_bytes() {
    let session = fetch_all(1003, 4, &[3, 1, 0, 2], 100);
    let first = session.assemble();
    let second = session.assemble();
    assert!(first.is_some());
    assert_eq!(first, second);
    assert_eq!(first.unwrap(), content(1003));
}

#[test]
fn completion_order_does_not_change_the_output() {
    let a = fetch_all(100, 3, &[0, 1, 2], 7);
    let b = fetch_all(100, 3, &[2, 1, 0], 13);
    let c = fetch_all(100, 3, &[1, 2, 0], 100);
    assert_eq!(a.assemble(), b.assemble());
    assert_eq!(b.assemble(), c.assemble());
    assert_eq!(c.assemble(), Some(content(100)));
}

#[test]
fn writes_go_to_the_first_offset_of_each_range() {
    let session = fetch_all(10, 3, &[1, 2, 0], 2);
    let source = content(10);
    let ops = session.write_ops().unwrap();
    assert_eq!(ops.len(), 3);
    assert_eq!(ops[0].offset, 0);
    assert_eq!(ops[0].data, &source[0..3]);
    assert_eq!(ops[1].offset, 3);
    assert_eq!(ops[1].data, &source[3..6]);
    assert_eq!(ops[2].offset, 6);
    assert_eq!(ops[2].data, &source[6..10]);
}

#[test]
fn writes_at_offsets_equal_the_concatenation() {
    let session = fetch_all(1000, 4, &[3, 2, 1, 0], 33);
    let ops = session.write_ops().unwrap();
    let mut file: Vec<u8> = Vec::new();
    let mut i: usize = 0;
    while i < ops.len() {
        write_to(&mut file, ops[i].offset, ops[i].data);
        i += 1;
    }
    assert_eq!(Some(file.clone()), session.assemble());
    let mut i: usize = 0;
    while i < ops.len() {
        write_to(&mut file, ops[i].offset, ops[i].data);
        i += 1;
    }
    assert_eq!(Some(file), session.assemble());
}

#[test]
fn writes_replace_what_a_shorter_file_held() {
    let session = fetch_all(50, 4, &[0, 1, 2, 3], 50);
    let ops = session.write_ops().unwrap();
    let mut file: Vec<u8> = vec![0xff; 20];
    let mut i: usize = 0;
    while i < ops.len() {
        write_to(&mut file, ops[i].offset, ops[i].data);
        i += 1;
    }
    assert_eq!(file, content(50));
}

#[test]
fn a_running_session_is_not_assembled() {
    let mut session = DownloadSession::new(descriptor(Some(8)), 2);
    assert!(session.assemble().is_none());
    assert!(session.write_ops().is_none());
    let _ = session.apply(&FetchEvent::Segment { index: 0, bytes: vec![1; 4] });
    let _ = session.apply(&FetchEvent::EndOfStream { index: 0 });
    let _ = session.apply(&FetchEvent::Segment { index: 1, bytes: vec![1; 4] });
    assert!(session.assemble().is_none());
    assert!(session.write_ops().is_none());
    assert_eq!(session.apply(&FetchEvent::EndOfStream { index: 1 }), Directive::Finished);
    assert_eq!(session.assemble(), Some(vec![1; 8]));
}

#[test]
fn a_failed_session_has_nothing_to_write() {
    let mut session = DownloadSession::new(descriptor(Some(8)), 2);
    let _ = session.apply(&FetchEvent::Segment { index: 0, bytes: vec![1; 4] });
    let _ = session.apply(&FetchEvent::EndOfStream { index: 0 });
    let _ = session.apply(&FetchEvent::Segment { index: 1, bytes: vec![1; 4] });
    let _ = session.apply(&FetchEvent::Failed { index: 1, cause: FetchCause::Connection });
    assert!(session.assemble().is_none());
    assert!(session.write_ops().is_none());
}

#[test]
fn an_unknown_length_is_assembled_to_the_streamed_length() {
    let mut session = DownloadSession::new(descriptor(None), 4);
    let _ = session.apply(&FetchEvent::Segment { index: 0, bytes: b"hello ".to_vec() });
    let _ = session.apply(&FetchEvent::Segment { index: 0, bytes: b"world".to_vec() });
    assert_eq!(session.apply(&FetchEvent::EndOfStream { index: 0 }), Directive::Finished);
    assert_eq!(session.assemble(), Some(b"hello world".to_vec()));
    let ops = session.write_ops().unwrap();
    assert_eq!(ops.len(), 1);
    assert_eq!(ops[0].offset, 0);
    assert_eq!(ops[0].data, b"hello world");
}
