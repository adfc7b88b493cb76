use rangefetch::chunk::{FetchCause, FetchError};
use rangefetch::coordinator::{Directive, FetchEvent, Outcome, SlotState};
use rangefetch::descriptor::ResourceDescriptor;
use rangefetch::range::ByteRange;
use rangefetch::session::{DownloadSession, Progress};

fn descriptor(total_size: Option<u64>) -> ResourceDescriptor {
    ResourceDescriptor {
        url: String::from("https://example.org/file.bin"),
        total_size,
        supports_range: true,
    }
}

fn segment(index: usize, len: usize, fill: u8) -> FetchEvent {
    FetchEvent::Segment { index, bytes: vec![fill; len] }
}

#[test]
fn a_new_session_has_a_running_fetch_for_each_range() {
    let session = DownloadSession::new(descriptor(Some(1000)), 4);
    assert_eq!(
        session.ranges(),
        &[
            ByteRange { index: 0, start: 0, end: 249 },
            ByteRange { index: 1, start: 250, end: 499 },
            ByteRange { index: 2, start: 500, end: 749 },
            ByteRange { index: 3, start: 750, end: 999 },
        ]
    );
    let mut i: usize = 0;
    while i < 4 {
        assert_eq!(session.state(i), Some(SlotState::Fetching));
        let chunk = session.chunk(i).unwrap();
        assert_eq!(chunk.range(), session.ranges()[i]);
        assert_eq!(chunk.received_bytes(), 0);
        i += 1;
    }
    assert_eq!(session.state(4), None);
    assert!(session.chunk(4).is_none());
    assert_eq!(session.aggregate_progress(), 0);
    assert_eq!(session.failure(), None);
    assert_eq!(session.outcome(), Outcome::Running);
    assert_eq!(session.descriptor().total_size, Some(1000));
    assert_eq!(session.descriptor().url, "https://example.org/file.bin");
}

#[test]
fn reports_of_equal_size_add_up_in_any_order() {
    let orders: [[usize; 4]; 4] = [[0, 1, 2, 3], [3, 2, 1, 0], [2, 0, 3, 1], [1, 3, 0, 2]];
    let mut o: usize = 0;
    while o < orders.len() {
        let mut session = DownloadSession::new(descriptor(Some(1000)), 4);
        let mut j: usize = 0;
        while j < 4 {
            assert_eq!(session.apply(&segment(orders[o][j], 200, 7)), Directive::Proceed);
            assert_eq!(session.aggregate_progress(), 200 * (j as u64 + 1));
            j += 1;
        }
        assert_eq!(session.aggregate_progress(), 4 * 200);
        assert_eq!(session.outcome(), Outcome::Running);
        o += 1;
    }
}

#[test]
fn interleaved_reports_lose_nothing() {
    let mut session = DownloadSession::new(descriptor(Some(1000)), 4);
    let mut round: usize = 0;
    while round < 25 {
        let mut index: usize = 0;
        while index < 4 {
            assert_eq!(session.apply(&segment(3 - index, 10, 1)), Directive::Proceed);
            index += 1;
        }
        round += 1;
    }
    assert_eq!(session.aggregate_progress(), 1000);
    assert_eq!(
        session.progress(),
        Progress { bytes_received: 1000, bytes_total: Some(1000) }
    );
    let mut index: usize = 0;
    while index < 4 {
        assert_eq!(session.chunk(index).unwrap().received_bytes(), 250);
        index += 1;
    }
}

#[test]
fn the_last_completion_finishes_the_session() {
    let mut session = DownloadSession::new(descriptor(Some(8)), 2);
    assert_eq!(session.apply(&segment(1, 4, 2)), Directive::Proceed);
    assert_eq!(session.apply(&FetchEvent::EndOfStream { index: 1 }), Directive::Proceed);
    assert_eq!(session.state(1), Some(SlotState::Complete));
    assert_eq!(session.outcome(), Outcome::Running);
    assert_eq!(session.apply(&segment(0, 4, 1)), Directive::Proceed);
    assert_eq!(session.apply(&FetchEvent::EndOfStream { index: 0 }), Directive::Finished);
    assert_eq!(session.outcome(), Outcome::Succeeded);
    assert_eq!(session.failure(), None);
    assert_eq!(session.aggregate_progress(), 8);
}

#[test]
fn range_two_of_four_fails_with_a_connection_error() {
    let mut session = DownloadSession::new(descriptor(Some(1000)), 4);
    assert_eq!(session.apply(&segment(0, 100, 1)), Directive::Proceed);
    assert_eq!(session.apply(&segment(2, 50, 1)), Directive::Proceed);
    let directive =
        session.apply(&FetchEvent::Failed { index: 2, cause: FetchCause::Connection });
    assert_eq!(directive, Directive::CancelRemaining);
    let error = FetchError {
        range: ByteRange { index: 2, start: 500, end: 749 },
        cause: FetchCause::Connection,
    };
    assert_eq!(error.range.index, 2);
    assert_eq!(session.outcome(), Outcome::Failed(error));
    assert_eq!(session.failure(), Some(error));
    assert_eq!(session.state(0), Some(SlotState::Cancelled));
    assert_eq!(session.state(1), Some(SlotState::Cancelled));
    assert_eq!(session.state(2), Some(SlotState::Failed));
    assert_eq!(session.state(3), Some(SlotState::Cancelled));
    assert!(session.assemble().is_none());
    assert!(session.write_ops().is_none());
}

#[test]
fn the_first_failure_wins() {
    let mut session = DownloadSession::new(descriptor(Some(1000)), 4);
    assert_eq!(
        session.apply(&FetchEvent::Failed { index: 1, cause: FetchCause::Status(503) }),
        Directive::CancelRemaining
    );
    let first = session.failure();
    assert_eq!(
        first,
        Some(FetchError {
            range: ByteRange { index: 1, start: 250, end: 499 },
            cause: FetchCause::Status(503),
        })
    );
    assert_eq!(
        session.apply(&FetchEvent::Failed { index: 0, cause: FetchCause::Connection }),
        Directive::Discarded
    );
    assert_eq!(
        session.apply(&FetchEvent::Failed { index: 1, cause: FetchCause::Truncated }),
        Directive::Discarded
    );
    assert_eq!(session.apply(&FetchEvent::Cancelled { index: 3 }), Directive::Discarded);
    assert_eq!(session.apply(&segment(2, 10, 0)), Directive::Discarded);
    assert_eq!(session.apply(&FetchEvent::EndOfStream { index: 2 }), Directive::Discarded);
    assert_eq!(session.failure(), first);
    assert_eq!(session.aggregate_progress(), 0);
    assert_eq!(session.state(0), Some(SlotState::Cancelled));
}

#[test]
fn a_complete_range_stays_complete_when_a_sibling_fails() {
    let mut session = DownloadSession::new(descriptor(Some(8)), 2);
    assert_eq!(session.apply(&segment(0, 4, 1)), Directive::Proceed);
    assert_eq!(session.apply(&FetchEvent::EndOfStream { index: 0 }), Directive::Proceed);
    assert_eq!(
        session.apply(&FetchEvent::Failed { index: 1, cause: FetchCause::Connection }),
        Directive::CancelRemaining
    );
    assert_eq!(session.state(0), Some(SlotState::Complete));
    assert_eq!(session.state(1), Some(SlotState::Failed));
    assert_eq!(session.aggregate_progress(), 4);
    assert!(session.assemble().is_none());
}

#[test]
fn a_segment_too_many_fails_the_session_with_a_length_mismatch() {
    let mut session = DownloadSession::new(descriptor(Some(8)), 2);
    assert_eq!(session.apply(&segment(0, 3, 1)), Directive::Proceed);
    assert_eq!(session.apply(&segment(0, 2, 1)), Directive::CancelRemaining);
    assert_eq!(
        session.outcome(),
        Outcome::Failed(FetchError {
            range: ByteRange { index: 0, start: 0, end: 3 },
            cause: FetchCause::LengthMismatch,
        })
    );
    assert_eq!(session.aggregate_progress(), 3);
    assert_eq!(session.chunk(0).unwrap().received_bytes(), 3);
    assert_eq!(session.state(1), Some(SlotState::Cancelled));
}

#[test]
fn a_stream_cut_short_fails_the_session_as_truncated() {
    let mut session = DownloadSession::new(descriptor(Some(8)), 2);
    assert_eq!(session.apply(&segment(1, 3, 1)), Directive::Proceed);
    assert_eq!(
        session.apply(&FetchEvent::EndOfStream { index: 1 }),
        Directive::CancelRemaining
    );
    assert_eq!(
        session.outcome(),
        Outcome::Failed(FetchError {
            range: ByteRange { index: 1, start: 4, end: 7 },
            cause: FetchCause::Truncated,
        })
    );
    assert_eq!(session.state(0), Some(SlotState::Cancelled));
    assert_eq!(session.state(1), Some(SlotState::Failed));
}

#[test]
fn reports_for_unknown_ranges_are_discarded() {
    let mut session = DownloadSession::new(descriptor(Some(8)), 2);
    assert_eq!(session.apply(&segment(2, 1, 1)), Directive::Discarded);
    assert_eq!(session.apply(&FetchEvent::EndOfStream { index: 9 }), Directive::Discarded);
    assert_eq!(
        session.apply(&FetchEvent::Failed { index: usize::MAX, cause: FetchCause::Connection }),
        Directive::Discarded
    );
    assert_eq!(session.apply(&FetchEvent::Cancelled { index: 2 }), Directive::Discarded);
    assert_eq!(session.outcome(), Outcome::Running);
    assert_eq!(session.aggregate_progress(), 0);
}

#[test]
fn reports_for_a_complete_range_are_discarded() {
    let mut session = DownloadSession::new(descriptor(Some(8)), 2);
    assert_eq!(session.apply(&segment(0, 4, 1)), Directive::Proceed);
    assert_eq!(session.apply(&FetchEvent::EndOfStream { index: 0 }), Directive::Proceed);
    assert_eq!(session.apply(&segment(0, 1, 1)), Directive::Discarded);
    assert_eq!(
        session.apply(&FetchEvent::Failed { index: 0, cause: FetchCause::Connection }),
        Directive::Discarded
    );
    assert_eq!(session.outcome(), Outcome::Running);
    assert_eq!(session.state(0), Some(SlotState::Complete));
    assert_eq!(session.aggregate_progress(), 4);
}

#[test]
fn a_cancelled_fetch_is_no_failure_of_its_own() {
    let mut session = DownloadSession::new(descriptor(Some(8)), 2);
    assert_eq!(session.apply(&FetchEvent::Cancelled { index: 0 }), Directive::Proceed);
    assert_eq!(session.state(0), Some(SlotState::Cancelled));
    assert_eq!(session.failure(), None);
    assert_eq!(session.outcome(), Outcome::Running);
    assert_eq!(
        session.apply(&FetchEvent::Failed { index: 1, cause: FetchCause::Connection }),
        Directive::CancelRemaining
    );
    assert_eq!(
        session.failure(),
        Some(FetchError {
            range: ByteRange { index: 1, start: 4, end: 7 },
            cause: FetchCause::Connection,
        })
    );
    assert_eq!(session.state(0), Some(SlotState::Cancelled));
}

#[test]
fn a_session_whose_fetches_all_stopped_is_cancelled() {
    let mut session = DownloadSession::new(descriptor(Some(8)), 2);
    assert_eq!(session.apply(&FetchEvent::Cancelled { index: 0 }), Directive::Proceed);
    assert_eq!(session.apply(&FetchEvent::Cancelled { index: 1 }), Directive::Proceed);
    assert_eq!(session.outcome(), Outcome::Cancelled);
    assert!(session.assemble().is_none());
    assert!(session.write_ops().is_none());
}

#[test]
fn an_unknown_length_is_fetched_as_one_stream() {
    let mut session = DownloadSession::new(descriptor(None), 4);
    assert_eq!(session.ranges(), &[ByteRange::whole_stream()]);
    assert_eq!(session.apply(&segment(0, 300, 5)), Directive::Proceed);
    assert_eq!(session.apply(&segment(0, 300, 6)), Directive::Proceed);
    assert_eq!(session.progress(), Progress { bytes_received: 600, bytes_total: None });
    assert_eq!(session.apply(&segment(1, 1, 0)), Directive::Discarded);
    assert_eq!(session.apply(&FetchEvent::EndOfStream { index: 0 }), Directive::Finished);
    assert_eq!(session.outcome(), Outcome::Succeeded);
    assert_eq!(session.assemble().unwrap().len(), 600);
}

#[test]
fn an_empty_resource_has_succeeded_from_the_start() {
    let mut session = DownloadSession::new(descriptor(Some(0)), 4);
    assert!(session.ranges().is_empty());
    assert_eq!(session.outcome(), Outcome::Succeeded);
    assert_eq!(session.apply(&segment(0, 1, 0)), Directive::Discarded);
    assert_eq!(session.apply(&FetchEvent::EndOfStream { index: 0 }), Directive::Discarded);
    assert_eq!(session.outcome(), Outcome::Succeeded);
    assert_eq!(session.assemble(), Some(Vec::new()));
    assert_eq!(session.write_ops().unwrap().len(), 0);
}

#[test]
fn a_server_without_ranges_is_asked_by_one_fetch() {
    let session = DownloadSession::new(
        ResourceDescriptor {
            url: String::from("http://example.org/a"),
            total_size: Some(1000),
            supports_range: false,
        },
        4,
    );
    assert_eq!(session.ranges(), &[ByteRange { index: 0, start: 0, end: 999 }]);
}

#[test]
fn progress_only_grows() {
    let mut session = DownloadSession::new(descriptor(Some(100)), 3);
    let events = vec![
        segment(0, 10, 0),
        segment(5, 10, 0),
        segment(2, 30, 0),
        FetchEvent::Cancelled { index: 1 },
        segment(1, 5, 0),
        segment(0, 23, 0),
        FetchEvent::EndOfStream { index: 0 },
        segment(2, 40, 0),
        segment(2, 1, 0),
    ];
    let mut last: u64 = 0;
    let mut i: usize = 0;
    while i < events.len() {
        let _ = session.apply(&events[i]);
        assert!(session.aggregate_progress() >= last);
        last = session.aggregate_progress();
        let mut sum: u64 = 0;
        let mut c: usize = 0;
        while c < 3 {
            sum += session.chunk(c).unwrap().received_bytes();
            c += 1;
        }
        assert_eq!(sum, last);
        i += 1;
    }
    assert_eq!(last, 63);
    assert_eq!(
        session.failure(),
        Some(FetchError {
            range: ByteRange { index: 2, start: 66, end: 99 },
            cause: FetchCause::LengthMismatch,
        })
    );
}
