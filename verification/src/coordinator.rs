//! The fetch coordinator as a state machine: the state of a download
//! session, the events that its fetches report, and what each event does to
//! the session.

use crate::chunk::{ChunkView, FetchCause, FetchError};
use crate::descriptor::{valid_plan, DescriptorView};
use crate::range::{lemma_tiles_partition, total_bytes, ByteRange};
use vstd::prelude::*;

verus! {

/// Where the fetch of one range stands.
#[derive(Clone, Copy, Debug, PartialEq, Eq, Structural)]
pub enum SlotState {
    /// The fetch is running.
    Fetching,
    /// The fetch delivered every byte of its range.
    Complete,
    /// The fetch failed; its error is the session's.
    Failed,
    /// The fetch was stopped before it completed.
    Cancelled,
}

/// What a fetch reports to the coordinator. `index` names the range by its
/// position in the plan.
#[derive(Debug)]
pub enum FetchEvent {
    /// A segment of the response body arrived.
    Segment { index: usize, bytes: Vec<u8> },
    /// The response body ended.
    EndOfStream { index: usize },
    /// The fetch failed.
    Failed { index: usize, cause: FetchCause },
    /// The fetch stopped because it was told to.
    Cancelled { index: usize },
}

/// A fetch event as contracts see it.
pub enum FetchEventView {
    Segment { index: usize, bytes: Seq<u8> },
    EndOfStream { index: usize },
    Failed { index: usize, cause: FetchCause },
    Cancelled { index: usize },
}

impl FetchEventView {
    /// The position of the range that the event is about.
    pub open spec fn index(self) -> int {
        match self {
            FetchEventView::Segment { index, .. } => index as int,
            FetchEventView::EndOfStream { index } => index as int,
            FetchEventView::Failed { index, .. } => index as int,
            FetchEventView::Cancelled { index } => index as int,
        }
    }
}

impl View for FetchEvent {
    type V = FetchEventView;

    open spec fn view(&self) -> FetchEventView {
        match *self {
            FetchEvent::Segment { index, bytes } => FetchEventView::Segment { index, bytes: bytes@ },
            FetchEvent::EndOfStream { index } => FetchEventView::EndOfStream { index },
            FetchEvent::Failed { index, cause } => FetchEventView::Failed { index, cause },
            FetchEvent::Cancelled { index } => FetchEventView::Cancelled { index },
        }
    }
}

impl FetchEvent {
    /// The position of the range that the event is about.
    pub fn index(&self) -> (index: usize)
        ensures
            index == self@.index(),
    {
        match self {
            FetchEvent::Segment { index, .. } => *index,
            FetchEvent::EndOfStream { index } => *index,
            FetchEvent::Failed { index, .. } => *index,
            FetchEvent::Cancelled { index } => *index,
        }
    }
}

/// What the coordinator asks of its caller after an event.
#[derive(Clone, Copy, Debug, PartialEq, Eq, Structural)]
pub enum Directive {
    /// Go on: fetches are still running and none has failed.
    Proceed,
    /// The event failed the session: stop the fetches that still run.
    CancelRemaining,
    /// The event completed the last range: the session has succeeded.
    Finished,
    /// The event changed nothing: it names no range, or one whose fetch is
    /// no longer running.
    Discarded,
}

/// How a session stands as a whole.
#[derive(Clone, Copy, Debug, PartialEq, Eq, Structural)]
pub enum Outcome {
    /// Some fetch is running and none has failed.
    Running,
    /// Every range is complete.
    Succeeded,
    /// A fetch failed; this is the first failure, and the only one kept.
    Failed(FetchError),
    /// No fetch is running, none failed, and some range is incomplete.
    Cancelled,
}

/// The sum of the byte counts that the chunks report.
pub open spec fn received_total(chunks: Seq<ChunkView>) -> int
    decreases chunks.len(),
{
    if chunks.len() == 0 {
        0
    } else {
        received_total(chunks.drop_last()) + chunks.last().received_bytes
    }
}

/// A download session as contracts see it.
pub struct SessionView {
    /// The resource.
    pub descriptor: DescriptorView,
    /// The plan, in the order of assembly.
    pub ranges: Seq<ByteRange>,
    /// The chunk of each range, at the range's position.
    pub chunks: Seq<ChunkView>,
    /// The state of each range's fetch, at the range's position.
    pub states: Seq<SlotState>,
    /// The bytes received over all chunks.
    pub aggregate_progress: int,
    /// The first failure, once there is one.
    pub failure: Option<FetchError>,
}

impl SessionView {
    /// The session at its start: the descriptor's plan, an empty chunk and a
    /// running fetch for each range, nothing received, nothing failed.
    pub open spec fn initial(descriptor: DescriptorView, thread_count: u8) -> SessionView {
        let ranges = descriptor.plan(thread_count);
        SessionView {
            descriptor,
            ranges,
            chunks: Seq::new(ranges.len(), |i: int| ChunkView::empty(ranges[i])),
            states: Seq::new(ranges.len(), |i: int| SlotState::Fetching),
            aggregate_progress: 0,
            failure: None,
        }
    }

    /// The invariant of every session: the plan is valid for the resource;
    /// each range has its chunk and its state; a complete range's chunk is
    /// full; the aggregate progress is the sum over the chunks; and once a
    /// fetch has failed, its slot alone is marked failed and no fetch runs.
    pub open spec fn wf(self) -> bool {
        &&& valid_plan(self.ranges, self.descriptor.total_size)
        &&& self.chunks.len() == self.ranges.len()
        &&& self.states.len() == self.ranges.len()
        &&& forall|i: int|
            0 <= i < self.chunks.len() ==> (#[trigger] self.chunks[i]).wf() && self.chunks[i].range
                == self.ranges[i]
        &&& forall|i: int|
            0 <= i < self.states.len() && #[trigger] self.states[i] == SlotState::Complete
                ==> self.chunks[i].is_full()
        &&& self.aggregate_progress == received_total(self.chunks)
        &&& match self.failure {
            Some(error) => {
                &&& error.range.index < self.ranges.len()
                &&& self.ranges[error.range.index as int] == error.range
                &&& forall|i: int|
                    0 <= i < self.states.len() ==> (#[trigger] self.states[i])
                        != SlotState::Fetching && (self.states[i] == SlotState::Failed <==> i
                        == error.range.index)
            },
            None => forall|i: int|
                0 <= i < self.states.len() ==> (#[trigger] self.states[i]) != SlotState::Failed,
        }
    }

    /// Whether the fetch of the range at `index` is running.
    pub open spec fn is_fetching(self, index: int) -> bool {
        0 <= index < self.states.len() && self.states[index] == SlotState::Fetching
    }

    /// Whether every range is complete.
    pub open spec fn all_complete(self) -> bool {
        forall|i: int| 0 <= i < self.states.len() ==> #[trigger] self.states[i] == SlotState::Complete
    }

    /// Whether some fetch is running.
    pub open spec fn any_fetching(self) -> bool {
        exists|i: int| 0 <= i < self.states.len() && #[trigger] self.states[i] == SlotState::Fetching
    }

    /// How the session stands.
    pub open spec fn outcome(self) -> Outcome {
        match self.failure {
            Some(error) => Outcome::Failed(error),
            None => if self.all_complete() {
                Outcome::Succeeded
            } else if self.any_fetching() {
                Outcome::Running
            } else {
                Outcome::Cancelled
            },
        }
    }

    /// The session after the fetch at `index` has failed with `cause`: the
    /// failure is recorded with its range, the slot is marked failed, and
    /// every other running fetch is marked cancelled.
    pub open spec fn fail_at(self, index: int, cause: FetchCause) -> SessionView {
        SessionView {
            states: Seq::new(
                self.states.len(),
                |i: int|
                    if i == index {
                        SlotState::Failed
                    } else if self.states[i] == SlotState::Fetching {
                        SlotState::Cancelled
                    } else {
                        self.states[i]
                    },
            ),
            failure: Some(FetchError { range: self.ranges[index], cause }),
            ..self
        }
    }

    /// The session after `event`.
    ///
    /// An event for a range whose fetch is not running changes nothing; so
    /// nothing changes once a fetch has failed. A segment that fits is
    /// appended to its chunk and counted; one that does not fails the
    /// session with `LengthMismatch`. The end of the stream completes a full
    /// chunk and fails the session with `Truncated` otherwise. A failure
    /// fails the session with its cause. A cancelled fetch is marked so.
    pub open spec fn step(self, event: FetchEventView) -> SessionView {
        let index = event.index();
        if !self.is_fetching(index) {
            self
        } else {
            match event {
                FetchEventView::Segment { bytes, .. } => if self.chunks[index].accepts(bytes.len()) {
                    SessionView {
                        chunks: self.chunks.update(index, self.chunks[index].extended(bytes)),
                        aggregate_progress: self.aggregate_progress + bytes.len(),
                        ..self
                    }
                } else {
                    self.fail_at(index, FetchCause::LengthMismatch)
                },
                FetchEventView::EndOfStream { .. } => if self.chunks[index].is_full() {
                    SessionView { states: self.states.update(index, SlotState::Complete), ..self }
                } else {
                    self.fail_at(index, FetchCause::Truncated)
                },
                FetchEventView::Failed { cause, .. } => self.fail_at(index, cause),
                FetchEventView::Cancelled { .. } => SessionView {
                    states: self.states.update(index, SlotState::Cancelled),
                    ..self
                },
            }
        }
    }

    /// What the coordinator asks of its caller after `event`.
    pub open spec fn directive(self, event: FetchEventView) -> Directive {
        if !self.is_fetching(event.index()) {
            Directive::Discarded
        } else if self.step(event).failure is Some {
            Directive::CancelRemaining
        } else if self.step(event).all_complete() {
            Directive::Finished
        } else {
            Directive::Proceed
        }
    }

    /// The failure that `event` reports or shows of a running fetch: a
    /// reported failure with its cause, a segment that does not fit as
    /// `LengthMismatch`, the end of a stream that has not filled its range
    /// as `Truncated`. Any other event, and every event for a fetch that is
    /// not running, shows none.
    pub open spec fn failure_of(self, event: FetchEventView) -> Option<FetchError> {
        let index = event.index();
        if !self.is_fetching(index) {
            None
        } else {
            match event {
                FetchEventView::Segment { bytes, .. } => if self.chunks[index].accepts(bytes.len()) {
                    None
                } else {
                    Some(FetchError { range: self.ranges[index], cause: FetchCause::LengthMismatch })
                },
                FetchEventView::EndOfStream { .. } => if self.chunks[index].is_full() {
                    None
                } else {
                    Some(FetchError { range: self.ranges[index], cause: FetchCause::Truncated })
                },
                FetchEventView::Failed { cause, .. } => Some(
                    FetchError { range: self.ranges[index], cause },
                ),
                FetchEventView::Cancelled { .. } => None,
            }
        }
    }

    /// Whether `event` reports or shows the failure of a running fetch.
    pub open spec fn fails_on(self, event: FetchEventView) -> bool {
        self.failure_of(event) is Some
    }

    /// The session after the events of `events`, in their order.
    pub open spec fn run(self, events: Seq<FetchEventView>) -> SessionView
        decreases events.len(),
    {
        if events.len() == 0 {
            self
        } else {
            self.run(events.drop_last()).step(events.last())
        }
    }
}

/// Replacing one chunk changes the sum by the difference of the two counts.
pub proof fn lemma_received_total_update(chunks: Seq<ChunkView>, index: int, chunk: ChunkView)
    requires
        0 <= index < chunks.len(),
    ensures
        received_total(chunks.update(index, chunk)) == received_total(chunks)
            - chunks[index].received_bytes + chunk.received_bytes,
    decreases chunks.len(),
{
    let updated = chunks.update(index, chunk);
    if index == chunks.len() - 1 {
        assert(updated.drop_last() =~= chunks.drop_last());
    } else {
        lemma_received_total_update(chunks.drop_last(), index, chunk);
        assert(updated.drop_last() =~= chunks.drop_last().update(index, chunk));
    }
}

/// Chunks that each hold no more than their range hold together no more
/// than the ranges' byte counts add up to.
proof fn lemma_received_within_ranges(chunks: Seq<ChunkView>, ranges: Seq<ByteRange>)
    requires
        chunks.len() == ranges.len(),
        forall|i: int|
            0 <= i < chunks.len() ==> 0 <= (#[trigger] chunks[i]).received_bytes
                <= ranges[i].byte_count(),
    ensures
        0 <= received_total(chunks) <= total_bytes(ranges),
    decreases chunks.len(),
{
    if chunks.len() > 0 {
        let shorter = chunks.drop_last();
        assert forall|i: int| 0 <= i < shorter.len() implies 0 <= (
        #[trigger] shorter[i]).received_bytes <= ranges.drop_last()[i].byte_count() by {
            assert(shorter[i] == chunks[i]);
        }
        lemma_received_within_ranges(shorter, ranges.drop_last());
        assert(0 <= chunks[chunks.len() - 1].received_bytes);
    }
}

/// The aggregate progress of a session never passes the length of its
/// resource, nor what a `u64` can count.
pub proof fn lemma_progress_bounded(session: SessionView)
    requires
        session.wf(),
    ensures
        0 <= session.aggregate_progress <= u64::MAX,
        session.descriptor.total_size matches Some(total) ==> session.aggregate_progress <= total,
{
    match session.descriptor.total_size {
        Some(total) => {
            lemma_tiles_partition(session.ranges, total as int);
            assert forall|i: int| 0 <= i < session.chunks.len() implies 0 <= (
            #[trigger] session.chunks[i]).received_bytes <= session.ranges[i].byte_count() by {
                assert(session.chunks[i].wf());
            }
            lemma_received_within_ranges(session.chunks, session.ranges);
        },
        None => {
            assert(session.chunks.len() == 1);
            assert(session.chunks[0].wf());
            assert(session.chunks.drop_last() =~= Seq::<ChunkView>::empty());
            assert(received_total(session.chunks.drop_last()) == 0);
            assert(received_total(session.chunks) == session.chunks[0].received_bytes);
        },
    }
}

/// The session's start obeys the invariant.
pub proof fn lemma_initial_wf(descriptor: DescriptorView, thread_count: u8)
    ensures
        SessionView::initial(descriptor, thread_count).wf(),
{
    let session = SessionView::initial(descriptor, thread_count);
    crate::descriptor::lemma_plan_valid(descriptor, thread_count);
    lemma_empty_chunks_total(session.ranges);
    assert forall|i: int| 0 <= i < session.chunks.len() implies (#[trigger] session.chunks[i]).wf()
        && session.chunks[i].range == session.ranges[i] by {
        match descriptor.total_size {
            Some(total) => {
                assert(session.ranges[i].start <= session.ranges[i].end);
            },
            None => {},
        }
    }
}

/// Empty chunks hold nothing.
proof fn lemma_empty_chunks_total(ranges: Seq<ByteRange>)
    ensures
        received_total(Seq::new(ranges.len(), |i: int| ChunkView::empty(ranges[i]))) == 0,
    decreases ranges.len(),
{
    let chunks = Seq::new(ranges.len(), |i: int| ChunkView::empty(ranges[i]));
    if ranges.len() > 0 {
        let shorter = ranges.drop_last();
        lemma_empty_chunks_total(shorter);
        assert(chunks.drop_last() =~= Seq::new(shorter.len(), |i: int| ChunkView::empty(shorter[i])));
    }
}

/// Every event keeps the invariant.
pub proof fn lemma_step_wf(session: SessionView, event: FetchEventView)
    requires
        session.wf(),
    ensures
        session.step(event).wf(),
{
    let index = event.index();
    let next = session.step(event);
    if session.is_fetching(index) {
        assert(session.failure is None) by {
            if session.failure is Some {
                assert(session.states[index] != SlotState::Fetching);
            }
        }
        match event {
            FetchEventView::Segment { bytes, .. } => {
                if session.chunks[index].accepts(bytes.len()) {
                    lemma_received_total_update(
                        session.chunks,
                        index,
                        session.chunks[index].extended(bytes),
                    );
                    assert(session.chunks[index].wf());
                } else {
                    lemma_fail_at_wf(session, index, FetchCause::LengthMismatch);
                }
            },
            FetchEventView::EndOfStream { .. } => {
                if session.chunks[index].is_full() {
                } else {
                    lemma_fail_at_wf(session, index, FetchCause::Truncated);
                }
            },
            FetchEventView::Failed { cause, .. } => {
                lemma_fail_at_wf(session, index, cause);
            },
            FetchEventView::Cancelled { .. } => {},
        }
    }
}

/// Failing a running fetch keeps the invariant.
proof fn lemma_fail_at_wf(session: SessionView, index: int, cause: FetchCause)
    requires
        session.wf(),
        session.is_fetching(index),
    ensures
        session.fail_at(index, cause).wf(),
{
    let next = session.fail_at(index, cause);
    assert(session.failure is None) by {
        if session.failure is Some {
            assert(session.states[index] != SlotState::Fetching);
        }
    }
    assert(session.ranges[index].index == index) by {
        match session.descriptor.total_size {
            Some(total) => {},
            None => {},
        }
    }
    assert forall|i: int|
        0 <= i < next.states.len() && #[trigger] next.states[i]
            == SlotState::Complete implies next.chunks[i].is_full() by {
        assert(session.states[i] == SlotState::Complete);
    }
    assert forall|i: int| 0 <= i < next.states.len() implies (#[trigger] next.states[i])
        != SlotState::Fetching && (next.states[i] == SlotState::Failed <==> i == index) by {
        assert(session.states[i] != SlotState::Failed);
    }
}

/// Every run of events keeps the invariant.
pub proof fn lemma_run_wf(session: SessionView, events: Seq<FetchEventView>)
    requires
        session.wf(),
    ensures
        session.run(events).wf(),
    decreases events.len(),
{
    if events.len() > 0 {
        lemma_run_wf(session, events.drop_last());
        lemma_step_wf(session.run(events.drop_last()), events.last());
    }
}

/// Running two lists of events one after the other is running them as one.
pub proof fn lemma_run_concat(
    session: SessionView,
    first: Seq<FetchEventView>,
    second: Seq<FetchEventView>,
)
    ensures
        session.run(first + second) == session.run(first).run(second),
    decreases second.len(),
{
    if second.len() == 0 {
        assert(first + second =~= first);
    } else {
        lemma_run_concat(session, first, second.drop_last());
        assert((first + second).drop_last() =~= first + second.drop_last());
        assert((first + second).last() == second.last());
    }
}

/// The failure of a running fetch fails the session at once.
///
/// When `event` reports or shows the failure of a running fetch, the
/// session's outcome becomes that failure, with the range of the fetch and
/// the cause; the caller is told to cancel; the failed fetch is marked so,
/// every other fetch that was running is marked cancelled, and what was
/// complete stays complete. Nothing else changes.
pub proof fn lemma_failure_fails_session(session: SessionView, event: FetchEventView)
    requires
        session.wf(),
        session.fails_on(event),
    ensures
        session.step(event).outcome() == Outcome::Failed(session.failure_of(event).unwrap()),
        session.directive(event) == Directive::CancelRemaining,
        session.step(event).states.len() == session.states.len(),
        forall|i: int|
            0 <= i < session.states.len() ==> #[trigger] session.step(event).states[i] == (if i
                == event.index() {
                SlotState::Failed
            } else if session.states[i] == SlotState::Fetching {
                SlotState::Cancelled
            } else {
                session.states[i]
            }),
        session.step(event).chunks == session.chunks,
        session.step(event).aggregate_progress == session.aggregate_progress,
{
}

/// The first failure wins. Once a fetch has failed, no event changes the
/// session: later segments, completions, failures and cancellations of the
/// other fetches are all discarded.
pub proof fn lemma_failure_is_final(session: SessionView, events: Seq<FetchEventView>)
    requires
        session.wf(),
        session.failure is Some,
    ensures
        session.run(events) == session,
        forall|j: int|
            0 <= j < events.len() ==> session.directive(#[trigger] events[j])
                == Directive::Discarded,
    decreases events.len(),
{
    assert forall|j: int| 0 <= j < events.len() implies session.directive(#[trigger] events[j])
        == Directive::Discarded by {
        let index = events[j].index();
        if 0 <= index < session.states.len() {
            assert(session.states[index] != SlotState::Fetching);
        }
    }
    if events.len() > 0 {
        lemma_failure_is_final(session, events.drop_last());
        assert(session.directive(events[events.len() - 1]) == Directive::Discarded);
    }
}

/// If any one fetch fails, the session fails, whatever is reported before
/// and after: when event `k` of a run reports or shows the failure of a
/// fetch that is running at that point, the outcome of the whole run is
/// that failure, and the session is the one that this event left.
pub proof fn lemma_run_with_failure(session: SessionView, events: Seq<FetchEventView>, k: int)
    requires
        session.wf(),
        0 <= k < events.len(),
        session.run(events.take(k)).fails_on(events[k]),
    ensures
        session.run(events) == session.run(events.take(k)).step(events[k]),
        session.run(events).outcome() == Outcome::Failed(
            session.run(events.take(k)).failure_of(events[k]).unwrap(),
        ),
{
    let before = session.run(events.take(k));
    let rest = events.skip(k + 1);
    lemma_run_wf(session, events.take(k));
    lemma_step_wf(before, events[k]);
    lemma_failure_fails_session(before, events[k]);
    assert(events.take(k + 1).drop_last() =~= events.take(k));
    assert(events.take(k + 1).last() == events[k]);
    assert(events =~= events.take(k + 1) + rest);
    lemma_run_concat(session, events.take(k + 1), rest);
    lemma_failure_is_final(before.step(events[k]), rest);
}

/// Progress only grows: no event lowers the aggregate progress or the count
/// of any chunk.
pub proof fn lemma_progress_monotonic(session: SessionView, event: FetchEventView)
    requires
        session.wf(),
    ensures
        session.step(event).aggregate_progress >= session.aggregate_progress,
        session.step(event).chunks.len() == session.chunks.len(),
        forall|i: int|
            0 <= i < session.chunks.len() ==> (#[trigger] session.step(event).chunks[i]).received_bytes
                >= session.chunks[i].received_bytes,
{
}

/// Whether the first `count` events of `events` hold a report for the range
/// at `index`.
pub open spec fn reported_within(events: Seq<FetchEventView>, count: int, index: int) -> bool {
    exists|j: int| 0 <= j < count && (#[trigger] events[j]).index() == index
}

/// After the first `count` of a list of equal reports, one per fetch, the
/// fetches that have reported hold `size` bytes each, the others none, and
/// the aggregate progress is `count * size`.
proof fn lemma_equal_reports_prefix(
    session: SessionView,
    events: Seq<FetchEventView>,
    size: nat,
    count: int,
)
    requires
        session.wf(),
        forall|i: int|
            0 <= i < session.states.len() ==> #[trigger] session.states[i] == SlotState::Fetching,
        forall|i: int|
            0 <= i < session.chunks.len() ==> (#[trigger] session.chunks[i]).data.len() == 0
                && session.chunks[i].accepts(size),
        forall|j: int|
            0 <= j < events.len() ==> (#[trigger] events[j] matches FetchEventView::Segment {
                index,
                bytes,
            } && index < session.ranges.len() && bytes.len() == size),
        forall|j: int, l: int|
            0 <= j < l < events.len() ==> (#[trigger] events[j]).index() != (
            #[trigger] events[l]).index(),
        0 <= count <= events.len(),
    ensures
        session.run(events.take(count)).wf(),
        session.run(events.take(count)).failure is None,
        session.run(events.take(count)).states == session.states,
        session.run(events.take(count)).ranges == session.ranges,
        session.run(events.take(count)).aggregate_progress == count * size,
        forall|i: int|
            0 <= i < session.chunks.len() ==> (#[trigger] session.run(
                events.take(count),
            ).chunks[i]).data.len() == (if reported_within(events, count, i) {
                size
            } else {
                0
            }),
    decreases count,
{
    let after = session.run(events.take(count));
    if count == 0 {
        assert(events.take(0) =~= Seq::<FetchEventView>::empty());
        assert(session.failure is None) by {
            if session.failure is Some {
                assert(session.states[session.failure.unwrap().range.index as int]
                    == SlotState::Fetching);
            }
        }
        lemma_all_empty_total(session.chunks);
        assert(0 * size == 0) by (nonlinear_arith);
    } else {
        lemma_equal_reports_prefix(session, events, size, count - 1);
        let before = session.run(events.take(count - 1));
        let event = events[count - 1];
        let index = event.index();
        assert(events.take(count).drop_last() =~= events.take(count - 1));
        assert(events.take(count).last() == event);
        assert(after == before.step(event));
        lemma_step_wf(before, event);
        assert(before.states[index] == SlotState::Fetching);
        assert(!reported_within(events, count - 1, index)) by {
            if reported_within(events, count - 1, index) {
                let j = choose|j: int| 0 <= j < count - 1 && (#[trigger] events[j]).index() == index;
                assert(events[j].index() != events[count - 1].index());
            }
        }
        assert(before.chunks[index].data.len() == 0);
        assert(before.chunks[index].range == session.chunks[index].range);
        assert(session.chunks[index].accepts(size));
        assert(before.chunks[index].accepts(size));
        assert(count * size == (count - 1) * size + size) by (nonlinear_arith);
        assert forall|i: int| 0 <= i < session.chunks.len() implies (#[trigger] after.chunks[i]).data.len()
            == (if reported_within(events, count, i) {
            size
        } else {
            0
        }) by {
            if i == index {
                assert(events[count - 1].index() == i);
            } else {
                assert(after.chunks[i] == before.chunks[i]);
                if reported_within(events, count - 1, i) {
                    let j = choose|j: int| 0 <= j < count - 1 && (#[trigger] events[j]).index() == i;
                    assert(0 <= j < count && events[j].index() == i);
                } else if reported_within(events, count, i) {
                    let j = choose|j: int| 0 <= j < count && (#[trigger] events[j]).index() == i;
                    assert(j < count - 1);
                }
            }
        }
    }
}

/// Chunks without data hold nothing.
proof fn lemma_all_empty_total(chunks: Seq<ChunkView>)
    requires
        forall|i: int|
            0 <= i < chunks.len() ==> (#[trigger] chunks[i]).wf() && chunks[i].data.len() == 0,
    ensures
        received_total(chunks) == 0,
    decreases chunks.len(),
{
    if chunks.len() > 0 {
        let shorter = chunks.drop_last();
        assert forall|i: int| 0 <= i < shorter.len() implies (#[trigger] shorter[i]).wf()
            && shorter[i].data.len() == 0 by {
            assert(shorter[i] == chunks[i]);
        }
        lemma_all_empty_total(shorter);
        assert(chunks[chunks.len() - 1].wf());
    }
}

/// No report is lost. When each fetch of a session that has received
/// nothing yet reports one segment of `size` bytes, the aggregate progress
/// after the reports is the number of fetches times `size`, in whatever
/// order the reports arrive.
pub proof fn lemma_equal_reports_add_up(
    session: SessionView,
    events: Seq<FetchEventView>,
    size: nat,
)
    requires
        session.wf(),
        forall|i: int|
            0 <= i < session.states.len() ==> #[trigger] session.states[i] == SlotState::Fetching,
        forall|i: int|
            0 <= i < session.chunks.len() ==> (#[trigger] session.chunks[i]).data.len() == 0
                && session.chunks[i].accepts(size),
        events.len() == session.ranges.len(),
        forall|j: int|
            0 <= j < events.len() ==> (#[trigger] events[j] matches FetchEventView::Segment {
                index,
                bytes,
            } && index < session.ranges.len() && bytes.len() == size),
        forall|j: int, l: int|
            0 <= j < l < events.len() ==> (#[trigger] events[j]).index() != (
            #[trigger] events[l]).index(),
    ensures
        session.run(events).aggregate_progress == session.ranges.len() * size,
        session.run(events).outcome() == Outcome::Running || session.ranges.len() == 0,
{
    lemma_equal_reports_prefix(session, events, size, events.len() as int);
    assert(events.take(events.len() as int) =~= events);
    let after = session.run(events);
    if session.ranges.len() > 0 {
        assert(after.states[0] == SlotState::Fetching);
    }
}

} // verus!
