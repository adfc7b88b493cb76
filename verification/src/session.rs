//! The download session: the plan, the chunk and the fetch state of each
//! range, and the aggregate progress, driven by the events of the fetches.

use crate::chunk::{Chunk, ChunkView, FetchCause, FetchError};
use crate::coordinator::{
    lemma_initial_wf, lemma_progress_bounded, lemma_step_wf, Directive, FetchEvent, Outcome,
    SessionView, SlotState,
};
use crate::descriptor::ResourceDescriptor;
use crate::range::ByteRange;
use vstd::prelude::*;

verus! {

/// What the progress display reads: the bytes received so far over all
/// ranges, and the length of the resource where it is known.
#[derive(Clone, Copy, Debug, PartialEq, Eq, Structural)]
pub struct Progress {
    pub bytes_received: u64,
    pub bytes_total: Option<u64>,
}

/// A download in progress. It is made from a descriptor, changed by the
/// events of its fetches alone, and read by the assembler once every range
/// is complete.
pub struct DownloadSession {
    descriptor: ResourceDescriptor,
    ranges: Vec<ByteRange>,
    chunks: Vec<Chunk>,
    states: Vec<SlotState>,
    aggregate_progress: u64,
    failure: Option<FetchError>,
}

impl View for DownloadSession {
    type V = SessionView;

    closed spec fn view(&self) -> SessionView {
        SessionView {
            descriptor: self.descriptor@,
            ranges: self.ranges@,
            chunks: self.chunks@.map_values(|chunk: Chunk| chunk@),
            states: self.states@,
            aggregate_progress: self.aggregate_progress as int,
            failure: self.failure,
        }
    }
}

impl DownloadSession {
    /// The invariant of every session that this library hands out.
    pub open spec fn wf(&self) -> bool {
        self@.wf()
    }

    /// Starts a session for `descriptor`: plans its ranges for
    /// `thread_count` fetches and sets up an empty chunk and a running fetch
    /// for each.
    pub fn new(descriptor: ResourceDescriptor, thread_count: u8) -> (session: DownloadSession)
        ensures
            session.wf(),
            session@ == SessionView::initial(descriptor@, thread_count),
    {
        let ranges = descriptor.plan(thread_count);
        let mut chunks: Vec<Chunk> = Vec::new();
        let mut states: Vec<SlotState> = Vec::new();
        let mut i: usize = 0;
        while i < ranges.len()
            invariant
                0 <= i <= ranges.len(),
                chunks@.len() == i,
                states@.len() == i,
                forall|j: int| 0 <= j < i ==> (#[trigger] chunks@[j])@ == ChunkView::empty(ranges@[j]),
                forall|j: int| 0 <= j < i ==> #[trigger] states@[j] == SlotState::Fetching,
            decreases ranges.len() - i,
        {
            chunks.push(Chunk::new(ranges[i]));
            states.push(SlotState::Fetching);
            i = i + 1;
        }
        let session = DownloadSession {
            descriptor,
            ranges,
            chunks,
            states,
            aggregate_progress: 0,
            failure: None,
        };
        proof {
            let target = SessionView::initial(descriptor@, thread_count);
            lemma_initial_wf(descriptor@, thread_count);
            assert(session@.chunks =~= target.chunks);
            assert(session@.states =~= target.states);
        }
        session
    }

    /// The resource that the session downloads.
    pub fn descriptor(&self) -> (descriptor: &ResourceDescriptor)
        ensures
            descriptor@ == self@.descriptor,
    {
        &self.descriptor
    }

    /// The planned ranges, in the order of assembly.
    pub fn ranges(&self) -> (ranges: &[ByteRange])
        ensures
            ranges@ == self@.ranges,
    {
        self.ranges.as_slice()
    }

    /// The chunk of the range at `index`, if the plan has such a range.
    pub fn chunk(&self, index: usize) -> (chunk: Option<&Chunk>)
        requires
            self.wf(),
        ensures
            index < self@.chunks.len() <==> chunk is Some,
            chunk matches Some(found) ==> found@ == self@.chunks[index as int] && found.wf(),
    {
        if index < self.chunks.len() {
            let found = &self.chunks[index];
            assert(self@.chunks[index as int] == found@);
            Some(found)
        } else {
            None
        }
    }

    /// The state of the fetch of the range at `index`, if the plan has such
    /// a range.
    pub fn state(&self, index: usize) -> (state: Option<SlotState>)
        ensures
            index < self@.states.len() <==> state is Some,
            state matches Some(found) ==> found == self@.states[index as int],
    {
        if index < self.states.len() {
            Some(self.states[index])
        } else {
            None
        }
    }

    /// The bytes received so far over all ranges.
    pub fn aggregate_progress(&self) -> (received: u64)
        ensures
            received == self@.aggregate_progress,
    {
        self.aggregate_progress
    }

    /// What the progress display reads.
    pub fn progress(&self) -> (progress: Progress)
        ensures
            progress.bytes_received == self@.aggregate_progress,
            progress.bytes_total == self@.descriptor.total_size,
    {
        Progress { bytes_received: self.aggregate_progress, bytes_total: self.descriptor.total_size }
    }

    /// The first failure, once a fetch has failed.
    pub fn failure(&self) -> (failure: Option<FetchError>)
        ensures
            failure == self@.failure,
    {
        self.failure
    }

    fn all_complete(&self) -> (complete: bool)
        ensures
            complete == self@.all_complete(),
    {
        let mut i: usize = 0;
        while i < self.states.len()
            invariant
                0 <= i <= self.states.len(),
                forall|j: int| 0 <= j < i ==> #[trigger] self.states@[j] == SlotState::Complete,
            decreases self.states.len() - i,
        {
            if !(self.states[i] == SlotState::Complete) {
                return false;
            }
            i = i + 1;
        }
        true
    }

    fn any_fetching(&self) -> (fetching: bool)
        ensures
            fetching == self@.any_fetching(),
    {
        let mut i: usize = 0;
        while i < self.states.len()
            invariant
                0 <= i <= self.states.len(),
                forall|j: int| 0 <= j < i ==> #[trigger] self.states@[j] != SlotState::Fetching,
            decreases self.states.len() - i,
        {
            if self.states[i] == SlotState::Fetching {
                return true;
            }
            i = i + 1;
        }
        false
    }

    /// How the session stands: failed with its first failure, succeeded
    /// with every range complete, running, or cancelled.
    pub fn outcome(&self) -> (outcome: Outcome)
        ensures
            outcome == self@.outcome(),
    {
        match self.failure {
            Some(error) => Outcome::Failed(error),
            None => {
                if self.all_complete() {
                    Outcome::Succeeded
                } else if self.any_fetching() {
                    Outcome::Running
                } else {
                    Outcome::Cancelled
                }
            },
        }
    }

    fn fail_at(&mut self, index: usize, cause: FetchCause)
        requires
            index < old(self).states@.len(),
            old(self).states@.len() == old(self).ranges@.len(),
        ensures
            final(self)@ == old(self)@.fail_at(index as int, cause),
    {
        let ghost before = self@;
        let mut i: usize = 0;
        while i < self.states.len()
            invariant
                0 <= i <= self.states.len(),
                self.states@.len() == before.states.len(),
                index < self.ranges@.len(),
                self@.descriptor == before.descriptor,
                self@.ranges == before.ranges,
                self@.chunks == before.chunks,
                self@.aggregate_progress == before.aggregate_progress,
                forall|j: int|
                    0 <= j < i ==> #[trigger] self.states@[j] == before.fail_at(
                        index as int,
                        cause,
                    ).states[j],
                forall|j: int| i <= j < self.states.len() ==> #[trigger] self.states@[j] == before.states[j],
            decreases self.states.len() - i,
        {
            if i == index {
                self.states[i] = SlotState::Failed;
            } else if self.states[i] == SlotState::Fetching {
                self.states[i] = SlotState::Cancelled;
            }
            i = i + 1;
        }
        self.failure = Some(FetchError { range: self.ranges[index], cause });
        assert(self@.states =~= before.fail_at(index as int, cause).states);
    }

    /// Applies the report of a fetch and says what to do next.
    ///
    /// The session changes as `SessionView::step` says: a report for a range
    /// whose fetch is not running is discarded, so that the first failure
    /// stays the session's failure; a segment is appended to its chunk and
    /// added to the aggregate progress; a segment too many, a stream cut
    /// short and a reported failure fail the session and cancel every other
    /// running fetch.
    pub fn apply(&mut self, event: &FetchEvent) -> (directive: Directive)
        requires
            old(self).wf(),
        ensures
            final(self).wf(),
            final(self)@ == old(self)@.step(event@),
            directive == old(self)@.directive(event@),
    {
        let ghost before = self@;
        proof {
            lemma_step_wf(before, event@);
            lemma_progress_bounded(before.step(event@));
        }
        let index = event.index();
        if index >= self.states.len() {
            return Directive::Discarded;
        }
        if !(self.states[index] == SlotState::Fetching) {
            return Directive::Discarded;
        }
        assert(before.chunks[index as int] == self.chunks@[index as int]@);
        match event {
            FetchEvent::Segment { bytes, .. } => {
                let received = self.chunks[index].receive(bytes.as_slice());
                match received {
                    Ok(()) => {
                        self.aggregate_progress = self.aggregate_progress + bytes.len() as u64;
                        assert(self@.chunks =~= before.step(event@).chunks);
                        Directive::Proceed
                    },
                    Err(error) => {
                        assert(self@.chunks =~= before.chunks);
                        self.fail_at(index, error.cause);
                        Directive::CancelRemaining
                    },
                }
            },
            FetchEvent::EndOfStream { .. } => {
                match self.chunks[index].end_of_stream() {
                    Ok(()) => {
                        self.states[index] = SlotState::Complete;
                        if self.all_complete() {
                            Directive::Finished
                        } else {
                            Directive::Proceed
                        }
                    },
                    Err(error) => {
                        self.fail_at(index, error.cause);
                        Directive::CancelRemaining
                    },
                }
            },
            FetchEvent::Failed { cause, .. } => {
                self.fail_at(index, *cause);
                Directive::CancelRemaining
            },
            FetchEvent::Cancelled { .. } => {
                self.states[index] = SlotState::Cancelled;
                assert(!self@.all_complete()) by {
                    assert(self@.states[index as int] != SlotState::Complete);
                }
                Directive::Proceed
            },
        }
    }
}

} // verus!
