//! A whole download as a state machine: from the check of the output
//! directory over the probe and the fetches to the writes and the release
//! of the file. The caller does what each action names and hands back what
//! came of it.

use crate::coordinator::{
    lemma_failure_fails_session, lemma_initial_wf, lemma_step_wf, FetchEvent, FetchEventView,
    Outcome, SessionView,
};
use crate::descriptor::{DescriptorView, ResourceDescriptor};
use crate::error::DownloadError;
use crate::session::DownloadSession;
use vstd::prelude::*;

verus! {

/// Where a download stands.
#[derive(Clone, Copy, Debug, PartialEq, Eq, Structural)]
pub enum Phase {
    /// The output directory is being checked. No request has been sent.
    Preparing,
    /// The metadata probe is under way.
    Probing,
    /// The fetches are running.
    Fetching,
    /// Every range is complete; the file is being created.
    Creating,
    /// The write for the range at `next` is under way.
    Writing { next: usize },
    /// The file is being flushed and closed.
    Releasing,
    /// The download has ended.
    Done,
}

/// What the caller reports to the download.
#[derive(Debug)]
pub enum Event {
    /// The output directory exists and can be written to.
    DirectoryReady,
    /// The output directory is missing or cannot be written to.
    DirectoryMissing,
    /// The probe was answered; the values of `Content-Length` and
    /// `Accept-Ranges` are as the server sent them, where it sent them.
    ProbeAnswered { content_length: Option<Vec<u8>>, accept_ranges: Option<Vec<u8>> },
    /// The probe failed or was rejected.
    ProbeFailed,
    /// A fetch reported.
    Fetch(FetchEvent),
    /// The file was created, or cut to no length if it was there.
    FileCreated,
    /// The file could not be created.
    CreateFailed,
    /// The write was made.
    Written,
    /// The write failed; `cause` is the operating system's error number
    /// where it gave one.
    WriteFailed { cause: Option<i32> },
    /// The file was flushed and closed.
    Released,
}

/// An event as contracts see it.
pub enum EventView {
    DirectoryReady,
    DirectoryMissing,
    ProbeAnswered { content_length: Option<Seq<u8>>, accept_ranges: Option<Seq<u8>> },
    ProbeFailed,
    Fetch(FetchEventView),
    FileCreated,
    CreateFailed,
    Written,
    WriteFailed { cause: Option<i32> },
    Released,
}

/// The bytes of a header value as contracts see them.
pub open spec fn header_view(value: Option<Vec<u8>>) -> Option<Seq<u8>> {
    match value {
        Some(text) => Some(text@),
        None => None,
    }
}

impl View for Event {
    type V = EventView;

    open spec fn view(&self) -> EventView {
        match *self {
            Event::DirectoryReady => EventView::DirectoryReady,
            Event::DirectoryMissing => EventView::DirectoryMissing,
            Event::ProbeAnswered { content_length, accept_ranges } => EventView::ProbeAnswered {
                content_length: header_view(content_length),
                accept_ranges: header_view(accept_ranges),
            },
            Event::ProbeFailed => EventView::ProbeFailed,
            Event::Fetch(report) => EventView::Fetch(report@),
            Event::FileCreated => EventView::FileCreated,
            Event::CreateFailed => EventView::CreateFailed,
            Event::Written => EventView::Written,
            Event::WriteFailed { cause } => EventView::WriteFailed { cause },
            Event::Released => EventView::Released,
        }
    }
}

/// What the caller is to do next.
#[derive(Clone, Copy, Debug, PartialEq, Eq, Structural)]
pub enum Action {
    /// Check that the output directory exists and can be written to.
    CheckDirectory,
    /// Probe the resource for its length and its support of ranges.
    Probe,
    /// Start one fetch for each range of the session.
    StartFetches,
    /// Wait for the next report of a fetch.
    Wait,
    /// Stop the fetches that still run; the download has failed.
    Abort,
    /// Create the file, or cut it to no length if it is there.
    CreateFile,
    /// Write the data of the chunk at `index` to the file at `offset`.
    Write { index: usize, offset: u64 },
    /// Flush and close the file.
    Release,
    /// Nothing is left to do; the result stands.
    Stop,
    /// The event did not belong to the phase; nothing has changed.
    Ignore,
}

/// A download as contracts see it.
pub struct DownloadView {
    pub url: Seq<char>,
    pub thread_count: u8,
    pub phase: Phase,
    /// The session, from the answer of the probe on.
    pub session: Option<SessionView>,
    /// The failure, once there is one.
    pub error: Option<DownloadError>,
}

impl DownloadView {
    /// A download before anything has been done.
    pub open spec fn initial(url: Seq<char>, thread_count: u8) -> DownloadView {
        DownloadView { url, thread_count, phase: Phase::Preparing, session: None, error: None }
    }

    /// The invariant of every download: there is a session from the fetches
    /// on; the fetches run only while the session is running; the file is
    /// touched only for a session that has succeeded; and before the end a
    /// failure is on record only while the file is released after a failed
    /// write.
    pub open spec fn wf(self) -> bool {
        match self.phase {
            Phase::Preparing | Phase::Probing => self.session is None && self.error is None,
            Phase::Fetching => {
                &&& self.session matches Some(session)
                &&& session.wf()
                &&& session.outcome() == Outcome::Running
                &&& self.error is None
            },
            Phase::Creating => {
                &&& self.session matches Some(session)
                &&& session.wf()
                &&& session.outcome() == Outcome::Succeeded
                &&& self.error is None
            },
            Phase::Writing { next } => {
                &&& self.session matches Some(session)
                &&& session.wf()
                &&& session.outcome() == Outcome::Succeeded
                &&& next < session.ranges.len()
                &&& self.error is None
            },
            Phase::Releasing => {
                &&& self.session matches Some(session)
                &&& session.wf()
                &&& session.outcome() == Outcome::Succeeded
                &&& (self.error is None || self.error matches Some(DownloadError::Write { .. }))
            },
            Phase::Done => self.session matches Some(session) ==> session.wf(),
        }
    }

    /// The download once its session has been set up: a session without
    /// ranges has succeeded already and goes on to its file, every other one
    /// to its fetches.
    pub open spec fn with_session(self, session: SessionView) -> DownloadView {
        DownloadView {
            phase: if session.outcome() == Outcome::Succeeded {
                Phase::Creating
            } else {
                Phase::Fetching
            },
            session: Some(session),
            ..self
        }
    }

    /// The download after a fetch's report has left `session`: a failed
    /// session ends the download with its failure, a cancelled one with
    /// `Cancelled`; a succeeded one goes on to its file.
    pub open spec fn after_report(self, session: SessionView) -> DownloadView {
        match session.outcome() {
            Outcome::Running => DownloadView { session: Some(session), ..self },
            Outcome::Succeeded => DownloadView {
                phase: Phase::Creating,
                session: Some(session),
                ..self
            },
            Outcome::Failed(error) => DownloadView {
                phase: Phase::Done,
                session: Some(session),
                error: Some(DownloadError::Fetch(error)),
                ..self
            },
            Outcome::Cancelled => DownloadView {
                phase: Phase::Done,
                session: Some(session),
                error: Some(DownloadError::Cancelled),
                ..self
            },
        }
    }

    /// The download after `event`. An event that does not answer what the
    /// phase waits for changes nothing.
    pub open spec fn step(self, event: EventView) -> DownloadView {
        match (self.phase, event) {
            (Phase::Preparing, EventView::DirectoryReady) => DownloadView {
                phase: Phase::Probing,
                ..self
            },
            (Phase::Preparing, EventView::DirectoryMissing) => DownloadView {
                phase: Phase::Done,
                error: Some(DownloadError::Path),
                ..self
            },
            (
                Phase::Probing,
                EventView::ProbeAnswered { content_length, accept_ranges },
            ) => self.with_session(
                SessionView::initial(
                    DescriptorView::from_probe(self.url, content_length, accept_ranges),
                    self.thread_count,
                ),
            ),
            (Phase::Probing, EventView::ProbeFailed) => self.with_session(
                SessionView::initial(DescriptorView::single_stream(self.url), self.thread_count),
            ),
            (Phase::Fetching, EventView::Fetch(report)) => self.after_report(
                self.session.unwrap().step(report),
            ),
            (Phase::Creating, EventView::FileCreated) => DownloadView {
                phase: if self.session.unwrap().ranges.len() == 0 {
                    Phase::Releasing
                } else {
                    Phase::Writing { next: 0 }
                },
                ..self
            },
            (Phase::Creating, EventView::CreateFailed) => DownloadView {
                phase: Phase::Done,
                error: Some(DownloadError::Path),
                ..self
            },
            (Phase::Writing { next }, EventView::Written) => DownloadView {
                phase: if next + 1 < self.session.unwrap().ranges.len() {
                    Phase::Writing { next: (next + 1) as usize }
                } else {
                    Phase::Releasing
                },
                ..self
            },
            (Phase::Writing { next }, EventView::WriteFailed { cause }) => DownloadView {
                phase: Phase::Releasing,
                error: Some(
                    DownloadError::Write {
                        offset: self.session.unwrap().ranges[next as int].start,
                        cause,
                    },
                ),
                ..self
            },
            (Phase::Releasing, EventView::Released) => DownloadView { phase: Phase::Done, ..self },
            _ => self,
        }
    }

    /// Whether `event` answers what the phase waits for.
    pub open spec fn expects(self, event: EventView) -> bool {
        match (self.phase, event) {
            (Phase::Preparing, EventView::DirectoryReady) => true,
            (Phase::Preparing, EventView::DirectoryMissing) => true,
            (Phase::Probing, EventView::ProbeAnswered { .. }) => true,
            (Phase::Probing, EventView::ProbeFailed) => true,
            (Phase::Fetching, EventView::Fetch(_)) => true,
            (Phase::Creating, EventView::FileCreated) => true,
            (Phase::Creating, EventView::CreateFailed) => true,
            (Phase::Writing { .. }, EventView::Written) => true,
            (Phase::Writing { .. }, EventView::WriteFailed { .. }) => true,
            (Phase::Releasing, EventView::Released) => true,
            _ => false,
        }
    }

    /// What the caller is to do in the phase that an expected event has led
    /// to, coming from `before`.
    pub open spec fn action_entering(self, before: Phase) -> Action {
        match self.phase {
            Phase::Preparing => Action::CheckDirectory,
            Phase::Probing => Action::Probe,
            Phase::Fetching => if before == Phase::Fetching {
                Action::Wait
            } else {
                Action::StartFetches
            },
            Phase::Creating => Action::CreateFile,
            Phase::Writing { next } => Action::Write {
                index: next,
                offset: self.session.unwrap().ranges[next as int].start,
            },
            Phase::Releasing => Action::Release,
            Phase::Done => if before == Phase::Fetching {
                Action::Abort
            } else {
                Action::Stop
            },
        }
    }

    /// What the caller is to do after `event`.
    pub open spec fn action(self, event: EventView) -> Action {
        if self.expects(event) {
            self.step(event).action_entering(self.phase)
        } else {
            Action::Ignore
        }
    }

    /// The result of a download that has ended; a download that has not
    /// ended has none.
    pub open spec fn result(self) -> Option<Result<(), DownloadError>> {
        if self.phase == Phase::Done {
            match self.error {
                Some(error) => Some(Err(error)),
                None => Some(Ok(())),
            }
        } else {
            None
        }
    }

    /// The download after the events of `events`, in their order.
    pub open spec fn run(self, events: Seq<EventView>) -> DownloadView
        decreases events.len(),
    {
        if events.len() == 0 {
            self
        } else {
            self.run(events.drop_last()).step(events.last())
        }
    }
}

/// Every event keeps the invariant.
pub proof fn lemma_step_keeps_wf(download: DownloadView, event: EventView)
    requires
        download.wf(),
    ensures
        download.step(event).wf(),
{
    match (download.phase, event) {
        (Phase::Probing, EventView::ProbeAnswered { content_length, accept_ranges }) => {
            lemma_initial_wf(
                DescriptorView::from_probe(download.url, content_length, accept_ranges),
                download.thread_count,
            );
            lemma_initial_outcome(
                DescriptorView::from_probe(download.url, content_length, accept_ranges),
                download.thread_count,
            );
        },
        (Phase::Probing, EventView::ProbeFailed) => {
            lemma_initial_wf(DescriptorView::single_stream(download.url), download.thread_count);
            lemma_initial_outcome(
                DescriptorView::single_stream(download.url),
                download.thread_count,
            );
        },
        (Phase::Fetching, EventView::Fetch(report)) => {
            lemma_step_wf(download.session.unwrap(), report);
        },
        _ => {},
    }
}

/// A session at its start has succeeded if it has no range, and is running
/// if it has one.
pub proof fn lemma_initial_outcome(descriptor: DescriptorView, thread_count: u8)
    ensures
        SessionView::initial(descriptor, thread_count).outcome() == (if descriptor.plan(
            thread_count,
        ).len() == 0 {
            Outcome::Succeeded
        } else {
            Outcome::Running
        }),
{
    let session = SessionView::initial(descriptor, thread_count);
    if session.ranges.len() > 0 {
        assert(session.states[0] == crate::coordinator::SlotState::Fetching);
    }
}

/// The output directory comes first. A download that has been told nothing
/// yet has sent no request: it has no session, and the only event that
/// makes it probe the resource is the report that the directory is ready.
/// The report that the directory is missing ends it with `Path`, and no
/// later event changes that.
pub proof fn lemma_directory_checked_first(
    url: Seq<char>,
    thread_count: u8,
    event: EventView,
    later: Seq<EventView>,
)
    ensures
        DownloadView::initial(url, thread_count).wf(),
        DownloadView::initial(url, thread_count).action(event) == (match event {
            EventView::DirectoryReady => Action::Probe,
            EventView::DirectoryMissing => Action::Stop,
            _ => Action::Ignore,
        }),
        DownloadView::initial(url, thread_count).step(event).session is None,
        DownloadView::initial(url, thread_count).step(EventView::DirectoryMissing).result() == Some(
            Err::<(), DownloadError>(DownloadError::Path),
        ),
        DownloadView::initial(url, thread_count).step(EventView::DirectoryMissing).run(later)
            == DownloadView::initial(url, thread_count).step(EventView::DirectoryMissing),
{
    lemma_done_is_final(
        DownloadView::initial(url, thread_count).step(EventView::DirectoryMissing),
        later,
    );
}

/// A download that has ended stays as it is: every later event is ignored.
pub proof fn lemma_done_is_final(download: DownloadView, events: Seq<EventView>)
    requires
        download.phase == Phase::Done,
    ensures
        download.run(events) == download,
        forall|j: int| 0 <= j < events.len() ==> download.action(#[trigger] events[j]) == Action::Ignore,
    decreases events.len(),
{
    if events.len() > 0 {
        lemma_done_is_final(download, events.drop_last());
    }
}

/// A failed fetch ends the download, and nothing is written for it. When a
/// report shows the failure of a running fetch, the download ends with that
/// failure, the caller is told to stop the other fetches, and every later
/// event is ignored: the file is neither created nor written to.
pub proof fn lemma_fetch_failure_ends_download(
    download: DownloadView,
    report: FetchEventView,
    later: Seq<EventView>,
)
    requires
        download.wf(),
        download.phase == Phase::Fetching,
        download.session.unwrap().fails_on(report),
    ensures
        download.action(EventView::Fetch(report)) == Action::Abort,
        download.step(EventView::Fetch(report)).result() == Some(
            Err::<(), DownloadError>(
                DownloadError::Fetch(download.session.unwrap().failure_of(report).unwrap()),
            ),
        ),
        download.step(EventView::Fetch(report)).run(later) == download.step(
            EventView::Fetch(report),
        ),
        forall|j: int|
            0 <= j < later.len() ==> download.step(EventView::Fetch(report)).action(
                #[trigger] later[j],
            ) == Action::Ignore,
{
    lemma_failure_fails_session(download.session.unwrap(), report);
    lemma_done_is_final(download.step(EventView::Fetch(report)), later);
}

/// The file is touched for a succeeded session only. Whenever the caller is
/// told to create the file, to write to it or to release it, the session
/// has every range complete and no failure.
pub proof fn lemma_file_actions_need_success(download: DownloadView, event: EventView)
    requires
        download.wf(),
    ensures
        (download.action(event) == Action::CreateFile || download.action(event) is Write
            || download.action(event) == Action::Release) ==> (download.step(
            event,
        ).session matches Some(session) && session.outcome() == Outcome::Succeeded),
        download.action(event) matches Action::Write { index, offset } ==> index
            < download.step(event).session.unwrap().ranges.len() && offset == download.step(
            event,
        ).session.unwrap().ranges[index as int].start,
{
    lemma_step_keeps_wf(download, event);
}

/// The download. It is made by `Download::new`, which also names the first
/// action, and changed by `Download::step` alone.
pub struct Download {
    url: String,
    thread_count: u8,
    phase: Phase,
    session: Option<DownloadSession>,
    error: Option<DownloadError>,
}

impl View for Download {
    type V = DownloadView;

    closed spec fn view(&self) -> DownloadView {
        DownloadView {
            url: self.url@,
            thread_count: self.thread_count,
            phase: self.phase,
            session: match self.session {
                Some(session) => Some(session@),
                None => None,
            },
            error: self.error,
        }
    }
}

impl Download {
    /// The invariant of every download that this library hands out.
    pub open spec fn wf(&self) -> bool {
        self@.wf()
    }

    /// A download of `url` by `thread_count` fetches, and its first action:
    /// the check of the output directory, before any request is sent.
    pub fn new(url: String, thread_count: u8) -> (start: (Download, Action))
        ensures
            start.0.wf(),
            start.0@ == DownloadView::initial(url@, thread_count),
            start.1 == Action::CheckDirectory,
    {
        (
            Download { url, thread_count, phase: Phase::Preparing, session: None, error: None },
            Action::CheckDirectory,
        )
    }

    /// Where the download stands.
    pub fn phase(&self) -> (phase: Phase)
        ensures
            phase == self@.phase,
    {
        self.phase
    }

    /// The session, from the answer of the probe on.
    pub fn session(&self) -> (session: Option<&DownloadSession>)
        requires
            self.wf(),
        ensures
            match session {
                Some(found) => self@.session == Some(found@) && found.wf(),
                None => self@.session is None,
            },
    {
        self.session.as_ref()
    }

    /// The result, once the download has ended.
    pub fn result(&self) -> (result: Option<Result<(), DownloadError>>)
        ensures
            result == self@.result(),
    {
        match self.phase {
            Phase::Done => match self.error {
                Some(error) => Some(Err(error)),
                None => Some(Ok(())),
            },
            _ => None,
        }
    }

    fn enter(&mut self, session: DownloadSession) -> (action: Action)
        requires
            old(self)@.phase == Phase::Probing,
            session.wf(),
        ensures
            final(self)@ == old(self)@.with_session(session@),
            action == final(self)@.action_entering(Phase::Probing),
    {
        let outcome = session.outcome();
        self.session = Some(session);
        if outcome == Outcome::Succeeded {
            self.phase = Phase::Creating;
            Action::CreateFile
        } else {
            self.phase = Phase::Fetching;
            Action::StartFetches
        }
    }

    /// Takes in what came of the last action and names the next one.
    ///
    /// The download changes as `DownloadView::step` says and the action is
    /// that of `DownloadView::action`. In short: a missing directory ends
    /// the download with `Path` before any request; a failed probe is made
    /// up for by a single stream; a failed fetch ends the download with its
    /// failure and without any write; the file is created once every range
    /// is complete, also for an empty resource; a failed write is recorded
    /// with its offset, and the file is released all the same.
    pub fn step(&mut self, event: &Event) -> (action: Action)
        requires
            old(self).wf(),
        ensures
            final(self).wf(),
            final(self)@ == old(self)@.step(event@),
            action == old(self)@.action(event@),
    {
        proof {
            lemma_step_keeps_wf(self@, event@);
        }
        match self.phase {
            Phase::Preparing => match event {
                Event::DirectoryReady => {
                    self.phase = Phase::Probing;
                    Action::Probe
                },
                Event::DirectoryMissing => {
                    self.phase = Phase::Done;
                    self.error = Some(DownloadError::Path);
                    Action::Stop
                },
                _ => Action::Ignore,
            },
            Phase::Probing => match event {
                Event::ProbeAnswered { content_length, accept_ranges } => {
                    let length: Option<&[u8]> = match content_length {
                        Some(text) => Some(text.as_slice()),
                        None => None,
                    };
                    let ranges: Option<&[u8]> = match accept_ranges {
                        Some(text) => Some(text.as_slice()),
                        None => None,
                    };
                    let descriptor = ResourceDescriptor::from_probe(
                        self.url.clone(),
                        length,
                        ranges,
                    );
                    let session = DownloadSession::new(descriptor, self.thread_count);
                    self.enter(session)
                },
                Event::ProbeFailed => {
                    let descriptor = ResourceDescriptor::single_stream(self.url.clone());
                    let session = DownloadSession::new(descriptor, self.thread_count);
                    self.enter(session)
                },
                _ => Action::Ignore,
            },
            Phase::Fetching => match event {
                Event::Fetch(report) => {
                    let outcome = match &mut self.session {
                        Some(session) => {
                            session.apply(report);
                            session.outcome()
                        },
                        None => Outcome::Running,
                    };
                    match outcome {
                        Outcome::Running => Action::Wait,
                        Outcome::Succeeded => {
                            self.phase = Phase::Creating;
                            Action::CreateFile
                        },
                        Outcome::Failed(error) => {
                            self.phase = Phase::Done;
                            self.error = Some(DownloadError::Fetch(error));
                            Action::Abort
                        },
                        Outcome::Cancelled => {
                            self.phase = Phase::Done;
                            self.error = Some(DownloadError::Cancelled);
                            Action::Abort
                        },
                    }
                },
                _ => Action::Ignore,
            },
            Phase::Creating => match event {
                Event::FileCreated => self.next_write(0),
                Event::CreateFailed => {
                    self.phase = Phase::Done;
                    self.error = Some(DownloadError::Path);
                    Action::Stop
                },
                _ => Action::Ignore,
            },
            Phase::Writing { next } => match event {
                Event::Written => {
                    let count = self.range_count();
                    assert(next < count);
                    self.next_write(next + 1)
                },
                Event::WriteFailed { cause } => {
                    let offset = self.offset_of(next);
                    self.phase = Phase::Releasing;
                    self.error = Some(DownloadError::Write { offset, cause: *cause });
                    Action::Release
                },
                _ => Action::Ignore,
            },
            Phase::Releasing => match event {
                Event::Released => {
                    self.phase = Phase::Done;
                    Action::Stop
                },
                _ => Action::Ignore,
            },
            Phase::Done => Action::Ignore,
        }
    }

    fn range_count(&self) -> (count: usize)
        requires
            self@.session matches Some(session) && session.wf(),
        ensures
            count == self@.session.unwrap().ranges.len(),
    {
        match &self.session {
            Some(session) => session.ranges().len(),
            None => 0,
        }
    }

    fn offset_of(&self, index: usize) -> (offset: u64)
        requires
            self@.session matches Some(session) && session.wf() && index < session.ranges.len(),
        ensures
            offset == self@.session.unwrap().ranges[index as int].start,
    {
        match &self.session {
            Some(session) => session.ranges()[index].start,
            None => 0,
        }
    }

    fn next_write(&mut self, index: usize) -> (action: Action)
        requires
            old(self)@.session matches Some(session) && session.wf() && index
                <= session.ranges.len(),
        ensures
            final(self)@ == (DownloadView {
                phase: if index < old(self)@.session.unwrap().ranges.len() {
                    Phase::Writing { next: index }
                } else {
                    Phase::Releasing
                },
                ..old(self)@
            }),
            action == final(self)@.action_entering(Phase::Creating),
    {
        let count = self.range_count();
        if index < count {
            let offset = self.offset_of(index);
            self.phase = Phase::Writing { next: index };
            Action::Write { index, offset }
        } else {
            self.phase = Phase::Releasing;
            Action::Release
        }
    }
}

} // verus!
