//! The assembler: the bytes of a succeeded session in the order of its
//! ranges, as one sequence or as writes at the ranges' offsets.

use crate::chunk::ChunkView;
use crate::coordinator::{
    lemma_run_with_failure, received_total, FetchEventView, Outcome, SessionView, SlotState,
};
use crate::descriptor::DescriptorView;
use crate::range::{lemma_tiles_partition, total_bytes, ByteRange};
use crate::session::DownloadSession;
use vstd::prelude::*;

verus! {

/// One write of the assembly: `data` goes to the file at `offset`.
#[derive(Clone, Copy, Debug)]
pub struct WriteOp<'a> {
    pub offset: u64,
    pub data: &'a [u8],
}

/// A write as contracts see it.
pub struct WriteOpView {
    pub offset: int,
    pub data: Seq<u8>,
}

impl<'a> View for WriteOp<'a> {
    type V = WriteOpView;

    open spec fn view(&self) -> WriteOpView {
        WriteOpView { offset: self.offset as int, data: self.data@ }
    }
}

/// The data of the chunks, one after the other.
pub open spec fn concat_data(chunks: Seq<ChunkView>) -> Seq<u8>
    decreases chunks.len(),
{
    if chunks.len() == 0 {
        Seq::empty()
    } else {
        concat_data(chunks.drop_last()) + chunks.last().data
    }
}

/// The file after `data` has been written at `offset`: the bytes from
/// `offset` on are replaced or appended, and a write past the end of the
/// file leaves zeros in between.
pub open spec fn write_at(file: Seq<u8>, offset: int, data: Seq<u8>) -> Seq<u8> {
    Seq::new(
        if file.len() >= offset + data.len() {
            file.len()
        } else {
            (offset + data.len()) as nat
        },
        |i: int|
            if offset <= i < offset + data.len() {
                data[i - offset]
            } else if i < file.len() {
                file[i]
            } else {
                0u8
            },
    )
}

/// The file after the writes of `ops`, in their order.
pub open spec fn apply_writes(file: Seq<u8>, ops: Seq<WriteOpView>) -> Seq<u8>
    decreases ops.len(),
{
    if ops.len() == 0 {
        file
    } else {
        write_at(apply_writes(file, ops.drop_last()), ops.last().offset, ops.last().data)
    }
}

impl SessionView {
    /// The assembled bytes: the data of the chunks in the order of their
    /// ranges, for a session that has succeeded. No other session has any.
    pub open spec fn assembled(self) -> Option<Seq<u8>> {
        if self.outcome() == Outcome::Succeeded {
            Some(concat_data(self.chunks))
        } else {
            None
        }
    }

    /// The writes of the assembly: for each range in order, its chunk's
    /// data at the range's first offset. A session that has not succeeded
    /// has none, so that no file is touched for it.
    pub open spec fn planned_writes(self) -> Option<Seq<WriteOpView>> {
        if self.outcome() == Outcome::Succeeded {
            Some(
                Seq::new(
                    self.ranges.len(),
                    |i: int|
                        WriteOpView {
                            offset: self.ranges[i].start as int,
                            data: self.chunks[i].data,
                        },
                ),
            )
        } else {
            None
        }
    }
}

/// The chunks' data, put together, is as long as the chunks count.
proof fn lemma_concat_len(chunks: Seq<ChunkView>)
    requires
        forall|i: int| 0 <= i < chunks.len() ==> (#[trigger] chunks[i]).wf(),
    ensures
        concat_data(chunks).len() == received_total(chunks),
    decreases chunks.len(),
{
    if chunks.len() > 0 {
        let shorter = chunks.drop_last();
        assert forall|i: int| 0 <= i < shorter.len() implies (#[trigger] shorter[i]).wf() by {
            assert(shorter[i] == chunks[i]);
        }
        lemma_concat_len(shorter);
        assert(chunks[chunks.len() - 1].wf());
    }
}

/// Full chunks of a tiling hold as many bytes as their ranges.
proof fn lemma_full_chunks_total(chunks: Seq<ChunkView>, ranges: Seq<ByteRange>)
    requires
        chunks.len() == ranges.len(),
        forall|i: int|
            0 <= i < chunks.len() ==> (#[trigger] chunks[i]).received_bytes
                == ranges[i].byte_count(),
    ensures
        received_total(chunks) == total_bytes(ranges),
    decreases chunks.len(),
{
    if chunks.len() > 0 {
        let shorter = chunks.drop_last();
        assert forall|i: int| 0 <= i < shorter.len() implies (#[trigger] shorter[i]).received_bytes
            == ranges.drop_last()[i].byte_count() by {
            assert(shorter[i] == chunks[i]);
        }
        lemma_full_chunks_total(shorter, ranges.drop_last());
        assert(chunks[chunks.len() - 1].received_bytes == ranges[chunks.len() - 1].byte_count());
    }
}

/// The length of the assembler's output. For every session that has
/// succeeded the assembled bytes are exactly as many as the session has
/// received: the length of the resource where it is known, and the length
/// of the stream where it is not.
pub proof fn lemma_assembled_length(session: SessionView)
    requires
        session.wf(),
        session.outcome() == Outcome::Succeeded,
    ensures
        session.assembled() matches Some(bytes) && bytes.len() == session.aggregate_progress,
        session.descriptor.total_size matches Some(total) ==> session.assembled().unwrap().len()
            == total,
{
    lemma_concat_len(session.chunks);
    match session.descriptor.total_size {
        Some(total) => {
            lemma_tiles_partition(session.ranges, total as int);
            assert forall|i: int| 0 <= i < session.chunks.len() implies (
            #[trigger] session.chunks[i]).received_bytes == session.ranges[i].byte_count() by {
                assert(session.states[i] == SlotState::Complete);
                assert(session.chunks[i].wf());
                assert(session.chunks[i].is_full());
                lemma_tiling_is_bounded(session.ranges, total, i);
            }
            lemma_full_chunks_total(session.chunks, session.ranges);
        },
        None => {},
    }
}

/// No range of a tiling of a `u64` length is the unbounded range.
proof fn lemma_tiling_is_bounded(ranges: Seq<ByteRange>, total: u64, index: int)
    requires
        crate::range::tiles(ranges, total as int),
        0 <= index < ranges.len(),
    ensures
        !ranges[index].is_unbounded(),
        ranges[index].end < total,
{
    lemma_tiles_partition(ranges, total as int);
    assert(ranges[index].contains(ranges[index].end as int));
    assert(crate::range::covers(ranges, ranges[index].end as int));
}

/// Writing one piece at the start of a file and the next right behind it
/// is writing the two pieces as one.
proof fn lemma_write_at_appends(file: Seq<u8>, head: Seq<u8>, tail: Seq<u8>)
    ensures
        write_at(write_at(file, 0, head), head.len() as int, tail) == write_at(
            file,
            0,
            head + tail,
        ),
{
    assert(write_at(write_at(file, 0, head), head.len() as int, tail) =~= write_at(
        file,
        0,
        head + tail,
    ));
}

/// After the first `count` writes of the assembly the file begins with the
/// data of the first `count` chunks, and the next range starts where that
/// data ends.
proof fn lemma_writes_prefix(session: SessionView, file: Seq<u8>, count: int)
    requires
        session.wf(),
        session.outcome() == Outcome::Succeeded,
        0 <= count <= session.ranges.len(),
    ensures
        apply_writes(file, session.planned_writes().unwrap().take(count)) == write_at(
            file,
            0,
            concat_data(session.chunks.take(count)),
        ),
        count < session.ranges.len() ==> session.ranges[count].start == concat_data(
            session.chunks.take(count),
        ).len(),
    decreases count,
{
    let ops = session.planned_writes().unwrap();
    if count == 0 {
        assert(ops.take(0) =~= Seq::<WriteOpView>::empty());
        assert(session.chunks.take(0) =~= Seq::<ChunkView>::empty());
        assert(write_at(file, 0, Seq::<u8>::empty()) =~= file);
        if session.ranges.len() > 0 {
            match session.descriptor.total_size {
                Some(total) => {},
                None => {},
            }
        }
    } else {
        lemma_writes_prefix(session, file, count - 1);
        let done = concat_data(session.chunks.take(count - 1));
        let piece = session.chunks[count - 1].data;
        assert(ops.take(count).drop_last() =~= ops.take(count - 1));
        assert(ops.take(count).last() == ops[count - 1]);
        assert(session.chunks.take(count).drop_last() =~= session.chunks.take(count - 1));
        assert(session.chunks.take(count).last() == session.chunks[count - 1]);
        lemma_write_at_appends(file, done, piece);
        if count < session.ranges.len() {
            match session.descriptor.total_size {
                Some(total) => {
                    assert(session.states[count - 1] == SlotState::Complete);
                    assert(session.chunks[count - 1].wf());
                    assert(session.chunks[count - 1].is_full());
                    lemma_tiling_is_bounded(session.ranges, total, count - 1);
                    assert(session.ranges[count].start == session.ranges[count - 1].end + 1);
                },
                None => {},
            }
        }
    }
}

/// Writes at the ranges' offsets are a concatenation in the ranges' order.
///
/// For every session that has succeeded, the writes of the assembly, made in
/// order to a file that is no longer than the assembled bytes, leave exactly
/// the assembled bytes in it. The new file that the sink starts from is such
/// a file, and so is the file that an earlier assembly of the same session
/// left: assembling a session again gives the same bytes again.
pub proof fn lemma_writes_give_assembled(session: SessionView, file: Seq<u8>)
    requires
        session.wf(),
        session.outcome() == Outcome::Succeeded,
        file.len() <= session.assembled().unwrap().len(),
    ensures
        apply_writes(file, session.planned_writes().unwrap()) == session.assembled().unwrap(),
        apply_writes(session.assembled().unwrap(), session.planned_writes().unwrap())
            == apply_writes(Seq::empty(), session.planned_writes().unwrap()),
{
    let ops = session.planned_writes().unwrap();
    let bytes = session.assembled().unwrap();
    let count = session.ranges.len() as int;
    assert(ops.take(count) =~= ops);
    assert(session.chunks.take(count) =~= session.chunks);
    lemma_writes_prefix(session, file, count);
    assert(write_at(file, 0, bytes) =~= bytes);
    lemma_writes_prefix(session, bytes, count);
    lemma_writes_prefix(session, Seq::empty(), count);
    assert(write_at(Seq::<u8>::empty(), 0, bytes) =~= bytes);
}

/// An empty resource needs no fetch: its session has succeeded from the
/// start, its assembled bytes are none, and it has no write, so that its
/// file is created and left empty.
pub proof fn lemma_empty_resource_succeeds(descriptor: DescriptorView, thread_count: u8)
    requires
        descriptor.total_size == Some(0u64),
    ensures
        SessionView::initial(descriptor, thread_count).outcome() == Outcome::Succeeded,
        SessionView::initial(descriptor, thread_count).assembled() == Some(Seq::<u8>::empty()),
        SessionView::initial(descriptor, thread_count).planned_writes() == Some(
            Seq::<WriteOpView>::empty(),
        ),
{
    let session = SessionView::initial(descriptor, thread_count);
    assert(session.ranges.len() == 0);
    assert(session.planned_writes().unwrap() =~= Seq::<WriteOpView>::empty());
}

/// A failed download leaves nothing behind. If any one fetch of a run
/// fails, the session's outcome is that failure, there are no assembled
/// bytes, and there is no write: the caller has nothing to create or to
/// change a file with.
pub proof fn lemma_failed_session_writes_nothing(
    session: SessionView,
    events: Seq<FetchEventView>,
    k: int,
)
    requires
        session.wf(),
        0 <= k < events.len(),
        session.run(events.take(k)).fails_on(events[k]),
    ensures
        session.run(events).outcome() == Outcome::Failed(
            session.run(events.take(k)).failure_of(events[k]).unwrap(),
        ),
        session.run(events).assembled() is None,
        session.run(events).planned_writes() is None,
{
    lemma_run_with_failure(session, events, k);
}

impl DownloadSession {
    /// Assembles the download: the data of the chunks in the order of their
    /// ranges.
    ///
    /// Only a session that has succeeded is assembled; for every other one
    /// the result is `None`. The bytes are as many as the session received,
    /// which for a resource of known length is that length.
    pub fn assemble(&self) -> (bytes: Option<Vec<u8>>)
        requires
            self.wf(),
        ensures
            match bytes {
                Some(assembled) => self@.assembled() == Some(assembled@),
                None => self@.assembled() is None,
            },
            bytes matches Some(assembled) ==> assembled@.len() == self@.aggregate_progress,
            bytes matches Some(assembled) ==> (self@.descriptor.total_size matches Some(total)
                ==> assembled@.len() == total),
    {
        if !(self.outcome() == Outcome::Succeeded) {
            return None;
        }
        proof {
            lemma_assembled_length(self@);
        }
        let count = self.ranges().len();
        let mut assembled: Vec<u8> = Vec::new();
        let mut i: usize = 0;
        while i < count
            invariant
                self.wf(),
                count == self@.ranges.len(),
                0 <= i <= count,
                assembled@ == concat_data(self@.chunks.take(i as int)),
            decreases count - i,
        {
            let chunk = self.chunk(i).unwrap();
            proof {
                let longer = self@.chunks.take(i + 1);
                assert(longer.drop_last() =~= self@.chunks.take(i as int));
                assert(longer.last() == self@.chunks[i as int]);
            }
            assembled.extend_from_slice(chunk.data());
            assert(assembled@ =~= concat_data(self@.chunks.take(i + 1)));
            i = i + 1;
        }
        assert(self@.chunks.take(count as int) =~= self@.chunks);
        Some(assembled)
    }

    /// The writes that put the download into a file: for each range in
    /// order, its chunk's data at the range's first offset.
    ///
    /// Only a session that has succeeded has writes; for every other one the
    /// result is `None`, and the caller touches no file. A succeeded session
    /// of an empty resource has an empty list: its file is created and left
    /// empty.
    pub fn write_ops(&self) -> (ops: Option<Vec<WriteOp<'_>>>)
        requires
            self.wf(),
        ensures
            match ops {
                Some(list) => self@.planned_writes() == Some(
                    list@.map_values(|op: WriteOp| op@),
                ),
                None => self@.planned_writes() is None,
            },
    {
        if !(self.outcome() == Outcome::Succeeded) {
            return None;
        }
        let ranges = self.ranges();
        let mut list: Vec<WriteOp<'_>> = Vec::new();
        let mut i: usize = 0;
        while i < ranges.len()
            invariant
                self.wf(),
                ranges@ == self@.ranges,
                0 <= i <= ranges.len(),
                list@.len() == i,
                forall|j: int|
                    0 <= j < i ==> (#[trigger] list@[j])@ == (WriteOpView {
                        offset: self@.ranges[j].start as int,
                        data: self@.chunks[j].data,
                    }),
            decreases ranges.len() - i,
        {
            let chunk = self.chunk(i).unwrap();
            list.push(WriteOp { offset: ranges[i].start, data: chunk.data() });
            i = i + 1;
        }
        assert(list@.map_values(|op: WriteOp| op@) =~= self@.planned_writes().unwrap());
        Some(list)
    }
}

} // verus!
