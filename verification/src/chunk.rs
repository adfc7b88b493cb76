//! The bytes of one range: accumulated as segments arrive, checked against
//! the length that the range calls for.

use crate::range::ByteRange;
use vstd::prelude::*;

verus! {

/// Why the fetch of a range failed.
#[derive(Clone, Copy, Debug, PartialEq, Eq, Structural)]
pub enum FetchCause {
    /// The connection could not be made or broke.
    Connection,
    /// The server answered with a status outside 200 ..= 299.
    Status(u16),
    /// More bytes arrived than the range holds.
    LengthMismatch,
    /// The stream ended before the range was filled.
    Truncated,
}

/// The failure of one range's fetch. It is fatal to the whole download.
#[derive(Clone, Copy, Debug, PartialEq, Eq, Structural)]
pub struct FetchError {
    pub range: ByteRange,
    pub cause: FetchCause,
}

/// What a chunk is: its range, the bytes received for it so far, and their
/// count.
pub struct ChunkView {
    pub range: ByteRange,
    pub data: Seq<u8>,
    pub received_bytes: int,
}

impl ChunkView {
    /// The most bytes that the chunk can hold: the byte count of its range,
    /// and for the unbounded range the most that a `u64` can count.
    pub open spec fn capacity(self) -> int {
        if self.range.is_unbounded() {
            u64::MAX as int
        } else {
            self.range.byte_count()
        }
    }

    /// Whether `count` more bytes still fit into the chunk.
    pub open spec fn accepts(self, count: nat) -> bool {
        self.data.len() + count <= self.capacity()
    }

    /// Whether the stream may end here: a bounded range must be filled to
    /// its last byte, the unbounded range ends where its stream ends.
    pub open spec fn is_full(self) -> bool {
        self.range.is_unbounded() || self.data.len() == self.range.byte_count()
    }

    /// The chunk after `segment` has been appended.
    pub open spec fn extended(self, segment: Seq<u8>) -> ChunkView {
        ChunkView {
            range: self.range,
            data: self.data + segment,
            received_bytes: self.received_bytes + segment.len(),
        }
    }

    /// An empty chunk for `range`.
    pub open spec fn empty(range: ByteRange) -> ChunkView {
        ChunkView { range, data: Seq::empty(), received_bytes: 0 }
    }

    /// The count is the number of bytes held, and no chunk holds more bytes
    /// than its capacity.
    pub open spec fn wf(self) -> bool {
        &&& self.received_bytes == self.data.len()
        &&& self.data.len() <= self.capacity()
    }
}

/// The bytes fetched for one range. `received_bytes` counts them and only
/// grows while the fetch runs.
pub struct Chunk {
    range: ByteRange,
    data: Vec<u8>,
    received_bytes: u64,
}

impl View for Chunk {
    type V = ChunkView;

    closed spec fn view(&self) -> ChunkView {
        ChunkView {
            range: self.range,
            data: self.data@,
            received_bytes: self.received_bytes as int,
        }
    }
}

impl Chunk {
    /// The invariant of every chunk that this library hands out.
    pub open spec fn wf(&self) -> bool {
        self@.wf()
    }

    /// An empty chunk for `range`.
    pub fn new(range: ByteRange) -> (chunk: Chunk)
        ensures
            chunk.wf(),
            chunk@ == ChunkView::empty(range),
    {
        Chunk { range, data: Vec::new(), received_bytes: 0 }
    }

    /// The range that the chunk belongs to.
    pub fn range(&self) -> (range: ByteRange)
        ensures
            range == self@.range,
    {
        self.range
    }

    /// The bytes received so far.
    pub fn data(&self) -> (data: &[u8])
        ensures
            data@ == self@.data,
    {
        self.data.as_slice()
    }

    /// The number of bytes received so far.
    pub fn received_bytes(&self) -> (count: u64)
        ensures
            count == self@.received_bytes,
    {
        self.received_bytes
    }

    /// Appends a segment of the response body.
    ///
    /// A segment that fits is appended whole. One that would carry the chunk
    /// past the end of its range is refused with `LengthMismatch`, and the
    /// chunk stays as it was.
    pub fn receive(&mut self, segment: &[u8]) -> (result: Result<(), FetchError>)
        requires
            old(self).wf(),
        ensures
            final(self).wf(),
            old(self)@.accepts(segment@.len()) ==> result is Ok && final(self)@ == old(
                self,
            )@.extended(segment@),
            !old(self)@.accepts(segment@.len()) ==> final(self)@ == old(self)@ && result == Err::<
                (),
                FetchError,
            >(FetchError { range: old(self)@.range, cause: FetchCause::LengthMismatch }),
    {
        let room: u128 = match self.range.expected_len() {
            Some(expected) => expected as u128,
            None => u64::MAX as u128,
        };
        let wanted: u128 = self.data.len() as u128 + segment.len() as u128;
        if wanted > room {
            return Err(FetchError { range: self.range, cause: FetchCause::LengthMismatch });
        }
        self.data.extend_from_slice(segment);
        self.received_bytes = self.data.len() as u64;
        assert(self.data@ =~= old(self).data@ + segment@);
        Ok(())
    }

    /// Checks the chunk when its stream has ended: a bounded range that is
    /// not filled was cut short.
    pub fn end_of_stream(&self) -> (result: Result<(), FetchError>)
        requires
            self.wf(),
        ensures
            self@.is_full() <==> result is Ok,
            result matches Err(e) ==> e == (FetchError {
                range: self@.range,
                cause: FetchCause::Truncated,
            }),
    {
        match self.range.expected_len() {
            None => Ok(()),
            Some(expected) => {
                if self.received_bytes == expected {
                    Ok(())
                } else {
                    Err(FetchError { range: self.range, cause: FetchCause::Truncated })
                }
            },
        }
    }
}

} // verus!
