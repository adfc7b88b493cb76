//! Byte ranges and the range planner.

use vstd::prelude::*;

verus! {

/// A contiguous, inclusive interval `[start, end]` of byte offsets of the
/// resource, assigned to one fetch. `index` is the position of the range in
/// its plan and fixes the order of assembly.
#[derive(Clone, Copy, Debug, PartialEq, Eq, Structural)]
pub struct ByteRange {
    pub index: usize,
    pub start: u64,
    pub end: u64,
}

impl ByteRange {
    /// The number of bytes in the interval; an interval whose `end` lies
    /// before its `start` holds none.
    pub open spec fn byte_count(self) -> int {
        if self.start <= self.end {
            self.end - self.start + 1
        } else {
            0
        }
    }

    /// Whether the byte at `offset` lies in the interval.
    pub open spec fn contains(self, offset: int) -> bool {
        self.start <= offset <= self.end
    }

    /// The single range of a resource whose length is unknown: it starts at
    /// the first byte and has no upper limit that a stream could reach.
    pub open spec fn unbounded() -> ByteRange {
        ByteRange { index: 0, start: 0, end: u64::MAX }
    }

    /// Whether the interval is too long for its length to be a `u64`. Only
    /// the interval from 0 to `u64::MAX` is.
    pub open spec fn is_unbounded(self) -> bool {
        self.start == 0 && self.end == u64::MAX
    }

    /// The range planned for a resource of unknown length.
    pub fn whole_stream() -> (range: ByteRange)
        ensures
            range == ByteRange::unbounded(),
    {
        ByteRange { index: 0, start: 0, end: u64::MAX }
    }

    /// The number of bytes that a fetch of this range has to deliver, or
    /// `None` for the unbounded range, whose fetch ends with the stream.
    pub fn expected_len(&self) -> (len: Option<u64>)
        ensures
            self.is_unbounded() <==> len is None,
            len matches Some(n) ==> n == self.byte_count(),
    {
        if self.start > self.end {
            Some(0)
        } else if self.start == 0 && self.end == u64::MAX {
            None
        } else {
            Some(self.end - self.start + 1)
        }
    }
}

/// Whether `ranges` cut the offsets `0 .. total` into consecutive, non-empty
/// intervals: each range carries its position as index, the first starts at
/// 0, each later one starts right after its predecessor ends, and the last
/// ends at `total - 1`. No range at all tiles the empty resource only.
pub open spec fn tiles(ranges: Seq<ByteRange>, total: int) -> bool {
    &&& forall|i: int|
        0 <= i < ranges.len() ==> (#[trigger] ranges[i]).index == i && ranges[i].start
            <= ranges[i].end
    &&& forall|i: int, j: int|
        0 <= i && j == i + 1 && j < ranges.len() ==> (#[trigger] ranges[j]).start == (
        #[trigger] ranges[i]).end + 1
    &&& if ranges.len() == 0 {
        total == 0
    } else {
        ranges[0].start == 0 && ranges.last().end + 1 == total
    }
}

/// Whether some range of `ranges` holds the byte at `offset`.
pub open spec fn covers(ranges: Seq<ByteRange>, offset: int) -> bool {
    exists|i: int| 0 <= i < ranges.len() && (#[trigger] ranges[i]).contains(offset)
}

/// Whether no byte lies in two ranges of `ranges`.
pub open spec fn disjoint(ranges: Seq<ByteRange>) -> bool {
    forall|i: int, j: int, offset: int|
        0 <= i < ranges.len() && 0 <= j < ranges.len() && i != j ==> !(
        #[trigger] ranges[i].contains(offset) && #[trigger] ranges[j].contains(offset))
}

/// The sum of the byte counts of `ranges`.
pub open spec fn total_bytes(ranges: Seq<ByteRange>) -> int
    decreases ranges.len(),
{
    if ranges.len() == 0 {
        0
    } else {
        total_bytes(ranges.drop_last()) + ranges.last().byte_count()
    }
}

/// In a tiling each range ends before every later range starts.
proof fn lemma_tiles_ordered(ranges: Seq<ByteRange>, total: int, i: int, j: int)
    requires
        tiles(ranges, total),
        0 <= i < j < ranges.len(),
    ensures
        ranges[i].end < ranges[j].start,
    decreases j - i,
{
    if i + 1 < j {
        lemma_tiles_ordered(ranges, total, i, j - 1);
        assert(ranges[j - 1].start <= ranges[j - 1].end);
    }
    assert(ranges[j].start == ranges[j - 1].end + 1);
}

/// In a tiling every byte up to the end of range `k` lies in one of the
/// ranges `0 ..= k`.
proof fn lemma_tiles_reach(ranges: Seq<ByteRange>, total: int, k: int, offset: int)
    requires
        tiles(ranges, total),
        0 <= k < ranges.len(),
        0 <= offset <= ranges[k].end,
    ensures
        covers(ranges, offset),
    decreases k,
{
    if ranges[k].start <= offset {
        assert(ranges[k].contains(offset));
    } else {
        assert(k > 0);
        lemma_tiles_reach(ranges, total, k - 1, offset);
    }
}

/// A prefix of a tiling tiles the bytes before the next range.
proof fn lemma_tiles_prefix(ranges: Seq<ByteRange>, total: int)
    requires
        tiles(ranges, total),
        ranges.len() > 0,
    ensures
        tiles(ranges.drop_last(), ranges.last().start as int),
{
    let prefix = ranges.drop_last();
    assert forall|i: int| 0 <= i < prefix.len() implies (#[trigger] prefix[i]).index == i
        && prefix[i].start <= prefix[i].end by {
        assert(prefix[i] == ranges[i]);
    }
    assert forall|i: int, j: int| 0 <= i && j == i + 1 && j < prefix.len() implies (
    #[trigger] prefix[j]).start == (#[trigger] prefix[i]).end + 1 by {
        assert(prefix[i] == ranges[i] && prefix[j] == ranges[j]);
    }
    if prefix.len() > 0 {
        assert(prefix[0] == ranges[0]);
        assert(prefix.last() == ranges[ranges.len() - 2]);
        assert(ranges[ranges.len() - 1].start == ranges[ranges.len() - 2].end + 1);
    }
}

/// A tiling of `total` bytes has neither gap nor overlap: a byte lies in some
/// range exactly if its offset is below `total`, no byte lies in two ranges,
/// and the byte counts of the ranges add up to `total`.
pub proof fn lemma_tiles_partition(ranges: Seq<ByteRange>, total: int)
    requires
        tiles(ranges, total),
    ensures
        forall|offset: int| 0 <= offset < total <==> #[trigger] covers(ranges, offset),
        disjoint(ranges),
        total_bytes(ranges) == total,
    decreases ranges.len(),
{
    assert forall|offset: int| 0 <= offset < total implies #[trigger] covers(ranges, offset) by {
        lemma_tiles_reach(ranges, total, ranges.len() - 1, offset);
    }
    assert forall|offset: int| #[trigger] covers(ranges, offset) implies 0 <= offset < total by {
        let i = choose|i: int| 0 <= i < ranges.len() && (#[trigger] ranges[i]).contains(offset);
        if i < ranges.len() - 1 {
            lemma_tiles_ordered(ranges, total, i, ranges.len() - 1);
            assert(ranges[ranges.len() - 1].start <= ranges[ranges.len() - 1].end);
        }
    }
    assert forall|i: int, j: int, offset: int|
        0 <= i < ranges.len() && 0 <= j < ranges.len() && i != j implies !(
    #[trigger] ranges[i].contains(offset) && #[trigger] ranges[j].contains(offset)) by {
        if i < j {
            lemma_tiles_ordered(ranges, total, i, j);
        } else {
            lemma_tiles_ordered(ranges, total, j, i);
        }
    }
    if ranges.len() > 0 {
        lemma_tiles_prefix(ranges, total);
        lemma_tiles_partition(ranges.drop_last(), ranges.last().start as int);
    }
}

/// The number of fetches that may run at once for a requested thread count:
/// a request for none is served by one.
pub open spec fn effective_threads(thread_count: u8) -> nat {
    if thread_count == 0 {
        1
    } else {
        thread_count as nat
    }
}

/// The number of ranges planned for `total` bytes: one per thread, but never
/// more ranges than bytes.
pub open spec fn planned_count(total: u64, thread_count: u8) -> nat {
    if total < effective_threads(thread_count) {
        total as nat
    } else {
        effective_threads(thread_count)
    }
}

/// Range `i` of `count` over `total` bytes. Every range but the last holds
/// `total / count` bytes; the last reaches to the final byte and so takes
/// the remainder of the division.
pub open spec fn planned_range(total: u64, count: nat, i: int) -> ByteRange {
    let part = total as int / count as int;
    ByteRange {
        index: i as usize,
        start: (i * part) as u64,
        end: if i == count - 1 {
            (total - 1) as u64
        } else {
            ((i + 1) * part - 1) as u64
        },
    }
}

/// The plan for a resource: for a known length the near-equal parts of
/// `planned_range`, for an unknown length the one unbounded range.
pub open spec fn planned_ranges(total_size: Option<u64>, thread_count: u8) -> Seq<ByteRange> {
    match total_size {
        None => seq![ByteRange::unbounded()],
        Some(total) => Seq::new(
            planned_count(total, thread_count),
            |i: int| planned_range(total, planned_count(total, thread_count), i),
        ),
    }
}

/// Bounds of the arithmetic in `planned_range`: the start of range `i` and
/// the end of every range lie below `total`, and each range is non-empty.
proof fn lemma_planned_range_bounds(total: u64, count: nat, i: int)
    requires
        0 < count <= total,
        0 <= i < count,
    ensures
        1 <= total as int / count as int,
        0 <= i * (total as int / count as int) <= total - 1,
        i < count - 1 ==> (i + 1) * (total as int / count as int) <= total - 1,
        (i + 1) * (total as int / count as int) == i * (total as int / count as int) + total as int
            / count as int,
        i == 0 ==> i * (total as int / count as int) == 0,
{
    let t = total as int;
    let c = count as int;
    let part = t / c;
    assert(1 <= part && part * c <= t) by (nonlinear_arith)
        requires
            0 < c <= t,
            part == t / c,
    ;
    assert((i + 1) * part == i * part + part) by (nonlinear_arith);
    assert(0 <= i * part && (i + 1) * part <= part * c) by (nonlinear_arith)
        requires
            0 <= i < c,
            1 <= part,
    ;
    if i < c - 1 {
        assert((i + 2) * part <= part * c && (i + 2) * part == (i + 1) * part + part)
            by (nonlinear_arith)
            requires
                0 <= i < c - 1,
                1 <= part,
        ;
    }
}

/// The planned ranges of a resource of known length tile it.
pub proof fn lemma_plan_tiles(total: u64, thread_count: u8)
    ensures
        planned_ranges(Some(total), thread_count).len() == planned_count(total, thread_count),
        tiles(planned_ranges(Some(total), thread_count), total as int),
{
    let count = planned_count(total, thread_count);
    let plan = planned_ranges(Some(total), thread_count);
    assert forall|i: int| 0 <= i < plan.len() implies (#[trigger] plan[i]).index == i
        && plan[i].start <= plan[i].end by {
        lemma_planned_range_bounds(total, count, i);
    }
    assert forall|i: int, j: int| 0 <= i && j == i + 1 && j < plan.len() implies (
    #[trigger] plan[j]).start == (#[trigger] plan[i]).end + 1 by {
        lemma_planned_range_bounds(total, count, i);
        lemma_planned_range_bounds(total, count, j);
    }
    if count > 0 {
        lemma_planned_range_bounds(total, count, 0);
        lemma_planned_range_bounds(total, count, count - 1);
    }
}

/// The plan never holds more ranges than fetches may run at once, so one
/// fetch per range keeps within the thread count.
pub proof fn lemma_plan_within_threads(total_size: Option<u64>, thread_count: u8)
    ensures
        planned_ranges(total_size, thread_count).len() <= effective_threads(thread_count),
        total_size is None ==> planned_ranges(total_size, thread_count).len() == 1,
        total_size == Some(0u64) ==> planned_ranges(total_size, thread_count).len() == 0,
{
}

/// The planner's law. For a resource of `total > 0` bytes and a thread count
/// from 1 to `total`, the plan holds exactly `thread_count` ranges, they tile
/// the resource (so their union is `0 .. total` without gap or overlap), and
/// the last range ends at `total - 1`.
pub proof fn lemma_plan_covers_resource(total: u64, thread_count: u8)
    requires
        total > 0,
        1 <= thread_count <= total,
    ensures
        planned_ranges(Some(total), thread_count).len() == thread_count,
        tiles(planned_ranges(Some(total), thread_count), total as int),
        forall|offset: int|
            0 <= offset < total <==> #[trigger] covers(
                planned_ranges(Some(total), thread_count),
                offset,
            ),
        disjoint(planned_ranges(Some(total), thread_count)),
        total_bytes(planned_ranges(Some(total), thread_count)) == total,
        planned_ranges(Some(total), thread_count).last().end == total - 1,
{
    lemma_plan_tiles(total, thread_count);
    lemma_tiles_partition(planned_ranges(Some(total), thread_count), total as int);
}

/// Plans the byte ranges of a download.
///
/// For a resource of known length the offsets `0 .. total_size` are cut into
/// `min(thread_count, total_size)` near-equal consecutive ranges, the last of
/// which takes the remainder; an empty resource gets no range. A thread count
/// of 0 is served as 1. For a resource of unknown length the plan is the one
/// unbounded range, whatever the thread count.
pub fn plan_ranges(total_size: Option<u64>, thread_count: u8) -> (ranges: Vec<ByteRange>)
    ensures
        ranges@ == planned_ranges(total_size, thread_count),
        total_size matches Some(total) ==> tiles(ranges@, total as int),
{
    let total: u64 = match total_size {
        None => {
            let mut single: Vec<ByteRange> = Vec::new();
            single.push(ByteRange::whole_stream());
            assert(single@ =~= planned_ranges(total_size, thread_count));
            return single;
        },
        Some(total) => total,
    };
    let threads: u64 = if thread_count == 0 {
        1
    } else {
        thread_count as u64
    };
    let count: u64 = if total < threads {
        total
    } else {
        threads
    };
    let mut ranges: Vec<ByteRange> = Vec::new();
    if count == 0 {
        proof {
            lemma_plan_tiles(total, thread_count);
        }
        assert(ranges@ =~= planned_ranges(total_size, thread_count));
        return ranges;
    }
    let part: u64 = total / count;
    let mut i: u64 = 0;
    let mut start: u64 = 0;
    while i < count
        invariant
            0 < count <= total,
            count == planned_count(total, thread_count),
            count <= 255,
            part == total as int / count as int,
            0 <= i <= count,
            i < count ==> start == i * part,
            ranges@.len() == i,
            forall|j: int|
                0 <= j < i ==> #[trigger] ranges@[j] == planned_range(total, count as nat, j),
        decreases count - i,
    {
        proof {
            lemma_planned_range_bounds(total, count as nat, i as int);
        }
        let end: u64 = if i == count - 1 {
            total - 1
        } else {
            start + part - 1
        };
        ranges.push(ByteRange { index: i as usize, start, end });
        if i < count - 1 {
            start = start + part;
        }
        i = i + 1;
    }
    proof {
        lemma_plan_tiles(total, thread_count);
    }
    assert(ranges@ =~= planned_ranges(total_size, thread_count));
    ranges
}

} // verus!
