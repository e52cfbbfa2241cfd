//! Byte-range segments of a download and how a file is split into them.

use vstd::prelude::*;

use crate::util::text::{decimal_seq, push_decimal, push_str_chars, string_of};

verus! {

#[derive(Debug, Clone, Copy, PartialEq, Eq, Structural)]
pub enum SegmentStatus {
    Pending,
    Downloading,
    Completed,
    Error,
}

/// One byte range of a download, fetched by its own connection.
#[derive(Debug, Clone, Copy, PartialEq, Eq, Structural)]
pub struct Segment {
    pub index: u32,
    /// Start byte offset (inclusive)
    pub start: u64,
    /// End byte offset (exclusive)
    pub end: u64,
    /// Bytes downloaded so far
    pub downloaded: u64,
    pub status: SegmentStatus,
}

/// Number of bytes the segment covers.
pub open spec fn seg_size(s: Segment) -> int {
    s.end - s.start
}

/// The segment has received all of its bytes.
pub open spec fn seg_complete(s: Segment) -> bool {
    s.downloaded >= seg_size(s)
}

/// Bytes still missing from the segment.
pub open spec fn seg_remaining(s: Segment) -> int {
    if s.downloaded >= seg_size(s) {
        0
    } else {
        seg_size(s) - s.downloaded
    }
}

/// Name of the temporary file holding a segment's bytes: `<task_id>.part<index>`.
pub open spec fn temp_file_name(task_id: Seq<char>, index: u32) -> Seq<char> {
    task_id + ".part"@ + decimal_seq(index as nat)
}

impl Segment {
    pub fn new(index: u32, start: u64, end: u64) -> (s: Self)
        ensures
            s == (Segment { index, start, end, downloaded: 0, status: SegmentStatus::Pending }),
    {
        Segment { index, start, end, downloaded: 0, status: SegmentStatus::Pending }
    }

    pub fn size(&self) -> (r: u64)
        requires
            self.start <= self.end,
        ensures
            r == seg_size(*self),
    {
        self.end - self.start
    }

    pub fn is_complete(&self) -> (r: bool)
        requires
            self.start <= self.end,
        ensures
            r == seg_complete(*self),
    {
        self.downloaded >= self.size()
    }

    /// The byte offset to resume downloading from
    pub fn resume_offset(&self) -> (r: u64)
        requires
            self.start + self.downloaded <= u64::MAX,
        ensures
            r == self.start + self.downloaded,
    {
        self.start + self.downloaded
    }

    /// Remaining bytes to download
    pub fn remaining(&self) -> (r: u64)
        requires
            self.start <= self.end,
        ensures
            r == seg_remaining(*self),
    {
        let size = self.size();
        if self.downloaded >= size {
            0
        } else {
            size - self.downloaded
        }
    }

    /// Temp file path for this segment
    pub fn temp_filename(&self, task_id: &str) -> (r: String)
        ensures
            r@ == temp_file_name(task_id@, self.index),
    {
        let mut v: Vec<char> = Vec::new();
        push_str_chars(&mut v, task_id);
        push_str_chars(&mut v, ".part");
        push_decimal(&mut v, self.index as u64);
        assert(v@ =~= temp_file_name(task_id@, self.index));
        string_of(&v)
    }
}

/// A segment is complete exactly when nothing remains of it.
pub proof fn lemma_complete_iff_nothing_remains(s: Segment)
    requires
        s.start <= s.end,
    ensures
        seg_complete(s) <==> seg_remaining(s) == 0,
{
}

/// Start offset of segment `i` when `total` bytes are split into `n` parts:
/// every part gets `total / n` bytes and the first `total % n` parts one more.
pub open spec fn split_start(total: nat, n: nat, i: nat) -> nat {
    i * (total / n) + if i < total % n {
        i
    } else {
        total % n
    }
}

pub open spec fn split_len(total: nat, n: nat, i: nat) -> nat {
    (total / n) + if i < total % n {
        1nat
    } else {
        0nat
    }
}

/// The segments lie back to back and cover `[0, total)` exactly.
pub open spec fn segments_cover(segs: Seq<Segment>, total: nat) -> bool {
    &&& segs.len() > 0
    &&& segs[0].start == 0
    &&& segs[segs.len() - 1].end == total
    &&& forall|i: int| 0 <= i < segs.len() - 1 ==> #[trigger] segs[i].end == segs[i + 1].start
    &&& forall|i: int| 0 <= i < segs.len() ==> #[trigger] segs[i].start <= segs[i].end
}

/// Sum of the sizes of the segments.
pub open spec fn sizes_sum(segs: Seq<Segment>) -> int
    decreases segs.len(),
{
    if segs.len() == 0 {
        0
    } else {
        sizes_sum(segs.drop_last()) + seg_size(segs.last())
    }
}

pub(crate) proof fn lemma_split_start_step(total: nat, n: nat, i: nat)
    requires
        n > 0,
    ensures
        split_start(total, n, i + 1) == split_start(total, n, i) + split_len(total, n, i),
{
    let q = total / n;
    assert((i + 1) * q == i * q + q) by (nonlinear_arith);
}

pub(crate) proof fn lemma_split_start_bound(total: nat, n: nat, i: nat)
    requires
        n > 0,
        i <= n,
    ensures
        split_start(total, n, i) <= total,
        split_start(total, n, n) == total,
{
    let q = total / n;
    let r = total % n;
    assert(n * q + r == total) by (nonlinear_arith)
        requires
            n > 0,
            q == total / n,
            r == total % n,
    ;
    assert(i * q <= n * q) by (nonlinear_arith)
        requires
            i <= n,
    ;
    assert(r < n);
}

proof fn lemma_sizes_sum_contiguous(segs: Seq<Segment>)
    requires
        segs.len() > 0,
        forall|i: int| 0 <= i < segs.len() - 1 ==> #[trigger] segs[i].end == segs[i + 1].start,
    ensures
        sizes_sum(segs) == segs[segs.len() - 1].end - segs[0].start,
    decreases segs.len(),
{
    if segs.len() == 1 {
        assert(segs.drop_last().len() == 0);
        assert(sizes_sum(segs) == sizes_sum(segs.drop_last()) + seg_size(segs.last()));
    } else {
        let p = segs.drop_last();
        assert forall|i: int| 0 <= i < p.len() - 1 implies #[trigger] p[i].end == p[i + 1].start by {
            assert(segs[i].end == segs[i + 1].start);
        }
        lemma_sizes_sum_contiguous(p);
        assert(segs[segs.len() - 2].end == segs[segs.len() - 1].start);
        assert(p[p.len() - 1] == segs[segs.len() - 2]);
        assert(p[0] == segs[0]);
        assert(sizes_sum(segs) == sizes_sum(p) + seg_size(segs.last()));
    }
}

/// Covering segments add up to the whole file.
pub proof fn lemma_cover_sizes_sum(segs: Seq<Segment>, total: nat)
    requires
        segments_cover(segs, total),
    ensures
        sizes_sum(segs) == total,
{
    lemma_sizes_sum_contiguous(segs);
}

/// Split a total size into N segments
pub fn create_segments(total_size: u64, num_segments: u8) -> (segs: Vec<Segment>)
    requires
        num_segments > 0,
    ensures
        segs@.len() == num_segments,
        forall|i: int|
            0 <= i < segs@.len() ==> {
                let s = #[trigger] segs@[i];
                &&& s.index == i
                &&& s.start == split_start(total_size as nat, num_segments as nat, i as nat)
                &&& s.end == s.start + split_len(total_size as nat, num_segments as nat, i as nat)
                &&& s.downloaded == 0
                &&& s.status == SegmentStatus::Pending
            },
        segments_cover(segs@, total_size as nat),
        sizes_sum(segs@) == total_size,
{
    let n = num_segments as u64;
    let segment_size = total_size / n;
    let remainder = total_size % n;
    let ghost total = total_size as nat;
    let ghost nn = n as nat;
    let mut segments: Vec<Segment> = Vec::new();
    let mut offset: u64 = 0;
    let mut i: u64 = 0;
    while i < n
        invariant
            n == num_segments,
            n > 0,
            i <= n,
            segment_size == total_size / n,
            remainder == total_size % n,
            total == total_size as nat,
            nn == n as nat,
            offset == split_start(total, nn, i as nat),
            segments@.len() == i,
            forall|j: int|
                0 <= j < i ==> {
                    let s = #[trigger] segments@[j];
                    &&& s.index == j
                    &&& s.start == split_start(total, nn, j as nat)
                    &&& s.end == s.start + split_len(total, nn, j as nat)
                    &&& s.downloaded == 0
                    &&& s.status == SegmentStatus::Pending
                },
        decreases n - i,
    {
        let extra: u64 = if i < remainder {
            1
        } else {
            0
        };
        proof {
            lemma_split_start_step(total, nn, i as nat);
            lemma_split_start_bound(total, nn, (i + 1) as nat);
        }
        let size = segment_size + extra;
        segments.push(Segment::new(i as u32, offset, offset + size));
        offset = offset + size;
        i = i + 1;
    }
    proof {
        let segs = segments@;
        lemma_split_start_bound(total, nn, nn);
        assert(segs[0].start == 0);
        assert forall|j: int| 0 <= j < segs.len() - 1 implies #[trigger] segs[j].end
            == segs[j + 1].start by {
            lemma_split_start_step(total, nn, j as nat);
        }
        lemma_split_start_step(total, nn, (nn - 1) as nat);
        assert(segs[segs.len() - 1].end == total);
        lemma_cover_sizes_sum(segs, total);
    }
    segments
}

/// Create a single segment covering the whole file (when Range not supported)
pub fn create_single_segment(total_size: u64) -> (segs: Vec<Segment>)
    ensures
        segs@ == seq![Segment::new_spec(0, 0, total_size)],
        segments_cover(segs@, total_size as nat),
{
    let mut v: Vec<Segment> = Vec::new();
    v.push(Segment::new(0, 0, total_size));
    v
}

impl Segment {
    pub open spec fn new_spec(index: u32, start: u64, end: u64) -> Segment {
        Segment { index, start, end, downloaded: 0, status: SegmentStatus::Pending }
    }
}

/// Different segments of a task write to different temp files.
pub proof fn lemma_temp_files_distinct(task_id: Seq<char>, i: u32, j: u32)
    requires
        i != j,
    ensures
        temp_file_name(task_id, i) != temp_file_name(task_id, j),
{
    let p = task_id + ".part"@;
    if temp_file_name(task_id, i) == temp_file_name(task_id, j) {
        assert(temp_file_name(task_id, i).skip(p.len() as int) =~= decimal_seq(i as nat));
        assert(temp_file_name(task_id, j).skip(p.len() as int) =~= decimal_seq(j as nat));
        crate::util::text::lemma_parse_decimal_roundtrip(i as u64);
        crate::util::text::lemma_parse_decimal_roundtrip(j as u64);
    }
}

} // verus!
