//! Decisions of a segment worker: where a (re)started segment resumes, what
//! it asks the server for, which answers it takes, how it counts what
//! arrives, and when a failed segment is tried again.

use vstd::arithmetic::power2::{lemma2_to64, pow2};
use vstd::prelude::*;

use super::segment::{seg_complete, Segment, SegmentStatus};
use crate::net::http::is_success_status;
use crate::util::text::{decimal_seq, push_decimal, push_str_chars, string_of};

verus! {

/// Whether a request for the segment carries a `Range` header: unless it
/// covers everything from byte 0 on.
pub open spec fn needs_range(s: Segment) -> bool {
    s.start > 0 || s.end < u64::MAX
}

/// The `Range` header value asking for the rest of a segment: from its first
/// missing byte to its last byte, both inclusive.
pub open spec fn range_value(s: Segment) -> Seq<char> {
    "bytes="@ + decimal_seq((s.start + s.downloaded) as nat) + "-"@ + decimal_seq(
        (s.end - 1) as nat,
    )
}

/// The segment as its temp file shows it: a file that is there tells how
/// many bytes the segment already has.
pub open spec fn synced_segment(s: Segment, file_len: Option<u64>) -> Segment {
    match file_len {
        Some(n) => Segment { downloaded: n, ..s },
        None => s,
    }
}

/// What a worker does for a segment it starts on.
#[derive(Debug)]
pub enum SegmentRequest {
    /// Nothing is missing.
    AlreadyComplete,
    /// Request the missing bytes, with this `Range` header value if any, and
    /// append them to the temp file when it already holds some.
    Fetch { range: Option<String>, append: bool },
}

/// A segment taken up by a worker, given the length of its temp file when
/// that file exists: the segment with its count set from the file, and the
/// request to make.
pub fn start_segment(seg: Segment, file_len: Option<u64>) -> (r: (Segment, SegmentRequest))
    requires
        seg.start <= seg.end,
    ensures
        seg_complete(synced_segment(seg, file_len)) ==> r.0 == (Segment {
            status: SegmentStatus::Completed,
            ..synced_segment(seg, file_len)
        }) && r.1 is AlreadyComplete,
        !seg_complete(synced_segment(seg, file_len)) ==> r.0 == synced_segment(seg, file_len) && (
        r.1 matches SegmentRequest::Fetch { range, append } && append == (synced_segment(
            seg,
            file_len,
        ).downloaded > 0) && (if needs_range(synced_segment(seg, file_len)) {
            range matches Some(v) && v@ == range_value(synced_segment(seg, file_len))
        } else {
            range is None
        })),
{
    let mut s = seg;
    match file_len {
        Some(n) => {
            s.downloaded = n;
        },
        None => {},
    }
    if s.is_complete() {
        s.status = SegmentStatus::Completed;
        return (s, SegmentRequest::AlreadyComplete);
    }
    let range = if s.start > 0 || s.end < u64::MAX {
        let mut v: Vec<char> = Vec::new();
        push_str_chars(&mut v, "bytes=");
        push_decimal(&mut v, s.start + s.downloaded);
        push_str_chars(&mut v, "-");
        push_decimal(&mut v, s.end - 1);
        assert(v@ =~= range_value(s));
        Some(string_of(v.as_slice()))
    } else {
        None
    };
    let append = s.downloaded > 0;
    (s, SegmentRequest::Fetch { range, append })
}

/// Whether a response with this status carries the segment's bytes: any
/// success, `206 Partial Content` among them.
pub fn response_accepted(code: u16) -> (r: bool)
    ensures
        r == ((200 <= code && code <= 299) || code == 206),
{
    is_success_status(code) || code == 206
}

/// The segment once its response was accepted.
pub fn mark_downloading(seg: &mut Segment)
    ensures
        *final(seg) == (Segment { status: SegmentStatus::Downloading, ..*old(seg) }),
{
    seg.status = SegmentStatus::Downloading;
}

/// Counts a chunk of `len` bytes written to the temp file.
pub fn record_chunk(seg: &mut Segment, len: u64)
    requires
        old(seg).downloaded + len <= u64::MAX,
    ensures
        *final(seg) == (Segment { downloaded: (old(seg).downloaded + len) as u64, ..*old(seg) }),
{
    seg.downloaded = seg.downloaded + len;
}

/// The segment once its response has been read to the end.
pub fn mark_completed(seg: &mut Segment)
    ensures
        *final(seg) == (Segment { status: SegmentStatus::Completed, ..*old(seg) }),
{
    seg.status = SegmentStatus::Completed;
}

/// Seconds to wait before attempt number `attempt` (counted from 0): twice
/// as long each time, and never more than 16 seconds.
pub open spec fn retry_delay(attempt: u32) -> nat {
    pow2(if attempt < 4 {
        attempt as nat
    } else {
        4
    })
}

pub fn retry_delay_secs(attempt: u32) -> (r: u64)
    ensures
        r == retry_delay(attempt),
{
    proof {
        lemma2_to64();
    }
    if attempt == 0 {
        1
    } else if attempt == 1 {
        2
    } else if attempt == 2 {
        4
    } else if attempt == 3 {
        8
    } else {
        16
    }
}

/// What follows an attempt at a segment.
#[derive(Debug)]
pub enum RetryStep {
    /// The segment is done: it succeeded, or the task was cancelled.
    Finished,
    /// Wait `delay_secs` seconds, then make attempt number `attempt`.
    Retry { attempt: u32, delay_secs: u64 },
    /// All attempts failed; the last error stands.
    GiveUp,
}

/// The decision after attempt `attempt` of `retry_count + 1`, given whether
/// it succeeded and whether the task was cancelled meanwhile.
pub fn after_attempt(attempt: u32, retry_count: u32, succeeded: bool, cancelled: bool) -> (r:
    RetryStep)
    requires
        attempt <= retry_count,
    ensures
        (succeeded || cancelled) ==> r is Finished,
        !succeeded && !cancelled && attempt < retry_count ==> (r matches RetryStep::Retry {
            attempt: next,
            delay_secs,
        } && next == attempt + 1 && delay_secs == retry_delay(next)),
        !succeeded && !cancelled && attempt == retry_count ==> r is GiveUp,
{
    if succeeded || cancelled {
        RetryStep::Finished
    } else if attempt < retry_count {
        let next = attempt + 1;
        RetryStep::Retry { attempt: next, delay_secs: retry_delay_secs(next) }
    } else {
        RetryStep::GiveUp
    }
}

/// The `Range` header of an unfinished segment asks for exactly the bytes it
/// still misses: from its first missing byte through its last byte.
pub proof fn lemma_range_covers_remaining(s: Segment)
    requires
        s.start <= s.end,
        !seg_complete(s),
    ensures
        s.start + s.downloaded <= s.end - 1,
        (s.end - 1) - (s.start + s.downloaded) + 1 == super::segment::seg_remaining(s),
{
}

/// The wait before a retry doubles from one second up to sixteen, and stays
/// there.
pub proof fn lemma_retry_delay_capped(attempt: u32)
    ensures
        1 <= retry_delay(attempt) <= 16,
        attempt < 4 ==> retry_delay((attempt + 1) as u32) == 2 * retry_delay(attempt),
        attempt >= 4 ==> retry_delay(attempt) == 16,
{
    lemma2_to64();
}

} // verus!
