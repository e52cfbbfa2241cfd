use edl::download_core::merge::{check_size, SizeMismatch};
use edl::download_core::segment::{Segment, SegmentStatus};
use edl::download_core::worker::{
    after_attempt, mark_completed, mark_downloading, record_chunk, response_accepted, retry_delay_secs,
    start_segment, RetryStep, SegmentRequest,
};

#[test]
fn resume_from_temp_file_length() {
    let seg = Segment::new(1, 100, 200);
    let (s, req) = start_segment(seg, Some(40));
    assert_eq!(s.downloaded, 40);
    match req {
        SegmentRequest::Fetch { range, append } => {
            assert_eq!(range.as_deref(), Some("bytes=140-199"));
            assert!(append);
        }
        other => panic!("unexpected {:?}", other),
    }
}

#[test]
fn fresh_whole_file_request_has_no_range() {
    let seg = Segment::new(0, 0, u64::MAX);
    let (s, req) = start_segment(seg, None);
    assert_eq!(s.downloaded, 0);
    match req {
        SegmentRequest::Fetch { range, append } => {
            assert!(range.is_none());
            assert!(!append);
        }
        other => panic!("unexpected {:?}", other),
    }
    let (_, req) = start_segment(Segment::new(0, 0, 50), None);
    assert!(matches!(req, SegmentRequest::Fetch { range: Some(ref r), append: false } if r == "bytes=0-49"));
}

#[test]
fn finished_segment_needs_no_request() {
    let (s, req) = start_segment(Segment::new(0, 0, 10), Some(10));
    assert!(matches!(req, SegmentRequest::AlreadyComplete));
    assert_eq!(s.status, SegmentStatus::Completed);
}

#[test]
fn accepted_statuses() {
    assert!(response_accepted(200));
    assert!(response_accepted(206));
    assert!(!response_accepted(416));
    assert!(!response_accepted(302));
}

#[test]
fn chunk_accounting() {
    let mut s = Segment::new(0, 0, 10);
    mark_downloading(&mut s);
    assert_eq!(s.status, SegmentStatus::Downloading);
    record_chunk(&mut s, 4);
    record_chunk(&mut s, 6);
    assert_eq!(s.downloaded, 10);
    mark_completed(&mut s);
    assert_eq!(s.status, SegmentStatus::Completed);
}

#[test]
fn retries_back_off() {
    let delays: Vec<u64> = (0..7).map(retry_delay_secs).collect();
    assert_eq!(delays, vec![1, 2, 4, 8, 16, 16, 16]);
    assert!(matches!(after_attempt(0, 3, true, false), RetryStep::Finished));
    assert!(matches!(after_attempt(1, 3, false, true), RetryStep::Finished));
    assert!(matches!(after_attempt(0, 3, false, false), RetryStep::Retry { attempt: 1, delay_secs: 2 }));
    assert!(matches!(after_attempt(2, 3, false, false), RetryStep::Retry { attempt: 3, delay_secs: 8 }));
    assert!(matches!(after_attempt(3, 3, false, false), RetryStep::GiveUp));
    assert!(matches!(after_attempt(0, 0, false, false), RetryStep::GiveUp));
}

#[test]
fn size_checks() {
    assert!(check_size(Some(10), 10, true).is_ok());
    assert!(check_size(None, 3, false).is_ok());
    let e = check_size(Some(10), 9, true).unwrap_err();
    assert_eq!(e, SizeMismatch { expected: 10, actual: 9, merged: true });
    assert_eq!(e.message(), "size mismatch after merge: expected 10 bytes, got 9");
    let e2 = check_size(Some(5), 6, false).unwrap_err();
    assert_eq!(e2.message(), "size mismatch: expected 5 bytes, got 6");
}
