use edl::download_core::segment::{create_segments, create_single_segment, Segment, SegmentStatus};

#[test]
fn test_create_segments() {
    let segments = create_segments(100, 3);
    assert_eq!(segments.len(), 3);
    assert_eq!(segments[0].start, 0);
    assert_eq!(segments[0].end, 34); // 33 + 1 remainder
    assert_eq!(segments[1].start, 34);
    assert_eq!(segments[1].end, 67); // 33
    assert_eq!(segments[2].start, 67);
    assert_eq!(segments[2].end, 100);

    let total: u64 = segments.iter().map(|s| s.size()).sum();
    assert_eq!(total, 100);
}

#[test]
fn test_create_segments_even() {
    let segments = create_segments(100, 4);
    assert_eq!(segments.len(), 4);
    let total: u64 = segments.iter().map(|s| s.size()).sum();
    assert_eq!(total, 100);
}

#[test]
fn test_segment_resume() {
    let mut seg = Segment::new(0, 100, 200);
    seg.downloaded = 50;
    assert_eq!(seg.resume_offset(), 150);
    assert_eq!(seg.remaining(), 50);
    assert!(!seg.is_complete());

    seg.downloaded = 100;
    assert!(seg.is_complete());
}

#[test]
fn segments_are_contiguous_and_indexed() {
    let segments = create_segments(10, 4);
    let sizes: Vec<u64> = segments.iter().map(|s| s.size()).collect();
    assert_eq!(sizes, vec![3, 3, 2, 2]);
    for (i, s) in segments.iter().enumerate() {
        assert_eq!(s.index as usize, i);
        assert_eq!(s.downloaded, 0);
        assert_eq!(s.status, SegmentStatus::Pending);
        if i > 0 {
            assert_eq!(segments[i - 1].end, s.start);
        }
    }
    assert_eq!(segments[3].end, 10);
}

#[test]
fn more_segments_than_bytes() {
    let segments = create_segments(2, 5);
    assert_eq!(segments.len(), 5);
    let total: u64 = segments.iter().map(|s| s.size()).sum();
    assert_eq!(total, 2);
    assert_eq!(segments[4].start, 2);
    assert_eq!(segments[4].end, 2);
    assert!(segments[4].is_complete());
}

#[test]
fn single_segment_covers_everything() {
    let segments = create_single_segment(12345);
    assert_eq!(segments.len(), 1);
    assert_eq!(segments[0].start, 0);
    assert_eq!(segments[0].end, 12345);
}

#[test]
fn remaining_is_zero_past_the_end() {
    let mut seg = Segment::new(2, 0, 10);
    seg.downloaded = 15;
    assert_eq!(seg.remaining(), 0);
    assert!(seg.is_complete());
}

#[test]
fn temp_file_names() {
    let seg = Segment::new(7, 0, 10);
    assert_eq!(seg.temp_filename("abc"), "abc.part7");
    assert_ne!(Segment::new(1, 0, 1).temp_filename("t"), Segment::new(11, 0, 1).temp_filename("t"));
}
