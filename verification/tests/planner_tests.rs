use video_colors::planner::{plan, Chunk};

fn assert_contiguous_cover(chunks: &[Chunk], frame_count: u64) {
    if frame_count == 0 {
        assert!(chunks.is_empty());
        return;
    }
    assert!(!chunks.is_empty());
    assert_eq!(chunks[0].start, 0);
    assert_eq!(chunks[chunks.len() - 1].end, frame_count);
    for k in 0..chunks.len() {
        assert!(chunks[k].start < chunks[k].end);
        if k > 0 {
            assert_eq!(chunks[k].start, chunks[k - 1].end);
        }
    }
}

#[test]
fn empty_video_plans_no_chunks() {
    let chunks = plan(0, 30, 4);
    assert!(chunks.is_empty());
}

#[test]
fn short_video_plans_one_chunk() {
    let chunks = plan(125, 25, 4);
    assert_eq!(chunks, vec![Chunk { start: 0, end: 125 }]);
}

#[test]
fn one_second_of_footage_plans_one_chunk() {
    let chunks = plan(10, 30, 8);
    assert_eq!(chunks, vec![Chunk { start: 0, end: 10 }]);
}

#[test]
fn long_video_splits_into_even_chunks() {
    let chunks = plan(100, 1, 3);
    assert_eq!(
        chunks,
        vec![Chunk { start: 0, end: 50 }, Chunk { start: 50, end: 100 }]
    );
}

#[test]
fn chunk_count_capped_by_workers() {
    let chunks = plan(10_000, 1, 3);
    assert_eq!(chunks.len(), 3);
    assert_contiguous_cover(&chunks, 10_000);
}

#[test]
fn plans_cover_the_frame_range() {
    for &(frame_count, fps, workers) in &[
        (1u64, 1u64, 1u64),
        (89, 1, 2),
        (90, 1, 2),
        (91, 1, 2),
        (1000, 2, 7),
        (95, 30, 4),
        (54_000, 30, 8),
        (54_001, 30, 8),
    ] {
        let chunks = plan(frame_count, fps, workers);
        assert!(chunks.len() as u64 <= workers);
        assert_contiguous_cover(&chunks, frame_count);
    }
}
