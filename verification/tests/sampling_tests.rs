use video_colors::planner::Chunk;
use video_colors::sampling::is_sampled;
use video_colors::worker::chunk_sampled_indices;

#[test]
fn sampling_rule_on_second_boundaries() {
    assert!(is_sampled(0, 30));
    assert!(is_sampled(30, 30));
    assert!(is_sampled(60, 30));
    assert!(!is_sampled(1, 30));
    assert!(!is_sampled(29, 30));
    assert!(!is_sampled(45, 30));
    assert!(is_sampled(0, 1));
    assert!(is_sampled(7, 1));
}

#[test]
fn sampled_indices_at_thirty_fps() {
    let chunk = Chunk { start: 0, end: 95 };
    let indices = chunk_sampled_indices(&chunk, 30);
    assert_eq!(indices, vec![0, 30, 60, 90]);
    assert_eq!(indices.len(), 4);
}

#[test]
fn sampled_indices_at_twenty_five_fps() {
    let chunk = Chunk { start: 0, end: 125 };
    let indices = chunk_sampled_indices(&chunk, 25);
    assert_eq!(indices, vec![0, 25, 50, 75, 100]);
}

#[test]
fn sampled_indices_of_short_video() {
    let chunk = Chunk { start: 0, end: 20 };
    let indices = chunk_sampled_indices(&chunk, 30);
    assert_eq!(indices, vec![0]);
}

#[test]
fn sampled_indices_of_empty_chunk() {
    let chunk = Chunk { start: 0, end: 0 };
    let indices = chunk_sampled_indices(&chunk, 30);
    assert!(indices.is_empty());
}

#[test]
fn sampled_indices_of_interior_chunk() {
    let chunk = Chunk { start: 31, end: 95 };
    let indices = chunk_sampled_indices(&chunk, 30);
    assert_eq!(indices, vec![60, 90]);
}
