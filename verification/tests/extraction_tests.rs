//! End-to-end runs of the verified pipeline over a simulated video: the
//! frame colors come from a fixed function of the frame index, standing
//! in for the decoder and color extractor.

use video_colors::assembler::assemble;
use video_colors::coordinator::collect_results;
use video_colors::errors::ExtractError;
use video_colors::planner::plan;
use video_colors::types::{Rgb8, SampledColor, VideoStats};
use video_colors::worker::{chunk_sampled_indices, pair_samples};

fn frame_color(index: u64) -> Rgb8 {
    Rgb8 {
        r: (index % 251) as u8,
        g: (index % 13) as u8,
        b: (index % 7) as u8,
    }
}

fn worker_results(
    frame_count: u64,
    fps: u64,
    max_workers: u64,
) -> Vec<Result<Vec<SampledColor>, ExtractError>> {
    let chunks = plan(frame_count, fps, max_workers);
    let mut results = Vec::new();
    for chunk in &chunks {
        let indices = chunk_sampled_indices(chunk, fps);
        let colors: Vec<Rgb8> = indices.iter().map(|&i| frame_color(i)).collect();
        results.push(Ok(pair_samples(&indices, &colors)));
    }
    results
}

fn run_extraction(frame_count: u64, fps: u64, max_workers: u64) -> Result<Vec<Rgb8>, ExtractError> {
    let samples = collect_results(&worker_results(frame_count, fps, max_workers))?;
    assemble(&samples, frame_count)
}

#[test]
fn track_is_independent_of_worker_count() {
    let with_one = run_extraction(54_321, 30, 1).unwrap();
    let with_two = run_extraction(54_321, 30, 2).unwrap();
    let with_many = run_extraction(54_321, 30, 7).unwrap();
    assert_eq!(with_one, with_two);
    assert_eq!(with_one, with_many);
    assert_eq!(with_one.len(), 1811);
}

#[test]
fn extraction_is_idempotent() {
    let first = run_extraction(10_000, 24, 4).unwrap();
    let second = run_extraction(10_000, 24, 4).unwrap();
    assert_eq!(first, second);
}

#[test]
fn empty_video_yields_empty_track() {
    assert_eq!(run_extraction(0, 30, 4), Ok(vec![]));
}

#[test]
fn video_shorter_than_one_second_yields_one_color() {
    let track = run_extraction(20, 30, 4).unwrap();
    assert_eq!(track, vec![frame_color(0)]);
}

#[test]
fn track_holds_colors_of_sampled_frames() {
    let track = run_extraction(95, 30, 1).unwrap();
    let expected: Vec<Rgb8> = [0u64, 30, 60, 90].iter().map(|&i| frame_color(i)).collect();
    assert_eq!(track, expected);
}

#[test]
fn short_video_scenario_single_chunk() {
    let chunks = plan(125, 25, 4);
    assert_eq!(chunks.len(), 1);
    assert_eq!((chunks[0].start, chunks[0].end), (0, 125));
    let track = run_extraction(125, 25, 4).unwrap();
    let expected: Vec<Rgb8> = [0u64, 25, 50, 75, 100]
        .iter()
        .map(|&i| frame_color(i))
        .collect();
    assert_eq!(track, expected);
}

#[test]
fn decode_failure_on_later_chunk_fails_extraction() {
    let mut results = worker_results(54_000, 30, 4);
    assert!(results.len() > 2);
    let failed = ExtractError::Decode {
        start: 13_500,
        end: 27_000,
    };
    results[1] = Err(failed);
    let merged = collect_results(&results);
    assert_eq!(merged, Err(failed));
}

#[test]
fn stats_reject_unusable_frame_rate() {
    assert_eq!(
        VideoStats::new(0, 100),
        Err(ExtractError::Config {
            fps: 0,
            frame_count: 100
        })
    );
    assert_eq!(
        VideoStats::new(-30, 100),
        Err(ExtractError::Config {
            fps: -30,
            frame_count: 100
        })
    );
    assert_eq!(
        VideoStats::new(30, -1),
        Err(ExtractError::Config {
            fps: 30,
            frame_count: -1
        })
    );
    assert_eq!(
        VideoStats::new(30, 100),
        Ok(VideoStats {
            fps: 30,
            frame_count: 100
        })
    );
}
