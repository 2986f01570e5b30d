use video_colors::coordinator::{collect_results, worker_count};
use video_colors::errors::ExtractError;
use video_colors::types::{Rgb8, SampledColor};

fn sample(index: u64, level: u8) -> SampledColor {
    SampledColor {
        index,
        color: Rgb8 {
            r: level,
            g: level,
            b: level,
        },
    }
}

#[test]
fn worker_count_reserves_one_context() {
    assert_eq!(worker_count(1), 1);
    assert_eq!(worker_count(2), 1);
    assert_eq!(worker_count(3), 2);
    assert_eq!(worker_count(8), 7);
}

#[test]
fn collect_concatenates_in_chunk_order() {
    let results = vec![
        Ok(vec![sample(0, 1), sample(30, 2)]),
        Ok(vec![]),
        Ok(vec![sample(60, 3)]),
    ];
    let merged = collect_results(&results).unwrap();
    assert_eq!(merged, vec![sample(0, 1), sample(30, 2), sample(60, 3)]);
}

#[test]
fn failure_on_later_chunk_fails_the_run() {
    let failure = ExtractError::Decode { start: 50, end: 100 };
    let results = vec![Ok(vec![sample(0, 1), sample(30, 2)]), Err(failure)];
    assert_eq!(collect_results(&results), Err(failure));
}

#[test]
fn first_failure_is_reported() {
    let first = ExtractError::Decode { start: 10, end: 20 };
    let second = ExtractError::Extraction { index: 25 };
    let results = vec![Ok(vec![sample(0, 1)]), Err(first), Err(second)];
    assert_eq!(collect_results(&results), Err(first));
}

#[test]
fn collect_of_no_chunks_is_empty() {
    let results: Vec<Result<Vec<SampledColor>, ExtractError>> = vec![];
    assert_eq!(collect_results(&results), Ok(vec![]));
}
