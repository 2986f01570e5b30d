use video_colors::assembler::{assemble, sort_samples};
use video_colors::errors::ExtractError;
use video_colors::types::{Rgb8, SampledColor};

fn sample(index: u64, level: u8) -> SampledColor {
    SampledColor {
        index,
        color: Rgb8 {
            r: level,
            g: level,
            b: level,
        },
    }
}

fn gray(level: u8) -> Rgb8 {
    Rgb8 {
        r: level,
        g: level,
        b: level,
    }
}

#[test]
fn sort_restores_index_order() {
    let samples = vec![sample(60, 3), sample(0, 1), sample(30, 2)];
    let sorted = sort_samples(&samples).unwrap();
    assert_eq!(sorted, vec![sample(0, 1), sample(30, 2), sample(60, 3)]);
}

#[test]
fn sort_rejects_duplicate_index() {
    let samples = vec![sample(0, 1), sample(30, 2), sample(30, 3)];
    assert_eq!(
        sort_samples(&samples),
        Err(ExtractError::AssemblyInvariant { index: 30 })
    );
}

#[test]
fn assemble_orders_out_of_order_arrivals() {
    let samples = vec![sample(60, 3), sample(0, 1), sample(90, 4), sample(30, 2)];
    let track = assemble(&samples, 95).unwrap();
    assert_eq!(track, vec![gray(1), gray(2), gray(3), gray(4)]);
}

#[test]
fn assemble_rejects_duplicate_index() {
    let samples = vec![sample(0, 1), sample(0, 2)];
    match assemble(&samples, 95) {
        Err(ExtractError::AssemblyInvariant { index }) => assert_eq!(index, 0),
        other => panic!("expected an assembly-invariant failure, got {:?}", other),
    }
}

#[test]
fn assemble_rejects_out_of_range_index() {
    let samples = vec![sample(0, 1), sample(120, 2)];
    assert_eq!(
        assemble(&samples, 95),
        Err(ExtractError::AssemblyInvariant { index: 120 })
    );
}

#[test]
fn assemble_of_no_samples_is_empty() {
    let samples = vec![];
    assert_eq!(assemble(&samples, 0), Ok(vec![]));
}
