//! Plain data carried through the pipeline: colors, sampled pairs, and the
//! immutable per-video statistics snapshot.

use vstd::prelude::*;

use crate::errors::ExtractError;

verus! {

/// One representative color: three 8-bit channels, red, green, blue.
#[derive(Clone, Copy, Debug, PartialEq, Eq, Structural)]
pub struct Rgb8 {
    pub r: u8,
    pub g: u8,
    pub b: u8,
}

/// A color paired with the frame index it was decoded at.
#[derive(Clone, Copy, Debug, PartialEq, Eq, Structural)]
pub struct SampledColor {
    pub index: u64,
    pub color: Rgb8,
}

/// Immutable statistics of one video, taken once before any work starts.
#[derive(Clone, Copy, Debug, PartialEq, Eq, Structural)]
pub struct VideoStats {
    pub fps: u64,
    pub frame_count: u64,
}

impl VideoStats {
    /// A usable snapshot has a positive frame rate: it is used as a modulus.
    pub open spec fn wf(self) -> bool {
        self.fps >= 1
    }

    /// Validates the raw numbers a decoder reported (already truncated to
    /// integers by the caller). A non-positive frame rate or a negative
    /// frame count is a configuration error, rejected before any work.
    pub fn new(fps: i64, frame_count: i64) -> (r: Result<VideoStats, ExtractError>)
        ensures
            r is Ok <==> (fps >= 1 && frame_count >= 0),
            r is Ok ==> r->Ok_0 == (VideoStats { fps: fps as u64, frame_count: frame_count as u64 })
                && r->Ok_0.wf(),
            r is Err ==> r->Err_0 == (ExtractError::Config { fps, frame_count }),
    {
        if fps >= 1 && frame_count >= 0 {
            Ok(VideoStats { fps: fps as u64, frame_count: frame_count as u64 })
        } else {
            Err(ExtractError::Config { fps, frame_count })
        }
    }
}

} // verus!
