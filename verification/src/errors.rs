//! The failure taxonomy of the pipeline. Every failure surfaces to the
//! caller of the extraction entry point as one of these values; none is
//! retried or silently corrected.

use vstd::prelude::*;

verus! {

/// Why an extraction run failed as a whole.
#[derive(Clone, Copy, Debug, PartialEq, Eq, Structural)]
pub enum ExtractError {
    /// The decoder reported an unusable frame rate or frame count.
    Config { fps: i64, frame_count: i64 },
    /// Opening, seeking or reading failed somewhere in the chunk
    /// `[start, end)`; the whole run fails, no partial track is kept.
    Decode { start: u64, end: u64 },
    /// Color computation failed on the decoded frame at `index`.
    Extraction { index: u64 },
    /// A duplicate or out-of-range frame index reached the assembler:
    /// an internal coordination bug, always fatal.
    AssemblyInvariant { index: u64 },
}

} // verus!
