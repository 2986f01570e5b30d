//! Verified core of a per-second video color-signature pipeline.
//!
//! The library plans how a frame range is split into contiguous chunks,
//! decides which frame indices are sampled (one per second of footage),
//! pairs decoded colors with their frame indices, merges per-chunk worker
//! results, and assembles the final chronologically ordered color track.
//! Decoding, parallel dispatch and serialization are left to the caller;
//! everything the caller hands back flows through the verified functions
//! here, whose contracts pin down the exact output for every input.

pub mod assembler;
pub mod coordinator;
pub mod errors;
pub mod pipeline;
pub mod planner;
pub mod sampling;
pub mod types;
pub mod worker;
