//! Lockstep multi-core video playback: container framing, frame decoding,
//! per-core band partitioning, the barrier protocol that keeps the cores on
//! the same frame, and the block copier that moves a band onto the display
//! surface.

pub mod barrier;
pub mod buffer;
pub mod codec;
pub mod container;
pub mod copier;
pub mod decoder;
pub mod diagnostics;
pub mod error;
pub mod frames;
pub mod partition;
pub mod playback;
pub mod simulation;
pub mod surface;
pub mod sync;
pub mod text;
