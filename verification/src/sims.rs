//! Telemetry layout models, one per supported simulator.
//!
//! Each model converts between the raw memory layout the simulator
//! exposes and the byte payload that goes into a container frame.

use vstd::prelude::*;

pub mod assettocorsa;
pub mod iracing;

verus! {

/// Why a frame payload could not be decoded into a snapshot.
#[derive(Clone, Copy, Debug, PartialEq, Eq, Structural)]
pub enum LayoutError {
    /// The payload is shorter than the minimum well-formed snapshot.
    TooShort,
    /// A snapshot field that playback would use as a buffer count or a
    /// write offset is out of range for the destination layout.
    Invalid,
}

/// One write into a shared-memory region: `bytes` placed at `offset`.
///
/// Playback computes these in verified code; the caller that owns the
/// region performs them.
pub struct WriteOp {
    pub offset: u64,
    pub bytes: Vec<u8>,
}

} // verus!
