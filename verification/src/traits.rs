//! The capability surfaces capture and playback drive.
//!
//! Capture polls anything that can `connect`, `update` and
//! `disconnect`; playback drives anything that can `initialize`,
//! `update` and `stop`.  The embedding application implements these for
//! each simulator over its shared-memory regions.

use vstd::prelude::*;

verus! {

use crate::playback::PlayerError;
use crate::shm::SharedMemoryError;

/// Waits out the remainder of a tick.
pub trait Sleeper {
    fn sleep_ms(&self, ms: u64);
}

/// A live telemetry source being recorded.
pub trait Connector {
    /// Tries to attach to the source; true when its regions are mapped
    /// and the source reports itself live.
    fn connect(&mut self) -> bool;

    /// Releases the source's regions.
    fn disconnect(&mut self);

    /// Polls once: the serialized snapshot, or `None` when the source
    /// has nothing fresh.
    fn update(&mut self) -> Option<Vec<u8>>;

    /// The 4-byte identifier recordings of this source carry.
    fn id(&self) -> [u8; 4];
}

/// A playback destination reconstructing a source's memory layout.
pub trait Player {
    /// Creates the destination regions and auxiliary handles.
    fn initialize(&mut self) -> Result<(), SharedMemoryError>;

    /// Writes one frame's snapshot into the destination regions.
    fn update(&mut self, data: &[u8]) -> Result<(), PlayerError>;

    /// Marks the destination as off and releases it.  Safe to call even
    /// if initialization never ran or partially failed.
    fn stop(&mut self);
}

} // verus!
