//! Errors of the shared-memory access layer.
//!
//! The OS-level named mappings and event handles are owned by the
//! embedding application; the library defines how their failures are
//! reported, so capture and playback can tell a missing source from a
//! broken one.

use vstd::prelude::*;

verus! {

#[derive(Debug, Clone)]
pub enum SharedMemoryError {
    /// An existing named mapping could not be opened: not found or
    /// inaccessible.
    OpenFailed { name: String },
    /// A new named mapping could not be created.
    CreateFailed { name: String },
    /// A mapping exists but no view of it could be mapped.
    MapFailed { name: String },
    /// A named synchronization event could not be created.
    EventCreateFailed { name: String },
}

} // verus!
