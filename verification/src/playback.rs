//! The playback control loop's decisions.
//!
//! The loop itself — reading the file, timing the ticks, writing into
//! the destination regions — lives with the embedding application.
//! What it decides is made here: which layout model a stream's source
//! identifier selects, and how a playback session can end or fail.

use vstd::prelude::*;

verus! {

use crate::io::IOError;
use crate::shm::SharedMemoryError;
use crate::sims::{assettocorsa, iracing, LayoutError};

/// A failure while playing a stream back.
#[derive(Debug)]
pub enum PlayError {
    /// The input file could not be opened.
    FailedToOpenFile(String),
    /// The container header could not be read or was rejected.
    FailedToReadHeader(IOError),
    /// The stream's source identifier matches no known layout model.
    UnknownSimError(String),
    /// The destination regions could not be set up.
    FailedToInitializePlayer(String),
    /// Reading the next frame failed.
    FailedToLoadFrame(IOError),
    /// Writing a frame into the destination regions failed.
    FailedToUpdatePlayer(String),
}

/// How a playback session ended normally.
#[derive(Debug, Clone, Copy, PartialEq, Eq, Structural)]
pub enum PlayResult {
    /// The stream ended cleanly at a frame boundary.
    EndOfFile,
    /// Cancellation was requested from outside.
    QuitRequested,
}

/// A failure inside a playback sink.
#[derive(Debug)]
pub enum PlayerError {
    /// `update` was called before `initialize`.
    NotInitialized,
    /// The frame payload could not be decoded for this layout.
    BadFrame(LayoutError),
    /// A destination region or event could not be created.
    Resource(SharedMemoryError),
    /// A write would fall outside the destination region.
    OutOfRange,
}

/// The telemetry layout models a stream can declare.
#[derive(Debug, Clone, Copy, PartialEq, Eq, Structural)]
pub enum SimKind {
    IRacing,
    AssettoCorsa,
}

/// Selects the layout model for a stream's 4-byte source identifier;
/// `None` exactly when the identifier matches no known model.
pub fn identify_sim(id: [u8; 4]) -> (r: Option<SimKind>)
    ensures
        r == Some(SimKind::IRacing) <==> id@ == iracing::spec_id(),
        r == Some(SimKind::AssettoCorsa) <==> id@ == assettocorsa::spec_id(),
        r is None <==> id@ != iracing::spec_id() && id@ != assettocorsa::spec_id(),
{
    proof {
        assert(id@.len() == 4);
    }
    if id[0] == 105 && id[1] == 114 && id[2] == 97 && id[3] == 99 {
        proof {
            assert(id@ =~= iracing::spec_id());
        }
        Some(SimKind::IRacing)
    } else if id[0] == 97 && id[1] == 99 && id[2] == 115 && id[3] == 97 {
        proof {
            assert(id@ =~= assettocorsa::spec_id());
        }
        Some(SimKind::AssettoCorsa)
    } else {
        None
    }
}

} // verus!
