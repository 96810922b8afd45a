//! Recording and playback of racing-simulator telemetry.
//!
//! A capture session polls a live simulator's shared-memory regions,
//! packs each snapshot into a byte payload, and appends it to a
//! compressed, versioned container stream.  A playback session reads the
//! stream back and reconstructs the exact memory layout the simulator's
//! consumers expect.

pub mod capture;
pub mod compress;
pub mod encoding;
pub mod io;
pub mod playback;
pub mod shm;
pub mod sims;
pub mod traits;

pub use traits::Connector;
pub use traits::Player;
pub use traits::Sleeper;
