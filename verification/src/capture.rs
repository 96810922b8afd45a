//! The capture control loop's decisions.
//!
//! The loop itself — mapping the source's regions, timing the ticks,
//! sleeping — lives with the embedding application.  What each tick
//! decides is made here: whether to save a frame, keep polling, or end
//! the session, and with which reason.

use vstd::prelude::*;

verus! {

use crate::io::{frame_fits, spec_frame_record, IOError, Saver};

/// Consecutive empty polls tolerated before the source counts as gone.
pub const MAX_NO_DATA: u32 = 20;

/// Why a recording ended normally.
#[derive(Debug, Clone, Copy, PartialEq, Eq, Structural)]
pub enum RecordingFinished {
    /// The source stopped producing fresh data.
    SimDisconnected,
    /// Cancellation was requested from outside.
    QuitRequested,
}

/// A failure while recording.
#[derive(Debug)]
pub enum RecordingError {
    /// The codec rejected a frame.
    SavingFrameFailed(IOError),
}

/// A failure while setting a recording up or tearing it down.
#[derive(Debug)]
pub enum DumpError {
    /// The output file could not be created.
    CreateFileError(String),
    /// Writing the container header failed.
    SaverInitError(IOError),
    /// The final flush failed.
    FlushFailed(IOError),
}

/// Everything a dump session can fail with.
#[derive(Debug)]
pub enum Error {
    Recording(RecordingError),
    Dump(DumpError),
    /// A connected source reported an identifier that is not text.
    InvalidSimId,
}

/// What one capture tick decided.
#[derive(Debug, Clone, Copy, PartialEq, Eq, Structural)]
pub enum TickOutcome {
    /// Keep polling.
    Continue,
    /// End the session for the given reason.
    Finished(RecordingFinished),
}

/// The mutable state of a running recording: how many polls in a row
/// came back empty.
pub struct RecordState {
    pub no_data_count: u32,
}

impl RecordState {
    pub fn new() -> (s: RecordState)
        ensures
            s.no_data_count == 0,
    {
        RecordState { no_data_count: 0 }
    }

    /// One capture tick.
    ///
    /// A requested cancellation ends the session at once.  Fresh data
    /// resets the empty-poll counter and goes to the codec.  An empty
    /// poll raises the counter; once more than `MAX_NO_DATA` polls in a
    /// row came back empty the source counts as disconnected — a normal
    /// ending, not an error.
    pub fn tick(&mut self, saver: &mut Saver, quit: bool, data: Option<Vec<u8>>) -> (r: Result<
        TickOutcome,
        RecordingError,
    >)
        ensures
            final(saver).fps_val() == old(saver).fps_val(),
            final(saver).id_val() == old(saver).id_val(),
            quit ==> (r matches Ok(TickOutcome::Finished(RecordingFinished::QuitRequested))
                && *final(self) == *old(self) && *final(saver) == *old(saver)),
            !quit ==> match data {
                Some(d) => {
                    &&& final(self).no_data_count == 0
                    &&& if frame_fits(d@) {
                        &&& r matches Ok(TickOutcome::Continue)
                        &&& final(saver).stream() == old(saver).stream() + spec_frame_record(d@)
                        &&& final(saver).frames() == old(saver).frames().push(d@)
                        &&& old(saver).wf() ==> final(saver).wf()
                    } else {
                        &&& r matches Err(RecordingError::SavingFrameFailed(IOError::Io))
                        &&& *final(saver) == *old(saver)
                    }
                },
                None => {
                    &&& *final(saver) == *old(saver)
                    &&& final(self).no_data_count == if old(self).no_data_count <= MAX_NO_DATA {
                        old(self).no_data_count + 1
                    } else {
                        old(self).no_data_count as int
                    }
                    &&& (r matches Ok(TickOutcome::Finished(RecordingFinished::SimDisconnected))
                        <==> old(self).no_data_count >= MAX_NO_DATA)
                    &&& old(self).no_data_count < MAX_NO_DATA ==> r matches Ok(
                        TickOutcome::Continue,
                    )
                },
            },
    {
        if quit {
            return Ok(TickOutcome::Finished(RecordingFinished::QuitRequested));
        }
        match data {
            Some(d) => {
                self.no_data_count = 0;
                match saver.save(d.as_slice()) {
                    Ok(()) => Ok(TickOutcome::Continue),
                    Err(e) => Err(RecordingError::SavingFrameFailed(e)),
                }
            },
            None => {
                if self.no_data_count <= MAX_NO_DATA {
                    self.no_data_count = self.no_data_count + 1;
                }
                if self.no_data_count > MAX_NO_DATA {
                    Ok(TickOutcome::Finished(RecordingFinished::SimDisconnected))
                } else {
                    Ok(TickOutcome::Continue)
                }
            },
        }
    }
}

} // verus!
