//! Integer settings of the application.
use vstd::prelude::*;

verus! {

/// Number of days of history loaded at start.
pub const INITIAL_LOAD_DAYS: i64 = 15;

/// Number of frame times the average is taken over.
pub const AVERAGE_FRAME_HISTORY_SIZE: usize = 60;

/// Largest number of status messages kept.
pub const STATUS_MESSAGE_MAX_COUNT: usize = 8;

/// Seconds a status message stays on screen.
pub const STATUS_MESSAGE_LIFETIME_SECONDS: u64 = 5;

/// Seconds the list of status messages stays on screen after the last message.
pub const STATUS_MESSAGE_HIDE_TIME: u64 = 5;

/// Version of the aggregation scheme, as the Unix time of its creation; aggregated
/// data stored under another version is rebuilt.
pub const AGGREGATION_VERSION: i64 = 1_735_689_600;

} // verus!
