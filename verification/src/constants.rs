//! Configuration constants for the unfollow process.

use vstd::prelude::*;

verus! {

/// Time to wait for page navigation (in seconds).
pub const PAGE_LOAD_WAIT_SECS: u64 = 3;

/// Time to wait for script execution (in seconds).
pub const SCRIPT_EXECUTION_WAIT_SECS: u64 = 3;

/// Default break time after the session limit (in minutes).
pub const SESSION_BREAK_MINUTES: u64 = 30;

/// Average delay for ETA calculations (in seconds).
pub const AVERAGE_DELAY_SECS: u64 = 45;

/// Maximum log entries kept in memory.
pub const MAX_LOG_ENTRIES: usize = 100;

/// Default daily limit.
pub const DEFAULT_DAILY_LIMIT: u32 = 50;

/// Default hourly limit.
pub const DEFAULT_HOURLY_LIMIT: u32 = 30;

/// Default session limit.
pub const DEFAULT_SESSION_LIMIT: u32 = 25;

/// Default minimum delay between unfollows (in seconds).
pub const DEFAULT_MIN_DELAY: u32 = 30;

/// Default maximum delay between unfollows (in seconds).
pub const DEFAULT_MAX_DELAY: u32 = 60;

/// Maximum allowed daily limit.
pub const MAX_DAILY_LIMIT: u32 = 100;

} // verus!
