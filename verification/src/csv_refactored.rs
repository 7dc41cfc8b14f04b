//! The refactored import path: the same types and validation as `csv`, with
//! the queue insert reporting store errors to its caller.

pub use crate::csv::{validate_username, LoadResult, QueueItem};

use vstd::prelude::*;

verus! {

/// The answer of inserting a username into the queue, given the history
/// lookup (`None` when it failed) and the rows the insert affected (`None`
/// when it failed or was not made): `Some(true)` when newly queued,
/// `Some(false)` when already unfollowed or already queued, `None` on a
/// store error.
pub open spec fn insert_result(in_history: Option<bool>, rows_inserted: Option<u64>) -> Option<bool> {
    match in_history {
        None => None,
        Some(true) => Some(false),
        Some(false) => match rows_inserted {
            Some(rows) => Some(rows > 0),
            None => None,
        },
    }
}

/// Whether the insert is made after the history lookup.
pub fn insert_needed(in_history: Option<bool>) -> (r: bool)
    ensures
        r == (in_history == Some(false)),
{
    match in_history {
        Some(false) => true,
        _ => false,
    }
}

/// Insert a username into the queue unless it is already in the history.
pub fn insert_outcome(in_history: Option<bool>, rows_inserted: Option<u64>) -> (r: Option<bool>)
    ensures
        r == insert_result(in_history, rows_inserted),
{
    match in_history {
        None => None,
        Some(true) => Some(false),
        Some(false) => match rows_inserted {
            Some(rows) => Some(rows > 0),
            None => None,
        },
    }
}

} // verus!
