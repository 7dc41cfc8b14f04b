//! Verified core of the XUnfollow desktop app and of the procgen-plants
//! L-system garden: text handling, rule rewriting, rate limiting, queue
//! bookkeeping and the unfollow session state machine.

pub mod text;
pub mod utils;
pub mod lsystem;
pub mod csv;
pub mod settings;
pub mod rate_limiter;
pub mod state;
pub mod unfollow;
pub mod rng;
pub mod species;
pub mod world;
pub mod constants;
pub mod csv_refactored;
