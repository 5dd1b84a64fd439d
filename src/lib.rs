//! Verification scheduling core of a per-user paper relevance engine:
//! per-user verification counters, a fair dispatcher, a debounced update
//! merger with set-diff planning, result fan-out and stream events.

pub mod diff;
pub mod error;
pub mod ids;
pub mod listing;
pub mod lock;
pub mod page;
pub mod rss;
pub mod scheduler;
pub mod stream;
pub mod update_merge;
pub mod user;
pub mod verification;
pub mod verify_state;
pub mod worker;
