//! A sweeper for a scratch directory: what is in it is deleted once its time
//! to live has passed.
//!
//! What is past its time to live when the directory is scanned is deleted on
//! the spot. For everything else a job that deletes it later is queued with
//! `qsub`, once: what is queued is recorded in the directory itself.
//!
//! This crate decides; it does not touch the file system, the clock or any
//! other program. Whoever uses it does what it asks for and tells it what
//! came of that.

use vstd::prelude::*;

pub mod calendar;
pub mod cancel;
pub mod cli;
pub mod daemon;
pub mod entries;
pub mod paths;
pub mod qsub;
pub mod scan;
pub mod setup;
pub mod state;
pub mod sweep;
pub mod sweep_laws;
pub mod text;
pub mod time;

pub use qsub::{submit_delayed_rm, QsubError, QsubOutcome};
pub use scan::{ScanReport, ScanStats};
pub use setup::{ensure_root, resolve_root};
pub use state::{State, StateEntry};

verus! {

/// Default time to live: 24 hours, in minutes.
pub const DEFAULT_TTL_MIN: u64 = 1440;

/// Default time between two scans of a daemon, in seconds.
pub const DEFAULT_INTERVAL_SEC: u64 = 60;

/// Subdirectory inside the swept root that holds the state. Never swept.
pub const STATE_DIR_NAME: &'static str = ".bomb-ttl";

/// State file name inside [`STATE_DIR_NAME`].
pub const STATE_FILE_NAME: &'static str = "state.json";

} // verus!
