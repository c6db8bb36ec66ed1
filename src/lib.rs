//! Incremental file-set journaling: the known set of files is never stored,
//! it is rebuilt by replaying append-only journal documents, and each run
//! records the difference between that set and a live listing as a new
//! document.

pub mod text;
pub mod order;
pub mod journal;
pub mod known;
pub mod delta;
pub mod laws;
pub mod store;
pub mod kinds;
