//! A snapshot-based remote backup engine: the record of what each snapshot
//! holds, the rules by which a run decides what to fetch and what to mark as
//! gone, the plan by which a past snapshot is put together again, and the
//! schedule by which hosts fall due.

pub mod action;
pub mod backup;
pub mod compiler;
pub mod config;
pub mod logging;
pub mod path;
pub mod record;
pub mod scheduler;
pub mod snapshot;
pub mod table;
pub mod traits;
pub mod utils;
