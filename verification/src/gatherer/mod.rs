//! The gathering-yield subsystem: its settings, the table-dump decision, the
//! once-per-class report of unknown catch classes, and the record of what it
//! changed.
pub mod catch;
pub mod config;
pub mod dump;
pub mod hook;
pub mod load;
pub mod reapply;
pub mod remember;
