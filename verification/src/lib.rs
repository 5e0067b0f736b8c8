//! A personal work-time ledger: jobs are recorded time intervals carrying a
//! message and tags; the library infers one command from loosely-constrained
//! inputs, resolves tag-scoped configuration overrides, aggregates hours and
//! pay over job lists, and renders calendar reports.

pub mod change;
pub mod clock;
pub mod command;
pub mod configuration;
pub mod date_time;
pub mod duration;
pub mod error;
pub mod format;
pub mod job;
pub mod job_list;
pub mod partial_date_time;
pub mod reports;
pub mod tag_set;
