//! The planning, decision and reporting logic of a small suite of file tools:
//! `wcp` (copy) and `wmv` (move).
//!
//! Nothing in this library touches a file system. Every function works on
//! plain values: paths as bytes, what was observed of a file, what an operation
//! answered. The programs around it perform the operations it asks for.

pub mod backup;
pub mod bytes;
pub mod choice_laws;
pub mod cli;
pub mod cli_laws;
pub mod copy;
pub mod copy_laws;
pub mod disk;
pub mod disk_laws;
pub mod engine;
pub mod engine_laws;
pub mod exclude;
pub mod making_laws;
pub mod messages;
pub mod move_laws;
pub mod mvops;
pub mod options;
pub mod path;
pub mod place_laws;
pub mod plan;
pub mod plan_laws;
pub mod progress;
pub mod rate_laws;
pub mod report;
pub mod report_laws;
pub mod run;
pub mod sharing_laws;
pub mod source_laws;
pub mod stats;
pub mod temporaries;
pub mod text;
pub mod text_laws;
pub mod transfer;
pub mod utils;
pub mod work_laws;
pub mod xattr;
