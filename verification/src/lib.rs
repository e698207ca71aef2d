//! Line-count fence: walks a set of files, counts lines per file, and reports
//! the files that exceed a configured limit.
//!
//! The library holds the check engine: configuration parsing and compilation,
//! the rule decision logic, the streaming line counter, the mtime-keyed
//! result cache, and the report builder. File, terminal, and subprocess I/O
//! live outside the library and hand it plain values.

pub mod baseline;
pub mod cache;
pub mod check;
pub mod config;
pub mod count;
pub mod decide;
pub mod edit;
pub mod format;
pub mod git;
pub mod globs;
pub mod initcfg;
pub mod inputs;
pub mod parse;
pub mod raw;
pub mod report;
pub mod strutil;
pub mod walk;
