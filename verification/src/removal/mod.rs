//! The commands that remove: what they address, what they select, and what they report.
pub mod age;
pub mod dirs;
pub mod engine;
pub mod filters;
pub mod flow;
pub mod medium;
pub mod operation;
pub mod plan;
pub mod reclaim;
pub mod remove;
pub mod report;
pub mod selection;
pub mod target;
