//! Verified core of an SSH automation client.
//!
//! The library holds what the client decides and computes: how its command
//! line and configuration are read, what a run consists of, the formats on
//! its control socket and proxies, and how sessions, transfers and forwards
//! go about step by step. Reading, writing and connecting are left to the
//! program around it, which hands in plain values and carries out what comes
//! back.

pub mod address;
pub mod cli;
pub mod config;
pub mod control;
pub mod delta;
pub mod escape;
pub mod exec;
pub mod globs;
pub mod includes;
pub mod number;
pub mod paths;
pub mod plan;
pub mod proxy;
pub mod query;
pub mod relay;
pub mod report;
pub mod ssh;
pub mod sync;
pub mod text;
pub mod trees;
pub mod types;
pub mod walk;
