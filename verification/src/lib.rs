//! Žinoma: an incremental build runner.
//!
//! This crate holds the decision logic of the build runner: the model of the
//! configuration files, the resolution of targets and of their dependency
//! graph, the incremental-build bookkeeping and the state machines of the
//! target actors. Everything here is verified with Verus.

pub mod text;
pub mod paths;
pub mod domain;
pub mod target;
pub mod config;
pub mod engine;
pub mod work_dir;
pub mod incremental;
pub mod checksum;
pub mod async_utils;
pub mod watcher;
