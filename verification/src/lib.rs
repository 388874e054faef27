//! The workspace core of an offline-first file explorer: the workspace
//! state and its commands, the rules that every filesystem operation
//! follows, the tree that the explorer shows, and the debouncing of
//! filesystem notifications. Filesystem access itself happens outside this
//! library, which decides what to do and records what happened.

pub mod app_core;
pub mod error;
pub mod file_ops;
pub mod fs_adapter;
pub mod names;
pub mod paths;
pub mod persistence;
pub mod text;
pub mod tree;
pub mod watcher;
