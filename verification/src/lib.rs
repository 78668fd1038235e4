//! Core of a terminal file browser: an ordered catalog of directory
//! entries, selection marks, a soft-delete transaction that moves files
//! and whole subtrees into a trash area, a restore pass that copies them
//! back with collision-safe names, and the scroll-window arithmetic that
//! maps a long entry list onto a fixed-height viewport.
//!
//! Filesystem reads and writes are not performed here: the planners below
//! turn one delete or paste request into an explicit list of operations
//! ([`ops::FsOp`]) whose shape is verified, and a thin unverified driver
//! executes them in order, stopping at the first failure.

pub mod error;
pub mod item;
pub mod naming;
pub mod ops;
pub mod order;
pub mod state;
pub mod window;
