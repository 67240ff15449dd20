//! Core of a daemon that watches removable storage and runs one cancellable
//! backup job per attached, backup-enabled filesystem.
//!
//! The modules here hold the decision logic of the daemon: classifying raw
//! device-bus notifications into events, resolving a per-volume configuration,
//! the job state machine, and the dispatcher that owns the device-to-job
//! registry. All I/O (the device bus, mounting, reading config files, task
//! spawning) lives outside this library and drives these state machines with
//! plain values.

pub mod backup;
pub mod config;
pub mod dispatcher;
pub mod fs_detect;
