//! Core engine of a CLI that manages the installation of a native-plugin
//! bridge: a persisted set of plugin directories with idempotent mutation and
//! a canonical on-disk document, a cycle-safe scanner over directory trees,
//! per-plugin classification of the companion bridge artifact, resolution of
//! the bridge library from an override or a probe list, and a status report
//! that isolates per-directory failures.
//!
//! Everything here is pure computation over plain values; reading and
//! writing the filesystem is the caller's part, handed in as data.

pub mod order;
pub mod path;
pub mod config;
pub mod codec;
pub mod fs;
pub mod validate;
pub mod locator;
pub mod report;
