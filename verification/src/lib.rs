#![verifier::loop_isolation(false)]

//! Import and reconciliation engine for a ROM-collection catalog.
//!
//! A DAT document describes a games system: its games, their rom files and
//! optional header-stripping rules. This crate merges such a description into
//! an in-memory catalog, resolving each game's place in a parent/clone/bios
//! hierarchy, reconciling declared roms against existing rows, collecting
//! romfile ids orphaned by the reconciliation, and recomputing completion
//! under the system's merge strategy. Persistent storage, XML deserialization
//! and file hashing are collaborators that live outside this crate.

pub mod catalog;
pub mod completion;
pub mod games;
pub mod import;
pub mod model;
pub mod reconcile;
pub mod regions;
pub mod text;
