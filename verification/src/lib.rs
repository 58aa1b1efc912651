//! Reconciliation engine for locally installed packages.
//!
//! The library parses a package manager's textual inventory into structured
//! records, classifies each installed package against the latest version
//! published by a registry, and decides which packages an upgrade pass may
//! touch. All surrounding I/O (running the package manager, HTTP requests,
//! rendering) lives outside the library and hands it plain values.
#![verifier::loop_isolation(false)]

pub mod args;
pub mod inventory;
pub mod reconcile;
pub mod render;
pub mod report;
pub mod status;
pub mod text;
pub mod upgrade;
pub mod version;
