//! Incremental mirroring of Git repositories into a full-text search index.
//!
//! The crate keeps a catalog of what has been indexed, plans the commits and
//! files that a run has to ship, and drives the run step by step while the host
//! program performs the Git, storage and network operations it asks for.

pub mod catalog;
pub mod commands;
pub mod config;
pub mod db;
pub mod digest;
pub mod git;
pub mod guarantees;
pub mod index;
pub mod models;
pub mod repo;
pub mod result;
pub mod session;
