//! Rows of the catalog and the plain values they are made of.

pub mod repo_branch;
pub mod repo_commit;
pub mod repo_file;
pub mod repository;
pub mod types;
