//! The error type shared by every fallible operation of the crate.

use vstd::prelude::*;

verus! {

/// Errors raised by the catalog while reading its own rows.
#[derive(Debug, Clone, PartialEq, Eq)]
pub enum DbError {
    EnumParseError(String),
}

/// Everything that can end a run early.
///
/// Variants that stem from a collaborator (storage, Git, the search service,
/// the file system) carry the collaborator's message as text.
#[derive(Debug, Clone, PartialEq, Eq)]
pub enum RepoError {
    InvalidArgs(String),
    EnumParseError(String),
    DbError(DbError),
    SqlError(String),
    NoRemote,
    NoElasticSearch,
    NotCloned,
    PathUnicodeError,
    StringUnicodeError,
    GitError(String),
    InvalidState(String),
    FromUtf8Error,
    UrlParseError(String),
    ElasticSearchError(String),
    ParseIntError(String),
    NoTreeEntryName,
    HeadRefHasNoDirectTarget,
    IoError(String),
    BranchNotFound,
}

pub type RepoResult<T> = Result<T, RepoError>;

/// The kind of an error, without what it carries.
#[derive(Debug, Clone, Copy, PartialEq, Eq, Structural)]
pub enum ErrorKind {
    InvalidArgs,
    EnumParseError,
    DbError,
    SqlError,
    NoRemote,
    NoElasticSearch,
    NotCloned,
    PathUnicodeError,
    StringUnicodeError,
    GitError,
    InvalidState,
    FromUtf8Error,
    UrlParseError,
    ElasticSearchError,
    ParseIntError,
    NoTreeEntryName,
    HeadRefHasNoDirectTarget,
    IoError,
    BranchNotFound,
}

impl RepoError {
    /// The kind of the error.
    pub open spec fn kind(self) -> ErrorKind {
        match self {
            RepoError::InvalidArgs(_) => ErrorKind::InvalidArgs,
            RepoError::EnumParseError(_) => ErrorKind::EnumParseError,
            RepoError::DbError(_) => ErrorKind::DbError,
            RepoError::SqlError(_) => ErrorKind::SqlError,
            RepoError::NoRemote => ErrorKind::NoRemote,
            RepoError::NoElasticSearch => ErrorKind::NoElasticSearch,
            RepoError::NotCloned => ErrorKind::NotCloned,
            RepoError::PathUnicodeError => ErrorKind::PathUnicodeError,
            RepoError::StringUnicodeError => ErrorKind::StringUnicodeError,
            RepoError::GitError(_) => ErrorKind::GitError,
            RepoError::InvalidState(_) => ErrorKind::InvalidState,
            RepoError::FromUtf8Error => ErrorKind::FromUtf8Error,
            RepoError::UrlParseError(_) => ErrorKind::UrlParseError,
            RepoError::ElasticSearchError(_) => ErrorKind::ElasticSearchError,
            RepoError::ParseIntError(_) => ErrorKind::ParseIntError,
            RepoError::NoTreeEntryName => ErrorKind::NoTreeEntryName,
            RepoError::HeadRefHasNoDirectTarget => ErrorKind::HeadRefHasNoDirectTarget,
            RepoError::IoError(_) => ErrorKind::IoError,
            RepoError::BranchNotFound => ErrorKind::BranchNotFound,
        }
    }

    /// Wraps a catalog row error.
    pub fn from(err: DbError) -> (r: RepoError)
        ensures
            r == RepoError::DbError(err),
    {
        RepoError::DbError(err)
    }
}

} // verus!
