//! Git objects as plain values.
//!
//! The Git library itself stays with the host program; what the planners and
//! the indexer read of a tree entry, a diff, a commit or a blob is held in
//! these types.

use vstd::prelude::*;
use crate::models::types::{opt_text, texts, RepoPath};

verus! {

/// The kind of a Git object.
#[derive(Debug, Clone, Copy, PartialEq, Eq, Structural)]
pub enum ObjectType {
    Any,
    Commit,
    Tree,
    Blob,
    Tag,
}

/// The bytes of an optional byte string.
pub open spec fn opt_bytes(value: Option<Vec<u8>>) -> Option<Seq<u8>> {
    match value {
        Some(bytes) => Some(bytes@),
        None => None,
    }
}

/// The bytes of an optional path.
pub open spec fn opt_path(value: Option<RepoPath>) -> Option<Seq<u8>> {
    match value {
        Some(path) => Some(path@),
        None => None,
    }
}

/// One entry of a tree: a name, the kind of object it points to and the
/// object's id. The name is absent where the backend could not supply one.
#[derive(Debug, PartialEq, Eq)]
pub struct TreeEntry {
    pub name: Option<Vec<u8>>,
    pub kind: Option<ObjectType>,
    pub id: String,
}

pub struct TreeEntryView {
    pub name: Option<Seq<u8>>,
    pub kind: Option<ObjectType>,
    pub id: Seq<char>,
}

impl View for TreeEntry {
    type V = TreeEntryView;

    open spec fn view(&self) -> TreeEntryView {
        TreeEntryView { name: opt_bytes(self.name), kind: self.kind, id: self.id@ }
    }
}

impl Clone for TreeEntry {
    fn clone(&self) -> (r: Self)
        ensures
            r@ == self@,
    {
        TreeEntry {
            name: match &self.name {
                Some(bytes) => Some(bytes.clone()),
                None => None,
            },
            kind: self.kind,
            id: self.id.clone(),
        }
    }
}

/// What a tree diff says happened to a path.
#[derive(Debug, Clone, Copy, PartialEq, Eq, Structural)]
pub enum DeltaStatus {
    Unmodified,
    Added,
    Deleted,
    Modified,
    Renamed,
    Copied,
    Ignored,
    Untracked,
    Typechange,
    Unreadable,
    Conflicted,
}

/// One entry of a tree diff.
#[derive(Debug, PartialEq, Eq)]
pub struct Delta {
    pub status: DeltaStatus,
    pub old_path: Option<RepoPath>,
    pub new_path: Option<RepoPath>,
    pub old_oid: Option<String>,
    pub new_oid: Option<String>,
}

pub struct DeltaView {
    pub status: DeltaStatus,
    pub old_path: Option<Seq<u8>>,
    pub new_path: Option<Seq<u8>>,
    pub old_oid: Option<Seq<char>>,
    pub new_oid: Option<Seq<char>>,
}

impl View for Delta {
    type V = DeltaView;

    open spec fn view(&self) -> DeltaView {
        DeltaView {
            status: self.status,
            old_path: opt_path(self.old_path),
            new_path: opt_path(self.new_path),
            old_oid: opt_text(self.old_oid),
            new_oid: opt_text(self.new_oid),
        }
    }
}

impl DeltaView {
    /// The path whose content the delta brings: the new path of an
    /// addition, a modification or a rename.
    pub open spec fn content_path(self) -> Option<Seq<u8>> {
        if self.status == DeltaStatus::Added || self.status == DeltaStatus::Modified
            || self.status == DeltaStatus::Renamed {
            self.new_path
        } else {
            None
        }
    }

    /// The path whose content the delta takes away: the old path of a
    /// deletion.
    pub open spec fn removed_path(self) -> Option<Seq<u8>> {
        if self.status == DeltaStatus::Deleted {
            self.old_path
        } else {
            None
        }
    }
}

impl Delta {
    /// The path whose content has to be indexed because of this delta.
    pub fn content_path(&self) -> (r: Option<&RepoPath>)
        ensures
            match r {
                Some(path) => self@.content_path() == Some(path@),
                None => self@.content_path() is None,
            },
    {
        match self.status {
            DeltaStatus::Added | DeltaStatus::Modified | DeltaStatus::Renamed => {
                self.new_path.as_ref()
            },
            _ => None,
        }
    }

    /// The path whose document is obsolete because of this delta.
    pub fn removed_path(&self) -> (r: Option<&RepoPath>)
        ensures
            match r {
                Some(path) => self@.removed_path() == Some(path@),
                None => self@.removed_path() is None,
            },
    {
        match self.status {
            DeltaStatus::Deleted => self.old_path.as_ref(),
            _ => None,
        }
    }
}

/// The time of a commit: seconds since the Unix epoch, and the offset from
/// UTC, in minutes, of the zone the commit was made in.
#[derive(Debug, Clone, Copy, PartialEq, Eq, Structural)]
pub struct GitTime {
    pub seconds: i64,
    pub offset_minutes: i32,
}

/// Who made a commit. Either part is absent where it is not text.
#[derive(Debug, PartialEq, Eq)]
pub struct GitSignature {
    pub name: Option<String>,
    pub email: Option<String>,
}

pub struct GitSignatureView {
    pub name: Option<Seq<char>>,
    pub email: Option<Seq<char>>,
}

impl View for GitSignature {
    type V = GitSignatureView;

    open spec fn view(&self) -> GitSignatureView {
        GitSignatureView { name: opt_text(self.name), email: opt_text(self.email) }
    }
}

/// A commit.
#[derive(Debug, PartialEq, Eq)]
pub struct GitCommit {
    pub id: String,
    pub parents: Vec<String>,
    pub author: GitSignature,
    pub committer: GitSignature,
    pub time: GitTime,
    pub message: Option<String>,
}

pub struct GitCommitView {
    pub id: Seq<char>,
    pub parents: Seq<Seq<char>>,
    pub author: GitSignatureView,
    pub committer: GitSignatureView,
    pub time: GitTime,
    pub message: Option<Seq<char>>,
}

impl View for GitCommit {
    type V = GitCommitView;

    open spec fn view(&self) -> GitCommitView {
        GitCommitView {
            id: self.id@,
            parents: texts(self.parents@),
            author: self.author@,
            committer: self.committer@,
            time: self.time,
            message: opt_text(self.message),
        }
    }
}

/// The content of a file at one version, with the backend's verdict on
/// whether it is binary.
#[derive(Debug, PartialEq, Eq)]
pub struct Blob {
    pub binary: bool,
    pub content: Vec<u8>,
}

pub struct BlobView {
    pub binary: bool,
    pub content: Seq<u8>,
}

impl View for Blob {
    type V = BlobView;

    open spec fn view(&self) -> BlobView {
        BlobView { binary: self.binary, content: self.content@ }
    }
}

/// The commits a revision walk starts from and the commits it stops short
/// of.
#[derive(Debug, PartialEq, Eq)]
pub struct Revwalk {
    pub pushed: Vec<String>,
    pub hidden: Vec<String>,
}

pub struct RevwalkView {
    pub pushed: Seq<Seq<char>>,
    pub hidden: Seq<Seq<char>>,
}

impl View for Revwalk {
    type V = RevwalkView;

    open spec fn view(&self) -> RevwalkView {
        RevwalkView { pushed: texts(self.pushed@), hidden: texts(self.hidden@) }
    }
}

impl Revwalk {
    /// A walk that starts nowhere.
    pub fn new() -> (r: Revwalk)
        ensures
            r@ == (RevwalkView { pushed: Seq::empty(), hidden: Seq::empty() }),
    {
        let r = Revwalk { pushed: Vec::new(), hidden: Vec::new() };
        assert(texts(r.pushed@) =~= Seq::empty());
        assert(texts(r.hidden@) =~= Seq::empty());
        r
    }

    /// Starts the walk at `commit` too.
    pub fn push(&mut self, commit: &str)
        ensures
            final(self)@ == (RevwalkView { pushed: old(self)@.pushed.push(commit@), ..old(self)@ }),
    {
        self.pushed.push(commit.to_owned());
        assert(texts(self.pushed@) =~= texts(old(self).pushed@).push(commit@));
    }

    /// Keeps `commit` and everything it descends from out of the walk.
    pub fn exclude(&mut self, commit: &str)
        ensures
            final(self)@ == (RevwalkView { hidden: old(self)@.hidden.push(commit@), ..old(self)@ }),
    {
        self.hidden.push(commit.to_owned());
        assert(texts(self.hidden@) =~= texts(old(self).hidden@).push(commit@));
    }
}

} // verus!
