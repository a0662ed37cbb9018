//! The documents shipped to the search index and the rules for building
//! them.

use vstd::prelude::*;
use vstd::string::*;
use crate::catalog::{
    lemma_filter_map_none, lemma_filter_map_step, lemma_filter_take_none, lemma_filter_take_step,
    views, Catalog, DbWriteView,
};
use crate::config::Config;
use crate::db::{is_sql_error, write_outcome, writes_outcome, Db, DbWrite};
use crate::digest::{file_id, file_id_of};
use crate::git::{
    Blob, Delta, DeltaView, GitCommit, GitCommitView, GitSignature, GitSignatureView, GitTime,
};
use crate::models::repo_file::{RepoFile, RepoFileView};
use crate::models::types::{clone_opt_text, opt_text, str_eq, texts, RepoPath};
use crate::repo::Repo;
use crate::result::{RepoError, RepoResult};
use crate::session::Request;

verus! {

/// The RFC 3339 text of the moment `seconds` after the Unix epoch, as seen
/// in the zone `offset_seconds` east of UTC; `None` where the zone or the
/// moment is out of range.
pub uninterp spec fn rfc3339_text(seconds: i64, offset_seconds: i32) -> Option<Seq<char>>;

/// Renders a moment with `chrono`: `FixedOffset::east_opt`, then
/// `TimeZone::timestamp_opt` with no nanoseconds, then
/// `DateTime::to_rfc3339`. The text is trusted to be a function of the two
/// numbers. An offset of a day or more, either way, is refused; every moment
/// between the years 1901 and 2106, in any other offset, is rendered.
#[verifier::external_body]
fn format_rfc3339(seconds: i64, offset_seconds: i32) -> (r: Option<String>)
    ensures
        opt_text(r) == rfc3339_text(seconds, offset_seconds),
        !(-86_400 < offset_seconds < 86_400) ==> r is None,
        -86_400 < offset_seconds < 86_400 && i32::MIN <= seconds <= u32::MAX ==> r is Some,
{
    let zone = chrono::FixedOffset::east_opt(offset_seconds)?;
    let moment = chrono::TimeZone::timestamp_opt(&zone, seconds, 0).single()?;
    Some(moment.to_rfc3339())
}

/// The text of `bytes` read as UTF-8, with U+FFFD in place of each sequence
/// that is not valid.
pub uninterp spec fn utf8_lossy_text(bytes: Seq<u8>) -> Seq<char>;

/// Decodes with `encoding::Encoding::decode` of `encoding::all::UTF_8` under
/// `DecoderTrap::Replace`, which replaces what it cannot decode and so never
/// fails. The text is trusted to be a function of the bytes.
#[verifier::external_body]
fn decode_utf8(bytes: &[u8]) -> (r: String)
    ensures
        r@ == utf8_lossy_text(bytes@),
{
    match encoding::Encoding::decode(
        encoding::all::UTF_8,
        bytes,
        encoding::DecoderTrap::Replace,
    ) {
        Ok(text) => text,
        Err(cause) => cause.into_owned(),
    }
}

/// The date of a commit as the documents carry it: RFC 3339, in the zone
/// the commit was made in.
pub open spec fn commit_date(time: GitTime) -> Option<Seq<char>> {
    if -1440 < time.offset_minutes < 1440 {
        rfc3339_text(time.seconds, (time.offset_minutes * 60) as i32)
    } else {
        None
    }
}

/// The text of a blob that is not binary.
pub open spec fn blob_text(content: Seq<u8>) -> Seq<char> {
    utf8_lossy_text(content)
}

/// The reference to a commit inside a commit document.
#[derive(Debug, PartialEq, Eq)]
pub struct CommitId {
    pub id: String,
}

impl View for CommitId {
    type V = Seq<char>;

    open spec fn view(&self) -> Seq<char> {
        self.id@
    }
}

impl CommitId {
    pub fn new_for_git_commit(commit: &GitCommit) -> (r: CommitId)
        ensures
            r@ == commit@.id,
    {
        CommitId { id: commit.id.clone() }
    }
}

/// The ids of a sequence of commit references.
pub open spec fn commit_ids(refs: Seq<CommitId>) -> Seq<Seq<char>> {
    refs.map_values(|c: CommitId| c@)
}

/// Author or committer inside a commit document.
#[derive(Debug, PartialEq, Eq)]
pub struct Signature {
    pub name: Option<String>,
    pub email: Option<String>,
}

impl View for Signature {
    type V = GitSignatureView;

    open spec fn view(&self) -> GitSignatureView {
        GitSignatureView { name: opt_text(self.name), email: opt_text(self.email) }
    }
}

impl Signature {
    pub fn new_for_git_signature(sig: &GitSignature) -> (r: Signature)
        ensures
            r@ == sig@,
    {
        Signature { name: clone_opt_text(&sig.name), email: clone_opt_text(&sig.email) }
    }
}

/// The document of a commit.
#[derive(Debug, PartialEq, Eq)]
pub struct Commit {
    pub parents: Vec<CommitId>,
    pub repo_id: String,
    pub author: Signature,
    pub committer: Signature,
    pub commit_date: String,
    pub message: Option<String>,
}

pub struct CommitView {
    pub parents: Seq<Seq<char>>,
    pub repo_id: Seq<char>,
    pub author: GitSignatureView,
    pub committer: GitSignatureView,
    pub commit_date: Seq<char>,
    pub message: Option<Seq<char>>,
}

impl View for Commit {
    type V = CommitView;

    open spec fn view(&self) -> CommitView {
        CommitView {
            parents: commit_ids(self.parents@),
            repo_id: self.repo_id@,
            author: self.author@,
            committer: self.committer@,
            commit_date: self.commit_date@,
            message: opt_text(self.message),
        }
    }
}

/// The document of `commit` in the repository `repo_id`, dated `date`.
pub open spec fn commit_doc(repo_id: Seq<char>, commit: GitCommitView, date: Seq<char>)
    -> CommitView {
    CommitView {
        parents: commit.parents,
        repo_id,
        author: commit.author,
        committer: commit.committer,
        commit_date: date,
        message: commit.message,
    }
}

impl Commit {
    /// Builds the document of a commit. A commit whose time cannot be
    /// written as a date is refused with a Git error.
    pub fn new_for_git_commit(repo_id: &str, commit: &GitCommit) -> (r: RepoResult<Commit>)
        ensures
            match commit_date(commit.time) {
                Some(date) => r matches Ok(doc) && doc@ == commit_doc(repo_id@, commit@, date),
                None => r matches Err(RepoError::GitError(_)),
            },
    {
        let date = match Index::datetime_convert_git_to_chrono(&commit.time) {
            Some(date) => date,
            None => {
                return Err(RepoError::GitError("commit time out of range".to_owned()));
            },
        };
        let mut parents: Vec<CommitId> = Vec::new();
        let mut i: usize = 0;
        while i < commit.parents.len()
            invariant
                i <= commit.parents.len(),
                parents.len() == i,
                forall|k: int| 0 <= k < i ==> parents[k]@ == commit.parents[k]@,
            decreases commit.parents.len() - i,
        {
            parents.push(CommitId { id: commit.parents[i].clone() });
            i += 1;
        }
        assert(commit_ids(parents@) =~= commit@.parents);
        Ok(
            Commit {
                parents,
                repo_id: repo_id.to_owned(),
                author: Signature::new_for_git_signature(&commit.author),
                committer: Signature::new_for_git_signature(&commit.committer),
                commit_date: date,
                message: clone_opt_text(&commit.message),
            },
        )
    }
}

/// The document of a file.
#[derive(Debug, PartialEq, Eq)]
pub struct IndexedFile {
    pub repo_id: String,
    pub path: RepoPath,
    pub text: Option<String>,
    pub keywords: Option<String>,
    pub changed_commit_id: Option<String>,
    pub changed_date: Option<String>,
}

pub struct IndexedFileView {
    pub repo_id: Seq<char>,
    pub path: Seq<u8>,
    pub text: Option<Seq<char>>,
    pub keywords: Option<Seq<char>>,
    pub changed_commit_id: Option<Seq<char>>,
    pub changed_date: Option<Seq<char>>,
}

impl View for IndexedFile {
    type V = IndexedFileView;

    open spec fn view(&self) -> IndexedFileView {
        IndexedFileView {
            repo_id: self.repo_id@,
            path: self.path@,
            text: opt_text(self.text),
            keywords: opt_text(self.keywords),
            changed_commit_id: opt_text(self.changed_commit_id),
            changed_date: opt_text(self.changed_date),
        }
    }
}

impl IndexedFile {
    /// The document of a file of which nothing but its place is known yet.
    pub fn new(repo_id: String, path: RepoPath) -> (r: IndexedFile)
        ensures
            r@ == (IndexedFileView {
                repo_id: repo_id@,
                path: path@,
                text: None,
                keywords: None,
                changed_commit_id: None,
                changed_date: None,
            }),
    {
        IndexedFile {
            repo_id,
            path,
            text: None,
            keywords: None,
            changed_commit_id: None,
            changed_date: None,
        }
    }

    /// The id under which the document is stored: it depends on the
    /// repository and the path alone, so a file keeps its document from one
    /// version to the next.
    pub fn id(&self) -> (r: String)
        ensures
            r@ == file_id_of(self@.repo_id, self@.path),
    {
        file_id(self.repo_id.as_str(), self.path.bytes.as_slice())
    }
}

/// The search service of a run.
#[derive(Debug, PartialEq, Eq)]
pub struct Index {
    pub es_host: String,
    pub es_port: u32,
}

impl Index {
    /// The date of a commit as the documents carry it. Every time between
    /// the years 1901 and 2106 whose zone is less than a day from UTC has
    /// one.
    pub fn datetime_convert_git_to_chrono(git_time: &GitTime) -> (r: Option<String>)
        ensures
            opt_text(r) == commit_date(*git_time),
            -1440 < git_time.offset_minutes < 1440 && i32::MIN <= git_time.seconds <= u32::MAX
                ==> r is Some,
    {
        if -1440 < git_time.offset_minutes && git_time.offset_minutes < 1440 {
            format_rfc3339(git_time.seconds, git_time.offset_minutes * 60)
        } else {
            None
        }
    }

    /// The text of a blob that is not binary: its bytes read as UTF-8, with
    /// a replacement character for each invalid sequence.
    pub fn blob_text(content: &[u8]) -> (r: String)
        ensures
            r@ == blob_text(content@),
    {
        decode_utf8(content)
    }
}

// ---------------------------------------------------------------------------
// The address of the search service
// ---------------------------------------------------------------------------

/// How many characters stand before the first `stop` in `text`: all of
/// them where there is none.
pub open spec fn position_of(text: Seq<char>, stop: char) -> nat
    decreases text.len(),
{
    if text.len() == 0 || text[0] == stop {
        0
    } else {
        1 + position_of(text.drop_first(), stop)
    }
}

/// The number that a sequence of decimal digits spells.
pub open spec fn decimal_value(digits: Seq<char>) -> nat
    decreases digits.len(),
{
    if digits.len() == 0 {
        0
    } else {
        decimal_value(digits.drop_last()) * 10 + (digits.last() as nat - '0' as nat) as nat
    }
}

pub open spec fn all_digits(digits: Seq<char>) -> bool {
    forall|i: int| 0 <= i < digits.len() ==> '0' <= #[trigger] digits[i] <= '9'
}

/// The number that `text` spells: decimal digits, at least one, after an
/// optional plus sign, and no more than 32 bits can hold.
pub open spec fn parse_u32(text: Seq<char>) -> Option<u32> {
    let digits = if text.len() > 0 && text[0] == '+' {
        text.skip(1)
    } else {
        text
    };
    if digits.len() > 0 && all_digits(digits) && decimal_value(digits) <= u32::MAX {
        Some(decimal_value(digits) as u32)
    } else {
        None
    }
}

/// The port used where the address names none.
pub const DEFAULT_PORT: u32 = 9200;

/// The host of an address `host[:port]`: what stands before the first
/// colon.
pub open spec fn host_of(address: Seq<char>) -> Seq<char> {
    address.take(position_of(address, ':') as int)
}

/// The port part of an address `host[:port]`: what stands between the
/// first colon and the second, or the end; `None` without a colon.
pub open spec fn port_text_of(address: Seq<char>) -> Option<Seq<char>> {
    let colon = position_of(address, ':');
    if colon < address.len() {
        let rest = address.skip(colon as int + 1);
        Some(rest.take(position_of(rest, ':') as int))
    } else {
        None
    }
}

/// Host and port of an address `host[:port]`. The port defaults to 9200; a
/// port that is given has to be a number.
pub open spec fn address_of(address: Seq<char>) -> Option<(Seq<char>, u32)> {
    match port_text_of(address) {
        Some(port_text) => match parse_u32(port_text) {
            Some(port) => Some((host_of(address), port)),
            None => None,
        },
        None => Some((host_of(address), DEFAULT_PORT)),
    }
}

/// A number does not get smaller when digits are appended to it.
pub proof fn lemma_decimal_grows(digits: Seq<char>, k: int)
    requires
        0 <= k <= digits.len(),
    ensures
        decimal_value(digits.take(k)) <= decimal_value(digits),
    decreases digits.len() - k,
{
    if k == digits.len() {
        assert(digits.take(k) == digits);
    } else {
        assert(digits.take(k + 1).drop_last() == digits.take(k));
        lemma_decimal_grows(digits, k + 1);
    }
}

/// The position of the first `stop` at or after `from`, or the length of
/// the text.
fn find_char(text: &str, from: usize, stop: char) -> (r: usize)
    requires
        from <= text@.len(),
    ensures
        r == from + position_of(text@.skip(from as int), stop),
        from <= r <= text@.len(),
{
    let n = text.unicode_len();
    let mut i: usize = from;
    while i < n
        invariant
            n == text@.len(),
            from <= i <= n,
            from + position_of(text@.skip(from as int), stop) == i + position_of(
                text@.skip(i as int),
                stop,
            ),
        decreases n - i,
    {
        assert(text@.skip(i as int)[0] == text@[i as int]);
        assert(text@.skip(i as int).drop_first() == text@.skip(i + 1));
        if text.get_char(i) == stop {
            return i;
        }
        i += 1;
    }
    assert(text@.skip(i as int).len() == 0);
    i
}

/// Reads a number of at most 32 bits.
pub fn parse_port(text: &str) -> (r: Option<u32>)
    ensures
        r == parse_u32(text@),
{
    let n = text.unicode_len();
    let start: usize = if n > 0 && text.get_char(0) == '+' {
        1
    } else {
        0
    };
    let ghost digits = text@.skip(start as int);
    assert(text@.skip(0) == text@);
    if start == n {
        return None;
    }
    let mut value: u64 = 0;
    let mut i: usize = start;
    assert(digits.take(0) =~= Seq::empty());
    while i < n
        invariant
            n == text@.len(),
            start <= i <= n,
            start < n,
            digits == text@.skip(start as int),
            digits == if text@.len() > 0 && text@[0] == '+' {
                text@.skip(1)
            } else {
                text@
            },
            all_digits(digits.take(i - start)),
            value == decimal_value(digits.take(i - start)),
            value <= u32::MAX,
        decreases n - i,
    {
        let c = text.get_char(i);
        assert(digits[i - start] == c);
        if !('0' <= c && c <= '9') {
            return None;
        }
        let digit = (c as u32 - '0' as u32) as u64;
        value = value * 10 + digit;
        assert(digits.take(i - start + 1).drop_last() == digits.take(i - start));
        assert(digits.take(i - start + 1).last() == c);
        assert(all_digits(digits.take(i - start + 1))) by {
            assert forall|k: int| 0 <= k < i - start + 1 implies '0' <= #[trigger] digits.take(
                i - start + 1,
            )[k] <= '9' by {
                if k < i - start {
                    assert(digits.take(i - start)[k] == digits[k]);
                }
            }
        }
        if value > 0xffff_ffff {
            proof {
                lemma_decimal_grows(digits, i - start + 1);
            }
            return None;
        }
        i += 1;
    }
    assert(digits.take(n - start) == digits);
    Some(value as u32)
}

impl Index {
    /// The search service that the settings name. Without an address in the
    /// settings there is none; a port that is no number is refused.
    pub fn new_for_config(config: &Config) -> (r: RepoResult<Index>)
        ensures
            match config@.elasticsearch {
                None => r matches Err(RepoError::NoElasticSearch),
                Some(address) => match address_of(address) {
                    Some((host, port)) => r matches Ok(index) && index.es_host@ == host
                        && index.es_port == port,
                    None => r matches Err(RepoError::ParseIntError(_)),
                },
            },
    {
        let address: &str = match &config.elasticsearch {
            Some(address) => address.as_str(),
            None => {
                return Err(RepoError::NoElasticSearch);
            },
        };
        let n = address.unicode_len();
        let colon = find_char(address, 0, ':');
        assert(address@.skip(0) == address@);
        let host = address.substring_char(0, colon);
        assert(host@ == host_of(address@));
        let port = if colon < n {
            let end = find_char(address, colon + 1, ':');
            let port_text = address.substring_char(colon + 1, end);
            assert(port_text@ == address@.skip(colon + 1).take(end - (colon + 1)));
            match parse_port(port_text) {
                Some(port) => port,
                None => {
                    return Err(RepoError::ParseIntError("invalid port number".to_owned()));
                },
            }
        } else {
            DEFAULT_PORT
        };
        Ok(Index { es_host: host.to_owned(), es_port: port })
    }
}

// ---------------------------------------------------------------------------
// Indexing
// ---------------------------------------------------------------------------

/// The result without its value.
pub open spec fn unit<T>(result: RepoResult<T>) -> RepoResult<()> {
    match result {
        Ok(_) => Ok(()),
        Err(e) => Err(e),
    }
}

/// The document of a file whose text is `text`.
pub open spec fn file_doc(
    repo_id: Seq<char>,
    path: Seq<u8>,
    text: Seq<char>,
    commit_id: Seq<char>,
    changed_date: Option<Seq<char>>,
) -> IndexedFileView {
    IndexedFileView {
        repo_id,
        path,
        text: Some(text),
        keywords: None,
        changed_commit_id: Some(commit_id),
        changed_date,
    }
}

pub open spec fn on_branch(branch: Seq<char>) -> spec_fn(RepoFileView) -> bool {
    |file: RepoFileView| file.branch == branch
}

/// The files of a branch that have to be shipped.
pub open spec fn branch_files_not_indexed(catalog: Catalog, repo_id: Seq<char>, branch: Seq<char>)
    -> Seq<RepoFileView> {
    catalog.files_not_indexed(repo_id).filter(on_branch(branch))
}

/// Nothing of the branch is left to ship: no commit of the repository and
/// no file of the branch.
pub open spec fn branch_is_clean(catalog: Catalog, repo_id: Seq<char>, branch: Seq<char>) -> bool {
    catalog.commits_not_indexed(repo_id).len() == 0 && branch_files_not_indexed(
        catalog,
        repo_id,
        branch,
    ).len() == 0
}

pub open spec fn has_content() -> spec_fn(DeltaView) -> bool {
    |delta: DeltaView| delta.content_path() is Some
}

pub open spec fn has_removal() -> spec_fn(DeltaView) -> bool {
    |delta: DeltaView| delta.removed_path() is Some
}

pub open spec fn removal() -> spec_fn(DeltaView) -> Seq<u8> {
    |delta: DeltaView| delta.removed_path()->0
}

/// The write that records the file a delta brings as changed in `commit`.
pub open spec fn delta_write(repo_id: Seq<char>, branch: Seq<char>, commit: Seq<char>) -> spec_fn(
    DeltaView,
) -> DbWriteView {
    |delta: DeltaView|
        DbWriteView::UpsertFile {
            repo_id,
            branch,
            path: delta.content_path()->0,
            changed_commit_id: commit,
        }
}

/// The writes that record what a diff brings: every path that was added,
/// modified or renamed to counts as changed in `commit`.
pub open spec fn diff_writes(
    repo_id: Seq<char>,
    branch: Seq<char>,
    commit: Seq<char>,
    deltas: Seq<DeltaView>,
) -> Seq<DbWriteView> {
    deltas.filter(has_content()).map_values(delta_write(repo_id, branch, commit))
}

/// The paths a diff takes away.
pub open spec fn removed_paths(deltas: Seq<DeltaView>) -> Seq<Seq<u8>> {
    deltas.filter(has_removal()).map_values(removal())
}

/// What a run has to ship.
#[derive(Debug, PartialEq, Eq)]
pub struct IndexWork {
    pub commits: Vec<String>,
    pub files: Vec<RepoFile>,
}

impl Index {
    /// The commits of the repository that have to be shipped.
    pub fn index_commits(&self, db: &Db, repo: &Repo) -> (r: RepoResult<Vec<String>>)
        requires
            db.wf(),
        ensures
            if db@.version >= 3 {
                r matches Ok(ids) && texts(ids@) == db@.commits_not_indexed(repo@.id)
            } else {
                is_sql_error(r)
            },
    {
        db.find_commits_not_indexed(repo.id.as_str())
    }

    /// The request that ships a commit: its document, stored under the
    /// commit's id.
    pub fn index_commit(&self, repo: &Repo, commit_id: &str, commit: &GitCommit) -> (r: RepoResult<
        Request,
    >)
        ensures
            match commit_date(commit.time) {
                Some(date) => r matches Ok(Request::PutCommit { id, commit: doc }) && id@
                    == commit_id@ && doc@ == commit_doc(repo@.id, commit@, date),
                None => r matches Err(RepoError::GitError(_)),
            },
    {
        match Commit::new_for_git_commit(repo.id.as_str(), commit) {
            Ok(doc) => Ok(Request::PutCommit { id: commit_id.to_owned(), commit: doc }),
            Err(e) => Err(e),
        }
    }

    /// The files of a branch that have to be shipped, in the order the
    /// catalog first saw them.
    pub fn index_tree(&self, db: &Db, repo: &Repo, branch: &str) -> (r: RepoResult<Vec<RepoFile>>)
        requires
            db.wf(),
        ensures
            if db@.version >= 4 {
                r matches Ok(files) && views(files@) == branch_files_not_indexed(
                    db@,
                    repo@.id,
                    branch@,
                )
            } else {
                is_sql_error(r)
            },
    {
        let pending = match db.find_files_not_indexed(repo.id.as_str()) {
            Ok(pending) => pending,
            Err(e) => {
                return Err(e);
            },
        };
        let ghost rows = views(pending@);
        let mut files: Vec<RepoFile> = Vec::new();
        let mut i: usize = 0;
        proof {
            lemma_filter_take_none(rows, on_branch(branch@));
            assert(views(files@) =~= Seq::empty());
        }
        while i < pending.len()
            invariant
                i <= pending.len(),
                rows == views(pending@),
                views(files@) == rows.take(i as int).filter(on_branch(branch@)),
            decreases pending.len() - i,
        {
            proof {
                lemma_filter_take_step(rows, on_branch(branch@), i as int);
            }
            if str_eq(pending[i].branch.as_str(), branch) {
                let ghost before = views(files@);
                files.push(pending[i].clone());
                assert(views(files@) =~= before.push(rows[i as int]));
            }
            i += 1;
        }
        assert(rows.take(i as int) == rows);
        Ok(files)
    }

    /// The request that loads the content of a file that has to be shipped.
    pub fn index_file(&self, repo: &Repo, file: &RepoFile) -> (r: RepoResult<Request>)
        ensures
            repo.opened ==> (r matches Ok(Request::FindBlob { commit_id, path }) && commit_id@
                == file@.changed_commit_id && path@ == file@.path),
            !repo.opened ==> r matches Err(RepoError::InvalidState(_)),
    {
        match repo.git_repo() {
            Ok(()) => Ok(
                Request::FindBlob {
                    commit_id: file.changed_commit_id.clone(),
                    path: file.path.clone(),
                },
            ),
            Err(e) => Err(e),
        }
    }

    /// The request that ships the text of a file as of `commit_id`.
    pub fn index_blob_str(
        &self,
        repo: &Repo,
        path: &RepoPath,
        commit_id: &str,
        blob: &str,
        changed_date: Option<String>,
    ) -> (r: RepoResult<Request>)
        ensures
            r matches Ok(Request::PutFile { id, file }) && id@ == file_id_of(repo@.id, path@)
                && file@ == file_doc(repo@.id, path@, blob@, commit_id@, opt_text(changed_date)),
    {
        let mut indexed_file = IndexedFile::new(repo.id.clone(), path.clone());
        indexed_file.text = Some(blob.to_owned());
        indexed_file.changed_commit_id = Some(commit_id.to_owned());
        indexed_file.changed_date = changed_date;
        let file_id = indexed_file.id();
        Ok(Request::PutFile { id: file_id, file: indexed_file })
    }

    /// Decides what to do with the content of a file. A binary file is not
    /// shipped: it is marked as indexed at once, so that it is not looked at
    /// again. Of any other file the request to ship its text is handed back;
    /// the catalog is not touched until the search service has the
    /// document.
    pub fn index_blob(
        &self,
        db: &mut Db,
        repo: &Repo,
        path: &RepoPath,
        commit_id: &str,
        blob: &Blob,
        changed: &GitTime,
    ) -> (r: RepoResult<Option<Request>>)
        requires
            old(db).wf(),
        ensures
            blob.binary ==> write_outcome(
                *old(db),
                *final(db),
                unit(r),
                DbWriteView::MarkFileIndexed {
                    repo_id: repo@.id,
                    path: path@,
                    indexed_commit_id: commit_id@,
                },
            ) && (r matches Ok(request) ==> request is None),
            !blob.binary ==> *final(db) == *old(db) && (r matches Ok(
                Some(Request::PutFile { id, file }),
            ) && id@ == file_id_of(repo@.id, path@) && file@ == file_doc(
                repo@.id,
                path@,
                blob_text(blob@.content),
                commit_id@,
                commit_date(*changed),
            )),
    {
        if blob.binary {
            match db.mark_file_as_indexed(repo.id.as_str(), path, commit_id) {
                Ok(()) => Ok(None),
                Err(e) => Err(e),
            }
        } else {
            let text = Index::blob_text(blob.content.as_slice());
            let date = Index::datetime_convert_git_to_chrono(changed);
            match self.index_blob_str(repo, path, commit_id, text.as_str(), date) {
                Ok(request) => Ok(Some(request)),
                Err(e) => Err(e),
            }
        }
    }

    /// Records what a diff between the indexed commit of a branch and its
    /// tip brings: every path added, modified or renamed to is recorded as
    /// changed in `commit_id`. The paths that the diff takes away are handed
    /// back, so that their documents can be removed. Nothing is recorded
    /// before the clone is open.
    pub fn index_diff(
        &self,
        db: &mut Db,
        repo: &Repo,
        branch: &str,
        commit_id: &str,
        diff: &Vec<Delta>,
    ) -> (r: RepoResult<Vec<RepoPath>>)
        requires
            old(db).wf(),
        ensures
            repo.opened ==> writes_outcome(
                *old(db),
                *final(db),
                unit(r),
                diff_writes(repo@.id, branch@, commit_id@, views(diff@)),
            ),
            repo.opened ==> (r matches Ok(removed) ==> views(removed@) == removed_paths(
                views(diff@),
            )),
            !repo.opened ==> (r matches Err(RepoError::InvalidState(_)) && *final(db) == *old(db)),
    {
        match repo.git_repo() {
            Ok(()) => {},
            Err(e) => {
                return Err(e);
            },
        }
        let ghost rows = views(diff@);
        let ghost image = delta_write(repo@.id, branch@, commit_id@);
        let mut writes: Vec<DbWrite> = Vec::new();
        let mut removed: Vec<RepoPath> = Vec::new();
        let mut i: usize = 0;
        proof {
            lemma_filter_map_none(rows, has_content(), image);
            lemma_filter_map_none(rows, has_removal(), removal());
            assert(views(writes@) =~= Seq::empty());
            assert(views(removed@) =~= Seq::empty());
        }
        while i < diff.len()
            invariant
                i <= diff.len(),
                rows == views(diff@),
                image == delta_write(repo@.id, branch@, commit_id@),
                views(writes@) == rows.take(i as int).filter(has_content()).map_values(image),
                views(removed@) == rows.take(i as int).filter(has_removal()).map_values(removal()),
            decreases diff.len() - i,
        {
            proof {
                lemma_filter_map_step(rows, has_content(), image, i as int);
                lemma_filter_map_step(rows, has_removal(), removal(), i as int);
            }
            match diff[i].content_path() {
                Some(path) => {
                    let ghost before = views(writes@);
                    writes.push(
                        DbWrite::UpsertFile {
                            repo_id: repo.id.clone(),
                            branch: branch.to_owned(),
                            path: path.clone(),
                            changed_commit_id: commit_id.to_owned(),
                        },
                    );
                    assert(views(writes@) =~= before.push(image(rows[i as int])));
                },
                None => {},
            }
            match diff[i].removed_path() {
                Some(path) => {
                    let ghost before = views(removed@);
                    removed.push(path.clone());
                    assert(views(removed@) =~= before.push(removal()(rows[i as int])));
                },
                None => {},
            }
            i += 1;
        }
        assert(rows.take(i as int) == rows);
        match db.apply_all(&writes) {
            Ok(()) => Ok(removed),
            Err(e) => Err(e),
        }
    }

    /// Closes the indexing of a branch: where no commit of the repository
    /// and no file of the branch is left to ship, the branch is marked as
    /// indexed at `commit_id`, and `true` is handed back. Where anything is
    /// left, the mark stays where it is. Nothing is closed before the clone
    /// is open.
    pub fn index_branches(&self, db: &mut Db, repo: &Repo, branch: &str, commit_id: &str) -> (r:
        RepoResult<bool>)
        requires
            old(db).wf(),
        ensures
            !repo.opened ==> (r matches Err(RepoError::InvalidState(_)) && *final(db) == *old(db)),
            repo.opened && old(db)@.version < 4 ==> is_sql_error(r) && *final(db) == *old(db),
            repo.opened && old(db)@.version >= 4 ==> if branch_is_clean(
                old(db)@,
                repo@.id,
                branch@,
            ) {
                r == Ok::<bool, RepoError>(true) && write_outcome(
                    *old(db),
                    *final(db),
                    Ok(()),
                    DbWriteView::MarkBranchIndexed {
                        repo_id: repo@.id,
                        name: branch@,
                        commit_id: commit_id@,
                    },
                )
            } else {
                r == Ok::<bool, RepoError>(false) && *final(db) == *old(db)
            },
    {
        match repo.git_repo() {
            Ok(()) => {},
            Err(e) => {
                return Err(e);
            },
        }
        if db.schema_version() < 4 {
            return Err(RepoError::SqlError("no such table: files".to_owned()));
        }
        let commits = match self.index_commits(db, repo) {
            Ok(commits) => commits,
            Err(e) => {
                return Err(e);
            },
        };
        let files = match self.index_tree(db, repo, branch) {
            Ok(files) => files,
            Err(e) => {
                return Err(e);
            },
        };
        assert(texts(commits@).len() == commits.len());
        assert(views(files@).len() == files.len());
        if commits.len() == 0 && files.len() == 0 {
            match db.mark_branch_as_indexed(repo.id.as_str(), branch, commit_id) {
                Ok(()) => Ok(true),
                Err(e) => Err(e),
            }
        } else {
            Ok(false)
        }
    }

    /// What is left to ship for the repository: the commits and the files
    /// that are not indexed.
    pub fn index_repo(&self, db: &Db, repo: &Repo) -> (r: RepoResult<IndexWork>)
        requires
            db.wf(),
        ensures
            if db@.version >= 4 {
                r matches Ok(work) && texts(work.commits@) == db@.commits_not_indexed(repo@.id)
                    && views(work.files@) == db@.files_not_indexed(repo@.id)
            } else {
                is_sql_error(r)
            },
    {
        if db.schema_version() < 4 {
            return Err(RepoError::SqlError("no such table: files".to_owned()));
        }
        let commits = match self.index_commits(db, repo) {
            Ok(commits) => commits,
            Err(e) => {
                return Err(e);
            },
        };
        let files = match db.find_files_not_indexed(repo.id.as_str()) {
            Ok(files) => files,
            Err(e) => {
                return Err(e);
            },
        };
        Ok(IndexWork { commits, files })
    }
}

} // verus!
