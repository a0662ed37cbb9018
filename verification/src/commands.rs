//! The commands of the program, as far as they are decisions.

use vstd::prelude::*;
use vstd::utf8::encode_utf8;
use crate::catalog::{newest_version, Catalog};
use crate::config::Config;
use crate::db::Db;
use crate::index::{address_of, Index};
use crate::models::types::{path_join, RepoPath};
use crate::repo::{configured_repo, Repo};
use crate::result::{RepoError, RepoResult};
use crate::session::{Command, PhaseView, Session, SessionView};

verus! {

/// Where the catalog is kept: in `db.sqlite` in the data directory.
pub fn db_path(config: &Config) -> (r: RepoPath)
    ensures
        r@ == path_join(encode_utf8(config@.data_dir), encode_utf8("db.sqlite"@)),
{
    RepoPath::from_str(config.data_dir.as_str()).join("db.sqlite".as_bytes())
}

/// Prepares the catalog: its schema is brought to the newest version. Rows
/// that are there stay.
pub fn init(config: &Config, db: &mut Db) -> (r: RepoResult<()>)
    requires
        old(db).wf(),
    ensures
        r is Ok,
        final(db).wf(),
        final(db).durable() == old(db).durable(),
        final(db)@ == (Catalog { version: newest_version(), ..old(db)@ }),
{
    db.migrate();
    Ok(())
}

/// The state in which a run of `command` on `repo` begins.
pub open spec fn beginning(command: Command, repo: crate::repo::RepoView, catalog: Catalog)
    -> SessionView {
    SessionView {
        command,
        phase: PhaseView::Probing,
        repo,
        catalog,
        tips: Seq::empty(),
        watermark: None,
        commits: Seq::empty(),
        files: Seq::empty(),
        removals: Seq::empty(),
    }
}

/// Begins a run that brings the clone of the configured repository up to
/// date and records its new commits. The settings have to name a remote.
pub fn fetch_repo(config: &Config, db: Db) -> (r: RepoResult<Session>)
    requires
        db.wf(),
        db.pending_writes().len() == 0,
    ensures
        match configured_repo(config@) {
            Some(repo) => r matches Ok(session) && session.wf() && session@ == beginning(
                Command::Fetch,
                repo,
                db@,
            ),
            None => r matches Err(RepoError::NoRemote),
        },
{
    let repo = match Repo::new_for_config(config) {
        Ok(repo) => repo,
        Err(e) => {
            return Err(e);
        },
    };
    Session::new(Command::Fetch, repo, None, db)
}

/// Begins a run that does what a fetch does and then ships everything that
/// is not indexed. The settings have to name a remote and the search
/// service.
pub fn index_repo(config: &Config, db: Db) -> (r: RepoResult<Session>)
    requires
        db.wf(),
        db.pending_writes().len() == 0,
    ensures
        match configured_repo(config@) {
            Some(repo) => match config@.elasticsearch {
                Some(address) => match address_of(address) {
                    Some(_) => r matches Ok(session) && session.wf() && session@ == beginning(
                        Command::Index,
                        repo,
                        db@,
                    ),
                    None => r matches Err(RepoError::ParseIntError(_)),
                },
                None => r matches Err(RepoError::NoElasticSearch),
            },
            None => r matches Err(RepoError::NoRemote),
        },
{
    let repo = match Repo::new_for_config(config) {
        Ok(repo) => repo,
        Err(e) => {
            return Err(e);
        },
    };
    let index = match Index::new_for_config(config) {
        Ok(index) => index,
        Err(e) => {
            return Err(e);
        },
    };
    Session::new(Command::Index, repo, Some(index), db)
}

/// The synchronisation worker. It has nothing to do yet.
pub fn run_sync(_config: &Config) -> (r: RepoResult<()>)
    ensures
        r is Ok,
{
    Ok(())
}

} // verus!
