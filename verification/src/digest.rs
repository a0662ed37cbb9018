//! Content-derived identifiers.
//!
//! Repositories and file documents are named by the SHA-1 digest of what
//! identifies them, so that the same input gives the same name on every run
//! and on every machine.

use vstd::prelude::*;
use vstd::string::*;
use vstd::utf8::encode_utf8;

verus! {

#[verifier::external_type_specification]
#[verifier::external_body]
pub struct ExSha1(sha1::Sha1);

/// The bytes a hasher has been fed so far, in the order they were fed.
pub uninterp spec fn absorbed(hasher: sha1::Sha1) -> Seq<u8>;

/// The SHA-1 digest of `data`, written as hexadecimal digits.
pub uninterp spec fn sha1_hex(data: Seq<u8>) -> Seq<char>;

/// `sha1::Sha1::new` gives a hasher that has been fed nothing.
pub assume_specification[ sha1::Sha1::new ]() -> (hasher: sha1::Sha1)
    ensures
        absorbed(hasher) == Seq::<u8>::empty(),
;

/// `sha1::Sha1::update` feeds `data` to the hasher, after what it was fed
/// before.
pub assume_specification[ sha1::Sha1::update ](hasher: &mut sha1::Sha1, data: &[u8])
    ensures
        absorbed(*final(hasher)) == absorbed(*old(hasher)) + data@,
;

/// Formats `sha1::Sha1::digest` of the hasher: the digest of everything the
/// hasher was fed, five 32-bit words each written as eight lowercase
/// hexadecimal digits.
#[verifier::external_body]
fn hex_digest(hasher: &sha1::Sha1) -> (r: String)
    ensures
        r@ == sha1_hex(absorbed(*hasher)),
        r@.len() == 40,
{
    hasher.digest().to_string()
}

/// The identifier of a repository: the digest of its remote URI.
pub open spec fn repo_id_of(remote: Seq<char>) -> Seq<char> {
    sha1_hex(encode_utf8(remote))
}

/// The identifier of a file document: the digest of the repository
/// identifier followed by the bytes of the path.
pub open spec fn file_id_of(repo_id: Seq<char>, path: Seq<u8>) -> Seq<char> {
    sha1_hex(encode_utf8(repo_id) + path)
}

/// Computes the identifier of the repository at `remote`.
pub fn repo_id(remote: &str) -> (r: String)
    ensures
        r@ == repo_id_of(remote@),
        r@.len() == 40,
{
    let mut hasher = sha1::Sha1::new();
    hasher.update(remote.as_bytes());
    hex_digest(&hasher)
}

/// Computes the identifier of the document of the file at `path` in the
/// repository `repo_id`.
pub fn file_id(repo_id: &str, path: &[u8]) -> (r: String)
    ensures
        r@ == file_id_of(repo_id@, path@),
        r@.len() == 40,
{
    let mut hasher = sha1::Sha1::new();
    hasher.update(repo_id.as_bytes());
    hasher.update(path);
    hex_digest(&hasher)
}

} // verus!
