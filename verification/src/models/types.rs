//! Text comparison and byte paths.
//!
//! Paths are kept as the bytes the file system or Git handed over: nothing
//! guarantees that they are text in any encoding.

use vstd::prelude::*;
use vstd::slice::slice_to_vec;
use vstd::string::*;
use crate::result::RepoResult;

verus! {

/// Whether two string slices hold the same text.
pub fn str_eq(a: &str, b: &str) -> (r: bool)
    ensures
        r == (a@ == b@),
{
    let x = a.to_owned();
    let y = b.to_owned();
    x == y
}

/// Whether two byte strings are equal.
pub fn bytes_eq(a: &[u8], b: &[u8]) -> (r: bool)
    ensures
        r == (a@ == b@),
{
    if a.len() != b.len() {
        return false;
    }
    let mut i: usize = 0;
    while i < a.len()
        invariant
            a@.len() == b@.len(),
            i <= a@.len(),
            forall|k: int| 0 <= k < i ==> a@[k] == b@[k],
        decreases a@.len() - i,
    {
        if a[i] != b[i] {
            return false;
        }
        i += 1;
    }
    assert(a@ =~= b@);
    true
}

/// The byte that separates the components of a path.
pub const SEPARATOR: u8 = 47;

/// `name` appended to `base` as one more component.
///
/// A name that starts at the root replaces the base; otherwise exactly one
/// separator stands between a non-empty base and the name.
pub open spec fn path_join(base: Seq<u8>, name: Seq<u8>) -> Seq<u8> {
    if name.len() > 0 && name[0] == SEPARATOR {
        name
    } else if base.len() == 0 || base.last() == SEPARATOR {
        base + name
    } else {
        base + seq![SEPARATOR] + name
    }
}

/// A file-system path held as opaque bytes.
#[derive(Debug, PartialEq, Eq)]
pub struct RepoPath {
    pub bytes: Vec<u8>,
}

impl View for RepoPath {
    type V = Seq<u8>;

    open spec fn view(&self) -> Seq<u8> {
        self.bytes@
    }
}

impl Clone for RepoPath {
    fn clone(&self) -> (r: Self)
        ensures
            r@ == self@,
    {
        RepoPath { bytes: self.bytes.clone() }
    }
}

impl RepoPath {
    /// The empty path, which stands for the root a relative path starts from.
    pub fn new() -> (r: RepoPath)
        ensures
            r@ == Seq::<u8>::empty(),
    {
        RepoPath { bytes: Vec::new() }
    }

    /// The path spelled by `text`, byte for byte.
    pub fn from_str(text: &str) -> (r: RepoPath)
        ensures
            r@ == text.spec_bytes(),
    {
        RepoPath { bytes: text.as_bytes_vec() }
    }

    /// The path with `name` appended as one more component.
    pub fn join(&self, name: &[u8]) -> (r: RepoPath)
        ensures
            r@ == path_join(self@, name@),
    {
        let mut bytes: Vec<u8> = Vec::new();
        let absolute = name.len() > 0 && name[0] == SEPARATOR;
        if !absolute {
            bytes = self.bytes.clone();
            let n = bytes.len();
            if n > 0 && bytes[n - 1] != SEPARATOR {
                bytes.push(SEPARATOR);
            }
        }
        let ghost prefix = bytes@;
        let mut i: usize = 0;
        while i < name.len()
            invariant
                i <= name@.len(),
                bytes@ == prefix + name@.take(i as int),
            decreases name@.len() - i,
        {
            bytes.push(name[i]);
            assert(name@.take(i + 1) == name@.take(i as int).push(name@[i as int]));
            i += 1;
        }
        assert(name@.take(name@.len() as int) == name@);
        RepoPath { bytes }
    }

    /// Whether the two paths are the same bytes.
    pub fn same_as(&self, other: &RepoPath) -> (r: bool)
        ensures
            r == (self@ == other@),
    {
        bytes_eq(self.bytes.as_slice(), other.bytes.as_slice())
    }
}

/// The path whose bytes are `bytes`.
pub fn path_buf_from_bytes(bytes: &[u8]) -> (r: RepoPath)
    ensures
        r@ == bytes@,
{
    RepoPath { bytes: slice_to_vec(bytes) }
}

/// The path whose bytes are `bytes`, taking ownership of them.
pub fn path_buf_from_bytes_vec(bytes: Vec<u8>) -> (r: RepoPath)
    ensures
        r@ == bytes@,
{
    RepoPath { bytes }
}

/// The bytes of `path`. Every path has them, whatever they encode.
pub fn path_to_bytes<'a>(path: &'a RepoPath) -> (r: RepoResult<&'a [u8]>)
    ensures
        r matches Ok(bytes) && bytes@ == path@,
{
    Ok(path.bytes.as_slice())
}

/// An owned copy of the bytes of `path`.
pub fn path_to_bytes_vec(path: &RepoPath) -> (r: RepoResult<Vec<u8>>)
    ensures
        r matches Ok(bytes) && bytes@ == path@,
{
    Ok(path.bytes.clone())
}


/// The text of an optional string.
pub open spec fn opt_text(value: Option<String>) -> Option<Seq<char>> {
    match value {
        Some(text) => Some(text@),
        None => None,
    }
}

/// A copy of an optional string.
pub fn clone_opt_text(value: &Option<String>) -> (r: Option<String>)
    ensures
        opt_text(r) == opt_text(*value),
{
    match value {
        Some(text) => Some(text.clone()),
        None => None,
    }
}

/// The texts of a sequence of strings.
pub open spec fn texts(strings: Seq<String>) -> Seq<Seq<char>> {
    strings.map_values(|s: String| s@)
}

/// A copy of a list of strings.
pub fn clone_texts(strings: &Vec<String>) -> (r: Vec<String>)
    ensures
        texts(r@) == texts(strings@),
{
    let mut out: Vec<String> = Vec::new();
    let mut i: usize = 0;
    while i < strings.len()
        invariant
            i <= strings.len(),
            out@.len() == i,
            forall|k: int| 0 <= k < i ==> out@[k]@ == strings@[k]@,
        decreases strings.len() - i,
    {
        out.push(strings[i].clone());
        i += 1;
    }
    assert(texts(out@) =~= texts(strings@));
    out
}

} // verus!
