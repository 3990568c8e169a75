//! Keys of packages and of the repositories that own them.
//!
//! A package is known by its path below the directory that holds the
//! clones, `owner/repository/path/to/package`. The repository that owns it
//! is named by the first two components of that path.

use vstd::prelude::*;
use vstd::string::StrSliceExecFns;
use vstd::string::StringExecFns;

verus! {

/// The character that separates the components of a key.
pub const SEPARATOR: char = '/';

/// The number of leading components of a package key that name its repository.
pub const REPO_PATH_DEPTH: usize = 2;

/// The number of separators among the first `upto` characters of `key`.
pub open spec fn separators_before(key: Seq<char>, upto: int) -> nat
    decreases upto,
{
    if upto <= 0 || upto > key.len() {
        0
    } else if key[upto - 1] == SEPARATOR {
        separators_before(key, upto - 1) + 1
    } else {
        separators_before(key, upto - 1)
    }
}

/// Whether `at` is where the repository part of `key` ends: either the
/// position of the separator that closes the last repository component, or
/// the end of a key that has no such separator.
pub open spec fn is_repo_end(key: Seq<char>, at: int) -> bool {
    &&& 0 <= at <= key.len()
    &&& separators_before(key, at) < REPO_PATH_DEPTH
    &&& at < key.len() ==> key[at] == SEPARATOR && separators_before(key, at) + 1
        == REPO_PATH_DEPTH
}

/// The length of the repository part of `key`.
pub open spec fn repo_end(key: Seq<char>) -> int {
    choose|at: int| is_repo_end(key, at)
}

/// The key of the repository that owns the package `key`: the key up to,
/// and without, its second separator, or the whole key if it has fewer.
pub open spec fn repo_key(key: Seq<char>) -> Seq<char> {
    key.subrange(0, repo_end(key))
}

/// Counting separators never goes down as the prefix grows.
pub proof fn lemma_separators_monotone(key: Seq<char>, a: int, b: int)
    requires
        0 <= a <= b <= key.len(),
    ensures
        separators_before(key, a) <= separators_before(key, b),
    decreases b - a,
{
    if a < b {
        lemma_separators_monotone(key, a, b - 1);
    }
}

/// A key has exactly one place where its repository part ends.
pub proof fn lemma_repo_end_unique(key: Seq<char>, a: int, b: int)
    requires
        is_repo_end(key, a),
        is_repo_end(key, b),
    ensures
        a == b,
{
    if a < b {
        lemma_separators_monotone(key, a + 1, b);
    } else if b < a {
        lemma_separators_monotone(key, b + 1, a);
    }
}

/// The repository key of a package key is a prefix of it, and holds fewer
/// separators than the depth.
pub proof fn lemma_repo_key_is_prefix(key: Seq<char>, at: int)
    requires
        is_repo_end(key, at),
    ensures
        repo_end(key) == at,
        repo_key(key) == key.subrange(0, at),
        repo_key(key).len() <= key.len(),
        repo_key(key).is_prefix_of(key),
{
    lemma_repo_end_unique(key, at, repo_end(key));
}

/// The key of the repository that owns the package at `path`.
pub fn get_repo_path(path: &str) -> (repo: String)
    ensures
        repo@ == repo_key(path@),
        is_repo_end(path@, repo@.len() as int),
        repo@.is_prefix_of(path@),
{
    broadcast use vstd::string::group_string_axioms;

    let len = path.unicode_len();
    let mut at: usize = 0;
    let mut seen: usize = 0;
    let mut found = false;
    for c in scan: path.chars()
        invariant
            scan.seq() == path@,
            len == path@.len(),
            at <= len,
            found ==> is_repo_end(path@, at as int),
            !found ==> at == scan.index() && seen == separators_before(path@, at as int) && seen
                < REPO_PATH_DEPTH,
    {
        if !found {
            if c == SEPARATOR && seen + 1 == REPO_PATH_DEPTH {
                found = true;
            } else {
                if c == SEPARATOR {
                    seen = seen + 1;
                }
                at = at + 1;
            }
        }
    }
    proof {
        lemma_repo_key_is_prefix(path@, at as int);
    }
    String::from_str(path.substring_char(0, at))
}

} // verus!
