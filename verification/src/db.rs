//! Functionality shared by the local and sync databases.

use vstd::prelude::*;
use vstd::string::StrSliceExecFns;

pub mod local;
pub mod local_package;
pub mod sync;
pub mod sync_package;

verus! {

/// The name of the directory for sync databases.
pub fn sync_db_dir() -> (r: &'static str)
    ensures
        r@ =~= seq!['s', 'y', 'n', 'c'],
{
    proof {
        reveal_strlit("sync");
    }
    "sync"
}

/// The default extension of a sync database file.
pub fn default_sync_db_ext() -> (r: &'static str)
    ensures
        r@ =~= seq!['d', 'b'],
{
    proof {
        reveal_strlit("db");
    }
    "db"
}

/// The name of the local database.
pub fn local_db_name() -> (r: &'static str)
    ensures
        r@ =~= seq!['l', 'o', 'c', 'a', 'l'],
{
    proof {
        reveal_strlit("local");
    }
    "local"
}

/// A trait providing the database functionality the two database kinds
/// share.
pub trait Database {
    /// Get the name of this database.
    fn name(&self) -> String;

    /// Get the path of the root file or directory for this database.
    fn path(&self) -> String;

    /// Get the number of packages in the database.
    fn count(&self) -> usize;
}

/// The response from checking the status of a database.
#[derive(Debug, Clone, Copy, PartialEq, Eq, Structural)]
pub enum DbStatus {
    /// The database is not present.
    Missing,
    /// The database is present; `valid` says whether its structure checks
    /// out.
    Exists { valid: bool },
}

/// The trust level that signatures must match.
#[derive(Debug, Clone, Copy, PartialEq, Eq, Structural)]
pub enum SignatureLevel {
    /// Inherit the signature level required from the owning instance.
    Inherit,
    Optional,
    MarginalOk,
    UnknownOk,
}

impl Default for SignatureLevel {
    /// The default level inherits from the owning instance.
    fn default() -> (r: Self)
        ensures
            r == SignatureLevel::Inherit,
    {
        SignatureLevel::Inherit
    }
}

/// What a database is to be used for.
#[derive(Debug, Clone, Copy, PartialEq, Eq, Structural)]
pub struct DbUsage {
    pub sync: bool,
    pub search: bool,
    pub install: bool,
    pub upgrade: bool,
}

impl DbUsage {
    /// Usable for everything.
    pub fn all() -> (r: DbUsage)
        ensures
            r.sync && r.search && r.install && r.upgrade,
    {
        DbUsage { sync: true, search: true, install: true, upgrade: true }
    }
}

impl Default for DbUsage {
    /// The default usage allows everything.
    fn default() -> (r: Self)
        ensures
            r.sync && r.search && r.install && r.upgrade,
    {
        DbUsage::all()
    }
}

/// The index of the last occurrence of `c`.
pub open spec fn last_index_of_char(s: Seq<char>, c: char) -> Option<int>
    decreases s.len(),
{
    if s.len() == 0 {
        None
    } else if s[s.len() - 1] == c {
        Some(s.len() - 1)
    } else {
        last_index_of_char(s.drop_last(), c)
    }
}

/// `last_index_of_char` is pinned down by its characteristic properties.
pub proof fn lemma_last_index_of_char_is(s: Seq<char>, c: char, r: Option<int>)
    requires
        match r {
            Some(i) => 0 <= i < s.len() && s[i] == c && forall|j: int|
                i < j < s.len() ==> s[j] != c,
            None => forall|j: int| 0 <= j < s.len() ==> s[j] != c,
        },
    ensures
        last_index_of_char(s, c) == r,
    decreases s.len(),
{
    if s.len() > 0 && s[s.len() - 1] != c {
        let rest = s.drop_last();
        assert(forall|j: int| 0 <= j < rest.len() ==> rest[j] == s[j]);
        lemma_last_index_of_char_is(rest, c, r);
    }
}

/// A last index sits inside the string, on the character sought.
pub proof fn lemma_last_index_bounds(s: Seq<char>, c: char)
    requires
        last_index_of_char(s, c) is Some,
    ensures
        0 <= last_index_of_char(s, c)->0 < s.len(),
        s[last_index_of_char(s, c)->0] == c,
    decreases s.len(),
{
    if s.len() > 0 && s[s.len() - 1] != c {
        lemma_last_index_bounds(s.drop_last(), c);
        let rest = s.drop_last();
        assert(rest[last_index_of_char(rest, c)->0] == s[last_index_of_char(s, c)->0]);
    }
}

/// What splitting a package directory name yields: the name before the
/// second-from-last hyphen, and the version after it.  A name with fewer
/// than two hyphens does not split.
pub open spec fn spec_split_package_dirname(s: Seq<char>) -> Option<(Seq<char>, Seq<char>)> {
    match last_index_of_char(s, '-') {
        None => None,
        Some(l) => match last_index_of_char(s.take(l), '-') {
            None => None,
            Some(i) => Some((s.take(i), s.skip(i + 1))),
        },
    }
}

/// The index of the last `-` before position `end`, scanning by exec.
fn last_hyphen_before(s: &str, end: usize) -> (r: Option<usize>)
    requires
        end <= s@.len(),
    ensures
        match r {
            Some(i) => i < end && s@[i as int] == '-' && forall|j: int|
                i < j < end ==> s@[j] != '-',
            None => forall|j: int| 0 <= j < end ==> s@[j] != '-',
        },
{
    let mut k = end;
    while k > 0
        invariant
            k <= end <= s@.len(),
            forall|j: int| k <= j < end ==> s@[j] != '-',
        decreases k,
    {
        k -= 1;
        if s.get_char(k) == '-' {
            return Some(k);
        }
    }
    None
}

/// If the name has at least two hyphens, split at the second from last.
pub fn split_package_dirname(input: &str) -> (r: Option<(String, String)>)
    ensures
        match spec_split_package_dirname(input@) {
            Some(nv) => r is Some && (r->0).0@ == nv.0 && (r->0).1@ == nv.1,
            None => r is None,
        },
{
    let n = input.unicode_len();
    match last_hyphen_before(input, n) {
        None => {
            proof {
                lemma_last_index_of_char_is(input@, '-', None);
            }
            None
        },
        Some(l) => {
            proof {
                lemma_last_index_of_char_is(input@, '-', Some(l as int));
            }
            match last_hyphen_before(input, l) {
                None => {
                    proof {
                        assert(forall|j: int|
                            0 <= j < l ==> input@.take(l as int)[j] == input@[j]);
                        lemma_last_index_of_char_is(input@.take(l as int), '-', None);
                    }
                    None
                },
                Some(i) => {
                    proof {
                        assert(forall|j: int|
                            0 <= j < l ==> input@.take(l as int)[j] == input@[j]);
                        lemma_last_index_of_char_is(input@.take(l as int), '-', Some(i as int));
                    }
                    let name = input.substring_char(0, i).to_owned();
                    let version = input.substring_char(i + 1, n).to_owned();
                    proof {
                        assert(input@.take(i as int) =~= input@.subrange(0, i as int));
                        assert(input@.skip(i + 1) =~= input@.subrange(
                            i + 1,
                            input@.len() as int,
                        ));
                    }
                    Some((name, version))
                },
            }
        },
    }
}

} // verus!
