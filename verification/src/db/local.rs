//! The local database: the record of packages currently installed on the
//! managed filesystem root, one directory per package, lazily loaded.

use vstd::prelude::*;
use vstd::string::StrSliceExecFns;
use crate::db::{DbStatus, DbUsage, SignatureLevel, spec_split_package_dirname,
    split_package_dirname};
use crate::db::local_package::LocalPackage;
use crate::error::{Error, ErrorKind};
use crate::util::{join_path, spec_join_path, str_eq};
use crate::version::{run_len, CharClass, is_digit_b, version_newer};
use core::cmp::Ordering;

verus! {

/// The version the local database layout is expected to declare.
pub const LOCAL_DB_CURRENT_VERSION: u64 = 9;

/// The number a run of ASCII digit bytes denotes.
pub open spec fn byte_dec_val(s: Seq<u8>) -> int
    decreases s.len(),
{
    if s.len() == 0 {
        0
    } else {
        byte_dec_val(s.drop_last()) * 10 + (s.last() - 48)
    }
}

/// Digit runs denote nothing negative.
proof fn lemma_byte_dec_val_nonneg(s: Seq<u8>)
    requires
        forall|i: int| 0 <= i < s.len() ==> crate::version::is_digit_byte(#[trigger] s[i]),
    ensures
        byte_dec_val(s) >= 0,
    decreases s.len(),
{
    if s.len() > 0 {
        lemma_byte_dec_val_nonneg(s.drop_last());
    }
}

/// A digit run denotes at least what any of its prefixes denotes.
proof fn lemma_byte_dec_val_mono(s: Seq<u8>, k: int)
    requires
        forall|i: int| 0 <= i < s.len() ==> crate::version::is_digit_byte(#[trigger] s[i]),
        0 <= k <= s.len(),
    ensures
        byte_dec_val(s) >= byte_dec_val(s.take(k)),
    decreases s.len() - k,
{
    if k == s.len() {
        assert(s.take(k) =~= s);
    } else {
        lemma_byte_dec_val_mono(s, k + 1);
        assert(s.take(k + 1).drop_last() =~= s.take(k));
        lemma_byte_dec_val_nonneg(s.take(k));
    }
}

/// What the version marker bytes declare: the number its leading digit run
/// denotes, when there is one and it fits.
pub open spec fn spec_parse_db_version(raw: Seq<u8>) -> Option<u64> {
    let d = run_len(raw, CharClass::Numeric) as int;
    if d == 0 {
        None
    } else if byte_dec_val(raw.take(d)) > u64::MAX {
        None
    } else {
        Some(byte_dec_val(raw.take(d)) as u64)
    }
}

/// Parse the leading digit run of a version marker file.
pub fn parse_db_version(raw: &[u8]) -> (r: Option<u64>)
    ensures
        r == spec_parse_db_version(raw@),
{
    let n = raw.len();
    let mut d: usize = 0;
    while d < n
        invariant
            n == raw@.len(),
            d <= n,
            forall|k: int| 0 <= k < d ==> crate::version::is_digit_byte(raw@[k]),
        ensures
            d <= n,
            forall|k: int| 0 <= k < d ==> crate::version::is_digit_byte(raw@[k]),
            d < n ==> !crate::version::is_digit_byte(raw@[d as int]),
        decreases n - d,
    {
        if !is_digit_b(*vstd::slice::slice_index_get(raw, d)) {
            break;
        }
        d += 1;
    }
    proof {
        crate::version::lemma_run_len_is(raw@, CharClass::Numeric, d as int);
    }
    if d == 0 {
        return None;
    }
    let ghost digits = raw@.take(d as int);
    let mut v: u64 = 0;
    let mut k: usize = 0;
    proof {
        assert(digits.take(0) =~= Seq::<u8>::empty());
    }
    while k < d
        invariant
            n == raw@.len(),
            k <= d <= n,
            1 <= d,
            run_len(raw@, CharClass::Numeric) == d,
            digits == raw@.take(d as int),
            forall|j: int| 0 <= j < d ==> crate::version::is_digit_byte(raw@[j]),
            v == byte_dec_val(digits.take(k as int)),
        decreases d - k,
    {
        let b = *vstd::slice::slice_index_get(raw, k);
        let dv = (b - 48) as u64;
        proof {
            assert(digits[k as int] == raw@[k as int]);
            assert(digits.take(k + 1).drop_last() =~= digits.take(k as int));
            assert(digits.take(k + 1).last() == digits[k as int]);
        }
        if v > 1844674407370955161 || (v == 1844674407370955161 && dv > 5) {
            proof {
                assert(byte_dec_val(digits.take(k + 1)) == v * 10 + dv);
                lemma_byte_dec_val_mono(digits, k + 1);
                assert(digits.take(digits.len() as int) =~= digits);
            }
            return None;
        }
        v = v * 10 + dv;
        k += 1;
    }
    proof {
        assert(digits.take(d as int) =~= digits);
    }
    Some(v)
}

/// The content a fresh version marker file is given: the version number
/// and a newline.
pub fn version_marker_content() -> (r: Vec<u8>)
    ensures
        r@ =~= seq![57u8, 10u8],
        spec_parse_db_version(r@) == Some(LOCAL_DB_CURRENT_VERSION),
{
    let v: Vec<u8> = vec![57u8, 10u8];
    proof {
        crate::version::lemma_run_len_is(v@, CharClass::Numeric, 1);
        assert(byte_dec_val(Seq::<u8>::empty()) == 0);
        assert(v@.take(1).drop_last() =~= Seq::<u8>::empty());
        assert(v@.take(1).last() == 57u8);
    }
    v
}

/// What the status check concludes from what the filesystem shows: whether
/// the database directory is there and is a directory, what the version
/// marker holds (`None` when absent), whether the directory is otherwise
/// empty, and whether the caller managed to create a fresh marker.
pub open spec fn spec_evaluate_status(
    dir: Option<bool>,
    marker: Option<Seq<u8>>,
    dir_empty: bool,
    marker_created: bool,
) -> DbStatus {
    match dir {
        None => DbStatus::Missing,
        Some(is_dir) => if !is_dir {
            DbStatus::Exists { valid: false }
        } else {
            DbStatus::Exists {
                valid: match marker {
                    Some(raw) => spec_parse_db_version(raw) == Some(LOCAL_DB_CURRENT_VERSION),
                    None => dir_empty && marker_created,
                },
            }
        },
    }
}

/// Decide the database status.  Missing directory means missing; present
/// but not a directory means invalid; else the marker must declare the
/// expected version, and an absent marker is valid only in an otherwise
/// empty directory where a fresh marker could be written (a bootstrap
/// affordance, not a repair).
pub fn evaluate_status(
    dir: Option<bool>,
    marker: Option<&Vec<u8>>,
    dir_empty: bool,
    marker_created: bool,
) -> (r: DbStatus)
    ensures
        r == spec_evaluate_status(
            dir,
            match marker {
                Some(m) => Some(m@),
                None => None,
            },
            dir_empty,
            marker_created,
        ),
{
    match dir {
        None => DbStatus::Missing,
        Some(is_dir) => {
            if !is_dir {
                DbStatus::Exists { valid: false }
            } else {
                match marker {
                    Some(raw) => {
                        let valid = match parse_db_version(raw.as_slice()) {
                            Some(v) => v == LOCAL_DB_CURRENT_VERSION,
                            None => false,
                        };
                        DbStatus::Exists { valid }
                    },
                    None => DbStatus::Exists { valid: dir_empty && marker_created },
                }
            }
        },
    }
}

/// One directory entry of the local database directory, as the filesystem
/// shows it.
#[derive(Debug, Clone, PartialEq)]
pub struct DirEntryInfo {
    /// The file name of the entry.
    pub file_name: String,
    /// Whether the entry is a directory.
    pub is_dir: bool,
}

/// The pairs a directory listing stands for.
pub open spec fn dirents_view(v: Seq<DirEntryInfo>) -> Seq<(Seq<char>, bool)> {
    v.map_values(|e: DirEntryInfo| (e.file_name@, e.is_dir))
}

/// What scanning a directory listing yields: for each subdirectory, the
/// directory name together with its split into package name and version,
/// in listing order; or the first name that does not split.
pub open spec fn spec_scan(es: Seq<(Seq<char>, bool)>) -> Result<
    Seq<(Seq<char>, Seq<char>, Seq<char>)>,
    Seq<char>,
>
    decreases es.len(),
{
    if es.len() == 0 {
        Ok(Seq::empty())
    } else {
        let head = es[0];
        if !head.1 {
            spec_scan(es.drop_first())
        } else {
            match spec_split_package_dirname(head.0) {
                None => Err(head.0),
                Some(nv) => match spec_scan(es.drop_first()) {
                    Err(e) => Err(e),
                    Ok(t) => Ok(seq![(head.0, nv.0, nv.1)] + t),
                },
            }
        }
    }
}

/// A split directory name is the name, a hyphen, and the version.
pub proof fn lemma_split_recombine(s: Seq<char>)
    requires
        spec_split_package_dirname(s) is Some,
    ensures
        s == (spec_split_package_dirname(s)->0).0 + seq!['-'] + (spec_split_package_dirname(
            s,
        )->0).1,
{
    let l = crate::db::last_index_of_char(s, '-')->0;
    crate::db::lemma_last_index_bounds(s, '-');
    crate::db::lemma_last_index_bounds(s.take(l), '-');
    let i = crate::db::last_index_of_char(s.take(l), '-')->0;
    assert(s.take(l)[i] == '-');
    assert(s[i] == '-');
    assert(s =~= s.take(i) + seq!['-'] + s.skip(i + 1));
}

/// A lazily loaded package slot.
#[derive(Debug, Clone)]
pub enum MaybePackage {
    /// Not loaded yet: where the entry sits, and the name and version its
    /// directory name carries.
    Unloaded { path: String, name: String, version: String },
    /// Loaded.
    Loaded(LocalPackage),
}

/// The name a slot is filed under.
pub open spec fn entry_name(e: MaybePackage) -> Seq<char> {
    match e {
        MaybePackage::Unloaded { name, .. } => name@,
        MaybePackage::Loaded(p) => p.spec_desc().name,
    }
}

/// The version a slot is filed under.
pub open spec fn entry_version(e: MaybePackage) -> Seq<char> {
    match e {
        MaybePackage::Unloaded { version, .. } => version@,
        MaybePackage::Loaded(p) => p.spec_desc().version,
    }
}

/// The first slot filed under this name and version.
pub open spec fn spec_entry_slot(
    es: Seq<MaybePackage>,
    name: Seq<char>,
    version: Seq<char>,
) -> Option<int>
    decreases es.len(),
{
    if es.len() == 0 {
        None
    } else if entry_name(es[0]) == name && entry_version(es[0]) == version {
        Some(0)
    } else {
        match spec_entry_slot(es.drop_first(), name, version) {
            Some(i) => Some(i + 1),
            None => None,
        }
    }
}

/// What `spec_entry_slot` finds: the index it returns carries the name and
/// version, and nothing before it (or nothing at all, on `None`) does.
pub proof fn lemma_entry_slot(es: Seq<MaybePackage>, name: Seq<char>, version: Seq<char>)
    ensures
        match spec_entry_slot(es, name, version) {
            Some(i) => 0 <= i < es.len() && entry_name(es[i]) == name && entry_version(es[i])
                == version,
            None => forall|j: int|
                0 <= j < es.len() ==> !(entry_name(#[trigger] es[j]) == name && entry_version(
                    es[j],
                ) == version),
        },
    decreases es.len(),
{
    if es.len() > 0 && !(entry_name(es[0]) == name && entry_version(es[0]) == version) {
        lemma_entry_slot(es.drop_first(), name, version);
        let d = es.drop_first();
        match spec_entry_slot(d, name, version) {
            Some(i) => {
                assert(d[i] == es[i + 1]);
            },
            None => {
                assert forall|j: int|
                    0 <= j < es.len() implies !(entry_name(#[trigger] es[j]) == name
                    && entry_version(es[j]) == version) by {
                    if j > 0 {
                        assert(d[j - 1] == es[j]);
                    }
                }
            },
        }
    }
}

/// `spec_entry_slot` is pinned down by its characteristic properties.
pub proof fn lemma_entry_slot_is(
    es: Seq<MaybePackage>,
    name: Seq<char>,
    version: Seq<char>,
    r: Option<int>,
)
    requires
        match r {
            Some(i) => 0 <= i < es.len() && entry_name(es[i]) == name && entry_version(es[i])
                == version && forall|j: int|
                0 <= j < i ==> !(entry_name(#[trigger] es[j]) == name && entry_version(es[j])
                    == version),
            None => forall|j: int|
                0 <= j < es.len() ==> !(entry_name(#[trigger] es[j]) == name && entry_version(
                    es[j],
                ) == version),
        },
    ensures
        spec_entry_slot(es, name, version) == r,
    decreases es.len(),
{
    if es.len() > 0 && !(entry_name(es[0]) == name && entry_version(es[0]) == version) {
        let d = es.drop_first();
        match r {
            Some(i) => {
                assert(d[i - 1] == es[i]);
                assert forall|j: int|
                    0 <= j < i - 1 implies !(entry_name(#[trigger] d[j]) == name
                    && entry_version(d[j]) == version) by {
                    assert(d[j] == es[j + 1]);
                }
                lemma_entry_slot_is(d, name, version, Some(i - 1));
            },
            None => {
                assert forall|j: int|
                    0 <= j < d.len() implies !(entry_name(#[trigger] d[j]) == name
                    && entry_version(d[j]) == version) by {
                    assert(d[j] == es[j + 1]);
                }
                lemma_entry_slot_is(d, name, version, None);
            },
        }
    }
}

/// Where the scan for the newest version of `name` stands once the slots
/// before `k` are folded into `best`: a later slot of the name takes over
/// exactly when the comparator ranks its version strictly newer.
pub open spec fn spec_latest_from(
    es: Seq<MaybePackage>,
    name: Seq<char>,
    k: int,
    best: Option<int>,
) -> Option<int>
    decreases es.len() - k,
    when 0 <= k <= es.len()
{
    if k >= es.len() {
        best
    } else {
        let replace = entry_name(es[k]) == name && (match best {
            None => true,
            Some(b) => crate::version::spec_cmp(
                crate::version::spec_version_of(entry_version(es[k])),
                crate::version::spec_version_of(entry_version(es[b])),
            ) == Ordering::Greater,
        });
        spec_latest_from(
            es,
            name,
            k + 1,
            if replace {
                Some(k)
            } else {
                best
            },
        )
    }
}

/// The slot `latest_index` picks for a name.
pub open spec fn spec_latest_slot(es: Seq<MaybePackage>, name: Seq<char>) -> Option<int> {
    spec_latest_from(es, name, 0, None)
}

/// Every slot of this name carries a version whose three sections are
/// tame, and the versions agree on carrying a release.  The comparator
/// orders such versions transitively, so the scan's pick is then a
/// maximum; on wilder versions the comparator itself is not transitive
/// and no pick could be.
pub open spec fn latest_pick_comparable(es: Seq<MaybePackage>, name: Seq<char>) -> bool {
    &&& (forall|j: int|
        0 <= j < es.len() && entry_name(#[trigger] es[j]) == name
            ==> crate::version::view_tame(
            crate::version::spec_version_of(entry_version(es[j])),
        ))
    &&& (forall|i: int, j: int|
        0 <= i < es.len() && 0 <= j < es.len() && entry_name(#[trigger] es[i]) == name
            && entry_name(#[trigger] es[j]) == name ==> (crate::version::spec_version_of(
            entry_version(es[i]),
        ).release is Some) == (crate::version::spec_version_of(
            entry_version(es[j]),
        ).release is Some))
}

/// On comparable slots the scan's pick carries a maximal version among
/// the slots of the name.
#[verifier::rlimit(100)]
#[verifier::spinoff_prover]
proof fn lemma_latest_from_maximal(
    es: Seq<MaybePackage>,
    name: Seq<char>,
    k: int,
    best: Option<int>,
)
    requires
        latest_pick_comparable(es, name),
        0 <= k <= es.len(),
        match best {
            Some(b) => 0 <= b < k && entry_name(es[b]) == name && forall|j: int|
                0 <= j < k && entry_name(#[trigger] es[j]) == name
                    ==> crate::version::spec_version_le(
                    entry_version(es[j]),
                    entry_version(es[b]),
                ),
            None => forall|j: int| 0 <= j < k ==> entry_name(#[trigger] es[j]) != name,
        },
    ensures
        match spec_latest_from(es, name, k, best) {
            Some(i) => 0 <= i < es.len() && entry_name(es[i]) == name && forall|j: int|
                0 <= j < es.len() && entry_name(#[trigger] es[j]) == name
                    ==> crate::version::spec_version_le(
                    entry_version(es[j]),
                    entry_version(es[i]),
                ),
            None => forall|j: int| 0 <= j < es.len() ==> entry_name(#[trigger] es[j]) != name,
        },
    decreases es.len() - k,
{
    if k < es.len() {
        let vk = crate::version::spec_version_of(entry_version(es[k]));
        let replace = entry_name(es[k]) == name && (match best {
            None => true,
            Some(b) => crate::version::spec_cmp(
                vk,
                crate::version::spec_version_of(entry_version(es[b])),
            ) == Ordering::Greater,
        });
        if replace {
            crate::version::lemma_spec_cmp_refl(vk);
            match best {
                None => {},
                Some(b) => {
                    let vb = crate::version::spec_version_of(entry_version(es[b]));
                    assert forall|j: int|
                        0 <= j < k + 1 && entry_name(#[trigger] es[j]) == name
                            implies crate::version::spec_version_le(
                        entry_version(es[j]),
                        entry_version(es[k]),
                    ) by {
                        if j < k {
                            let vj = crate::version::spec_version_of(entry_version(es[j]));
                            crate::version::lemma_beats_all(vj, vb, vk);
                        }
                    }
                },
            }
            lemma_latest_from_maximal(es, name, k + 1, Some(k));
        } else {
            match best {
                Some(b) => {
                    assert forall|j: int|
                        0 <= j < k + 1 && entry_name(#[trigger] es[j]) == name
                            implies crate::version::spec_version_le(
                        entry_version(es[j]),
                        entry_version(es[b]),
                    ) by {}
                },
                None => {},
            }
            lemma_latest_from_maximal(es, name, k + 1, best);
        }
    }
}

/// What `spec_latest_from` finds: an index of the name when there is one
/// among the slots it has seen, else its starting point.
proof fn lemma_latest_from(es: Seq<MaybePackage>, name: Seq<char>, k: int, best: Option<int>)
    requires
        0 <= k <= es.len(),
        match best {
            Some(b) => 0 <= b < k && entry_name(es[b]) == name,
            None => forall|j: int| 0 <= j < k ==> entry_name(#[trigger] es[j]) != name,
        },
    ensures
        match spec_latest_from(es, name, k, best) {
            Some(i) => 0 <= i < es.len() && entry_name(es[i]) == name,
            None => forall|j: int| 0 <= j < es.len() ==> entry_name(#[trigger] es[j]) != name,
        },
    decreases es.len() - k,
{
    if k < es.len() {
        let replace = entry_name(es[k]) == name && (match best {
            None => true,
            Some(b) => crate::version::spec_cmp(
                crate::version::spec_version_of(entry_version(es[k])),
                crate::version::spec_version_of(entry_version(es[b])),
            ) == Ordering::Greater,
        });
        lemma_latest_from(
            es,
            name,
            k + 1,
            if replace {
                Some(k)
            } else {
                best
            },
        );
    }
}

/// The inner state of the local database: its path under the database
/// root, and one slot per package directory found there.
#[derive(Debug)]
pub struct LocalDatabaseInner {
    /// The level of signature verification required to accept packages.
    sig_level: SignatureLevel,
    /// Which operations this database will be used for.
    usage: DbUsage,
    /// The database path: `$database_path/local`.
    path: String,
    /// The package slots.
    entries: Vec<MaybePackage>,
}

impl LocalDatabaseInner {
    /// The database path.
    pub closed spec fn spec_path(&self) -> Seq<char> {
        self.path@
    }

    /// The package slots.
    pub closed spec fn spec_entries(&self) -> Seq<MaybePackage> {
        self.entries@
    }

    /// Create the handle for the local database under the given database
    /// root; the slots are filled by `populate_package_cache`.
    pub fn new(database_path: &str, sig_level: SignatureLevel) -> (r: LocalDatabaseInner)
        ensures
            r.spec_path() == spec_join_path(database_path@, seq!['l', 'o', 'c', 'a', 'l']),
            r.spec_entries().len() == 0,
    {
        let path = join_path(database_path, crate::db::local_db_name());
        LocalDatabaseInner { sig_level, usage: DbUsage::all(), path, entries: Vec::new() }
    }

    /// The name of this database.
    pub fn name(&self) -> (r: &'static str)
        ensures
            r@ =~= seq!['l', 'o', 'c', 'a', 'l'],
    {
        crate::db::local_db_name()
    }

    /// The path of the database directory.
    pub fn path(&self) -> (r: &str)
        ensures
            r@ == self.spec_path(),
    {
        self.path.as_str()
    }

    /// The number of package slots.
    pub fn count(&self) -> (r: usize)
        ensures
            r == self.spec_entries().len(),
    {
        self.entries.len()
    }

    /// Fill the slots from a listing of the database directory: each
    /// subdirectory name splits into a package name and version; one that
    /// does not split fails the scan.  Files are passed over (the version
    /// marker lives among them).
    pub fn populate_package_cache(&mut self, listing: &Vec<DirEntryInfo>) -> (r: Result<
        (),
        Error,
    >)
        requires
            old(self).spec_entries().len() == 0,
        ensures
            final(self).spec_path() == old(self).spec_path(),
            match spec_scan(dirents_view(listing@)) {
                Ok(nvs) => r is Ok && final(self).spec_entries().len() == nvs.len() && (forall|
                    i: int,
                |
                    0 <= i < nvs.len() ==> {
                        let e = #[trigger] final(self).spec_entries()[i];
                        &&& e is Unloaded
                        &&& entry_name(e) == nvs[i].1
                        &&& entry_version(e) == nvs[i].2
                        &&& e->Unloaded_path@ == spec_join_path(
                            old(self).spec_path(),
                            nvs[i].0,
                        )
                    }),
                Err(bad) => r is Err && r->Err_0.kind is InvalidLocalPackage
                    && r->Err_0.kind->InvalidLocalPackage_0@ == bad,
            },
    {
        let ghost lv = dirents_view(listing@);
        let mut k: usize = 0;
        proof {
            assert(lv.skip(0) =~= lv);
        }
        while k < listing.len()
            invariant
                k <= listing@.len(),
                lv == dirents_view(listing@),
                self.spec_path() == old(self).spec_path(),
                spec_scan(lv) == (match spec_scan(lv.skip(k as int)) {
                    Ok(t) => Ok::<Seq<(Seq<char>, Seq<char>, Seq<char>)>, Seq<char>>(
                        entries_scan(self.spec_entries()) + t,
                    ),
                    Err(e) => Err(e),
                }),
                forall|i: int|
                    0 <= i < self.spec_entries().len() ==> (#[trigger] self.spec_entries()[i])
                        is Unloaded && self.spec_entries()[i]->Unloaded_path@ == spec_join_path(
                        old(self).spec_path(),
                        entries_scan(self.spec_entries())[i].0,
                    ),
                entries_scan(self.spec_entries()).len() == self.spec_entries().len(),
            decreases listing@.len() - k,
        {
            let ghost tail = lv.skip(k as int);
            proof {
                assert(tail[0] == (listing@[k as int].file_name@, listing@[k as int].is_dir));
                assert(tail.drop_first() =~= lv.skip(k + 1));
            }
            let ent = &listing[k];
            if ent.is_dir {
                match split_package_dirname(ent.file_name.as_str()) {
                    None => {
                        return Err(
                            Error::from_kind(
                                ErrorKind::InvalidLocalPackage(ent.file_name.clone()),
                            ),
                        );
                    },
                    Some((name, version)) => {
                        let path = join_path(self.path.as_str(), ent.file_name.as_str());
                        let slot = MaybePackage::Unloaded { path, name, version };
                        proof {
                            lemma_split_recombine(tail[0].0);
                            assert(entries_scan(self.spec_entries().push(slot)) =~= entries_scan(
                                self.spec_entries(),
                            ) + seq![(tail[0].0, entry_name(slot), entry_version(slot))]);
                            if spec_scan(lv.skip(k + 1)) is Ok {
                                let t = spec_scan(lv.skip(k + 1))->Ok_0;
                                assert(entries_scan(self.spec_entries()) + (seq![
                                    (tail[0].0, entry_name(slot), entry_version(slot)),
                                ] + t) =~= (entries_scan(self.spec_entries()) + seq![
                                    (tail[0].0, entry_name(slot), entry_version(slot)),
                                ]) + t);
                            }
                        }
                        self.entries.push(slot);
                    },
                }
            }
            k += 1;
        }
        proof {
            assert(lv.skip(listing@.len() as int)
                =~= Seq::<(Seq<char>, bool)>::empty());
            if spec_scan(lv) is Ok {
                assert(entries_scan(self.spec_entries())
                    + Seq::<(Seq<char>, Seq<char>, Seq<char>)>::empty() =~= entries_scan(
                    self.spec_entries(),
                ));
                assert forall|i: int|
                    0 <= i < spec_scan(lv)->Ok_0.len() implies {
                    let e = #[trigger] self.spec_entries()[i];
                    &&& e is Unloaded
                    &&& entry_name(e) == spec_scan(lv)->Ok_0[i].1
                    &&& entry_version(e) == spec_scan(lv)->Ok_0[i].2
                    &&& e->Unloaded_path@ == spec_join_path(
                        old(self).spec_path(),
                        spec_scan(lv)->Ok_0[i].0,
                    )
                } by {
                    assert(entries_scan(self.spec_entries())[i] == spec_scan(lv)->Ok_0[i]);
                }
            }
        }
        Ok(())
    }

    /// The index of the first slot filed under this name and version.
    pub fn entry_index(&self, name: &str, version: &str) -> (r: Option<usize>)
        ensures
            match spec_entry_slot(self.spec_entries(), name@, version@) {
                Some(i) => r is Some && r->0 as int == i,
                None => r is None,
            },
    {
        let mut k: usize = 0;
        while k < self.entries.len()
            invariant
                k <= self.entries@.len(),
                forall|j: int|
                    0 <= j < k ==> !(entry_name(#[trigger] self.spec_entries()[j]) == name@
                        && entry_version(self.spec_entries()[j]) == version@),
            decreases self.entries@.len() - k,
        {
            let (en, ev) = match &self.entries[k] {
                MaybePackage::Unloaded { name, version, .. } => (name.as_str(), version.as_str()),
                MaybePackage::Loaded(p) => (p.name(), p.version()),
            };
            if str_eq(en, name) && str_eq(ev, version) {
                proof {
                    lemma_entry_slot_is(self.spec_entries(), name@, version@, Some(k as int));
                }
                return Some(k);
            }
            k += 1;
        }
        proof {
            lemma_entry_slot_is(self.spec_entries(), name@, version@, None);
        }
        None
    }

    /// The index of the slot whose version the comparator of
    /// `version_cmp` ranks newest among the slots of this name; earlier
    /// slots win ties.
    pub fn latest_index(&self, name: &str) -> (r: Option<usize>)
        ensures
            match spec_latest_slot(self.spec_entries(), name@) {
                Some(i) => r is Some && r->0 as int == i,
                None => r is None,
            },
            match r {
                Some(i) => i < self.spec_entries().len() && entry_name(
                    self.spec_entries()[i as int],
                ) == name@,
                None => forall|j: int|
                    0 <= j < self.spec_entries().len() ==> entry_name(
                        #[trigger] self.spec_entries()[j],
                    ) != name@,
            },
            latest_pick_comparable(self.spec_entries(), name@) ==> match spec_latest_slot(
                self.spec_entries(),
                name@,
            ) {
                Some(i) => forall|j: int|
                    0 <= j < self.spec_entries().len() && entry_name(
                        #[trigger] self.spec_entries()[j],
                    ) == name@ ==> crate::version::spec_version_le(
                        entry_version(self.spec_entries()[j]),
                        entry_version(self.spec_entries()[i]),
                    ),
                None => true,
            },
    {
        proof {
            if latest_pick_comparable(self.spec_entries(), name@) {
                lemma_latest_from_maximal(self.spec_entries(), name@, 0, None);
            }
        }
        let ghost es = self.spec_entries();
        let mut best: Option<usize> = None;
        let mut k: usize = 0;
        while k < self.entries.len()
            invariant
                es == self.spec_entries(),
                k <= es.len(),
                spec_latest_slot(es, name@) == spec_latest_from(
                    es,
                    name@,
                    k as int,
                    match best {
                        Some(b) => Some(b as int),
                        None => None::<int>,
                    },
                ),
                match best {
                    Some(b) => b < k && entry_name(es[b as int]) == name@,
                    None => forall|j: int| 0 <= j < k ==> entry_name(#[trigger] es[j]) != name@,
                },
            decreases es.len() - k,
        {
            let ghost gbest: Option<int> = match best {
                Some(b) => Some(b as int),
                None => None,
            };
            let (en, ev) = match &self.entries[k] {
                MaybePackage::Unloaded { name, version, .. } => (name.as_str(), version.as_str()),
                MaybePackage::Loaded(p) => (p.name(), p.version()),
            };
            let replace: bool = if str_eq(en, name) {
                match best {
                    None => true,
                    Some(b) => {
                        let bv = match &self.entries[b] {
                            MaybePackage::Unloaded { version, .. } => version.as_str(),
                            MaybePackage::Loaded(p) => p.version(),
                        };
                        version_newer(ev, bv)
                    },
                }
            } else {
                false
            };
            proof {
                assert(spec_latest_from(es, name@, k as int, gbest) == spec_latest_from(
                    es,
                    name@,
                    k as int + 1,
                    if replace {
                        Some(k as int)
                    } else {
                        gbest
                    },
                ));
            }
            if replace {
                best = Some(k);
            }
            k += 1;
        }
        best
    }

    /// The slot at an index.
    pub fn entry_at(&self, i: usize) -> (r: &MaybePackage)
        requires
            i < self.spec_entries().len(),
        ensures
            r == &self.spec_entries()[i as int],
    {
        &self.entries[i]
    }

    /// All slots.
    pub fn packages(&self) -> (r: &Vec<MaybePackage>)
        ensures
            r@ == self.spec_entries(),
    {
        &self.entries
    }

    /// Store a loaded package into its slot.  The caller loads the slot's
    /// raw texts off disk and runs them through `LocalPackage::from_local`.
    pub fn store_loaded(&mut self, i: usize, pkg: LocalPackage)
        requires
            i < old(self).spec_entries().len(),
        ensures
            final(self).spec_path() == old(self).spec_path(),
            final(self).spec_entries() == old(self).spec_entries().update(
                i as int,
                MaybePackage::Loaded(pkg),
            ),
    {
        self.entries.set(i, MaybePackage::Loaded(pkg));
    }

    /// Get a loaded package: the first slot of this name and version, when
    /// it has been loaded.  A slot that exists but was not loaded yet
    /// reports the same invalid-package error as a missing one; the caller
    /// drives loading through `entry_index` and `store_loaded`.
    pub fn package(&self, name: &str, version: &str) -> (r: Result<&LocalPackage, Error>)
        ensures
            match spec_entry_slot(self.spec_entries(), name@, version@) {
                Some(i) => match self.spec_entries()[i] {
                    MaybePackage::Loaded(p) => r is Ok && *r->Ok_0 == p,
                    MaybePackage::Unloaded { .. } => r is Err,
                },
                None => r is Err,
            },
            r is Ok ==> exists|i: int|
                0 <= i < self.spec_entries().len() && self.spec_entries()[i]
                    == MaybePackage::Loaded(*r->Ok_0) && entry_name(
                    #[trigger] self.spec_entries()[i],
                ) == name@ && entry_version(self.spec_entries()[i]) == version@,
            r is Err ==> r->Err_0.kind is InvalidLocalPackage
                && r->Err_0.kind->InvalidLocalPackage_0@ == name@,
    {
        proof {
            lemma_entry_slot(self.spec_entries(), name@, version@);
        }
        match self.entry_index(name, version) {
            Some(i) => match &self.entries[i] {
                MaybePackage::Loaded(p) => {
                    proof {
                        assert(self.spec_entries()[i as int] == MaybePackage::Loaded(*p));
                    }
                    Ok(p)
                },
                MaybePackage::Unloaded { .. } => Err(
                    Error::from_kind(ErrorKind::InvalidLocalPackage(name.to_owned())),
                ),
            },
            None => Err(Error::from_kind(ErrorKind::InvalidLocalPackage(name.to_owned()))),
        }
    }

    /// Get the latest loaded version of a package: the slot the comparator
    /// ranks newest among those of this name.  The slot must have been
    /// loaded, as for `package`.
    #[verifier::rlimit(100)]
    pub fn package_latest(&self, name: &str) -> (r: Result<&LocalPackage, Error>)
        ensures
            match spec_latest_slot(self.spec_entries(), name@) {
                Some(i) => match self.spec_entries()[i] {
                    MaybePackage::Loaded(p) => r is Ok && *r->Ok_0 == p,
                    MaybePackage::Unloaded { .. } => r is Err,
                },
                None => r is Err,
            },
            r is Ok ==> exists|i: int|
                0 <= i < self.spec_entries().len() && self.spec_entries()[i]
                    == MaybePackage::Loaded(*r->Ok_0) && entry_name(
                    #[trigger] self.spec_entries()[i],
                ) == name@,
            r is Err ==> r->Err_0.kind is InvalidLocalPackage
                && r->Err_0.kind->InvalidLocalPackage_0@ == name@,
            ((exists|j: int|
                0 <= j < self.spec_entries().len() && entry_name(#[trigger] self.spec_entries()[j])
                    == name@) && (forall|j: int|
                0 <= j < self.spec_entries().len() && entry_name(#[trigger] self.spec_entries()[j])
                    == name@ ==> self.spec_entries()[j] is Loaded)) ==> r is Ok,
            latest_pick_comparable(self.spec_entries(), name@) ==> match spec_latest_slot(
                self.spec_entries(),
                name@,
            ) {
                Some(i) => forall|j: int|
                    0 <= j < self.spec_entries().len() && entry_name(
                        #[trigger] self.spec_entries()[j],
                    ) == name@ ==> crate::version::spec_version_le(
                        entry_version(self.spec_entries()[j]),
                        entry_version(self.spec_entries()[i]),
                    ),
                None => true,
            },
    {
        proof {
            lemma_latest_from(self.spec_entries(), name@, 0, None);
            if latest_pick_comparable(self.spec_entries(), name@) {
                lemma_latest_from_maximal(self.spec_entries(), name@, 0, None);
            }
        }
        match self.latest_index(name) {
            Some(i) => match &self.entries[i] {
                MaybePackage::Loaded(p) => {
                    proof {
                        assert(self.spec_entries()[i as int] == MaybePackage::Loaded(*p));
                    }
                    Ok(p)
                },
                MaybePackage::Unloaded { .. } => Err(
                    Error::from_kind(ErrorKind::InvalidLocalPackage(name.to_owned())),
                ),
            },
            None => Err(Error::from_kind(ErrorKind::InvalidLocalPackage(name.to_owned()))),
        }
    }
}

/// The scan triples the current slots stand for (directory name
/// reconstructed from name and version).
pub open spec fn entries_scan(es: Seq<MaybePackage>) -> Seq<(Seq<char>, Seq<char>, Seq<char>)> {
    es.map_values(
        |e: MaybePackage| (entry_name(e) + seq!['-'] + entry_version(e), entry_name(e), entry_version(e)),
    )
}

/// The local database: a thin handle around the inner state.
#[derive(Debug)]
pub struct LocalDatabase {
    inner: LocalDatabaseInner,
}

impl LocalDatabase {
    /// The inner state.
    pub closed spec fn spec_inner(&self) -> LocalDatabaseInner {
        self.inner
    }

    /// Wrap the inner state of a local database.
    pub fn new(inner: LocalDatabaseInner) -> (r: LocalDatabase)
        ensures
            r.spec_inner() == inner,
    {
        LocalDatabase { inner }
    }

    /// Get the name of this database.
    pub fn name(&self) -> (r: &'static str)
        ensures
            r@ =~= seq!['l', 'o', 'c', 'a', 'l'],
    {
        self.inner.name()
    }

    /// Get the path of the database directory.
    pub fn path(&self) -> (r: &str)
        ensures
            r@ == self.spec_inner().spec_path(),
    {
        self.inner.path()
    }

    /// Get the number of packages.
    pub fn count(&self) -> (r: usize)
        ensures
            r == self.spec_inner().spec_entries().len(),
    {
        self.inner.count()
    }

    /// Get a loaded package in this database: the first slot of this name
    /// and version, when it has been loaded.
    pub fn package(&self, name: &str, version: &str) -> (r: Result<&LocalPackage, Error>)
        ensures
            match spec_entry_slot(self.spec_inner().spec_entries(), name@, version@) {
                Some(i) => match self.spec_inner().spec_entries()[i] {
                    MaybePackage::Loaded(p) => r is Ok && *r->Ok_0 == p,
                    MaybePackage::Unloaded { .. } => r is Err,
                },
                None => r is Err,
            },
            r is Ok ==> exists|i: int|
                0 <= i < self.spec_inner().spec_entries().len()
                    && self.spec_inner().spec_entries()[i] == MaybePackage::Loaded(*r->Ok_0)
                    && entry_name(#[trigger] self.spec_inner().spec_entries()[i]) == name@
                    && entry_version(self.spec_inner().spec_entries()[i]) == version@,
            r is Err ==> r->Err_0.kind is InvalidLocalPackage
                && r->Err_0.kind->InvalidLocalPackage_0@ == name@,
    {
        self.inner.package(name, version)
    }

    /// Get the latest loaded version of a package: the slot the comparator
    /// ranks newest among those of this name, when it has been loaded.
    pub fn package_latest(&self, name: &str) -> (r: Result<&LocalPackage, Error>)
        ensures
            match spec_latest_slot(self.spec_inner().spec_entries(), name@) {
                Some(i) => match self.spec_inner().spec_entries()[i] {
                    MaybePackage::Loaded(p) => r is Ok && *r->Ok_0 == p,
                    MaybePackage::Unloaded { .. } => r is Err,
                },
                None => r is Err,
            },
            r is Ok ==> exists|i: int|
                0 <= i < self.spec_inner().spec_entries().len()
                    && self.spec_inner().spec_entries()[i] == MaybePackage::Loaded(*r->Ok_0)
                    && entry_name(#[trigger] self.spec_inner().spec_entries()[i]) == name@,
            r is Err ==> r->Err_0.kind is InvalidLocalPackage
                && r->Err_0.kind->InvalidLocalPackage_0@ == name@,
            ((exists|j: int|
                0 <= j < self.spec_inner().spec_entries().len() && entry_name(
                    #[trigger] self.spec_inner().spec_entries()[j],
                ) == name@) && (forall|j: int|
                0 <= j < self.spec_inner().spec_entries().len() && entry_name(
                    #[trigger] self.spec_inner().spec_entries()[j],
                ) == name@ ==> self.spec_inner().spec_entries()[j] is Loaded)) ==> r is Ok,
            latest_pick_comparable(self.spec_inner().spec_entries(), name@)
                ==> match spec_latest_slot(self.spec_inner().spec_entries(), name@) {
                Some(i) => forall|j: int|
                    0 <= j < self.spec_inner().spec_entries().len() && entry_name(
                        #[trigger] self.spec_inner().spec_entries()[j],
                    ) == name@ ==> crate::version::spec_version_le(
                        entry_version(self.spec_inner().spec_entries()[j]),
                        entry_version(self.spec_inner().spec_entries()[i]),
                    ),
                None => true,
            },
    {
        self.inner.package_latest(name)
    }

    /// All package slots.
    pub fn packages(&self) -> (r: &Vec<MaybePackage>)
        ensures
            r@ == self.spec_inner().spec_entries(),
    {
        self.inner.packages()
    }

    /// Work on the inner state.
    pub fn inner_mut(&mut self) -> (r: &mut LocalDatabaseInner)
        ensures
            *r == old(self).spec_inner(),
            final(self).spec_inner() == *final(r),
    {
        &mut self.inner
    }
}

impl crate::db::Database for LocalDatabase {
    fn name(&self) -> String
    {
        self.inner.name().to_owned()
    }

    fn path(&self) -> String
    {
        self.inner.path().to_owned()
    }

    fn count(&self) -> usize
    {
        self.inner.count()
    }
}

} // verus!
