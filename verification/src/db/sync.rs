//! Remote databases (a.k.a. "sync databases"): a locally cached snapshot
//! of a remote repository's index, read out of one gzip-compressed tar
//! archive, plus the mirror list used to refresh it.

use vstd::prelude::*;
use vstd::string::StrSliceExecFns;
use vstd::string::StringExecFns;
use crate::db::{DbStatus, DbUsage, SignatureLevel, split_package_dirname};
use crate::db::sync_package::{spec_parse_sync_desc, SyncDescV, SyncPackage};
use crate::error::{Error, ErrorKind};
use crate::unpack::{gzip_decode, gunzip_ok, gunzip_of, tar_entry_list, tar_entries_of, tar_ok,
    view_entries, bytes_to_string};
use crate::util::{join_path, spec_join_path, str_eq};

verus! {

/// Is this a valid sync database name?  It may not contain a path
/// separator or a dot.
pub open spec fn spec_name_valid(n: Seq<char>) -> bool {
    forall|i: int| 0 <= i < n.len() ==> #[trigger] n[i] != '/' && n[i] != '\\' && n[i] != '.'
}

/// The name (and implied type) of an alpm sync database.
#[derive(Debug, Clone, PartialEq)]
pub struct SyncDbName(pub String);

impl SyncDbName {
    /// Create a new valid `SyncDbName`.  The name must not be `local` and
    /// must be a valid directory name.
    pub fn new(name: &str) -> (r: Result<SyncDbName, ErrorKind>)
        ensures
            r is Ok <==> (name@ != seq!['l', 'o', 'c', 'a', 'l'] && spec_name_valid(name@)),
            r is Ok ==> (r->Ok_0).0@ == name@,
            r is Err ==> r->Err_0 is InvalidDatabaseName && r->Err_0->InvalidDatabaseName_0@
                == name@,
    {
        proof {
            reveal_strlit("local");
            assert("local"@ =~= seq!['l', 'o', 'c', 'a', 'l']);
        }
        if str_eq(name, "local") {
            return Err(ErrorKind::InvalidDatabaseName(name.to_owned()));
        }
        let db_name = SyncDbName(name.to_owned());
        if db_name.is_valid() {
            Ok(db_name)
        } else {
            Err(ErrorKind::InvalidDatabaseName(name.to_owned()))
        }
    }

    /// The filename of the database on disk: the name, a dot, and the
    /// extension.
    pub fn filename(&self, ext: &str) -> (r: String)
        ensures
            r@ == self.0@ + seq!['.'] + ext@,
    {
        let mut buf = String::from_str(self.0.as_str());
        buf.append(".");
        buf.append(ext);
        proof {
            reveal_strlit(".");
            assert(self.0@ + "."@ + ext@ =~= self.0@ + seq!['.'] + ext@);
        }
        buf
    }

    /// The path of this database under the given database root:
    /// `$database_path/sync/$name.$ext`.
    pub fn path(&self, database_path: &str, ext: &str) -> (r: String)
        ensures
            r@ == spec_join_path(
                spec_join_path(database_path@, seq!['s', 'y', 'n', 'c']),
                self.0@ + seq!['.'] + ext@,
            ),
    {
        let sync_dir = join_path(database_path, crate::db::sync_db_dir());
        let fname = self.filename(ext);
        join_path(sync_dir.as_str(), fname.as_str())
    }

    /// Is the name a valid sync database name?
    pub fn is_valid(&self) -> (r: bool)
        ensures
            r == spec_name_valid(self.0@),
    {
        let s = self.0.as_str();
        let n = s.unicode_len();
        let mut k: usize = 0;
        while k < n
            invariant
                s@ == self.0@,
                n == self.0@.len(),
                k <= n,
                forall|j: int|
                    0 <= j < k ==> #[trigger] self.0@[j] != '/' && self.0@[j] != '\\'
                        && self.0@[j] != '.',
            decreases n - k,
        {
            let c = s.get_char(k);
            if c == '/' || c == '\\' || c == '.' {
                proof {
                    assert(self.0@[k as int] == c);
                }
                return false;
            }
            k += 1;
        }
        true
    }
}

/// Whether this text parses as an absolute URL.
pub uninterp spec fn url_ok(s: Seq<char>) -> bool;

/// Relies on `url::Url::parse`: whether a text parses as a URL is a
/// function of the text alone, and the parser answers with a `Result`
/// rather than panicking.
#[verifier::external_body]
fn parse_url_check(s: &str) -> (r: bool)
    ensures
        r == url_ok(s@),
{
    url::Url::parse(s).is_ok()
}

/// A server url with the trailing slash the join needs.
pub open spec fn spec_normalize_server(u: Seq<char>) -> Seq<char> {
    if u.len() > 0 && u[u.len() - 1] == '/' {
        u
    } else {
        u + seq!['/']
    }
}

/// Ensure the url ends with a single trailing slash.
fn normalize_server(url: &str) -> (r: String)
    ensures
        r@ == spec_normalize_server(url@),
{
    let n = url.unicode_len();
    let mut out = url.to_owned();
    if n == 0 || url.get_char(n - 1) != '/' {
        out.append("/");
        proof {
            reveal_strlit("/");
            assert(out@ =~= url@ + seq!['/']);
        }
    }
    out
}

/// The strings a server vector stands for.
pub open spec fn servers_view(v: Seq<String>) -> Seq<Seq<char>> {
    v.map_values(|s: String| s@)
}

/// One request the refresh loop should make.
#[derive(Debug, Clone, PartialEq)]
pub struct SyncRequest {
    /// Where to ask.
    pub url: String,
    /// Whether to make the request conditional on the local copy's
    /// modification time.
    pub use_if_modified_since: bool,
}

/// What a fetch came back with, as far as the refresh logic cares.
#[derive(Debug, Clone, Copy, PartialEq, Eq, Structural)]
pub enum FetchOutcome {
    /// The server reports the local copy is current.
    NotModified,
    /// The server sent a fresh copy.
    Modified,
    /// Any other response code.
    OtherStatus(u16),
}

/// What the refresh loop should do with an outcome.
#[derive(Debug, Clone, Copy, PartialEq, Eq, Structural)]
pub enum SyncAction {
    /// Stop, successfully, without touching the local file.
    Finish,
    /// Write the fetched body over the local file, then stop.
    WriteAndFinish,
}

/// A definitive answer ends the refresh: only a fresh copy is written
/// out; a not-modified or any other status leaves the local file alone.
pub fn synchronize_action(outcome: &FetchOutcome) -> (r: SyncAction)
    ensures
        r == (match outcome {
            FetchOutcome::Modified => SyncAction::WriteAndFinish,
            _ => SyncAction::Finish,
        }),
{
    match outcome {
        FetchOutcome::Modified => SyncAction::WriteAndFinish,
        _ => SyncAction::Finish,
    }
}


/// The descriptions a package vector stands for.
pub open spec fn descs_of(ps: Seq<SyncPackage>) -> Seq<SyncDescV> {
    ps.map_values(|p: SyncPackage| p.spec_desc())
}

/// Is a package of this name already among the descriptions?
pub open spec fn contains_name(ds: Seq<SyncDescV>, n: Seq<char>) -> bool {
    exists|i: int| 0 <= i < ds.len() && (#[trigger] ds[i]).name == n
}

/// The first cached package of this name.
pub open spec fn spec_sync_slot(ps: Seq<SyncPackage>, name: Seq<char>) -> Option<int>
    decreases ps.len(),
{
    if ps.len() == 0 {
        None
    } else if ps[0].spec_desc().name == name {
        Some(0)
    } else {
        match spec_sync_slot(ps.drop_first(), name) {
            Some(i) => Some(i + 1),
            None => None,
        }
    }
}

/// What `spec_sync_slot` finds: the index it returns carries the name, and
/// on `None` nothing does.
pub proof fn lemma_sync_slot(ps: Seq<SyncPackage>, name: Seq<char>)
    ensures
        match spec_sync_slot(ps, name) {
            Some(i) => 0 <= i < ps.len() && ps[i].spec_desc().name == name,
            None => forall|j: int|
                0 <= j < ps.len() ==> (#[trigger] ps[j]).spec_desc().name != name,
        },
    decreases ps.len(),
{
    if ps.len() > 0 && ps[0].spec_desc().name != name {
        lemma_sync_slot(ps.drop_first(), name);
        let d = ps.drop_first();
        match spec_sync_slot(d, name) {
            Some(i) => {
                assert(d[i] == ps[i + 1]);
            },
            None => {
                assert forall|j: int|
                    0 <= j < ps.len() implies (#[trigger] ps[j]).spec_desc().name != name by {
                    if j > 0 {
                        assert(d[j - 1] == ps[j]);
                    }
                }
            },
        }
    }
}

/// `spec_sync_slot` is pinned down by its characteristic properties.
pub proof fn lemma_sync_slot_is(ps: Seq<SyncPackage>, name: Seq<char>, r: Option<int>)
    requires
        match r {
            Some(i) => 0 <= i < ps.len() && ps[i].spec_desc().name == name && forall|j: int|
                0 <= j < i ==> (#[trigger] ps[j]).spec_desc().name != name,
            None => forall|j: int|
                0 <= j < ps.len() ==> (#[trigger] ps[j]).spec_desc().name != name,
        },
    ensures
        spec_sync_slot(ps, name) == r,
    decreases ps.len(),
{
    if ps.len() > 0 && ps[0].spec_desc().name != name {
        let d = ps.drop_first();
        match r {
            Some(i) => {
                assert(d[i - 1] == ps[i]);
                assert forall|j: int|
                    0 <= j < i - 1 implies (#[trigger] d[j]).spec_desc().name != name by {
                    assert(d[j] == ps[j + 1]);
                }
                lemma_sync_slot_is(d, name, Some(i - 1));
            },
            None => {
                assert forall|j: int|
                    0 <= j < d.len() implies (#[trigger] d[j]).spec_desc().name != name by {
                    assert(d[j] == ps[j + 1]);
                }
                lemma_sync_slot_is(d, name, None);
            },
        }
    }
}

/// How filling the cache can fail: a bad entry, or a second record for a
/// name already seen.
pub enum PopulateErr {
    Invalid(Seq<char>),
    Duplicate(Seq<char>),
}

/// What reading the archive entries into the cache yields: every `desc`
/// entry decoded and cross-checked against its directory name, in archive
/// order, with other entries passed over; or the first failure.
pub open spec fn spec_populate(
    entries: Seq<(Seq<char>, Seq<u8>)>,
    done: Seq<SyncDescV>,
) -> Result<Seq<SyncDescV>, PopulateErr>
    decreases entries.len(),
{
    if entries.len() == 0 {
        Ok(done)
    } else {
        let head = entries[0];
        match spec_desc_parent_dir(head.0) {
            None => spec_populate(entries.drop_first(), done),
            Some(dirname) => match crate::db::spec_split_package_dirname(dirname) {
                None => Err(PopulateErr::Invalid(dirname)),
                Some(nv) => if !vstd::utf8::valid_utf8(head.1) {
                    Err(PopulateErr::Invalid(nv.0))
                } else {
                    match spec_parse_sync_desc(vstd::utf8::decode_utf8(head.1)) {
                        Err(_) => Err(PopulateErr::Invalid(nv.0)),
                        Ok(d) => if d.name != nv.0 || d.version != nv.1 {
                            Err(PopulateErr::Invalid(nv.0))
                        } else if contains_name(done, d.name) {
                            Err(PopulateErr::Duplicate(d.name))
                        } else {
                            spec_populate(entries.drop_first(), done.push(d))
                        },
                    }
                },
            },
        }
    }
}

/// A sync database of available packages.
#[derive(Debug)]
pub struct SyncDatabaseInner {
    /// The name of the database, also used to build the database path.
    name: SyncDbName,
    /// The level of signature verification required to accept packages.
    sig_level: SignatureLevel,
    /// Which operations this database will be used for.
    usage: DbUsage,
    /// The servers the database can be refreshed from, each kept with a
    /// trailing slash, without duplicates.
    servers: Vec<String>,
    /// The database path.
    pub path: String,
    /// The package cache; one version of each package per repository.
    packages: Vec<SyncPackage>,
}

impl SyncDatabaseInner {
    /// The database name.
    pub closed spec fn spec_name(&self) -> Seq<char> {
        self.name.0@
    }

    /// The registered servers.
    pub closed spec fn spec_servers(&self) -> Seq<Seq<char>> {
        servers_view(self.servers@)
    }

    /// The cached packages.
    pub closed spec fn spec_packages(&self) -> Seq<SyncPackage> {
        self.packages@
    }

    /// The backing file path.
    pub closed spec fn spec_path(&self) -> Seq<char> {
        self.path@
    }

    /// No two servers alike, and no two packages of one name.
    pub closed spec fn wf(&self) -> bool {
        (forall|i: int, j: int|
            0 <= i < j < self.spec_servers().len() ==> self.spec_servers()[i]
                != self.spec_servers()[j]) && (forall|i: int, j: int|
            0 <= i < j < self.spec_packages().len()
                ==> (#[trigger] self.spec_packages()[i]).spec_desc().name
                != (#[trigger] self.spec_packages()[j]).spec_desc().name)
    }

    /// Create a new, empty sync database handle for the given name.
    pub fn new(name: SyncDbName, sig_level: SignatureLevel, database_path: &str, ext: &str) -> (r:
        SyncDatabaseInner)
        ensures
            r.wf(),
            r.spec_name() == name.0@,
            r.spec_servers().len() == 0,
            r.spec_packages().len() == 0,
            r.spec_path() == spec_join_path(
                spec_join_path(database_path@, seq!['s', 'y', 'n', 'c']),
                name.0@ + seq!['.'] + ext@,
            ),
    {
        let path = name.path(database_path, ext);
        SyncDatabaseInner {
            name,
            sig_level,
            usage: DbUsage::all(),
            servers: Vec::new(),
            path,
            packages: Vec::new(),
        }
    }

    /// The name of this database.
    pub fn name(&self) -> (r: &str)
        ensures
            r@ == self.spec_name(),
    {
        self.name.0.as_str()
    }

    /// A copy of the registered servers.
    pub fn servers(&self) -> (r: Vec<String>)
        ensures
            servers_view(r@) == self.spec_servers(),
    {
        crate::alpm_desc::record::clone_strings(&self.servers)
    }

    /// Is this server registered?
    fn has_server(&self, url: &str) -> (r: bool)
        ensures
            r == self.spec_servers().contains(url@),
    {
        let mut k: usize = 0;
        while k < self.servers.len()
            invariant
                k <= self.servers@.len(),
                forall|j: int| 0 <= j < k ==> self.spec_servers()[j] != url@,
            decreases self.servers@.len() - k,
        {
            if str_eq(self.servers[k].as_str(), url) {
                proof {
                    assert(self.spec_servers()[k as int] == url@);
                }
                return true;
            }
            k += 1;
        }
        proof {
            if self.spec_servers().contains(url@) {
                let j = choose|j: int|
                    0 <= j < self.spec_servers().len() && self.spec_servers()[j] == url@;
                assert(self.spec_servers()[j] != url@);
            }
        }
        false
    }

    /// Register a server.  A string that does not parse as a url is
    /// rejected; an accepted url gets its trailing slash, and one that is
    /// already registered coalesces silently.
    pub fn add_server(&mut self, url: &str) -> (r: Result<(), Error>)
        requires
            old(self).wf(),
        ensures
            final(self).wf(),
            final(self).spec_name() == old(self).spec_name(),
            final(self).spec_path() == old(self).spec_path(),
            final(self).spec_packages() == old(self).spec_packages(),
            r is Ok <==> url_ok(url@),
            url_ok(url@) ==> final(self).spec_servers() == (if old(self).spec_servers().contains(
                spec_normalize_server(url@),
            ) {
                old(self).spec_servers()
            } else {
                old(self).spec_servers().push(spec_normalize_server(url@))
            }),
            !url_ok(url@) ==> final(self).spec_servers() == old(self).spec_servers()
                && r->Err_0.kind is CannotAddServerToDatabase
                && r->Err_0.kind->CannotAddServerToDatabase_url@ == url@
                && r->Err_0.kind->CannotAddServerToDatabase_database@ == old(self).spec_name(),
    {
        if !parse_url_check(url) {
            return Err(
                Error::from_kind(
                    ErrorKind::CannotAddServerToDatabase {
                        url: url.to_owned(),
                        database: self.name.0.clone(),
                    },
                ),
            );
        }
        let normalized = normalize_server(url);
        if !self.has_server(normalized.as_str()) {
            proof {
                assert(servers_view(self.servers@.push(normalized))
                    =~= self.spec_servers().push(normalized@));
            }
            self.servers.push(normalized);
        }
        Ok(())
    }

    /// Remove the server with the given url, if present; removing an
    /// absent one is a no-op, but the url must still parse.  The url is
    /// normalized the way `add_server` stores it.
    pub fn remove_server(&mut self, url: &str) -> (r: Result<(), Error>)
        requires
            old(self).wf(),
        ensures
            final(self).wf(),
            final(self).spec_name() == old(self).spec_name(),
            final(self).spec_path() == old(self).spec_path(),
            final(self).spec_packages() == old(self).spec_packages(),
            r is Ok <==> url_ok(url@),
            url_ok(url@) ==> !final(self).spec_servers().contains(spec_normalize_server(url@)),
            url_ok(url@) ==> forall|u: Seq<char>|
                u != spec_normalize_server(url@) ==> (final(self).spec_servers().contains(u)
                    <==> old(self).spec_servers().contains(u)),
            !url_ok(url@) ==> final(self).spec_servers() == old(self).spec_servers()
                && r->Err_0.kind is CannotAddServerToDatabase
                && r->Err_0.kind->CannotAddServerToDatabase_url@ == url@
                && r->Err_0.kind->CannotAddServerToDatabase_database@ == old(self).spec_name(),
    {
        if !parse_url_check(url) {
            return Err(
                Error::from_kind(
                    ErrorKind::CannotAddServerToDatabase {
                        url: url.to_owned(),
                        database: self.name.0.clone(),
                    },
                ),
            );
        }
        let normalized = normalize_server(url);
        let ghost target = normalized@;
        let mut k: usize = 0;
        while k < self.servers.len()
            invariant
                old(self).wf(),
                url_ok(url@),
                k <= self.servers@.len(),
                self == old(self),
                forall|j: int| 0 <= j < k ==> self.spec_servers()[j] != target,
                target == normalized@,
                target == spec_normalize_server(url@),
            decreases self.servers@.len() - k,
        {
            if str_eq(self.servers[k].as_str(), normalized.as_str()) {
                let ghost before = self.spec_servers();
                self.servers.remove(k);
                proof {
                    assert(servers_view(self.servers@) =~= before.remove(k as int));
                    assert forall|u: Seq<char>|
                        u != target implies (self.spec_servers().contains(u) <==> old(
                        self,
                    ).spec_servers().contains(u)) by {
                        let after = before.remove(k as int);
                        if before.contains(u) {
                            let j = choose|j: int|
                                0 <= j < before.len() && before[j] == u;
                            if j < k {
                                assert(after[j] == u);
                            } else if j > k {
                                assert(after[j - 1] == u);
                            }
                        }
                        if after.contains(u) {
                            let j = choose|j: int| 0 <= j < after.len() && after[j] == u;
                            if j < k {
                                assert(before[j] == u);
                            } else {
                                assert(before[j + 1] == u);
                            }
                        }
                    }
                    assert(!self.spec_servers().contains(target)) by {
                        let after = before.remove(k as int);
                        if after.contains(target) {
                            let j = choose|j: int|
                                0 <= j < after.len() && after[j] == target;
                            if j < k {
                                assert(before[j] == target);
                            } else {
                                assert(before[j + 1] == target);
                                assert(before[k as int] == target);
                                assert(old(self).spec_servers()[k as int] != old(
                                    self,
                                ).spec_servers()[j + 1]);
                            }
                        }
                    }
                }
                return Ok(());
            }
            k += 1;
        }
        proof {
            if self.spec_servers().contains(target) {
                let j = choose|j: int|
                    0 <= j < self.spec_servers().len() && self.spec_servers()[j] == target;
                assert(self.spec_servers()[j] != target);
            }
        }
        Ok(())
    }

    /// Remove all servers from this database.
    pub fn clear_servers(&mut self)
        requires
            old(self).wf(),
        ensures
            final(self).wf(),
            final(self).spec_name() == old(self).spec_name(),
            final(self).spec_path() == old(self).spec_path(),
            final(self).spec_packages() == old(self).spec_packages(),
            final(self).spec_servers().len() == 0,
    {
        self.servers.clear();
        proof {
            assert(servers_view(self.servers@) =~= Seq::<Seq<char>>::empty());
        }
    }

    /// The status the database has given what the filesystem shows for its
    /// backing file: absent is missing, present-but-not-a-regular-file is
    /// invalid.
    pub fn status_from(&self, backing_file: Option<bool>) -> (r: DbStatus)
        ensures
            r == (match backing_file {
                None => DbStatus::Missing,
                Some(is_file) => DbStatus::Exists { valid: is_file },
            }),
    {
        match backing_file {
            None => DbStatus::Missing,
            Some(is_file) => DbStatus::Exists { valid: is_file },
        }
    }

    /// The requests a refresh should make, one per server in registration
    /// order.  The conditional header is used only when the caller has a
    /// modification time, no refresh is forced, and the local copy is
    /// valid.
    pub fn synchronize_requests(
        &self,
        force: bool,
        status: DbStatus,
        have_modified_time: bool,
        ext: &str,
    ) -> (r: Vec<SyncRequest>)
        ensures
            r@.len() == self.spec_servers().len(),
            forall|i: int|
                0 <= i < r@.len() ==> (#[trigger] r@[i]).url@ == self.spec_servers()[i]
                    + self.spec_name() + seq!['.'] + ext@,
            forall|i: int|
                0 <= i < r@.len() ==> (#[trigger] r@[i]).use_if_modified_since == (
                have_modified_time && !force && status == (DbStatus::Exists { valid: true })),
    {
        let forced = force || !matches!(status, DbStatus::Exists { valid: true });
        let use_ims = have_modified_time && !forced;
        let fname = self.name.filename(ext);
        let mut out: Vec<SyncRequest> = Vec::new();
        let mut k: usize = 0;
        while k < self.servers.len()
            invariant
                k <= self.servers@.len(),
                out@.len() == k,
                use_ims == (have_modified_time && !force && status == (DbStatus::Exists {
                    valid: true,
                })),
                fname@ == self.spec_name() + seq!['.'] + ext@,
                forall|i: int|
                    0 <= i < k ==> (#[trigger] out@[i]).url@ == self.spec_servers()[i]
                        + self.spec_name() + seq!['.'] + ext@,
                forall|i: int| 0 <= i < k ==> (#[trigger] out@[i]).use_if_modified_since == (
                have_modified_time && !force && status == (DbStatus::Exists { valid: true })),
            decreases self.servers@.len() - k,
        {
            let mut url = String::from_str(self.servers[k].as_str());
            url.append(fname.as_str());
            out.push(SyncRequest { url, use_if_modified_since: use_ims });
            k += 1;
        }
        out
    }

    /// The number of packages in the cache.
    pub fn count(&self) -> (r: usize)
        ensures
            r == self.spec_packages().len(),
    {
        self.packages.len()
    }

    /// The index of the cached package with this name.
    fn package_index(&self, name: &str) -> (r: Option<usize>)
        ensures
            match spec_sync_slot(self.spec_packages(), name@) {
                Some(i) => r is Some && r->0 as int == i,
                None => r is None,
            },
    {
        let mut k: usize = 0;
        while k < self.packages.len()
            invariant
                k <= self.packages@.len(),
                forall|j: int|
                    0 <= j < k ==> (#[trigger] self.spec_packages()[j]).spec_desc().name
                        != name@,
            decreases self.packages@.len() - k,
        {
            if str_eq(self.packages[k].name(), name) {
                proof {
                    lemma_sync_slot_is(self.spec_packages(), name@, Some(k as int));
                }
                return Some(k);
            }
            k += 1;
        }
        proof {
            lemma_sync_slot_is(self.spec_packages(), name@, None);
        }
        None
    }

    /// Get a package in this database: the cached package of this name,
    /// when its version is the one asked for.
    pub fn package(&self, name: &str, version: &str) -> (r: Result<&SyncPackage, Error>)
        ensures
            match spec_sync_slot(self.spec_packages(), name@) {
                Some(i) => if self.spec_packages()[i].spec_desc().version == version@ {
                    r is Ok && *r->Ok_0 == self.spec_packages()[i]
                } else {
                    r is Err
                },
                None => r is Err,
            },
            r is Ok ==> r->Ok_0.spec_desc().name == name@ && r->Ok_0.spec_desc().version
                == version@ && self.spec_packages().contains(*r->Ok_0),
            r is Err ==> r->Err_0.kind is InvalidSyncPackage
                && r->Err_0.kind->InvalidSyncPackage_0@ == name@,
            (self.wf() && exists|j: int|
                0 <= j < self.spec_packages().len()
                    && (#[trigger] self.spec_packages()[j]).spec_desc().name == name@
                    && self.spec_packages()[j].spec_desc().version == version@) ==> r is Ok,
    {
        proof {
            lemma_sync_slot(self.spec_packages(), name@);
            if self.wf() && exists|j: int|
                0 <= j < self.spec_packages().len()
                    && (#[trigger] self.spec_packages()[j]).spec_desc().name == name@
                    && self.spec_packages()[j].spec_desc().version == version@ {
                let j = choose|j: int|
                    0 <= j < self.spec_packages().len()
                        && (#[trigger] self.spec_packages()[j]).spec_desc().name == name@
                        && self.spec_packages()[j].spec_desc().version == version@;
                match spec_sync_slot(self.spec_packages(), name@) {
                    Some(i) => {
                        if i != j {
                            assert(self.spec_packages()[i].spec_desc().name
                                != self.spec_packages()[j].spec_desc().name);
                        }
                    },
                    None => {},
                }
            }
        }
        match self.package_index(name) {
            Some(i) => {
                let p = &self.packages[i];
                if str_eq(p.version(), version) {
                    proof {
                        assert(self.spec_packages().contains(self.spec_packages()[i as int]));
                    }
                    Ok(p)
                } else {
                    Err(Error::from_kind(ErrorKind::InvalidSyncPackage(name.to_owned())))
                }
            },
            None => Err(Error::from_kind(ErrorKind::InvalidSyncPackage(name.to_owned()))),
        }
    }

    /// Get the one version of a package in this database, if present.
    pub fn package_latest(&self, name: &str) -> (r: Result<&SyncPackage, Error>)
        ensures
            match spec_sync_slot(self.spec_packages(), name@) {
                Some(i) => r is Ok && *r->Ok_0 == self.spec_packages()[i],
                None => r is Err,
            },
            r is Ok ==> r->Ok_0.spec_desc().name == name@ && self.spec_packages().contains(
                *r->Ok_0,
            ),
            r is Err ==> r->Err_0.kind is InvalidSyncPackage
                && r->Err_0.kind->InvalidSyncPackage_0@ == name@,
            (exists|j: int|
                0 <= j < self.spec_packages().len()
                    && (#[trigger] self.spec_packages()[j]).spec_desc().name == name@) ==> r
                is Ok,
    {
        proof {
            lemma_sync_slot(self.spec_packages(), name@);
        }
        match self.package_index(name) {
            Some(i) => {
                proof {
                    assert(self.spec_packages().contains(self.spec_packages()[i as int]));
                }
                Ok(&self.packages[i])
            },
            None => Err(Error::from_kind(ErrorKind::InvalidSyncPackage(name.to_owned()))),
        }
    }

    /// All cached packages.
    pub fn packages(&self) -> (r: &Vec<SyncPackage>)
        ensures
            r@ == self.spec_packages(),
    {
        &self.packages
    }

    /// Fill the package cache from the raw bytes of the backing archive:
    /// gunzip, untar, and read one `desc` record per package directory.  A
    /// second record for a name the cache already holds is an
    /// internal-consistency violation: the archive is corrupt.
    pub fn populate_package_cache(&mut self, archive_gz: &[u8]) -> (r: Result<(), Error>)
        requires
            old(self).wf(),
            old(self).spec_packages().len() == 0,
        ensures
            final(self).wf(),
            final(self).spec_name() == old(self).spec_name(),
            final(self).spec_path() == old(self).spec_path(),
            final(self).spec_servers() == old(self).spec_servers(),
            !gunzip_ok(archive_gz@) ==> r is Err && r->Err_0.kind is UnexpectedIo,
            gunzip_ok(archive_gz@) && !tar_ok(gunzip_of(archive_gz@)) ==> r is Err
                && r->Err_0.kind is UnexpectedIo,
            gunzip_ok(archive_gz@) && tar_ok(gunzip_of(archive_gz@)) ==> match spec_populate(
                tar_entries_of(gunzip_of(archive_gz@)),
                Seq::<SyncDescV>::empty(),
            ) {
                Ok(ds) => r is Ok && descs_of(final(self).spec_packages()) == ds,
                Err(e) => r is Err && (match e {
                    PopulateErr::Invalid(n) => r->Err_0.kind is InvalidSyncPackage
                        && r->Err_0.kind->InvalidSyncPackage_0@ == n,
                    PopulateErr::Duplicate(n) => r->Err_0.kind is DuplicateDatabaseEntry
                        && r->Err_0.kind->DuplicateDatabaseEntry_0@ == n,
                }),
            },
    {
        let decompressed = match gzip_decode(archive_gz) {
            Ok(b) => b,
            Err(_) => {
                return Err(Error::from_kind(ErrorKind::UnexpectedIo));
            },
        };
        let entries = match tar_entry_list(decompressed.as_slice()) {
            Ok(es) => es,
            Err(_) => {
                return Err(Error::from_kind(ErrorKind::UnexpectedIo));
            },
        };
        let ghost ev = tar_entries_of(gunzip_of(archive_gz@));
        let mut k: usize = 0;
        proof {
            assert(ev.skip(0) =~= ev);
            assert(descs_of(self.spec_packages()) =~= Seq::<SyncDescV>::empty());
        }
        while k < entries.len()
            invariant
                self.wf(),
                self.spec_name() == old(self).spec_name(),
                self.spec_path() == old(self).spec_path(),
                self.spec_servers() == old(self).spec_servers(),
                gunzip_ok(archive_gz@),
                tar_ok(gunzip_of(archive_gz@)),
                k <= entries@.len(),
                ev == tar_entries_of(gunzip_of(archive_gz@)),
                ev == view_entries(entries@),
                spec_populate(ev, Seq::<SyncDescV>::empty()) == spec_populate(
                    ev.skip(k as int),
                    descs_of(self.spec_packages()),
                ),
            decreases entries@.len() - k,
        {
            let ghost tail = ev.skip(k as int);
            let ghost done = descs_of(self.spec_packages());
            proof {
                assert(tail[0] == (entries@[k as int].0@, entries@[k as int].1@));
                assert(tail.drop_first() =~= ev.skip(k + 1));
            }
            let entry_path = entries[k].0.as_str();
            match desc_parent_dir(entry_path) {
                None => {},
                Some(dirname) => {
                    let (name, version) = match split_package_dirname(dirname.as_str()) {
                        Some(nv) => nv,
                        None => {
                            return Err(
                                Error::from_kind(
                                    ErrorKind::InvalidSyncPackage(dirname),
                                ),
                            );
                        },
                    };
                    let contents = match bytes_to_string(entries[k].1.clone()) {
                        Ok(s) => s,
                        Err(_) => {
                            return Err(
                                Error::from_kind(ErrorKind::InvalidSyncPackage(name)),
                            );
                        },
                    };
                    let pkg = match SyncPackage::from_parts(
                        contents.as_str(),
                        name.as_str(),
                        version.as_str(),
                    ) {
                        Ok(p) => p,
                        Err(e) => {
                            return Err(e);
                        },
                    };
                    if self.package_index(name.as_str()).is_some() {
                        proof {
                            lemma_sync_slot(self.spec_packages(), name@);
                            let i = spec_sync_slot(self.spec_packages(), name@)->0;
                            assert(done[i].name == name@);
                            assert(contains_name(done, pkg.spec_desc().name));
                        }
                        return Err(
                            Error::from_kind(ErrorKind::DuplicateDatabaseEntry(name)),
                        );
                    }
                    proof {
                        lemma_sync_slot(self.spec_packages(), name@);
                        if contains_name(done, pkg.spec_desc().name) {
                            let i = choose|i: int|
                                0 <= i < done.len() && (#[trigger] done[i]).name
                                    == pkg.spec_desc().name;
                            assert(self.spec_packages()[i].spec_desc().name == name@);
                        }
                        assert forall|i: int, j: int|
                            0 <= i < j < self.spec_packages().push(pkg).len() implies (
                        #[trigger] self.spec_packages().push(pkg)[i]).spec_desc().name != (
                        #[trigger] self.spec_packages().push(pkg)[j]).spec_desc().name by {
                            if j < self.spec_packages().len() {
                            } else {
                                assert(self.spec_packages().push(pkg)[i]
                                    == self.spec_packages()[i]);
                            }
                        }
                        assert(descs_of(self.spec_packages().push(pkg)) =~= done.push(
                            pkg.spec_desc(),
                        ));
                    }
                    self.packages.push(pkg);
                },
            }
            k += 1;
        }
        proof {
            assert(ev.skip(entries@.len() as int) =~= Seq::<(Seq<char>, Seq<u8>)>::empty());
        }
        Ok(())
    }
}

/// When the final path component is `desc`, the name of the directory the
/// entry sits in.
pub fn desc_parent_dir(path: &str) -> (r: Option<String>)
    ensures
        match spec_desc_parent_dir(path@) {
            Some(d) => r is Some && r->0@ == d,
            None => r is None,
        },
{
    proof {
        reveal_strlit("desc");
        assert("desc"@ =~= seq!['d', 'e', 's', 'c']);
    }
    let n = path.unicode_len();
    match last_slash(path) {
        None => None,
        Some(i) => {
            let last = path.substring_char(i + 1, n);
            if !str_eq(last, "desc") {
                return None;
            }
            let parent = path.substring_char(0, i);
            match last_slash(parent) {
                None => Some(parent.to_owned()),
                Some(j) => {
                    let d = parent.substring_char(j + 1, parent.unicode_len()).to_owned();
                    proof {
                        assert(path@.subrange(0, i as int).subrange(
                            j + 1,
                            path@.subrange(0, i as int).len() as int,
                        ) =~= path@.subrange(0, i as int).skip(j + 1));
                    }
                    Some(d)
                },
            }
        },
    }
}

/// The directory of an archive entry whose final component is `desc`.
pub open spec fn spec_desc_parent_dir(p: Seq<char>) -> Option<Seq<char>> {
    match crate::db::last_index_of_char(p, '/') {
        None => None,
        Some(i) => {
            if p.skip(i + 1) != seq!['d', 'e', 's', 'c'] {
                None
            } else {
                let parent = p.take(i);
                match crate::db::last_index_of_char(parent, '/') {
                    None => Some(parent),
                    Some(j) => Some(parent.skip(j + 1)),
                }
            }
        },
    }
}

/// The index of the last `/`, scanning by exec.
fn last_slash(s: &str) -> (r: Option<usize>)
    ensures
        match r {
            Some(i) => i < s@.len() && s@[i as int] == '/' && crate::db::last_index_of_char(
                s@,
                '/',
            ) == Some(i as int),
            None => crate::db::last_index_of_char(s@, '/') is None,
        },
{
    let n = s.unicode_len();
    let mut k = n;
    while k > 0
        invariant
            k <= s@.len(),
            n == s@.len(),
            forall|j: int| k <= j < s@.len() ==> s@[j] != '/',
        decreases k,
    {
        k -= 1;
        if s.get_char(k) == '/' {
            proof {
                crate::db::lemma_last_index_of_char_is(s@, '/', Some(k as int));
            }
            return Some(k);
        }
    }
    proof {
        crate::db::lemma_last_index_of_char_is(s@, '/', None);
    }
    None
}


/// A sync database of available packages: a named handle around the inner
/// state.
#[derive(Debug)]
pub struct SyncDatabase {
    name: String,
    inner: SyncDatabaseInner,
}

impl SyncDatabase {
    /// The inner state.
    pub closed spec fn spec_inner(&self) -> SyncDatabaseInner {
        self.inner
    }

    /// Wrap the inner state of a sync database.
    pub fn new(inner: SyncDatabaseInner, name: String) -> (r: SyncDatabase)
        ensures
            r.spec_inner() == inner,
    {
        SyncDatabase { name, inner }
    }

    /// A copy of the registered servers for this database.
    pub fn servers(&self) -> (r: Vec<String>)
        ensures
            servers_view(r@) == self.spec_inner().spec_servers(),
    {
        self.inner.servers()
    }

    /// Add a server.  A string that does not parse as a url is rejected.
    pub fn add_server(&mut self, url: &str) -> (r: Result<(), Error>)
        requires
            old(self).spec_inner().wf(),
        ensures
            final(self).spec_inner().wf(),
            r is Ok <==> url_ok(url@),
            url_ok(url@) ==> final(self).spec_inner().spec_servers() == (if old(self).spec_inner(
            ).spec_servers().contains(spec_normalize_server(url@)) {
                old(self).spec_inner().spec_servers()
            } else {
                old(self).spec_inner().spec_servers().push(spec_normalize_server(url@))
            }),
            !url_ok(url@) ==> final(self).spec_inner().spec_servers() == old(self).spec_inner(
            ).spec_servers() && r->Err_0.kind is CannotAddServerToDatabase
                && r->Err_0.kind->CannotAddServerToDatabase_url@ == url@,
            final(self).spec_inner().spec_packages() == old(self).spec_inner().spec_packages(),
    {
        self.inner.add_server(url)
    }

    /// Remove the server with the given url, if present.  The url must
    /// still parse.
    pub fn remove_server(&mut self, url: &str) -> (r: Result<(), Error>)
        requires
            old(self).spec_inner().wf(),
        ensures
            final(self).spec_inner().wf(),
            r is Ok <==> url_ok(url@),
            url_ok(url@) ==> !final(self).spec_inner().spec_servers().contains(
                spec_normalize_server(url@),
            ),
            url_ok(url@) ==> forall|u: Seq<char>|
                u != spec_normalize_server(url@) ==> (final(self).spec_inner(
                ).spec_servers().contains(u) <==> old(self).spec_inner().spec_servers().contains(
                    u,
                )),
            !url_ok(url@) ==> final(self).spec_inner().spec_servers() == old(self).spec_inner(
            ).spec_servers() && r->Err_0.kind is CannotAddServerToDatabase
                && r->Err_0.kind->CannotAddServerToDatabase_url@ == url@,
            final(self).spec_inner().spec_packages() == old(self).spec_inner().spec_packages(),
    {
        self.inner.remove_server(url)
    }

    /// Remove all servers from this database.
    pub fn clear_servers(&mut self)
        requires
            old(self).spec_inner().wf(),
        ensures
            final(self).spec_inner().wf(),
            final(self).spec_inner().spec_servers().len() == 0,
            final(self).spec_inner().spec_packages() == old(self).spec_inner().spec_packages(),
    {
        self.inner.clear_servers()
    }

    /// The requests a refresh of this database should make.
    pub fn synchronize_requests(
        &self,
        force: bool,
        status: DbStatus,
        have_modified_time: bool,
        ext: &str,
    ) -> (r: Vec<SyncRequest>)
        ensures
            r@.len() == self.spec_inner().spec_servers().len(),
            forall|i: int|
                0 <= i < r@.len() ==> (#[trigger] r@[i]).url@
                    == self.spec_inner().spec_servers()[i] + self.spec_inner().spec_name()
                    + seq!['.'] + ext@,
    {
        self.inner.synchronize_requests(force, status, have_modified_time, ext)
    }

    /// Get a package in this database: the cached package of this name,
    /// when its version is the one asked for.
    pub fn package(&self, name: &str, version: &str) -> (r: Result<&SyncPackage, Error>)
        ensures
            match spec_sync_slot(self.spec_inner().spec_packages(), name@) {
                Some(i) => if self.spec_inner().spec_packages()[i].spec_desc().version
                    == version@ {
                    r is Ok && *r->Ok_0 == self.spec_inner().spec_packages()[i]
                } else {
                    r is Err
                },
                None => r is Err,
            },
            r is Ok ==> r->Ok_0.spec_desc().name == name@ && r->Ok_0.spec_desc().version
                == version@,
            r is Err ==> r->Err_0.kind is InvalidSyncPackage
                && r->Err_0.kind->InvalidSyncPackage_0@ == name@,
            (self.spec_inner().wf() && exists|j: int|
                0 <= j < self.spec_inner().spec_packages().len()
                    && (#[trigger] self.spec_inner().spec_packages()[j]).spec_desc().name == name@
                    && self.spec_inner().spec_packages()[j].spec_desc().version == version@)
                ==> r is Ok,
    {
        self.inner.package(name, version)
    }

    /// Get the one version of a package in this database, if present.
    pub fn package_latest(&self, name: &str) -> (r: Result<&SyncPackage, Error>)
        ensures
            match spec_sync_slot(self.spec_inner().spec_packages(), name@) {
                Some(i) => r is Ok && *r->Ok_0 == self.spec_inner().spec_packages()[i],
                None => r is Err,
            },
            r is Ok ==> r->Ok_0.spec_desc().name == name@,
            r is Err ==> r->Err_0.kind is InvalidSyncPackage
                && r->Err_0.kind->InvalidSyncPackage_0@ == name@,
            (exists|j: int|
                0 <= j < self.spec_inner().spec_packages().len()
                    && (#[trigger] self.spec_inner().spec_packages()[j]).spec_desc().name
                    == name@) ==> r is Ok,
    {
        self.inner.package_latest(name)
    }

    /// All cached packages.
    pub fn packages(&self) -> (r: &Vec<SyncPackage>)
        ensures
            r@ == self.spec_inner().spec_packages(),
    {
        self.inner.packages()
    }

    /// Work on the inner state.
    pub fn inner_mut(&mut self) -> (r: &mut SyncDatabaseInner)
        ensures
            *r == old(self).spec_inner(),
            final(self).spec_inner() == *final(r),
    {
        &mut self.inner
    }
}

impl crate::db::Database for SyncDatabase {
    fn name(&self) -> String
    {
        self.name.clone()
    }

    fn path(&self) -> String
    {
        self.inner.path.clone()
    }

    fn count(&self) -> usize
    {
        self.inner.count()
    }
}

} // verus!
