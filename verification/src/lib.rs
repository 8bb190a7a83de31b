//! A library to manipulate a system managed by the Arch Linux Package Manager
//! (alpm): it reads, caches and validates on-disk package metadata, speaks the
//! `%KEY%`/value description format, and orders package versions the way the
//! legacy implementation does.

pub mod alpm_desc;
pub mod db;
pub mod error;
pub mod mtree_screen;
pub mod mutation;
pub mod package;
pub mod unpack;
pub mod util;
pub mod version;

use vstd::prelude::*;

use crate::db::local::{LocalDatabase, LocalDatabaseInner};
use crate::db::sync::{SyncDatabaseInner, SyncDbName, spec_name_valid};
use crate::db::SignatureLevel;
use crate::error::{Error, ErrorKind};
use crate::util::{join_path, spec_join_path};
use vstd::string::StrSliceExecFns;
use vstd::string::StringExecFns;

verus! {

/// Is this an ASCII letter or digit?
pub open spec fn is_alnum_char(c: char) -> bool {
    ('0' <= c && c <= '9') || ('a' <= c && c <= 'z') || ('A' <= c && c <= 'Z')
}

/// A valid database extension holds nothing but letters and digits.
pub open spec fn spec_valid_db_extension(s: Seq<char>) -> bool {
    forall|i: int| 0 <= i < s.len() ==> is_alnum_char(#[trigger] s[i])
}

/// Check a string is a valid database extension.
pub fn is_valid_db_extension(ext: &str) -> (r: bool)
    ensures
        r == spec_valid_db_extension(ext@),
{
    let n = ext.unicode_len();
    let mut k: usize = 0;
    while k < n
        invariant
            n == ext@.len(),
            k <= n,
            forall|j: int| 0 <= j < k ==> is_alnum_char(#[trigger] ext@[j]),
        decreases n - k,
    {
        let c = ext.get_char(k);
        if !(('0' <= c && c <= '9') || ('a' <= c && c <= 'z') || ('A' <= c && c <= 'Z')) {
            return false;
        }
        k += 1;
    }
    true
}

/// Builder-pattern constructor for the `Alpm` struct.
///
/// Use `Alpm::new` to get an `AlpmBuilder`; compute the instance's paths
/// with `AlpmBuilder::build_paths`.
#[derive(Debug, Clone)]
pub struct AlpmBuilder {
    /// Root path for the managed filesystem; defaults to `/`.
    pub root_path: Option<String>,
    /// Path for the package database; defaults to `$root/var/lib/pacman`.
    pub database_path: Option<String>,
    /// Extension to use for names of sync databases; defaults to `db`.
    pub database_extension: Option<String>,
    /// Where the gpg files live; defaults to the root path.
    pub gpg_path: Option<String>,
    /// The locations packages can be downloaded to.
    pub cache_directories: Vec<String>,
    /// Packages to skip during upgrade.
    pub packages_no_upgrade: Vec<String>,
    /// The architecture to install packages for.
    pub arch: Option<String>,
}

impl Default for AlpmBuilder {
    /// A builder with nothing chosen yet.
    fn default() -> (r: Self)
        ensures
            r.root_path is None,
            r.database_path is None,
            r.database_extension is None,
            r.gpg_path is None,
            r.cache_directories@.len() == 0,
            r.packages_no_upgrade@.len() == 0,
            r.arch is None,
    {
        AlpmBuilder {
            root_path: None,
            database_path: None,
            database_extension: None,
            gpg_path: None,
            cache_directories: Vec::new(),
            packages_no_upgrade: Vec::new(),
            arch: None,
        }
    }
}

/// The paths an instance works with, computed from the builder's choices.
#[derive(Debug, Clone)]
pub struct AlpmPaths {
    pub root_path: String,
    pub database_path: String,
    pub database_extension: String,
    pub sync_db_path: String,
    pub lockfile_path: String,
    pub gpg_path: String,
    pub cache_directories: Vec<String>,
}

impl AlpmBuilder {
    /// Use a custom root path.
    pub fn with_root_path(self, root_path: String) -> (r: Self)
        ensures
            r.root_path == Some(root_path),
            r.database_path == self.database_path,
            r.database_extension == self.database_extension,
            r.gpg_path == self.gpg_path,
            r.cache_directories == self.cache_directories,
            r.packages_no_upgrade == self.packages_no_upgrade,
            r.arch == self.arch,
    {
        AlpmBuilder { root_path: Some(root_path), ..self }
    }

    /// Use a custom database path.
    pub fn with_database_path(self, database_path: String) -> (r: Self)
        ensures
            r.database_path == Some(database_path),
            r.root_path == self.root_path,
            r.database_extension == self.database_extension,
            r.gpg_path == self.gpg_path,
            r.cache_directories == self.cache_directories,
            r.packages_no_upgrade == self.packages_no_upgrade,
            r.arch == self.arch,
    {
        AlpmBuilder { database_path: Some(database_path), ..self }
    }

    /// Use a custom sync database extension.
    pub fn with_database_extension(self, database_extension: String) -> (r: Self)
        ensures
            r.database_extension == Some(database_extension),
            r.root_path == self.root_path,
            r.database_path == self.database_path,
            r.gpg_path == self.gpg_path,
            r.cache_directories == self.cache_directories,
            r.packages_no_upgrade == self.packages_no_upgrade,
            r.arch == self.arch,
    {
        AlpmBuilder { database_extension: Some(database_extension), ..self }
    }

    /// Use a custom gpg location.
    pub fn with_gpg_path(self, gpg_path: String) -> (r: Self)
        ensures
            r.gpg_path == Some(gpg_path),
            r.root_path == self.root_path,
            r.database_path == self.database_path,
            r.database_extension == self.database_extension,
            r.cache_directories == self.cache_directories,
            r.packages_no_upgrade == self.packages_no_upgrade,
            r.arch == self.arch,
    {
        AlpmBuilder { gpg_path: Some(gpg_path), ..self }
    }

    /// Add a cache directory.
    pub fn with_cache_directory(self, cache_directory: String) -> (r: Self)
        ensures
            r.cache_directories@ == self.cache_directories@.push(cache_directory),
            r.root_path == self.root_path,
            r.database_path == self.database_path,
            r.database_extension == self.database_extension,
            r.gpg_path == self.gpg_path,
            r.packages_no_upgrade == self.packages_no_upgrade,
            r.arch == self.arch,
    {
        let mut b = self;
        b.cache_directories.push(cache_directory);
        b
    }

    /// Mark a package as no-upgrade.
    pub fn mark_no_upgrade(self, no_upgrade: String) -> (r: Self)
        ensures
            r.packages_no_upgrade@ == self.packages_no_upgrade@.push(no_upgrade),
            r.root_path == self.root_path,
            r.database_path == self.database_path,
            r.database_extension == self.database_extension,
            r.gpg_path == self.gpg_path,
            r.cache_directories == self.cache_directories,
            r.arch == self.arch,
    {
        let mut b = self;
        b.packages_no_upgrade.push(no_upgrade);
        b
    }

    /// Compute the paths the instance will use, applying the defaults and
    /// validating the database extension.  The directory checks, lockfile
    /// and architecture detection are the caller's part.
    pub fn build_paths(&self) -> (r: Result<AlpmPaths, Error>)
        ensures
            ({
                let root = match self.root_path {
                    Some(ref p) => p@,
                    None => "/"@,
                };
                let dbp = match self.database_path {
                    Some(ref p) => p@,
                    None => spec_join_path(root, "var/lib/pacman"@),
                };
                let ext = match self.database_extension {
                    Some(ref e) => e@,
                    None => "db"@,
                };
                &&& (r is Ok <==> spec_valid_db_extension(ext))
                &&& (r is Err ==> r->Err_0.kind is BadSyncDatabaseExt
                    && r->Err_0.kind->BadSyncDatabaseExt_0@ == ext)
                &&& (r is Ok ==> {
                    let p = r->Ok_0;
                    &&& p.root_path@ == root
                    &&& p.database_path@ == dbp
                    &&& p.database_extension@ == ext
                    &&& p.sync_db_path@ == spec_join_path(dbp, "sync"@)
                    &&& p.lockfile_path@ == spec_join_path(dbp, "db.lck"@)
                    &&& p.gpg_path@ == (match self.gpg_path {
                        Some(ref g) => g@,
                        None => root,
                    })
                    &&& (self.cache_directories@.len() > 0
                        ==> crate::alpm_desc::record::strings_view(p.cache_directories@)
                        == crate::alpm_desc::record::strings_view(self.cache_directories@))
                    &&& (self.cache_directories@.len() == 0 ==> p.cache_directories@.len() == 1
                        && p.cache_directories@[0]@ == "/var/cache/pacman/pkg"@)
                })
            }),
    {
        let root_path = match &self.root_path {
            Some(p) => String::from_str(p.as_str()),
            None => String::from_str("/"),
        };
        let database_path = match &self.database_path {
            Some(p) => String::from_str(p.as_str()),
            None => join_path(root_path.as_str(), "var/lib/pacman"),
        };
        let database_extension = match &self.database_extension {
            Some(e) => String::from_str(e.as_str()),
            None => String::from_str("db"),
        };
        if !is_valid_db_extension(database_extension.as_str()) {
            return Err(Error::from_kind(ErrorKind::BadSyncDatabaseExt(database_extension)));
        }
        let sync_db_path = join_path(database_path.as_str(), "sync");
        let lockfile_path = join_path(database_path.as_str(), "db.lck");
        let gpg_path = match &self.gpg_path {
            Some(g) => String::from_str(g.as_str()),
            None => String::from_str(root_path.as_str()),
        };
        let cache_directories = if self.cache_directories.len() == 0 {
            let mut v: Vec<String> = Vec::new();
            v.push(String::from_str("/var/cache/pacman/pkg"));
            v
        } else {
            crate::alpm_desc::record::clone_strings(&self.cache_directories)
        };
        Ok(
            AlpmPaths {
                root_path,
                database_path,
                database_extension,
                sync_db_path,
                lockfile_path,
                gpg_path,
                cache_directories,
            },
        )
    }
}

/// The main alpm object: it owns the canonical paths, the local database,
/// and the registered sync databases.
#[derive(Debug)]
pub struct Alpm {
    root_path: String,
    database_path: String,
    database_extension: String,
    gpg_path: String,
    arch: String,
    local_database: LocalDatabase,
    sync_databases: Vec<SyncDatabaseInner>,
}

/// The names of the registered databases.
pub open spec fn registry_names(dbs: Seq<SyncDatabaseInner>) -> Seq<Seq<char>> {
    dbs.map_values(|d: SyncDatabaseInner| d.spec_name())
}

impl Alpm {
    /// Create a builder for a new alpm instance.
    pub fn new() -> (r: AlpmBuilder)
        ensures
            r.root_path is None,
            r.database_path is None,
            r.arch is None,
    {
        AlpmBuilder::default()
    }

    /// The registered sync databases.
    pub closed spec fn spec_sync_databases(&self) -> Seq<SyncDatabaseInner> {
        self.sync_databases@
    }

    /// The local database.
    pub closed spec fn spec_local_database(&self) -> LocalDatabase {
        self.local_database
    }

    /// The managed filesystem root.
    pub closed spec fn spec_root_path(&self) -> Seq<char> {
        self.root_path@
    }

    /// The package database path.
    pub closed spec fn spec_database_path(&self) -> Seq<char> {
        self.database_path@
    }

    /// The sync database extension.
    pub closed spec fn spec_database_extension(&self) -> Seq<char> {
        self.database_extension@
    }

    /// The architecture packages are installed for.
    pub closed spec fn spec_arch(&self) -> Seq<char> {
        self.arch@
    }

    /// Every database handle is well formed and no name is registered
    /// twice.
    pub closed spec fn wf(&self) -> bool {
        (forall|i: int|
            0 <= i < self.spec_sync_databases().len() ==> (
            #[trigger] self.spec_sync_databases()[i]).wf()) && (forall|i: int, j: int|
            0 <= i < j < self.spec_sync_databases().len()
                ==> (#[trigger] self.spec_sync_databases()[i]).spec_name()
                != (#[trigger] self.spec_sync_databases()[j]).spec_name())
    }

    /// Put an instance together out of its computed paths, the detected
    /// architecture, and the local database.  The lockfile that guards the
    /// instance is the caller's to hold.
    pub fn assemble(paths: AlpmPaths, arch: String, local_database: LocalDatabase) -> (r: Alpm)
        ensures
            r.wf(),
            r.spec_root_path() == paths.root_path@,
            r.spec_database_path() == paths.database_path@,
            r.spec_database_extension() == paths.database_extension@,
            r.spec_sync_databases().len() == 0,
    {
        Alpm {
            root_path: paths.root_path,
            database_path: paths.database_path,
            database_extension: paths.database_extension,
            gpg_path: paths.gpg_path,
            arch,
            local_database,
            sync_databases: Vec::new(),
        }
    }

    /// The local database.
    pub fn local_database(&self) -> (r: &LocalDatabase) {
        &self.local_database
    }

    /// Work on the local database.
    pub fn local_database_mut(&mut self) -> (r: &mut LocalDatabase)
        ensures
            *r == old(self).spec_local_database(),
            final(self).spec_local_database() == *final(r),
            final(self).spec_sync_databases() == old(self).spec_sync_databases(),
    {
        &mut self.local_database
    }

    /// The index of the registered sync database with this name.
    pub fn sync_database_index(&self, name: &str) -> (r: Option<usize>)
        ensures
            match r {
                Some(i) => i < self.spec_sync_databases().len()
                    && self.spec_sync_databases()[i as int].spec_name() == name@,
                None => forall|j: int|
                    0 <= j < self.spec_sync_databases().len()
                        ==> (#[trigger] self.spec_sync_databases()[j]).spec_name() != name@,
            },
    {
        let mut k: usize = 0;
        while k < self.sync_databases.len()
            invariant
                k <= self.sync_databases@.len(),
                forall|j: int|
                    0 <= j < k ==> (#[trigger] self.spec_sync_databases()[j]).spec_name()
                        != name@,
            decreases self.sync_databases@.len() - k,
        {
            if crate::util::str_eq(self.sync_databases[k].name(), name) {
                return Some(k);
            }
            k += 1;
        }
        None
    }

    /// Are there any databases already registered with the given name?
    pub fn sync_database_exists(&self, name: &str) -> (r: bool)
        ensures
            r == (name@ != seq!['l', 'o', 'c', 'a', 'l'] && spec_name_valid(name@) && exists|
                i: int,
            |
                0 <= i < self.spec_sync_databases().len()
                    && (#[trigger] self.spec_sync_databases()[i]).spec_name() == name@),
    {
        match SyncDbName::new(name) {
            Ok(_) => match self.sync_database_index(name) {
                Some(i) => {
                    proof {
                        assert(0 <= i < self.spec_sync_databases().len()
                            && self.spec_sync_databases()[i as int].spec_name() == name@);
                    }
                    true
                },
                None => false,
            },
            Err(_) => false,
        }
    }

    /// Get the sync database with the given name, registering a fresh,
    /// empty one when none is registered yet.
    pub fn sync_database(&mut self, name: &str) -> (r: Result<&SyncDatabaseInner, Error>)
        requires
            old(self).wf(),
        ensures
            final(self).wf(),
            final(self).spec_root_path() == old(self).spec_root_path(),
            final(self).spec_database_path() == old(self).spec_database_path(),
            final(self).spec_database_extension() == old(self).spec_database_extension(),
            r is Ok <==> (name@ != seq!['l', 'o', 'c', 'a', 'l'] && spec_name_valid(name@)),
            r is Err ==> r->Err_0.kind is InvalidDatabaseName && final(self).spec_sync_databases() == old(self).spec_sync_databases(),
            r is Ok ==> r->Ok_0.spec_name() == name@,
            r is Ok ==> ((exists|i: int|
                0 <= i < old(self).spec_sync_databases().len() && (#[trigger] old(self).spec_sync_databases()[i]).spec_name() == name@) ==> final(self).spec_sync_databases() == old(self).spec_sync_databases()),
            r is Ok ==> ((forall|i: int|
                0 <= i < old(self).spec_sync_databases().len() ==> (#[trigger] old(self).spec_sync_databases()[i]).spec_name() != name@) ==> final(self).spec_sync_databases().len() == old(self).spec_sync_databases().len() + 1),
    {
        let db_name = match SyncDbName::new(name) {
            Ok(n) => n,
            Err(k) => {
                return Err(Error::from_kind(k));
            },
        };
        match self.sync_database_index(name) {
            Some(i) => Ok(&self.sync_databases[i]),
            None => {
                let db = SyncDatabaseInner::new(
                    db_name,
                    SignatureLevel::default(),
                    self.database_path.as_str(),
                    self.database_extension.as_str(),
                );
                proof {
                    assert forall|i: int, j: int|
                        0 <= i < j < self.spec_sync_databases().push(db).len() implies (
                    #[trigger] self.spec_sync_databases().push(db)[i]).spec_name() != (
                    #[trigger] self.spec_sync_databases().push(db)[j]).spec_name() by {
                        if j < self.spec_sync_databases().len() {
                        } else {
                            assert(self.spec_sync_databases().push(db)[i]
                                == self.spec_sync_databases()[i]);
                        }
                    }
                }
                let n = self.sync_databases.len();
                self.sync_databases.push(db);
                Ok(&self.sync_databases[n])
            },
        }
    }

    /// Unregister a sync database.  The database is left on the
    /// filesystem; a name that is invalid or not registered is a no-op.
    pub fn unregister_sync_database(&mut self, name: &str)
        requires
            old(self).wf(),
        ensures
            final(self).wf(),
            final(self).spec_root_path() == old(self).spec_root_path(),
            final(self).spec_database_path() == old(self).spec_database_path(),
            final(self).spec_database_extension() == old(self).spec_database_extension(),
            (name@ != seq!['l', 'o', 'c', 'a', 'l'] && spec_name_valid(name@)) ==> forall|
                j: int,
            |
                0 <= j < final(self).spec_sync_databases().len() ==> (#[trigger] final(self).spec_sync_databases()[j]).spec_name() != name@,
            !(name@ != seq!['l', 'o', 'c', 'a', 'l'] && spec_name_valid(name@)) ==> final(self).spec_sync_databases() == old(self).spec_sync_databases(),
    {
        match SyncDbName::new(name) {
            Err(_) => {},
            Ok(_) => {
                match self.sync_database_index(name) {
                    None => {},
                    Some(i) => {
                        let ghost before = self.spec_sync_databases();
                        self.sync_databases.remove(i);
                        proof {
                            assert forall|j: int|
                                0 <= j < self.spec_sync_databases().len() implies (
                            #[trigger] self.spec_sync_databases()[j]).spec_name() != name@ by {
                                if j < i {
                                    assert(self.spec_sync_databases()[j] == before[j]);
                                } else {
                                    assert(self.spec_sync_databases()[j] == before[j + 1]);
                                }
                            }
                            assert forall|a: int, b: int|
                                0 <= a < b < self.spec_sync_databases().len() implies (
                            #[trigger] self.spec_sync_databases()[a]).spec_name() != (
                            #[trigger] self.spec_sync_databases()[b]).spec_name() by {
                                let pa = if a < i { a } else { a + 1 };
                                let pb = if b < i { b } else { b + 1 };
                                assert(self.spec_sync_databases()[a] == before[pa]);
                                assert(self.spec_sync_databases()[b] == before[pb]);
                            }
                        }
                    },
                }
            },
        }
    }

    /// Deregister all sync databases from this instance.
    pub fn unregister_all_sync_databases(&mut self)
        requires
            old(self).wf(),
        ensures
            final(self).wf(),
            final(self).spec_sync_databases().len() == 0,
            final(self).spec_root_path() == old(self).spec_root_path(),
            final(self).spec_database_path() == old(self).spec_database_path(),
            final(self).spec_database_extension() == old(self).spec_database_extension(),
    {
        self.sync_databases.clear();
    }

    /// All registered sync databases.
    pub fn sync_databases(&self) -> (r: &Vec<SyncDatabaseInner>)
        ensures
            r@ == self.spec_sync_databases(),
    {
        &self.sync_databases
    }

    /// Work on the registered sync databases.
    pub fn sync_databases_mut(&mut self) -> (r: &mut Vec<SyncDatabaseInner>)
        ensures
            r@ == old(self).spec_sync_databases(),
            final(self).spec_sync_databases() == final(r)@,
            final(self).spec_root_path() == old(self).spec_root_path(),
            final(self).spec_database_path() == old(self).spec_database_path(),
            final(self).spec_database_extension() == old(self).spec_database_extension(),
    {
        &mut self.sync_databases
    }

    /// Get the parent database path.
    pub fn database_path(&self) -> (r: &str)
        ensures
            r@ == self.spec_database_path(),
    {
        self.database_path.as_str()
    }

    /// Get the sync database extension.
    pub fn database_extension(&self) -> (r: &str)
        ensures
            r@ == self.spec_database_extension(),
    {
        self.database_extension.as_str()
    }

    /// Get the root of this alpm instance.
    pub fn root_path(&self) -> (r: &str)
        ensures
            r@ == self.spec_root_path(),
    {
        self.root_path.as_str()
    }

    /// The architecture packages are installed for.
    pub fn arch(&self) -> (r: &str)
        ensures
            r@ == self.spec_arch(),
    {
        self.arch.as_str()
    }
}

} // verus!

