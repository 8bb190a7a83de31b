use alpm::db::local::{
    evaluate_status, parse_db_version, version_marker_content, DirEntryInfo, LocalDatabaseInner,
    MaybePackage,
};
use alpm::db::sync::{FetchOutcome, SyncAction, SyncDatabaseInner, SyncDbName};
use alpm::db::{split_package_dirname, DbStatus, SignatureLevel};
use alpm::error::ErrorKind;
use alpm::AlpmBuilder;

#[test]
fn db_test_split_package_dirname() {
    assert_eq!(
        split_package_dirname("abc-1223123-34"),
        Some(("abc".to_string(), "1223123-34".to_string()))
    );
    assert_eq!(
        split_package_dirname("abc-def-1223123-34"),
        Some(("abc-def".to_string(), "1223123-34".to_string()))
    );
}

#[test]
fn mod_test_split_package_dirname() {
    assert_eq!(
        split_package_dirname("abc-1223123-34"),
        Some(("abc".to_string(), "1223123-34".to_string()))
    );
}

#[test]
fn split_needs_two_hyphens() {
    assert_eq!(split_package_dirname("abc-12"), None);
    assert_eq!(split_package_dirname("abc"), None);
    assert_eq!(split_package_dirname(""), None);
}

#[test]
fn db_db_path() {
    let base_path = "/var/lib/pacman/";
    let base_path2 = "/var/lib/pacman";
    let ext = "db";

    let tests = vec![("sync1", "/var/lib/pacman/sync/sync1.db")];
    for (db_name, target) in tests {
        let db_name = SyncDbName::new(db_name).unwrap();
        assert_eq!(db_name.path(&base_path, ext), target);
        assert_eq!(db_name.path(&base_path2, ext), target);
    }
}

#[test]
fn mod_db_path() {
    let base_path = "/var/lib/pacman/";
    let base_path2 = "/var/lib/pacman";
    let ext = "db";

    let tests = vec![("sync1", "/var/lib/pacman/sync/sync1.db")];
    for (db_name, target) in tests {
        let db_name = SyncDbName::new(db_name).unwrap();
        assert_eq!(db_name.path(&base_path, &ext), target);
        assert_eq!(db_name.path(&base_path2, &ext), target);
    }
}

#[test]
fn db_name() {
    assert_eq!(
        SyncDbName::new("name_of_db").unwrap(),
        SyncDbName("name_of_db".into())
    );
    assert!(SyncDbName::new("bad/name").is_err());
    assert!(SyncDbName::new("bad\\name").is_err());
    assert!(SyncDbName::new("bad.name").is_err());
}

#[test]
fn local_db_name_is_reserved() {
    let err = SyncDbName::new("local").unwrap_err();
    assert_eq!(err, ErrorKind::InvalidDatabaseName("local".to_string()));
}

#[test]
fn version_marker() {
    assert_eq!(parse_db_version(b"9\n"), Some(9));
    assert_eq!(parse_db_version(b"9"), Some(9));
    assert_eq!(parse_db_version(b"10\n"), Some(10));
    assert_eq!(parse_db_version(b"nope"), None);
    assert_eq!(parse_db_version(b""), None);
    assert_eq!(parse_db_version(b"99999999999999999999"), None);
    assert_eq!(parse_db_version(&version_marker_content()), Some(9));
}

#[test]
fn local_status_rules() {
    // missing directory
    assert_eq!(evaluate_status(None, None, false, false), DbStatus::Missing);
    // present but not a directory
    assert_eq!(
        evaluate_status(Some(false), None, false, false),
        DbStatus::Exists { valid: false }
    );
    // marker present with the right version
    assert_eq!(
        evaluate_status(Some(true), Some(&b"9\n".to_vec()), false, false),
        DbStatus::Exists { valid: true }
    );
    // marker present with the wrong version
    assert_eq!(
        evaluate_status(Some(true), Some(&b"8\n".to_vec()), false, false),
        DbStatus::Exists { valid: false }
    );
    // marker absent: fresh empty directory can be bootstrapped
    assert_eq!(
        evaluate_status(Some(true), None, true, true),
        DbStatus::Exists { valid: true }
    );
    // marker absent in a non-empty directory is invalid
    assert_eq!(
        evaluate_status(Some(true), None, false, true),
        DbStatus::Exists { valid: false }
    );
}

#[test]
fn local_populate_and_lookup() {
    let mut db = LocalDatabaseInner::new("/var/lib/pacman", SignatureLevel::default());
    assert_eq!(db.path(), "/var/lib/pacman/local");
    let listing = vec![
        DirEntryInfo { file_name: "ALPM_DB_VERSION".to_string(), is_dir: false },
        DirEntryInfo { file_name: "foo-1.0-1".to_string(), is_dir: true },
        DirEntryInfo { file_name: "bar-2.0-1".to_string(), is_dir: true },
        DirEntryInfo { file_name: "foo-1.1-1".to_string(), is_dir: true },
    ];
    db.populate_package_cache(&listing).unwrap();
    assert_eq!(db.count(), 3);
    let i = db.entry_index("foo", "1.0-1").unwrap();
    match db.entry_at(i) {
        MaybePackage::Unloaded { path, name, version } => {
            assert_eq!(path, "/var/lib/pacman/local/foo-1.0-1");
            assert_eq!(name, "foo");
            assert_eq!(version, "1.0-1");
        }
        MaybePackage::Loaded(_) => panic!("expected an unloaded slot"),
    }
    // the version comparator decides the latest pick
    let latest = db.latest_index("foo").unwrap();
    match db.entry_at(latest) {
        MaybePackage::Unloaded { version, .. } => assert_eq!(version, "1.1-1"),
        MaybePackage::Loaded(_) => panic!("expected an unloaded slot"),
    }
    assert!(db.entry_index("baz", "1").is_none());
    // an unloaded slot reports the invalid-package error
    let err = db.package("foo", "1.0-1").unwrap_err();
    assert_eq!(err.kind, ErrorKind::InvalidLocalPackage("foo".to_string()));
}

#[test]
fn local_populate_rejects_unsplittable_names() {
    let mut db = LocalDatabaseInner::new("/var/lib/pacman", SignatureLevel::default());
    let listing = vec![DirEntryInfo { file_name: "nodash".to_string(), is_dir: true }];
    let err = db.populate_package_cache(&listing).unwrap_err();
    assert_eq!(err.kind, ErrorKind::InvalidLocalPackage("nodash".to_string()));
}

#[test]
fn sync_servers_are_a_set() {
    let name = SyncDbName::new("core").unwrap();
    let mut db = SyncDatabaseInner::new(name, SignatureLevel::default(), "/var/lib/pacman", "db");
    db.add_server("https://mirror.example/core/os/x86_64").unwrap();
    db.add_server("https://mirror.example/core/os/x86_64/").unwrap();
    assert_eq!(db.servers(), vec!["https://mirror.example/core/os/x86_64/".to_string()]);
    db.add_server("https://two.example/core/").unwrap();
    assert_eq!(db.servers().len(), 2);
    db.remove_server("https://mirror.example/core/os/x86_64").unwrap();
    assert_eq!(db.servers(), vec!["https://two.example/core/".to_string()]);
    db.remove_server("https://absent.example/").unwrap();
    assert_eq!(db.servers().len(), 1);
    db.clear_servers();
    assert_eq!(db.servers().len(), 0);
}

#[test]
fn sync_requests_and_actions() {
    let name = SyncDbName::new("extra").unwrap();
    let mut db = SyncDatabaseInner::new(name, SignatureLevel::default(), "/var/lib/pacman", "db");
    db.add_server("https://m.example/extra/").unwrap();
    let reqs = db.synchronize_requests(false, DbStatus::Exists { valid: true }, true, "db");
    assert_eq!(reqs.len(), 1);
    assert_eq!(reqs[0].url, "https://m.example/extra/extra.db");
    assert!(reqs[0].use_if_modified_since);
    // a forced refresh, or an invalid local copy, drops the condition
    let reqs = db.synchronize_requests(true, DbStatus::Exists { valid: true }, true, "db");
    assert!(!reqs[0].use_if_modified_since);
    let reqs = db.synchronize_requests(false, DbStatus::Missing, true, "db");
    assert!(!reqs[0].use_if_modified_since);
    assert_eq!(
        alpm::db::sync::synchronize_action(&FetchOutcome::NotModified),
        SyncAction::Finish
    );
    assert_eq!(
        alpm::db::sync::synchronize_action(&FetchOutcome::Modified),
        SyncAction::WriteAndFinish
    );
    assert_eq!(
        alpm::db::sync::synchronize_action(&FetchOutcome::OtherStatus(503)),
        SyncAction::Finish
    );
}

#[test]
fn sync_status() {
    let name = SyncDbName::new("core").unwrap();
    let db = SyncDatabaseInner::new(name, SignatureLevel::default(), "/var/lib/pacman", "db");
    assert_eq!(db.status_from(None), DbStatus::Missing);
    assert_eq!(db.status_from(Some(true)), DbStatus::Exists { valid: true });
    assert_eq!(db.status_from(Some(false)), DbStatus::Exists { valid: false });
}

#[test]
fn builder_paths() {
    let paths = AlpmBuilder::default().build_paths().unwrap();
    assert_eq!(paths.root_path, "/");
    assert_eq!(paths.database_path, "/var/lib/pacman");
    assert_eq!(paths.database_extension, "db");
    assert_eq!(paths.sync_db_path, "/var/lib/pacman/sync");
    assert_eq!(paths.lockfile_path, "/var/lib/pacman/db.lck");
    assert_eq!(paths.cache_directories, vec!["/var/cache/pacman/pkg".to_string()]);

    let paths = AlpmBuilder::default()
        .with_root_path("/my/chroot".to_string())
        .build_paths()
        .unwrap();
    assert_eq!(paths.database_path, "/my/chroot/var/lib/pacman");

    let err = AlpmBuilder::default()
        .with_database_extension("d.b".to_string())
        .build_paths()
        .unwrap_err();
    assert_eq!(err.kind, ErrorKind::BadSyncDatabaseExt("d.b".to_string()));
}

#[test]
fn registry_of_sync_databases() {
    let paths = AlpmBuilder::default().build_paths().unwrap();
    let local = alpm::db::local::LocalDatabase::new(LocalDatabaseInner::new(
        "/var/lib/pacman",
        SignatureLevel::default(),
    ));
    let mut alpm = alpm::Alpm::assemble(paths, "x86_64".to_string(), local);
    assert!(!alpm.sync_database_exists("core"));
    {
        let db = alpm.sync_database("core").unwrap();
        assert_eq!(db.name(), "core");
        assert_eq!(db.path, "/var/lib/pacman/sync/core.db");
    }
    assert!(alpm.sync_database_exists("core"));
    // asking again does not register a second copy
    alpm.sync_database("core").unwrap();
    assert_eq!(alpm.sync_databases().len(), 1);
    assert!(alpm.sync_database("local").is_err());
    assert!(alpm.sync_database("bad.name").is_err());
    alpm.unregister_sync_database("core");
    assert!(!alpm.sync_database_exists("core"));
    alpm.sync_database("a").unwrap();
    alpm.sync_database("b").unwrap();
    alpm.unregister_all_sync_databases();
    assert_eq!(alpm.sync_databases().len(), 0);
}

#[test]
fn latest_pick_orders_versions_numerically() {
    let mut db = LocalDatabaseInner::new("/var/lib/pacman", SignatureLevel::default());
    let listing = vec![
        DirEntryInfo { file_name: "foo-9.0-1".to_string(), is_dir: true },
        DirEntryInfo { file_name: "foo-10.0-1".to_string(), is_dir: true },
    ];
    db.populate_package_cache(&listing).unwrap();
    let latest = db.latest_index("foo").unwrap();
    match db.entry_at(latest) {
        MaybePackage::Unloaded { version, .. } => assert_eq!(version, "10.0-1"),
        MaybePackage::Loaded(_) => panic!("expected an unloaded slot"),
    }
}

#[test]
fn servers_must_be_urls() {
    let name = SyncDbName::new("core").unwrap();
    let mut db = SyncDatabaseInner::new(name, SignatureLevel::default(), "/var/lib/pacman", "db");
    let err = db.add_server("not a url").unwrap_err();
    match err.kind {
        ErrorKind::CannotAddServerToDatabase { url, database } => {
            assert_eq!(url, "not a url");
            assert_eq!(database, "core");
        }
        other => panic!("unexpected error kind: {:?}", other),
    }
    assert_eq!(db.servers().len(), 0);
    let err = db.remove_server("not a url").unwrap_err();
    match err.kind {
        ErrorKind::CannotAddServerToDatabase { url, .. } => assert_eq!(url, "not a url"),
        other => panic!("unexpected error kind: {:?}", other),
    }
}
