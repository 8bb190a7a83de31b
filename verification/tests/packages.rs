use std::io::Write;

use alpm::db::local_package::{FileStat, FileType, InstallReason, LocalPackage, ValidationError};
use alpm::db::sync::{SyncDatabaseInner, SyncDbName};
use alpm::db::sync_package::SyncPackage;
use alpm::db::SignatureLevel;
use alpm::error::ErrorKind;

fn gzip(data: &[u8]) -> Vec<u8> {
    let mut enc = libflate::gzip::Encoder::new(Vec::new()).unwrap();
    enc.write_all(data).unwrap();
    enc.finish().into_result().unwrap()
}

fn local_desc(name: &str, version: &str) -> String {
    format!(
        "%NAME%\n{}\n\n%VERSION%\n{}\n\n%DESC%\nA test package\n\n%ARCH%\nx86_64\n\n\
         %BUILDDATE%\n1234\n\n%INSTALLDATE%\n5678\n\n%PACKAGER%\nSomeone\n\n%SIZE%\n100\n\n\
         %REASON%\n1\n\n%VALIDATION%\nsha256\n\n%DEPENDS%\nglibc\n\n",
        name, version
    )
}

const FILES_RAW: &str = "%FILES%\nusr/\nusr/bin/\nusr/bin/foo\n\n";

const MTREE_RAW: &str = "#mtree\n\
    ./usr/bin/foo type=file size=100\n\
    ./usr/bin/bookkeeping type=file size=1\n";

fn load_package() -> LocalPackage {
    LocalPackage::from_local(
        "/var/lib/pacman/local/pkgname-1.0-1".to_string(),
        "pkgname",
        "1.0-1",
        &local_desc("pkgname", "1.0-1"),
        FILES_RAW,
        &gzip(MTREE_RAW.as_bytes()),
    )
    .unwrap()
}

#[test]
fn local_package_load() {
    let pkg = load_package();
    assert_eq!(pkg.name(), "pkgname");
    assert_eq!(pkg.version(), "1.0-1");
    assert_eq!(pkg.description(), "A test package");
    assert_eq!(pkg.arch(), "x86_64");
    assert_eq!(pkg.size(), 100);
    assert_eq!(pkg.reason(), Some(InstallReason::Depend));
    assert_eq!(pkg.packager(), "Someone");
    assert_eq!(pkg.depends(), &vec!["glibc".to_string()]);
    assert_eq!(pkg.base(), None);
    // the manifest is reconciled against the recorded file list: the
    // bookkeeping entry is dropped
    assert_eq!(pkg.files_count(), 1);
    assert_eq!(pkg.file_names(), vec!["./usr/bin/foo".to_string()]);
    let entry = &pkg.files()[0];
    assert_eq!(entry.file_type, Some(FileType::File));
    assert_eq!(entry.size, Some(100));
}

#[test]
fn local_package_name_mismatch() {
    // the desc declares a different name than the directory carries
    let err = LocalPackage::from_local(
        "/var/lib/pacman/local/pkgname-1.0-1".to_string(),
        "pkgname",
        "1.0-1",
        &local_desc("other", "1.0-1"),
        FILES_RAW,
        &gzip(MTREE_RAW.as_bytes()),
    )
    .unwrap_err();
    assert_eq!(err.kind, ErrorKind::InvalidLocalPackage("pkgname".to_string()));

    let err = LocalPackage::from_local(
        "/var/lib/pacman/local/pkgname-1.0-1".to_string(),
        "pkgname",
        "1.0-1",
        &local_desc("pkgname", "2.0-1"),
        FILES_RAW,
        &gzip(MTREE_RAW.as_bytes()),
    )
    .unwrap_err();
    assert_eq!(err.kind, ErrorKind::InvalidLocalPackage("pkgname".to_string()));

    // a mangled manifest is an error too
    let err = LocalPackage::from_local(
        "/var/lib/pacman/local/pkgname-1.0-1".to_string(),
        "pkgname",
        "1.0-1",
        &local_desc("pkgname", "1.0-1"),
        FILES_RAW,
        b"this is not gzip",
    )
    .unwrap_err();
    assert_eq!(err.kind, ErrorKind::UnexpectedIo);
}

#[test]
fn validate_scenario() {
    let pkg = load_package();
    // expected size 100, on-disk 50: exactly one WrongSize, nothing else
    let stats = vec![Some(FileStat { file_type: FileType::File, size: 50 })];
    let errors = pkg.validate("/", &stats);
    assert_eq!(
        errors,
        vec![ValidationError::WrongSize {
            filename: "./usr/bin/foo".to_string(),
            expected: 100,
            actual: 50,
        }]
    );
    // absent from disk: exactly one FileNotFound
    let errors = pkg.validate("/", &vec![None]);
    assert_eq!(
        errors,
        vec![ValidationError::FileNotFound("/./usr/bin/foo".to_string())]
    );
    // the wrong type is reported, and a good file reports nothing
    let stats = vec![Some(FileStat { file_type: FileType::Directory, size: 100 })];
    let errors = pkg.validate("/", &stats);
    assert_eq!(
        errors,
        vec![ValidationError::WrongType {
            filename: "./usr/bin/foo".to_string(),
            expected: FileType::File,
            actual: FileType::Directory,
        }]
    );
    let stats = vec![Some(FileStat { file_type: FileType::File, size: 100 })];
    assert_eq!(pkg.validate("/", &stats), vec![]);
}

#[test]
fn validate_does_not_stop_at_the_first_problem() {
    let desc = local_desc("pkgname", "1.0-1");
    let files = "%FILES%\nusr/bin/foo\nusr/bin/bar\n\n";
    let mtree = "#mtree\n./usr/bin/foo type=file size=100\n./usr/bin/bar type=file size=7\n";
    let pkg = LocalPackage::from_local(
        "/var/lib/pacman/local/pkgname-1.0-1".to_string(),
        "pkgname",
        "1.0-1",
        &desc,
        files,
        &gzip(mtree.as_bytes()),
    )
    .unwrap();
    let stats = vec![
        Some(FileStat { file_type: FileType::File, size: 50 }),
        None,
    ];
    let errors = pkg.validate("/", &stats);
    assert_eq!(
        errors,
        vec![
            ValidationError::WrongSize {
                filename: "./usr/bin/foo".to_string(),
                expected: 100,
                actual: 50,
            },
            ValidationError::FileNotFound("/./usr/bin/bar".to_string()),
        ]
    );
}

#[test]
fn size_on_disk_sums_present_files() {
    let pkg = load_package();
    assert_eq!(pkg.size_on_disk(&vec![Some(40), None, Some(2)]), 42);
}

fn sync_desc(name: &str, version: &str) -> String {
    format!(
        "%FILENAME%\n{}-{}-x86_64.pkg.tar.zst\n\n%NAME%\n{}\n\n%VERSION%\n{}\n\n\
         %DESC%\nA repo package\n\n%CSIZE%\n900\n\n%ISIZE%\n2000\n\n%MD5SUM%\nabc\n\n\
         %SHA256SUM%\ndef\n\n%PGPSIG%\nsig\n\n%ARCH%\nx86_64\n\n%BUILDDATE%\n1234\n\n\
         %PACKAGER%\nSomeone\n\n",
        name, version, name, version
    )
}

fn tar_archive(entries: &[(&str, &[u8])]) -> Vec<u8> {
    let mut builder = tar::Builder::new(Vec::new());
    for (path, data) in entries {
        let mut header = tar::Header::new_gnu();
        header.set_path(path).unwrap();
        header.set_size(data.len() as u64);
        header.set_cksum();
        builder.append(&header, *data).unwrap();
    }
    builder.into_inner().unwrap()
}

#[test]
fn sync_package_from_parts() {
    let desc = sync_desc("core-pkg", "3.2-1");
    let pkg = SyncPackage::from_parts(&desc, "core-pkg", "3.2-1").unwrap();
    assert_eq!(pkg.name(), "core-pkg");
    assert_eq!(pkg.version(), "3.2-1");
    assert_eq!(pkg.size(), 2000);
    assert_eq!(pkg.compressed_size(), 900);
    assert_eq!(pkg.filename(), "core-pkg-3.2-1-x86_64.pkg.tar.zst");
    let err = SyncPackage::from_parts(&desc, "wrong", "3.2-1").unwrap_err();
    assert_eq!(err.kind, ErrorKind::InvalidSyncPackage("wrong".to_string()));
}

#[test]
fn sync_populate() {
    let a = sync_desc("alpha", "1.0-1");
    let b = sync_desc("beta", "2.0-1");
    let archive = tar_archive(&[
        ("alpha-1.0-1/desc", a.as_bytes()),
        ("alpha-1.0-1/depends", b"ignored"),
        ("beta-2.0-1/desc", b.as_bytes()),
    ]);
    let name = SyncDbName::new("core").unwrap();
    let mut db = SyncDatabaseInner::new(name, SignatureLevel::default(), "/var/lib/pacman", "db");
    db.populate_package_cache(&gzip(&archive)).unwrap();
    assert_eq!(db.count(), 2);
    let p = db.package("alpha", "1.0-1").unwrap();
    assert_eq!(p.description(), "A repo package");
    assert!(db.package("alpha", "9.9-9").is_err());
    let p = db.package_latest("beta").unwrap();
    assert_eq!(p.version(), "2.0-1");
    assert!(db.package_latest("gamma").is_err());
}

#[test]
fn sync_archive_uniqueness() {
    // two desc entries for one package: a corrupt archive, not a silent
    // overwrite
    let a = sync_desc("alpha", "1.0-1");
    let archive = tar_archive(&[
        ("alpha-1.0-1/desc", a.as_bytes()),
        ("alpha-1.0-1/desc", a.as_bytes()),
    ]);
    let name = SyncDbName::new("core").unwrap();
    let mut db = SyncDatabaseInner::new(name, SignatureLevel::default(), "/var/lib/pacman", "db");
    let err = db.populate_package_cache(&gzip(&archive)).unwrap_err();
    assert_eq!(err.kind, ErrorKind::DuplicateDatabaseEntry("alpha".to_string()));
}

#[test]
fn sync_populate_rejects_garbage() {
    let name = SyncDbName::new("core").unwrap();
    let mut db = SyncDatabaseInner::new(name, SignatureLevel::default(), "/var/lib/pacman", "db");
    let err = db.populate_package_cache(b"not gzip at all").unwrap_err();
    assert_eq!(err.kind, ErrorKind::UnexpectedIo);
}

#[test]
fn manifests_with_wild_lines_are_rejected() {
    // the mtree parser does not implement /unset; the screen refuses the
    // manifest before the parser can see it
    let mtree = "#mtree\n/unset type\n./usr/bin/foo type=file size=100\n";
    let err = LocalPackage::from_local(
        "/var/lib/pacman/local/pkgname-1.0-1".to_string(),
        "pkgname",
        "1.0-1",
        &local_desc("pkgname", "1.0-1"),
        FILES_RAW,
        &gzip(mtree.as_bytes()),
    )
    .unwrap_err();
    assert_eq!(err.kind, ErrorKind::UnexpectedMtree);
    // an unknown keyword is refused too
    let mtree = "#mtree\n./usr/bin/foo type=file frob=1\n";
    let err = LocalPackage::from_local(
        "/var/lib/pacman/local/pkgname-1.0-1".to_string(),
        "pkgname",
        "1.0-1",
        &local_desc("pkgname", "1.0-1"),
        FILES_RAW,
        &gzip(mtree.as_bytes()),
    )
    .unwrap_err();
    assert_eq!(err.kind, ErrorKind::UnexpectedMtree);
}

#[test]
fn tame_manifest_directives_are_accepted() {
    // /set, comments, blank lines and a full keyword line all pass the
    // screen and the bytes parse to the recorded entries
    let mtree = "#mtree\n/set type=file uid=0 gid=0 mode=644\n\n\
        ./usr/bin/foo time=1523250074.300237174 size=100 \
        md5digest=13c0a46c2fb9f18a1a237d4904b6916e\n";
    let pkg = LocalPackage::from_local(
        "/var/lib/pacman/local/pkgname-1.0-1".to_string(),
        "pkgname",
        "1.0-1",
        &local_desc("pkgname", "1.0-1"),
        FILES_RAW,
        &gzip(mtree.as_bytes()),
    )
    .unwrap();
    assert_eq!(pkg.files_count(), 1);
    assert_eq!(pkg.file_names(), vec!["./usr/bin/foo".to_string()]);
    assert_eq!(pkg.files()[0].size, Some(100));
}
