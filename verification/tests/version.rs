use alpm::version::{version_hash, Version};
use std::cmp::Ordering::{Equal, Greater, Less};
use std::collections::HashSet;

#[test]
fn version_cmp() {
    let test_set = vec![
        (&""[..], &""[..], Equal),
        (&"1"[..], &""[..], Greater),
        (&""[..], &"1"[..], Less),
        (&"1"[..], &"1"[..], Equal),
        (&"a"[..], &"1"[..], Less),
        (&"1"[..], &"2"[..], Less),
        (&"2"[..], &"1"[..], Greater),
        (&"001"[..], &"2"[..], Less),
        (&"001"[..], &"1"[..], Equal),
        (&"aa||123"[..], &"aa^^123"[..], Equal),
        (&"aa||123"[..], &"aa^^123"[..], Equal),
        (&"1.2.4alpha"[..], &"1.2.4"[..], Less),
        (&"1.2.4-alpha"[..], &"1.2.4"[..], Less),
        (&"1.2.4-1"[..], &"1.2.4"[..], Greater),
        (&"1.2.4--"[..], &"1.2.4---"[..], Equal),
        (&"123abc%%^%123abc"[..], &"123**$%abc123abc"[..], Less),
    ];
    for (left, right, cmp) in test_set.into_iter() {
        assert_eq!(
            alpm::version::version_cmp(left, right),
            cmp,
            r#"version_cmp("{}", "{}")"#,
            left,
            right
        );
    }
}

#[test]
fn parse_version() {
    let test_set = vec![
        (&""[..], Version::new("0", "", None)),
        (&"1"[..], Version::new("0", "1", None)),
        (&"0"[..], Version::new("0", "0", None)),
        (&"1-1"[..], Version::new("0", "1", Some("1"))),
        (&"1:1-1"[..], Version::new("1", "1", Some("1"))),
        (&"alpha:1-1"[..], Version::new("0", "alpha:1", Some("1"))),
    ];
    for (test, expected) in test_set.into_iter() {
        let version = Version::parse(test);
        assert_eq!(version.epoch, expected.epoch, "epoch");
        assert_eq!(version.version, expected.version, "version");
        assert_eq!(version.release, expected.release, "release");
    }
}

#[test]
fn version() {
    let test_set = vec![
        (&""[..], &""[..], Equal),
        (&"1"[..], &""[..], Greater),
        (&"0"[..], &"1"[..], Less),
        (&"0:1"[..], &"1:0"[..], Less),
        (&"1-1"[..], &"1"[..], Equal),
        (&"v1.0.0-alpha"[..], &"v1.0.0"[..], Equal),
        (&"1:1.0.0-100"[..], &"0:v1000.0.0"[..], Greater),
    ];
    for (left, right, cmp) in test_set.into_iter() {
        assert_eq!(
            Version::parse(left).cmp(&Version::parse(right)),
            cmp,
            r#"cmp("{}", "{}")"#,
            left,
            right
        );
    }
}

#[test]
fn hash() {
    let mut set1 = HashSet::new();
    let mut set2: Vec<Version> = Vec::new();
    for val in vec![
        Version::parse("1-"),
        Version::parse("1 "),
        Version::parse("1"),
        Version::parse("01"),
        Version::parse("a"),
    ] {
        set1.insert(val.hash_value());
        if !set2.iter().any(|v| *v == val) {
            set2.push(val);
        }
    }
    assert_eq!(set1.len(), 2, "set1.len()");
    assert_eq!(set2.len(), 2, "set2.len()");
}

#[test]
fn byte_eq_versus_cmp_eq() {
    let a = Version::parse("01");
    let b = Version::parse("1");
    // equal under the block ordering, but written differently
    assert!(a == b);
    assert!(!a.byte_eq(&b));
    assert!(a.byte_eq(&a));
}

#[test]
fn equal_versions_hash_equal() {
    // versions that compare equal must hash equal
    let pairs = vec![
        ("1-", "1 "),
        ("1", "01"),
        ("1.2.4--", "1.2.4---"),
        ("1-1", "1"),
        ("2:1.0-3", "2:1.0-3"),
    ];
    for (l, r) in pairs {
        let vl = Version::parse(l);
        let vr = Version::parse(r);
        assert!(vl == vr, "{} == {}", l, r);
        assert_eq!(vl.hash_value(), vr.hash_value(), "hash {} vs {}", l, r);
    }
}

#[test]
fn version_hash_section() {
    // a trailing separator run does not take part in the hash
    assert_eq!(version_hash("1.2.4--"), version_hash("1.2.4---"));
    assert_eq!(version_hash("01"), version_hash("1"));
    assert_ne!(version_hash("1"), version_hash("2"));
}

#[test]
fn into_owned_keeps_parts() {
    let v = Version::parse("2:3.4-5").into_owned();
    assert_eq!(v.epoch, b"2".to_vec());
    assert_eq!(v.version, b"3.4".to_vec());
    assert_eq!(v.release, Some(b"5".to_vec()));
}
