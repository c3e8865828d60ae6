use proto_core::bins::{decimal_string, BinManager, VersionKey, VersionKind};
use proto_core::context::ToolContext;
use proto_core::lock::{LockOptions, LockRecord, LockSource, Locker, ProtoLockError, ToolSpec};
use proto_core::paths::ProtoPath;

fn version(order: u64, major: u32, minor: u32, text: &str) -> VersionKey {
    VersionKey { order, kind: VersionKind::Version { major, minor }, text: text.to_owned() }
}

fn bucket(manager: &BinManager, key: &str) -> Option<String> {
    manager
        .get_buckets()
        .iter()
        .find(|(k, _)| k == key)
        .map(|(_, v)| v.text.clone())
}

#[test]
fn decimal_forms() {
    assert_eq!(decimal_string(0), "0");
    assert_eq!(decimal_string(7), "7");
    assert_eq!(decimal_string(120), "120");
    assert_eq!(decimal_string(u32::MAX), "4294967295");
}

#[test]
fn bucket_keys_of_versions() {
    assert_eq!(BinManager::get_keys(&version(1, 1, 2, "1.2.3")), vec!["*", "1", "1.2"]);
    let canary = VersionKey { order: 0, kind: VersionKind::Canary, text: "canary".into() };
    assert_eq!(BinManager::get_keys(&canary), vec!["canary"]);
    let alias = VersionKey { order: 0, kind: VersionKind::Alias("canary".into()), text: "canary".into() };
    assert_eq!(BinManager::get_keys(&alias), vec!["canary"]);
    let other = VersionKey { order: 0, kind: VersionKind::Alias("stable".into()), text: "stable".into() };
    assert!(BinManager::get_keys(&other).is_empty());
}

#[test]
fn buckets_resolve_to_the_highest_version() {
    let mut manager = BinManager::new();
    manager.add_version(&version(20, 1, 5, "1.5.0"));
    manager.add_version(&version(10, 1, 2, "1.2.3"));
    manager.add_version(&version(30, 2, 0, "2.0.0"));

    assert_eq!(bucket(&manager, "*"), Some("2.0.0".into()));
    assert_eq!(bucket(&manager, "1"), Some("1.5.0".into()));
    assert_eq!(bucket(&manager, "1.2"), Some("1.2.3".into()));
    assert_eq!(bucket(&manager, "1.5"), Some("1.5.0".into()));
    assert_eq!(bucket(&manager, "2"), Some("2.0.0".into()));
    assert_eq!(bucket(&manager, "2.0"), Some("2.0.0".into()));
    assert_eq!(manager.get_buckets().len(), 6);
}

#[test]
fn aliases_are_not_binned() {
    let mut manager = BinManager::new();
    let alias = VersionKey { order: 5, kind: VersionKind::Alias("stable".into()), text: "stable".into() };
    manager.add_version(&alias);
    assert!(manager.get_buckets().is_empty());
}

#[test]
fn removing_the_bucket_occupant_rebuilds() {
    let mut manager = BinManager::new();
    manager.add_version(&version(10, 1, 2, "1.2.3"));
    manager.add_version(&version(30, 2, 0, "2.0.0"));

    assert!(manager.remove_version(&version(30, 2, 0, "2.0.0")));
    assert_eq!(bucket(&manager, "*"), Some("1.2.3".into()));
    assert_eq!(bucket(&manager, "2"), None);
    assert!(!manager.remove_version(&version(30, 2, 0, "2.0.0")));
}

#[test]
fn adding_twice_changes_nothing() {
    let mut once = BinManager::new();
    once.add_version(&version(10, 1, 2, "1.2.3"));
    let mut twice = BinManager::new();
    twice.add_version(&version(10, 1, 2, "1.2.3"));
    twice.add_version(&version(10, 1, 2, "1.2.3"));
    assert_eq!(once.get_buckets().len(), twice.get_buckets().len());
    assert_eq!(bucket(&twice, "1.2"), Some("1.2.3".into()));
}

#[test]
fn focused_buckets_only_hold_the_version_keys() {
    let manager = BinManager::from_manifest(&vec![
        version(10, 1, 2, "1.2.3"),
        version(30, 2, 0, "2.0.0"),
    ]);
    let focused = manager.get_buckets_focused_to_version(&version(10, 1, 2, "1.2.3"));
    let mut keys: Vec<String> = focused.iter().map(|(k, _)| k.clone()).collect();
    keys.sort();
    assert_eq!(keys, vec!["*", "1", "1.2"]);
    let star = focused.iter().find(|(k, _)| k == "*").unwrap();
    assert_eq!(star.1.text, "2.0.0");
}

fn record(spec: &str, version_key: Option<VersionKey>, checksum: Option<&str>) -> LockRecord {
    LockRecord {
        backend: None,
        spec: Some(spec.to_owned()),
        version: version_key,
        checksum: checksum.map(|c| c.to_owned()),
        source: None,
        os: Some("linux".into()),
        arch: Some("x64".into()),
    }
}

fn locker(ignore_os_arch: bool, no_record: bool) -> Locker {
    Locker::new(
        ToolContext { id: "node".into(), backend: None },
        LockOptions { ignore_os_arch, no_record },
        "linux".into(),
        "x64".into(),
    )
}

#[test]
fn records_match_on_backend_spec_and_system() {
    let a = record("20", None, None);
    let opts = LockOptions { ignore_os_arch: false, no_record: false };
    assert!(a.is_match(&record("20", None, None), &opts));
    assert!(!a.is_match(&record("18", None, None), &opts));
    let mut mac = record("20", None, None);
    mac.os = Some("macos".into());
    assert!(!a.is_match(&mac, &opts));
    assert!(a.is_match(&mac, &LockOptions { ignore_os_arch: true, no_record: false }));
    let mut unknown = record("20", None, None);
    unknown.os = None;
    assert!(a.is_match(&unknown, &opts));
    assert!(a.is_match_with(&None, &None, &None, &None, &opts));
}

#[test]
fn compares_install_to_lock_record() {
    let install = record("20", None, Some("sha256:a"));
    assert!(Locker::compare_records(&install, &record("20", None, Some("sha256:a"))).is_ok());
    match Locker::compare_records(&install, &record("20", None, Some("sha256:b"))) {
        Err(ProtoLockError::MismatchedChecksum { checksum, lockfile_checksum }) => {
            assert_eq!(checksum, "sha256:a");
            assert_eq!(lockfile_checksum, "sha256:b");
        }
        _ => panic!("expected a checksum mismatch"),
    }
    let mut from_url = record("20", None, Some("sha256:a"));
    from_url.source = Some("https://x".into());
    match Locker::compare_records(&from_url, &record("20", None, Some("sha256:b"))) {
        Err(ProtoLockError::MismatchedChecksumWithSource { source_url, .. }) => {
            assert_eq!(source_url, "https://x")
        }
        _ => panic!("expected a checksum mismatch with source"),
    }
    match Locker::compare_records(&record("20", None, None), &record("20", None, Some("sha256:b"))) {
        Err(ProtoLockError::MismatchedChecksum { checksum, .. }) => assert_eq!(checksum, "(missing)"),
        _ => panic!("expected a missing checksum"),
    }
    let mut mac = record("20", None, None);
    mac.os = Some("macos".into());
    match Locker::compare_records(&mac, &record("20", None, None)) {
        Err(ProtoLockError::MismatchedOs { os, lockfile_os }) => {
            assert_eq!(os, "macos");
            assert_eq!(lockfile_os, "linux");
        }
        _ => panic!("expected an os mismatch"),
    }
    let mut arm = record("20", None, None);
    arm.arch = Some("arm64".into());
    assert!(matches!(
        Locker::compare_records(&arm, &record("20", None, None)),
        Err(ProtoLockError::MismatchedArch { .. })
    ));
    let mut other_backend = record("20", None, Some("sha256:z"));
    other_backend.backend = Some("asdf".into());
    assert!(Locker::compare_records(&other_backend, &record("20", None, Some("sha256:b"))).is_ok());
}

#[test]
fn inserting_records() {
    let l = locker(false, false);
    let mut entry: Option<Vec<LockRecord>> = None;
    assert!(l.insert_record_into_lockfile(&mut entry, &record("20", Some(version(5, 20, 1, "20.1.0")), None)));
    assert_eq!(entry.as_ref().unwrap().len(), 1);

    // A matching record keeps the higher version
    assert!(l.insert_record_into_lockfile(&mut entry, &record("20", Some(version(7, 20, 3, "20.3.0")), None)));
    let records = entry.as_ref().unwrap();
    assert_eq!(records.len(), 1);
    assert_eq!(records[0].version.as_ref().unwrap().text, "20.3.0");

    assert!(l.insert_record_into_lockfile(&mut entry, &record("18", Some(version(2, 18, 0, "18.0.0")), None)));
    assert_eq!(entry.as_ref().unwrap().len(), 2);

    let quiet = locker(false, true);
    assert!(!quiet.insert_record_into_lockfile(&mut entry, &record("16", None, None)));
    assert_eq!(entry.as_ref().unwrap().len(), 2);
}

#[test]
fn locked_versions_and_resolution() {
    let l = locker(false, false);
    let entry = Some(vec![
        record("20", Some(version(5, 20, 1, "20.1.0")), None),
        record("~20", Some(version(5, 20, 1, "20.1.0")), None),
        record("18", Some(version(2, 18, 0, "18.0.0")), None),
    ]);
    let versions: Vec<String> = l.get_locked_versions(&entry).iter().map(|v| v.text.clone()).collect();
    assert_eq!(versions.len(), 2);
    assert!(versions.contains(&"20.1.0".to_owned()));
    assert!(versions.contains(&"18.0.0".to_owned()));

    let resolved = l.resolve_locked_record(&entry, &"18".to_owned()).unwrap();
    assert_eq!(resolved.version.unwrap().text, "18.0.0");
    assert!(l.resolve_locked_record(&entry, &"16".to_owned()).is_none());
    assert!(l.resolve_locked_record(&None, &"18".to_owned()).is_none());
}

#[test]
fn resolved_record_prefers_the_spec_then_the_manifest() {
    let l = locker(false, false);
    let manifest = vec![(version(2, 18, 0, "18.0.0"), record("18", None, Some("sha256:m")))];
    let spec = ToolSpec { req: "18".into(), version: Some(version(2, 18, 0, "18.0.0")), version_locked: None };
    let r = l.get_resolved_locked_record(&spec, &manifest).unwrap();
    assert_eq!(r.checksum.as_deref(), Some("sha256:m"));

    let spec = ToolSpec {
        req: "18".into(),
        version: Some(version(2, 18, 0, "18.0.0")),
        version_locked: Some(record("18", None, Some("sha256:s"))),
    };
    let r = l.get_resolved_locked_record(&spec, &manifest).unwrap();
    assert_eq!(r.checksum.as_deref(), Some("sha256:s"));

    let spec = ToolSpec { req: "16".into(), version: Some(version(1, 16, 0, "16.0.0")), version_locked: None };
    assert!(l.get_resolved_locked_record(&spec, &manifest).is_none());
    let install = record("16", None, Some("anything"));
    assert!(l.verify_locked_record(&spec, &manifest, &install).is_ok());
}

#[test]
fn removing_records() {
    let l = locker(false, false);
    let mut entry = Some(vec![
        record("20", Some(version(5, 20, 1, "20.1.0")), None),
        record("18", Some(version(2, 18, 0, "18.0.0")), None),
    ]);
    assert!(l.remove_spec_from_lockfile(&mut entry, &"20".to_owned()));
    assert_eq!(entry.as_ref().unwrap().len(), 1);
    assert!(!l.remove_spec_from_lockfile(&mut entry, &"20".to_owned()));
    assert!(l.remove_spec_from_lockfile(&mut entry, &"18".to_owned()));
    assert!(entry.is_none());

    let mut entry = Some(vec![record("20", None, None)]);
    assert!(l.remove_from_lockfile(&mut entry));
    assert!(entry.is_none());
    assert!(!l.remove_from_lockfile(&mut entry));
}

#[test]
fn updating_a_spec_moves_its_records() {
    let l = locker(false, false);
    let mut entry = Some(vec![record("20", Some(version(5, 20, 1, "20.1.0")), Some("sha256:a"))]);
    assert!(l.update_spec_in_lockfile(&mut entry, &"20".to_owned(), &"~20".to_owned(), &version(6, 20, 2, "20.2.0")));
    let records = entry.as_ref().unwrap();
    assert_eq!(records.len(), 1);
    assert_eq!(records[0].spec.as_deref(), Some("~20"));
    assert_eq!(records[0].version.as_ref().unwrap().text, "20.2.0");
    // The checksum belonged to the old version
    assert!(records[0].checksum.is_none());

    assert!(!l.update_spec_in_lockfile(&mut entry, &"~20".to_owned(), &"~20".to_owned(), &version(6, 20, 2, "20.2.0")));
}

#[test]
fn lock_source_follows_the_config() {
    let l = locker(false, false);
    assert!(matches!(l.load_lock(), LockSource::ClosestConfig));
    let l = Locker::for_config(
        ToolContext { id: "node".into(), backend: None },
        LockOptions { ignore_os_arch: false, no_record: false },
        "linux".into(),
        "x64".into(),
        ProtoPath::parse("/p/.prototools"),
    );
    match l.load_lock_mut() {
        LockSource::ConfigFile(p) => assert_eq!(p.render(), "/p/.prototools"),
        _ => panic!("expected the config file"),
    }
}
