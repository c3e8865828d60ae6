use proto_core::paths::ProtoPath;
use proto_core::trust::{is_listed, ProtoConfigTrust, ProtoTrustSource, ProtoTrustStore, TrustRecordEntry};

// The records read from the trust directory, kept as the library keeps
// them; trusting and untrusting go through the store.
fn trust(store: &ProtoTrustStore, records: &mut Vec<TrustRecordEntry>, path: &str) -> ProtoPath {
    let p = ProtoPath::parse(path);
    let file = store.trust(&p, records);
    assert_eq!(file.render(), store.get_record_path(&p).render());
    p
}

fn untrust(store: &ProtoTrustStore, records: &mut Vec<TrustRecordEntry>, path: &str) -> bool {
    let p = ProtoPath::parse(path);
    match store.untrust(&p, records) {
        Some(file) => {
            assert_eq!(file.render(), store.get_record_path(&p).render());
            true
        },
        None => false,
    }
}

// A record file that can no longer be read.
fn corrupt(records: &mut Vec<TrustRecordEntry>, path: &str) {
    for entry in records.iter_mut() {
        if entry.path.render() == path {
            entry.stored = None;
        }
    }
}

fn create_store() -> ProtoTrustStore {
    ProtoTrustStore {
        dir: ProtoPath::parse("/sandbox/trust"),
        trust_all: false,
        trusted_paths: vec![],
    }
}

fn source(store: &ProtoTrustStore, records: &Vec<TrustRecordEntry>, path: &str) -> Option<ProtoTrustSource> {
    store.get_trust_source(&ProtoPath::parse(path), records)
}

fn trusted(store: &ProtoTrustStore, records: &Vec<TrustRecordEntry>, path: &str) -> bool {
    store.is_trusted(&ProtoPath::parse(path), records)
}

fn record_path(source: Option<ProtoTrustSource>) -> Option<String> {
    match source {
        Some(ProtoTrustSource::Record(p)) => Some(p.render()),
        _ => None,
    }
}

#[test]
fn not_trusted_by_default() {
    let store = create_store();
    let records = Vec::<TrustRecordEntry>::new();

    assert!(source(&store, &records, "/sandbox/.prototools").is_none());
}

#[test]
fn trusts_directory() {
    let store = create_store();
    let mut records = Vec::<TrustRecordEntry>::new();
    let dir = trust(&store, &mut records, "/sandbox/a");

    assert_eq!(
        record_path(source(&store, &records, "/sandbox/a/.prototools")),
        Some(dir.render())
    );
    assert!(!trusted(&store, &records, "/sandbox/b/.prototools"));
}

#[test]
fn trusts_nested_directories() {
    let store = create_store();
    let mut records = Vec::<TrustRecordEntry>::new();
    trust(&store, &mut records, "/sandbox/a");

    assert!(trusted(&store, &records, "/sandbox/a/b/c/.prototools"));
    assert!(trusted(&store, &records, "/sandbox/a/b/.prototools.prod"));
    assert!(!trusted(&store, &records, "/sandbox/.prototools"));
}

#[test]
fn trusts_file() {
    let store = create_store();
    let mut records = Vec::<TrustRecordEntry>::new();
    let file = trust(&store, &mut records, "/sandbox/.prototools");

    assert_eq!(
        record_path(source(&store, &records, "/sandbox/.prototools")),
        Some(file.render())
    );

    // Only that file
    assert!(!trusted(&store, &records, "/sandbox/.prototools.prod"));
    assert!(!trusted(&store, &records, "/sandbox/child/.prototools"));
}

#[test]
fn file_and_directory_trust_are_independent() {
    let store = create_store();
    let mut records = Vec::<TrustRecordEntry>::new();
    let file = "/sandbox/.prototools";

    trust(&store, &mut records, "/sandbox");
    trust(&store, &mut records, file);

    assert!(untrust(&store, &mut records, file));
    assert_eq!(
        record_path(source(&store, &records, file)),
        Some("/sandbox".to_owned())
    );

    assert!(untrust(&store, &mut records, "/sandbox"));
    assert!(!trusted(&store, &records, file));
}

#[test]
fn trusts_configs_that_do_not_exist_yet() {
    let store = create_store();
    let mut records = Vec::<TrustRecordEntry>::new();
    trust(&store, &mut records, "/sandbox/a");

    assert!(trusted(&store, &records, "/sandbox/a/.prototools"));
}

#[test]
fn untrusts() {
    let store = create_store();
    let mut records = Vec::<TrustRecordEntry>::new();

    trust(&store, &mut records, "/sandbox");

    assert!(untrust(&store, &mut records, "/sandbox"));
    assert!(!untrust(&store, &mut records, "/sandbox"));
    assert!(!trusted(&store, &records, "/sandbox/.prototools"));
}

#[test]
fn trusts_everything() {
    let mut store = create_store();
    let records = Vec::<TrustRecordEntry>::new();
    store.trust_all = true;

    assert!(matches!(
        source(&store, &records, "/sandbox/.prototools"),
        Some(ProtoTrustSource::Ci)
    ));
}

#[test]
fn trusts_within_paths() {
    let mut store = create_store();
    let records = Vec::<TrustRecordEntry>::new();
    store.add_trusted_path(ProtoPath::parse("/sandbox/trusted"));

    assert!(matches!(
        source(&store, &records, "/sandbox/trusted/nested/.prototools"),
        Some(ProtoTrustSource::TrustedPath(_))
    ));
    assert!(!trusted(&store, &records, "/sandbox/trusted-sibling/.prototools"));
}

#[test]
fn ignores_corrupt_records() {
    let store = create_store();
    let mut records = Vec::<TrustRecordEntry>::new();
    let dir = trust(&store, &mut records, "/sandbox");

    corrupt(&mut records, "/sandbox");

    assert!(!trusted(&store, &records, &format!("{}/.prototools", dir.render())));
}

#[test]
fn record_naming_another_path_does_not_trust() {
    let store = create_store();
    let records = vec![TrustRecordEntry {
        path: ProtoPath::parse("/sandbox"),
        stored: Some(ProtoPath::parse("/elsewhere")),
    }];

    assert!(!store.is_trusted(&ProtoPath::parse("/sandbox/.prototools"), &records));
}

#[test]
fn record_path_is_hash_of_path_with_json_extension() {
    let store = create_store();
    let record = store.get_record_path(&ProtoPath::parse("/sandbox"));
    let rendered = record.render();

    assert!(rendered.starts_with("/sandbox/trust/"));
    assert!(rendered.ends_with(".json"));
    // 64 hex digits of sha256 between the directory and the extension
    assert_eq!(rendered.len(), "/sandbox/trust/".len() + 64 + ".json".len());
    assert_ne!(rendered, store.get_record_path(&ProtoPath::parse("/other")).render());
}

#[test]
fn new_store_skips_variables_from_activation() {
    let entries = vec![ProtoPath::parse("/a"), ProtoPath::empty(), ProtoPath::parse("/b")];
    let store = ProtoTrustStore::new(ProtoPath::parse("/t"), "", entries, true);
    assert!(store.trust_all);
    assert_eq!(store.trusted_paths.len(), 2);

    let entries = vec![ProtoPath::parse("/a")];
    let store = ProtoTrustStore::new(
        ProtoPath::parse("/t"),
        "PATH,CI,PROTO_TRUSTED_PATHS",
        entries,
        true,
    );
    assert!(!store.trust_all);
    assert!(store.trusted_paths.is_empty());
}

#[test]
fn listed_entries_are_whole_entries() {
    assert!(is_listed("A,CI,B", "CI"));
    assert!(!is_listed("A,CIX,B", "CI"));
    assert!(!is_listed("", "CI"));
    assert!(is_listed("CI", "CI"));
}

#[test]
fn trust_defaults_to_not_required() {
    assert_eq!(ProtoConfigTrust::default(), ProtoConfigTrust::NotRequired);
}
