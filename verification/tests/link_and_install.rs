use proto_core::install::{prebuilt_phases, prebuilt_record, InstallPhase};
use proto_core::lock::LockRecord;
use proto_core::bins::{VersionKey, VersionKind};
use proto_core::checksum::{Checksum, ChecksumAlgorithm};
use proto_core::context::ToolContext;
use proto_core::install::{
    check_build_from_source, check_download_prebuilt, checksum_verdict, download_file_name,
    install_start, native_install_outcome, native_uninstall_outcome, plan_checksum, plan_unpack,
    ChecksumPlan, DownloadPrebuiltOutput, InstallStart, NativeInstallOutcome, ProtoInstallError,
    ProvidedChecksum, UnpackPlan,
};
use proto_core::link::{
    bin_sources, bins_to_link, link_shims, parse_used_at, shim_entry_for, Inventory, ProtoLinkError,
};
use proto_core::locate::{ArgsSpec, ExecutableConfig, ExecutableLocation};
use proto_core::paths::ProtoPath;
use proto_core::shims::{ShimRegistry, ShimsMap};

fn config(exe_path: Option<&str>, primary: bool) -> ExecutableConfig {
    ExecutableConfig {
        exe_path: exe_path.map(|p| p.to_owned()),
        exe_link_path: None,
        no_bin: false,
        no_shim: false,
        primary,
        update_perms: false,
        shim_before_args: None,
        shim_after_args: None,
        shim_env_vars: None,
    }
}

fn node() -> ToolContext {
    ToolContext { id: "node".into(), backend: None }
}

fn location(name: &str, cfg: ExecutableConfig, path: &str, version: Option<&str>) -> ExecutableLocation {
    ExecutableLocation {
        config: cfg,
        name: name.to_owned(),
        path: ProtoPath::parse(path),
        version: version.map(|t| VersionKey {
            order: 1,
            kind: VersionKind::Version { major: 20, minor: 0 },
            text: t.to_owned(),
        }),
    }
}

#[test]
fn shim_entries_split_their_arguments() {
    let mut cfg = config(Some("bin/npx"), false);
    cfg.shim_before_args = Some(ArgsSpec::Text("--yes 'a b'".into()));
    cfg.shim_after_args = Some(ArgsSpec::List(vec!["--".into()]));
    cfg.shim_env_vars = Some(vec![("KEY".into(), "value".into())]);
    let shim = shim_entry_for(&"npx".to_owned(), &cfg, &node()).ok().unwrap();
    assert_eq!(shim.before_args, vec!["--yes", "a b"]);
    assert_eq!(shim.after_args, vec!["--"]);
    assert_eq!(shim.alt_exe, Some(true));
    assert_eq!(shim.context.unwrap().id, "node");
    assert_eq!(shim.env_vars, vec![("KEY".to_owned(), "value".to_owned())]);

    let primary = shim_entry_for(&"node".to_owned(), &config(Some("bin/node"), true), &node()).ok().unwrap();
    assert!(primary.context.is_none());
    assert_eq!(primary.alt_exe, None);

    let mut broken = config(None, false);
    broken.shim_before_args = Some(ArgsSpec::Text("'unclosed".into()));
    match shim_entry_for(&"x".to_owned(), &broken, &node()) {
        Err(ProtoLinkError::FailedArgsParse { args }) => assert_eq!(args, "'unclosed"),
        Ok(_) => panic!("expected an arguments error"),
    }
}

#[test]
fn linking_shims_records_them_and_settles_files() {
    let mut registry = ShimRegistry::load(ShimsMap::new(), ProtoPath::parse("/p/shims/registry.json"));
    let shims = vec![
        location("node", config(Some("bin/node"), true), "/p/shims/node", None),
        location("npx", config(Some("bin/npx"), false), "/p/shims/npx", None),
    ];
    let current = 20;
    let created = link_shims(&mut registry, &shims, &vec![true, false], false, current, &node()).ok().unwrap();
    let created: Vec<String> = created.iter().map(|p| p.render()).collect();
    assert_eq!(created, vec!["/p/shims/npx"]);
    assert!(registry.get("node").is_some());
    assert_eq!(registry.get("npx").unwrap().context.as_ref().unwrap().id, "node");
    assert!(registry.has_changes());

    // An older shim version recreates every shim
    let created = link_shims(&mut registry, &shims, &vec![true, true], false, 1, &node()).ok().unwrap();
    assert_eq!(created.len(), 2);
    let forced = link_shims(&mut registry, &shims, &vec![true, true], true, current, &node()).ok().unwrap();
    assert_eq!(forced.len(), 2);
    assert!(link_shims(&mut registry, &vec![], &vec![], true, current, &node()).ok().unwrap().is_empty());
}

#[test]
fn product_dirs_are_encoded_versions() {
    let inventory = Inventory { dir: ProtoPath::parse("/p/tools/node"), version_suffix: None };
    let v = VersionKey { order: 1, kind: VersionKind::Version { major: 20, minor: 1 }, text: "20.1.0".into() };
    assert_eq!(inventory.get_product_dir(&v).render(), "/p/tools/node/20.1.0");
    let suffixed = Inventory { dir: ProtoPath::parse("/p/tools/go"), version_suffix: Some("-linux".into()) };
    assert_eq!(suffixed.get_product_dir(&v).render(), "/p/tools/go/20.1.0-linux");
    let canary = VersionKey { order: 0, kind: VersionKind::Canary, text: "canary@x".into() };
    assert_eq!(inventory.get_product_dir(&canary).render(), "/p/tools/node/canaryx");
}

#[test]
fn bins_link_to_their_sources() {
    let inventory = Inventory { dir: ProtoPath::parse("/p/tools/node"), version_suffix: None };
    let mut linked = config(Some("bin/node"), true);
    linked.exe_link_path = Some("libexec/node".into());
    let bins = vec![
        location("node", linked, "/p/bin/node", Some("20.1.0")),
        location("npx", config(Some("bin/npx"), false), "/p/bin/npx", Some("20.1.0")),
        location("none", config(Some("bin/none"), false), "/p/bin/none", None),
    ];
    let sources = bin_sources(&bins, &inventory);
    let rendered: Vec<Option<String>> = sources.iter().map(|s| s.as_ref().map(|p| p.render())).collect();
    assert_eq!(
        rendered,
        vec![
            Some("/p/tools/node/20.1.0/libexec/node".to_owned()),
            Some("/p/tools/node/20.1.0/bin/npx".to_owned()),
            None
        ]
    );

    let registry = ShimRegistry::load(ShimsMap::new(), ProtoPath::parse("/p/shims/registry.json"));
    let links = bins_to_link(&bins, &sources, &registry, &node(), &vec![true, false, true], &vec![false, false, false], false);
    assert_eq!(links.len(), 1);
    assert_eq!(links[0].0.render(), "/p/tools/node/20.1.0/libexec/node");
    assert_eq!(links[0].1.render(), "/p/bin/node");

    let existing = bins_to_link(&bins, &sources, &registry, &node(), &vec![true, true, true], &vec![true, false, false], false);
    assert_eq!(existing.len(), 1);
    assert_eq!(existing[0].1.render(), "/p/bin/npx");
    let forced = bins_to_link(&bins, &sources, &registry, &node(), &vec![true, true, true], &vec![true, true, true], true);
    assert_eq!(forced.len(), 2);
}

#[test]
fn install_start_decisions() {
    assert_eq!(install_start(true, false, true).ok().unwrap(), InstallStart::AlreadyInstalled);
    assert_eq!(install_start(true, true, false).ok().unwrap(), InstallStart::Proceed);
    assert_eq!(install_start(false, false, false).ok().unwrap(), InstallStart::Proceed);
    assert!(matches!(install_start(false, false, true), Err(ProtoInstallError::RequiredInternetConnection)));
}

#[test]
fn native_outcomes() {
    assert_eq!(native_install_outcome(true, false, None, "node").ok().unwrap(), NativeInstallOutcome::Installed);
    assert_eq!(native_install_outcome(false, true, None, "node").ok().unwrap(), NativeInstallOutcome::Continue);
    match native_install_outcome(false, false, Some("boom".into()), "node") {
        Err(ProtoInstallError::FailedInstall { tool, error }) => {
            assert_eq!(tool, "node");
            assert_eq!(error, "boom");
        }
        _ => panic!("expected a failed install"),
    }
    assert!(native_uninstall_outcome(true, false, None, "node").is_ok());
    assert!(native_uninstall_outcome(false, true, None, "node").is_ok());
    match native_uninstall_outcome(false, false, None, "node") {
        Err(ProtoInstallError::FailedUninstall { tool, error }) => {
            assert_eq!(tool, "node");
            assert_eq!(error, "");
        }
        _ => panic!("expected a failed uninstall"),
    }
}

#[test]
fn unsupported_strategies() {
    assert!(check_build_from_source(true, "node").is_ok());
    assert!(matches!(
        check_build_from_source(false, "node"),
        Err(ProtoInstallError::UnsupportedBuildFromSource { tool }) if tool == "node"
    ));
    assert!(check_download_prebuilt(true, "node").is_ok());
    assert!(matches!(
        check_download_prebuilt(false, "node"),
        Err(ProtoInstallError::UnsupportedDownloadPrebuilt { tool }) if tool == "node"
    ));
}

fn prebuilt() -> DownloadPrebuiltOutput {
    DownloadPrebuiltOutput {
        archive_prefix: None,
        checksum: None,
        checksum_name: None,
        checksum_public_key: None,
        checksum_url: None,
        download_name: None,
        download_url: "https://example.com/node.tar.gz".into(),
        post_script: None,
    }
}

#[test]
fn checksum_plans() {
    let out = prebuilt();
    assert!(matches!(plan_checksum(&out, None, "node.tar.gz".into()), ChecksumPlan::Generate));

    match plan_checksum(&out, Some("https://mirror/SHASUMS256.txt".into()), "SHASUMS256.txt".into()) {
        ChecksumPlan::Download { url, file_name, public_key } => {
            assert_eq!(url, "https://mirror/SHASUMS256.txt");
            assert_eq!(file_name, "SHASUMS256.txt");
            assert!(public_key.is_none());
        }
        _ => panic!("expected a download"),
    }

    let mut named = prebuilt();
    named.checksum_name = Some("sums.txt".into());
    named.checksum_public_key = Some("key".into());
    match plan_checksum(&named, Some("https://x/a".into()), "a".into()) {
        ChecksumPlan::Download { file_name, public_key, .. } => {
            assert_eq!(file_name, "sums.txt");
            assert_eq!(public_key.as_deref(), Some("key"));
        }
        _ => panic!("expected a download"),
    }

    let mut provided = prebuilt();
    provided.checksum = Some(ProvidedChecksum {
        algo: ChecksumAlgorithm::Sha512,
        hash: Some("abc".into()),
        key: Some("k".into()),
    });
    match plan_checksum(&provided, None, "a".into()) {
        ChecksumPlan::Provided { file_name, contents, public_key } => {
            assert_eq!(file_name, "checksum.sha512");
            assert_eq!(contents, "abc");
            assert_eq!(public_key.as_deref(), Some("k"));
        }
        _ => panic!("expected a provided checksum"),
    }
}

#[test]
fn download_names_and_unpacking() {
    assert_eq!(download_file_name(&None, "node.tar.gz".into()), "node.tar.gz");
    assert_eq!(download_file_name(&Some("n.zip".into()), "node.tar.gz".into()), "n.zip");

    let dir = ProtoPath::parse("/p/tools/node/20");
    assert!(matches!(plan_unpack(true, "node.tar.gz", &dir, "node"), UnpackPlan::Plugin));
    assert!(matches!(plan_unpack(false, "node.tar.gz", &dir, "node"), UnpackPlan::Archive));
    assert!(matches!(plan_unpack(false, "node.zip", &dir, "node"), UnpackPlan::Archive));
    match plan_unpack(false, "node-linux-x64", &dir, "node") {
        UnpackPlan::MoveTo(p) => assert_eq!(p.render(), "/p/tools/node/20/node"),
        _ => panic!("expected a move"),
    }
}

#[test]
fn checksum_verdicts() {
    let c = Checksum { algo: ChecksumAlgorithm::Sha256, hash: Some("h".into()), key: None };
    let ok = checksum_verdict(true, c, ProtoPath::parse("/t/sum"), ProtoPath::parse("/t/dl")).ok().unwrap();
    assert_eq!(ok.hash.as_deref(), Some("h"));
    let c = Checksum { algo: ChecksumAlgorithm::Sha256, hash: Some("h".into()), key: None };
    match checksum_verdict(false, c, ProtoPath::parse("/t/sum"), ProtoPath::parse("/t/dl")) {
        Err(ProtoInstallError::InvalidChecksum { checksum, download }) => {
            assert_eq!(checksum.render(), "/t/sum");
            assert_eq!(download.render(), "/t/dl");
        }
        _ => panic!("expected an invalid checksum"),
    }
}

#[test]
fn last_used_contents_parse_as_milliseconds() {
    assert_eq!(parse_used_at("1700000000000"), Some(1700000000000));
    assert_eq!(parse_used_at("+42"), Some(42));
    assert_eq!(parse_used_at("0"), Some(0));
    assert_eq!(parse_used_at(""), None);
    assert_eq!(parse_used_at("+"), None);
    assert_eq!(parse_used_at("12a"), None);
    assert_eq!(parse_used_at(" 12"), None);
    assert_eq!(parse_used_at("-1"), None);
    assert_eq!(parse_used_at("340282366920938463463374607431768211455"), Some(u128::MAX));
    assert_eq!(parse_used_at("340282366920938463463374607431768211456"), None);
}

#[test]
fn prebuilt_install_phases() {
    let url = "https://x/node.tar.gz".to_string();
    let file = "node.tar.gz".to_string();
    let checksum = ChecksumPlan::Download {
        url: "https://x/SHASUMS256.txt".into(),
        file_name: "SHASUMS256.txt".into(),
        public_key: None,
    };
    let phases = prebuilt_phases(&url, &file, &checksum, &UnpackPlan::Archive);
    assert_eq!(phases.len(), 3);
    assert!(matches!(&phases[0], InstallPhase::Download { url: u, file: f } if u == &url && f == &file));
    assert!(matches!(&phases[1], InstallPhase::Verify { file: f, .. } if f == "SHASUMS256.txt"));
    assert!(matches!(&phases[2], InstallPhase::Unpack { file: f } if f == &file));
    let phases = prebuilt_phases(&url, &file, &ChecksumPlan::Generate, &UnpackPlan::MoveTo(ProtoPath::parse("/p/node")));
    assert_eq!(phases.len(), 1);
}

#[test]
fn prebuilt_install_record() {
    let base = LockRecord {
        backend: None,
        spec: Some("20".into()),
        version: None,
        checksum: None,
        source: None,
        os: Some("linux".into()),
        arch: Some("x64".into()),
    };
    let r = prebuilt_record(&base, "https://x/node.tar.gz".into(), "sha256:abc".into());
    assert_eq!(r.source.as_deref(), Some("https://x/node.tar.gz"));
    assert_eq!(r.checksum.as_deref(), Some("sha256:abc"));
    assert_eq!(r.spec.as_deref(), Some("20"));
    assert_eq!(r.os.as_deref(), Some("linux"));
}
