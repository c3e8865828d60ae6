use proto_core::bins::{VersionKey, VersionKind};
use proto_core::config::{env_file_of, rewrite_url, validate_reserved_words};
use proto_core::context::ToolContext;
use proto_core::files::{
    config_paths, dirs_to_load, lockfiles_in_use, ConfigScope, PinLocation, PluginType,
    ProtoConfigFile, ProtoDirEntry, ProtoFileManager, UntrustedPlugins,
};
use proto_core::helpers::offline_hosts;
use proto_core::link::{bins_to_relink, remote_versions_cache_fresh, BinChange, Inventory};
use proto_core::locate::{ExecutableConfig, ExecutableLocation};
use proto_core::lock::{LockRecord, ToolSpec};
use proto_core::manage::{
    cache_status, cleanup_action, install_shortcut, install_strategy_name, installer_outcome,
    unlinks_everything, CleanupAction, InstallOutcome, InstallStrategy,
};
use proto_core::manifest::{Manifest, ManifestVersion};
use proto_core::paths::ProtoPath;
use proto_core::store::Store;
use proto_core::trust::ProtoConfigTrust;

fn file(path: &str, exists: bool, versions: &[&str], sensitive: &[&str]) -> ProtoConfigFile {
    ProtoConfigFile {
        exists,
        path: ProtoPath::parse(path),
        versions: versions.iter().map(|v| (ToolContext::new(v.to_string()), "*".to_string())).collect(),
        locked: false,
        trust: ProtoConfigTrust::NotRequired,
        sensitive: sensitive.iter().map(|s| s.to_string()).collect(),
        untrusted_plugins: None,
    }
}

fn manager() -> ProtoFileManager {
    ProtoFileManager {
        entries: vec![
            ProtoDirEntry {
                path: ProtoPath::parse("/p/a"),
                location: PinLocation::Local,
                configs: vec![
                    file("/p/a/.prototools", true, &["node", "proto"], &["env"]),
                    file("/p/a/.prototools.prod", false, &[], &["env"]),
                ],
            },
            ProtoDirEntry {
                path: ProtoPath::parse("/p"),
                location: PinLocation::Local,
                configs: vec![file("/p/.prototools", true, &["go"], &["plugins.tools"])],
            },
            ProtoDirEntry {
                path: ProtoPath::parse("/home/me"),
                location: PinLocation::User,
                configs: vec![file("/home/me/.prototools", true, &["proto", "bun"], &["env"])],
            },
            ProtoDirEntry {
                path: ProtoPath::parse("/home/me/.proto"),
                location: PinLocation::Global,
                configs: vec![file("/home/me/.proto/.prototools", true, &["proto"], &[])],
            },
        ],
    }
}

#[test]
fn trust_is_applied_to_local_configs() {
    let mut m = manager();
    m.apply_trust(&vec![vec![false, false], vec![true]], &vec![vec![false, false], vec![false]]);
    assert_eq!(m.entries[0].configs[0].trust, ProtoConfigTrust::Untrusted);
    // Does not exist
    assert_eq!(m.entries[0].configs[1].trust, ProtoConfigTrust::NotRequired);
    assert_eq!(m.entries[1].configs[0].trust, ProtoConfigTrust::Trusted);
    // User configs are never gated
    assert_eq!(m.entries[2].configs[0].trust, ProtoConfigTrust::NotRequired);
    assert_eq!(m.get_untrusted_config_files(), vec![(0, 0)]);

    // Configs owned by the user need no trust
    let mut owned = manager();
    owned.apply_trust(&vec![], &vec![vec![true, true], vec![true]]);
    assert!(owned.get_untrusted_config_files().is_empty());

    // Applying the same answers again changes nothing
    m.apply_trust(&vec![vec![false, false], vec![true]], &vec![vec![false, false], vec![false]]);
    assert_eq!(m.get_untrusted_config_files(), vec![(0, 0)]);
    assert_eq!(m.entries[1].configs[0].trust, ProtoConfigTrust::Trusted);
}

#[test]
fn configs_by_scope() {
    let m = manager();
    let cwd = ProtoPath::parse("/p");
    assert_eq!(m.get_config_files_in_scope(ConfigScope::Global, &cwd), vec![(3, 0)]);
    assert_eq!(m.get_config_files_in_scope(ConfigScope::Local, &cwd), vec![(1, 0)]);
    assert_eq!(m.get_config_files_in_scope(ConfigScope::All, &cwd).len(), 5);
    assert_eq!(
        m.get_config_files_in_scope(ConfigScope::AllWithoutGlobal, &cwd),
        vec![(0, 0), (0, 1), (1, 0), (2, 0)]
    );
}

#[test]
fn proto_pins_are_removed_outside_local_configs() {
    let mut m = manager();
    m.remove_proto_pins();
    let ids = |d: usize| -> Vec<String> {
        m.entries[d].configs[0].versions.iter().map(|(c, _)| c.id.clone()).collect()
    };
    assert_eq!(ids(0), vec!["node", "proto"]);
    assert_eq!(ids(2), vec!["bun"]);
    assert!(ids(3).is_empty());
}

#[test]
fn untrusted_plugins_are_reported() {
    let mut f = file("/p/.prototools", true, &[], &["plugins.tools"]);
    assert!(!f.has_untrusted_plugin(&ToolContext::new("node".into()), PluginType::Tool));
    f.untrusted_plugins = Some(UntrustedPlugins {
        backend_configs: vec!["asdf".into()],
        plugin_backends: vec![],
        tool_configs: vec![ToolContext::new("node".into())],
        plugin_tools: vec!["deno".into()],
    });
    assert!(f.has_untrusted_plugin(&ToolContext::new("node".into()), PluginType::Tool));
    assert!(f.has_untrusted_plugin(&ToolContext::new("deno".into()), PluginType::Tool));
    assert!(!f.has_untrusted_plugin(&ToolContext::new("go".into()), PluginType::Tool));
    let zig = ToolContext::with_backend("zig".into(), "asdf".into());
    assert!(f.has_untrusted_plugin(&zig, PluginType::Backend));
    let other = ToolContext::with_backend("zig".into(), "mise".into());
    assert!(!f.has_untrusted_plugin(&other, PluginType::Backend));
    // Without a backend, a backend plugin is looked up as a tool plugin
    assert!(f.has_untrusted_plugin(&ToolContext::new("deno".into()), PluginType::Backend));
}

#[test]
fn directories_are_walked_upwards() {
    let end = ProtoPath::parse("/home");
    let dirs = dirs_to_load(&ProtoPath::parse("/home/me/p"), Some(&end));
    let seen: Vec<(String, PinLocation)> = dirs.iter().map(|(p, l)| (p.render(), *l)).collect();
    assert_eq!(
        seen,
        vec![
            ("/home/me/p".to_owned(), PinLocation::Local),
            ("/home/me".to_owned(), PinLocation::Local),
            ("/home".to_owned(), PinLocation::User),
        ]
    );
    let all = dirs_to_load(&ProtoPath::parse("/a/b"), None);
    let seen: Vec<String> = all.iter().map(|(p, _)| p.render()).collect();
    assert_eq!(seen, vec!["/a/b", "/a", "/"]);
}

#[test]
fn config_paths_by_precedence() {
    let dir = ProtoPath::parse("/p");
    let paths: Vec<(String, String)> = config_paths(&dir, Some("prod"))
        .iter()
        .map(|(c, l)| (c.render(), l.render()))
        .collect();
    assert_eq!(
        paths,
        vec![
            ("/p/.prototools.prod".to_owned(), "/p/.protolock.prod".to_owned()),
            ("/p/.prototools".to_owned(), "/p/.protolock".to_owned()),
        ]
    );
    assert_eq!(config_paths(&dir, None).len(), 1);
}

#[test]
fn lockfiles_follow_the_base_config() {
    // The environment config inherits the base config's setting
    assert_eq!(lockfiles_in_use(PinLocation::Local, &vec![true, true], &vec![None, Some(true)]), vec![true, true]);
    assert_eq!(lockfiles_in_use(PinLocation::Local, &vec![true, true], &vec![Some(false), Some(true)]), vec![false, true]);
    assert_eq!(lockfiles_in_use(PinLocation::Local, &vec![false, true], &vec![None, Some(true)]), vec![false, true]);
    assert_eq!(lockfiles_in_use(PinLocation::User, &vec![true], &vec![Some(true)]), vec![false]);
    assert_eq!(lockfiles_in_use(PinLocation::Local, &vec![true], &vec![None]), vec![false]);
}

fn version(order: u64, text: &str) -> VersionKey {
    VersionKey { order, kind: VersionKind::Version { major: 1, minor: 0 }, text: text.into() }
}

fn bin(path: &str, v: &str) -> ExecutableLocation {
    ExecutableLocation {
        config: ExecutableConfig {
            exe_path: Some("bin/tool".into()),
            exe_link_path: None,
            no_bin: false,
            no_shim: false,
            primary: true,
            update_perms: false,
            shim_before_args: None,
            shim_after_args: None,
            shim_env_vars: None,
        },
        name: "tool".into(),
        path: ProtoPath::parse(path),
        version: Some(version(1, v)),
    }
}

#[test]
fn bins_are_relinked_after_a_version_leaves() {
    let inventory = Inventory { dir: ProtoPath::parse("/p/tools/tool"), version_suffix: None };
    let old = vec![bin("/p/bin/tool", "2.0.0"), bin("/p/bin/tool-2", "2.0.0"), bin("/p/bin/tool-1", "1.0.0")];
    let new = vec![bin("/p/bin/tool", "1.0.0"), bin("/p/bin/tool-1", "1.0.0")];
    let changes = bins_to_relink(&old, &new, &inventory);
    assert_eq!(changes.len(), 2);
    match &changes[0] {
        BinChange::Repoint { bin, source } => {
            assert_eq!(bin.render(), "/p/bin/tool");
            assert_eq!(source.render(), "/p/tools/tool/1.0.0/bin/tool");
        }
        _ => panic!("expected a repoint"),
    }
    match &changes[1] {
        BinChange::Unlink(p) => assert_eq!(p.render(), "/p/bin/tool-2"),
        _ => panic!("expected an unlink"),
    }
}

#[test]
fn remote_versions_cache_freshness() {
    let hour = 60 * 60 * 1000;
    assert!(remote_versions_cache_fresh(false, true, Some(100 * hour), 105 * hour));
    assert!(!remote_versions_cache_fresh(false, true, Some(100 * hour), 112 * hour));
    assert!(!remote_versions_cache_fresh(true, true, Some(100 * hour), 101 * hour));
    assert!(!remote_versions_cache_fresh(false, false, Some(100 * hour), 101 * hour));
    assert!(!remote_versions_cache_fresh(false, true, None, 101 * hour));
    assert!(remote_versions_cache_fresh(false, true, Some(0), hour));
}

#[test]
fn manifest_syncs_with_the_plugin() {
    let mut m = Manifest::new(ProtoPath::parse("/p/tools/x/versions.json"));
    m.insert_version_at("1.0.0", None, 10, true);
    m.insert_version_at("2.0.0", None, 20, false);
    m.sync_versions(&vec!["2.0.0".into(), "3.0.0".into(), "2.0.0".into()]);
    assert!(!m.is_installed("1.0.0"));
    assert!(m.is_installed("2.0.0"));
    assert!(m.is_installed("3.0.0"));
    assert_eq!(m.installed_count(), 2);
    assert_eq!(m.get_version("2.0.0").unwrap().installed_at, 20);
    assert_eq!(m.get_version("3.0.0"), Some(ManifestVersion::default()));
    assert!(m.get_version("1.0.0").is_none());
    assert_eq!(m.default_version.as_deref(), Some("1.0.0"));

    // Syncing again changes nothing
    m.sync_versions(&vec!["2.0.0".into(), "3.0.0".into()]);
    assert_eq!(m.installed_count(), 2);
    assert_eq!(m.get_version("2.0.0").unwrap().installed_at, 20);
}

#[test]
fn manager_decisions() {
    assert!(matches!(install_shortcut(true, true, false), Some(InstallOutcome::AlreadyInstalled)));
    assert!(matches!(install_shortcut(false, true, false), Some(InstallOutcome::InstalledConcurrently)));
    assert!(install_shortcut(true, true, true).is_none());
    assert!(install_shortcut(false, false, false).is_none());

    let spec = ToolSpec { req: "~20".into(), version: None, version_locked: None };
    let record = LockRecord {
        backend: None,
        spec: None,
        version: None,
        checksum: Some("sha256:x".into()),
        source: None,
        os: None,
        arch: None,
    };
    match installer_outcome(Some(record), &version(3, "20.1.0"), &spec) {
        InstallOutcome::Installed(r) => {
            assert_eq!(r.spec.as_deref(), Some("~20"));
            assert_eq!(r.version.unwrap().text, "20.1.0");
            assert_eq!(r.checksum.as_deref(), Some("sha256:x"));
        }
        _ => panic!("expected an install"),
    }
    let outcome = installer_outcome(None, &version(3, "20.1.0"), &spec);
    assert!(matches!(outcome, InstallOutcome::AlreadyInstalled));
    assert_eq!(cache_status(&outcome), "hit");
    assert_eq!(install_strategy_name(InstallStrategy::BuildFromSource), "build-from-source");
    assert_eq!(install_strategy_name(InstallStrategy::DownloadPrebuilt), "download-prebuilt");

    assert_eq!(cleanup_action(true, true), CleanupAction::Skip);
    assert_eq!(cleanup_action(true, false), CleanupAction::RemoveDir);
    assert_eq!(cleanup_action(false, true), CleanupAction::RemoveFile);

    let mut m = Manifest::new(ProtoPath::parse("/m.json"));
    assert!(unlinks_everything(&m, "1.0.0"));
    m.insert_version_at("1.0.0", None, 1, false);
    assert!(unlinks_everything(&m, "1.0.0"));
    assert!(!unlinks_everything(&m, "2.0.0"));
    m.insert_version_at("2.0.0", None, 1, false);
    assert!(!unlinks_everything(&m, "1.0.0"));
}

#[test]
fn store_layout() {
    let store = Store::new(&ProtoPath::parse("/home/me/.proto"), None);
    assert_eq!(store.bin_dir.render(), "/home/me/.proto/bin");
    assert_eq!(store.shims_dir.render(), "/home/me/.proto/shims");
    assert_eq!(store.inventory_dir.render(), "/home/me/.proto/tools");
    assert_eq!(store.temp_dir.render(), "/home/me/.proto/temp");
    let (tool, temp) = store.tool_dirs("npm:typescript");
    assert_eq!(tool.render(), "/home/me/.proto/tools/npm-typescript");
    assert_eq!(temp.render(), "/home/me/.proto/temp/npm-typescript");
    let custom = Store::new(&ProtoPath::parse("/s"), Some(ProtoPath::parse("/tmp/proto")));
    assert_eq!(custom.temp_dir.render(), "/tmp/proto");
    assert_eq!(custom.id_file().render(), "/s/id");
    assert_eq!(custom.profile_file().render(), "/s/profile");
}

#[test]
fn config_helpers() {
    let env = env_file_of(".env", &ProtoPath::parse("/p/.prototools"), &ProtoPath::parse("/cwd"), 5);
    assert_eq!(env.path.render(), "/p/.env");
    assert_eq!(env.weight, "/p/.prototools".len() * 10 + 5);

    let rewrites = vec![
        ("github\\.com/(\\w+)".to_owned(), "mirror.example/$1".to_owned()),
        ("[".to_owned(), "x".to_owned()),
        ("http:".to_owned(), "https:".to_owned()),
    ];
    assert_eq!(
        rewrite_url("http://github.com/moon/releases", &rewrites),
        "https://mirror.example/moon/releases"
    );
    assert_eq!(rewrite_url("https://other.dev", &vec![]), "https://other.dev");

    assert!(validate_reserved_words(&vec!["node".into(), "go".into()]).is_ok());
    assert_eq!(
        validate_reserved_words(&vec!["node".into(), "proto".into()]).unwrap_err(),
        "proto is a reserved keyword, cannot use as a plugin identifier"
    );

    assert_eq!(offline_hosts("a.com, b.com ,"), vec!["a.com", "b.com", ""]);
    assert_eq!(offline_hosts(""), vec![""]);
}

#[test]
fn config_specs_group_requirements_by_tool() {
    let pin = |id: &str, req: &str| (ToolContext::new(id.to_string()), req.to_string());
    let mut f = file("/p/.prototools", true, &[], &[]);
    f.versions = vec![pin("node", "20"), pin("npm", "10"), pin("node", "18"), pin("node", "20")];
    let specs = f.get_config_specs();
    assert_eq!(specs.len(), 2);
    assert_eq!(specs[0].0.id, "node");
    assert_eq!(specs[0].1, vec!["20".to_string(), "18".to_string()]);
    assert_eq!(specs[1].0.id, "npm");
    assert_eq!(specs[1].1, vec!["10".to_string()]);
    assert!(file("/p/.prototools", true, &[], &[]).get_config_specs().is_empty());
}

#[test]
fn removing_proto_pins_keeps_other_requirements() {
    let pin = |id: &str, req: &str| (ToolContext::new(id.to_string()), req.to_string());
    let mut global = file("/g/.prototools", true, &[], &[]);
    global.versions = vec![pin("proto", "0.40.0"), pin("node", "20.1")];
    let mut m = ProtoFileManager {
        entries: vec![ProtoDirEntry { path: ProtoPath::parse("/g"), location: PinLocation::Global, configs: vec![global] }],
    };
    m.remove_proto_pins();
    let pins = &m.entries[0].configs[0].versions;
    assert_eq!(pins.len(), 1);
    assert_eq!(pins[0].0.id, "node");
    assert_eq!(pins[0].1, "20.1");
}
