use proto_core::context::ToolContext;
use proto_core::detect::{
    contains_text, detect_order, ignored_dir, session_version, version_env_var,
    version_file_content, DetectSource, DetectStrategy,
};
use proto_core::environment::{require_home_dir, require_working_dir, store_root, ProtoEnvError};
use proto_core::files::{PinLocation, ProtoConfigFile, ProtoDirEntry, ProtoFileManager};
use proto_core::helpers::{
    fast_list_clone, fast_map_clone, get_bin_name, is_cache_enabled, now, offline_ip_versions,
    offline_override,
};
use proto_core::id::ProtoId;
use proto_core::manifest::{Manifest, ManifestVersion};
use proto_core::paths::ProtoPath;
use proto_core::text::{lines, split_once, trim};
use proto_core::tool::{Describable, Manager, ToolInfo};
use proto_core::trust::{hash_path, ProtoConfigTrust};

#[test]
fn identifiers() {
    assert_eq!(ProtoId::new("node").ok().unwrap().as_id(), "node");
    assert_eq!(ProtoId::new("@scope/name_1-x").ok().unwrap().to_id(), "@scope/name_1-x");
    for bad in ["", "1node", "no de", "@/x", "@scope/", "@scope/1x", "a/b", "@sc/ope/x"] {
        match ProtoId::new(bad) {
            Err(e) => assert_eq!(e.0, bad),
            Ok(_) => panic!("{bad} should be invalid"),
        }
    }
    assert_eq!(ProtoId::format("deno").ok().unwrap(), "deno");
    assert!(ProtoId::format("x y").is_err());
    assert_eq!(ProtoId::new("bun").ok().unwrap().into_id(), "bun");
}

#[test]
fn contexts() {
    let plain = ToolContext::new("node".into());
    assert_eq!(plain.as_text(), "node");
    let backed = ToolContext::with_backend("zig".into(), "asdf".into());
    assert_eq!(backed.as_text(), "asdf:zig");
    assert!(backed.equals(&backed.copy()));
    assert!(!plain.equals(&ToolContext::with_backend("node".into(), "asdf".into())));
}

#[test]
fn detection_orders() {
    assert_eq!(
        detect_order(DetectStrategy::FirstAvailable, 2),
        vec![
            (0, DetectSource::ProtoConfig),
            (0, DetectSource::Ecosystem),
            (1, DetectSource::ProtoConfig),
            (1, DetectSource::Ecosystem)
        ]
    );
    assert_eq!(
        detect_order(DetectStrategy::PreferPrototools, 2),
        vec![
            (0, DetectSource::ProtoConfig),
            (1, DetectSource::ProtoConfig),
            (0, DetectSource::Ecosystem),
            (1, DetectSource::Ecosystem)
        ]
    );
    assert_eq!(
        detect_order(DetectStrategy::OnlyPrototools, 3),
        vec![(0, DetectSource::ProtoConfig), (1, DetectSource::ProtoConfig), (2, DetectSource::ProtoConfig)]
    );
    assert!(detect_order(DetectStrategy::FirstAvailable, 0).is_empty());
}

#[test]
fn detection_helpers() {
    assert!(contains_text("/home/me/node_modules/x", "node_modules"));
    assert!(!contains_text("/home/me", "node_modules"));
    assert!(contains_text("abc", ""));
    assert!(ignored_dir("/p/node_modules/pkg", &vec!["vendor".into(), "node_modules".into()]));
    assert!(!ignored_dir("/p/src", &vec!["vendor".into()]));
    assert_eq!(version_file_content("  20.1.0\n"), Some("20.1.0".into()));
    assert_eq!(version_file_content(" \n\t"), None);
    assert_eq!(version_env_var("PROTO_NODE"), "PROTO_NODE_VERSION");
    assert_eq!(session_version(Some("18".into())), Some("18".into()));
    assert_eq!(session_version(Some(String::new())), None);
    assert_eq!(session_version(None), None);
}

#[test]
fn environment_helpers() {
    assert!(matches!(require_home_dir(None), Err(ProtoEnvError::MissingHomeDir)));
    assert_eq!(require_home_dir(Some(ProtoPath::parse("/home/me"))).ok().unwrap().render(), "/home/me");
    assert!(matches!(require_working_dir(None), Err(ProtoEnvError::MissingWorkingDir)));
    assert_eq!(require_working_dir(Some(ProtoPath::parse("/w"))).ok().unwrap().render(), "/w");

    let home = ProtoPath::parse("/home/me");
    assert_eq!(store_root(&home, None, None).render(), "/home/me/.proto");
    assert_eq!(store_root(&home, None, Some(ProtoPath::parse("/xdg"))).render(), "/xdg/proto");
    assert_eq!(store_root(&home, Some(ProtoPath::parse("/custom")), Some(ProtoPath::parse("/xdg"))).render(), "/custom");
    assert_eq!(store_root(&home, Some(ProtoPath::parse("~/store")), None).render(), "/home/me/store");
}

#[test]
fn flag_helpers() {
    assert!(is_cache_enabled(None));
    assert!(is_cache_enabled(Some("1")));
    for off in ["0", "false", "no", "off"] {
        assert!(!is_cache_enabled(Some(off)));
    }
    assert_eq!(offline_override(None), None);
    assert_eq!(offline_override(Some("1")), Some(true));
    assert_eq!(offline_override(Some("true")), Some(true));
    assert_eq!(offline_override(Some("0")), Some(false));
    assert_eq!(offline_override(Some("false")), Some(false));
    assert_eq!(offline_override(Some("maybe")), None);
    assert_eq!(offline_ip_versions(""), (true, true));
    assert_eq!(offline_ip_versions("4"), (true, false));
    assert_eq!(offline_ip_versions("6"), (false, true));
    assert_eq!(offline_ip_versions("5"), (false, false));
    assert_eq!(get_bin_name("node", false), "node");
    assert_eq!(get_bin_name("node", true), "node.exe");
    assert!(now() > 0);
}

#[test]
fn clones_keep_entries() {
    let m = vec![("a".to_owned(), 1), ("b".to_owned(), 2)];
    assert_eq!(fast_map_clone(&m), m);
    let l = vec!["x".to_owned(), "y".to_owned()];
    assert_eq!(fast_list_clone(&l), l);
}

#[test]
fn manifest_tracks_versions() {
    let mut manifest = Manifest::new(ProtoPath::parse("/p/tools/node/versions.json"));
    assert_eq!(manifest.path.render(), "/p/tools/node/versions.json");
    assert!(manifest.aliases.is_empty());
    assert_eq!(manifest.shim_version, 0);
    manifest.insert_version_at("20.1.0", None, 100, false);
    assert!(manifest.is_installed("20.1.0"));
    assert_eq!(manifest.default_version.as_deref(), Some("20.1.0"));
    assert_eq!(
        manifest.get_version("20.1.0"),
        Some(ManifestVersion { no_clean: false, installed_at: 100, last_used_at: None })
    );

    manifest.insert_version_at("18.0.0", Some("18".into()), 200, true);
    // The default version is only set once
    assert_eq!(manifest.default_version.as_deref(), Some("20.1.0"));

    manifest.track_used_at_time("18.0.0", 300);
    assert_eq!(manifest.get_version("18.0.0").unwrap().last_used_at, Some(300));
    assert!(manifest.get_version("18.0.0").unwrap().no_clean);

    manifest.remove_version("20.1.0");
    assert!(!manifest.is_installed("20.1.0"));
    assert!(manifest.get_version("20.1.0").is_none());
    assert_eq!(manifest.default_version, None);

    manifest.insert_version("16.0.0", None, false);
    assert!(manifest.is_installed("16.0.0"));
    assert_eq!(manifest.default_version.as_deref(), Some("16.0.0"));
    manifest.track_used_at("16.0.0");
    assert!(manifest.get_version("16.0.0").unwrap().last_used_at.is_some());

    manifest.remove_version("18.0.0");
    manifest.remove_version("16.0.0");
    assert!(!manifest.is_installed("16.0.0"));
    assert_eq!(manifest.default_version, None);
}

#[test]
fn manifest_remove_undoes_insert() {
    let mut manifest = Manifest::new(ProtoPath::parse("/m.json"));
    manifest.insert_version_at("1.0.0", None, 1, false);
    manifest.insert_version_at("2.0.0", None, 2, false);
    manifest.remove_version("2.0.0");
    assert!(manifest.is_installed("1.0.0"));
    assert!(!manifest.is_installed("2.0.0"));
    assert_eq!(manifest.get_version("1.0.0").unwrap().installed_at, 1);
    assert_eq!(ManifestVersion::default(), ManifestVersion { no_clean: false, installed_at: 0, last_used_at: None });
}

fn file(path: &str, exists: bool, versions: &[&str], locked: bool) -> ProtoConfigFile {
    ProtoConfigFile {
        exists,
        path: ProtoPath::parse(path),
        versions: versions.iter().map(|v| (ToolContext::new(v.to_string()), "*".to_string())).collect(),
        locked,
        trust: ProtoConfigTrust::NotRequired,
        sensitive: vec![],
        untrusted_plugins: None,
    }
}

#[test]
fn locked_config_is_the_closest_defining_one() {
    let manager = ProtoFileManager {
        entries: vec![
            ProtoDirEntry {
                path: ProtoPath::parse("/p/a"),
                location: PinLocation::Local,
                configs: vec![file("/p/a/.prototools", true, &["deno"], true)],
            },
            ProtoDirEntry {
                path: ProtoPath::parse("/p"),
                location: PinLocation::Local,
                configs: vec![
                    file("/p/.prototools", true, &["node"], true),
                    file("/p/.prototools.prod", false, &["go"], true),
                ],
            },
        ],
    };
    assert_eq!(manager.get_locked_config(&ToolContext::new("node".into())), Some((1, 0)));
    assert_eq!(manager.get_locked_config(&ToolContext::new("deno".into())), Some((0, 0)));
    // Not defined anywhere: the closest local config
    assert_eq!(manager.get_locked_config(&ToolContext::new("go".into())), Some((0, 0)));

    let unlocked = ProtoFileManager {
        entries: vec![ProtoDirEntry {
            path: ProtoPath::parse("/p"),
            location: PinLocation::Local,
            configs: vec![file("/p/.prototools", true, &["node"], false)],
        }],
    };
    assert_eq!(unlocked.get_locked_config(&ToolContext::new("node".into())), None);
}

#[test]
fn text_helpers() {
    assert_eq!(trim("  a b \n"), "a b");
    assert_eq!(split_once("k=v=w", '='), Some(("k".to_owned(), "v=w".to_owned())));
    assert_eq!(split_once("kv", '='), None);
    assert_eq!(lines("a\nb\r\n\nc"), vec!["a", "b", "", "c"]);
    assert_eq!(lines(""), Vec::<String>::new());
    assert_eq!(lines("a\n"), vec!["a"]);
}

#[test]
fn paths_render_and_join() {
    let p = ProtoPath::parse("/a//b/./c/");
    assert_eq!(p.render(), "/a/b/c");
    assert_eq!(p.parent().unwrap().render(), "/a/b");
    assert!(ProtoPath::parse("/").parent().is_none());
    assert_eq!(p.file_name().unwrap(), "c");
    assert_eq!(p.join_text("d/e").render(), "/a/b/c/d/e");
    assert_eq!(p.join_text("/x").render(), "/x");
    assert!(p.starts_with(&ProtoPath::parse("/a/b")));
    assert!(!p.starts_with(&ProtoPath::parse("/a/bc")));
    assert_eq!(ProtoPath::parse("./x").render(), "./x");
    assert_eq!(ProtoPath::parse("x/y").render(), "x/y");
    assert!(ProtoPath::parse("").is_empty());
}

#[test]
fn path_hash_is_sha256_of_the_path() {
    // sha256("/sandbox")
    let h = hash_path(&ProtoPath::parse("/sandbox"));
    assert_eq!(h.len(), 64);
    assert_ne!(h, hash_path(&ProtoPath::parse("/other")));
    assert_eq!(h, hash_path(&ProtoPath::parse("/sandbox/")));
}

#[test]
fn tool_manager() {
    let info = ToolInfo { context: ToolContext::new("node".into()), name: "Node.js".into() };
    assert_eq!(info.get_id(), "node");
    assert_eq!(info.get_name(), "Node.js");
    let manager = Manager::new(info);
    assert_eq!(manager.tool.name, "Node.js");
    assert_eq!(manager.tool.context.id, "node");
}
