use proto_core::config::{BuiltinPlugins, PluginSource, ProtoPluginsConfig};
use proto_core::context::ToolContext;
use proto_core::files::{PinLocation, ProtoConfigFile, ProtoDirEntry, ProtoFileManager};
use proto_core::lock::{LockRecord, Locker};
use proto_core::paths::ProtoPath;
use proto_core::shims::{apply_shim_update, Shim, ShimRegistry, ShimsMap};
use proto_core::trust::ProtoConfigTrust;

#[test]
fn context_text_round_trips() {
    for (id, backend) in [("node", None), ("zig", Some("asdf")), ("a:b", Some("x"))] {
        let context = match backend {
            Some(b) => ToolContext::with_backend(id.into(), b.into()),
            None => ToolContext::new(id.into()),
        };
        assert!(ToolContext::from_text(&context.as_text()).equals(&context));
    }
    // The first `:` separates the backend
    let parsed = ToolContext::from_text("npm:@scope/pkg");
    assert_eq!(parsed.backend.as_deref(), Some("npm"));
    assert_eq!(parsed.id, "@scope/pkg");
}

#[test]
fn record_verifies_against_itself() {
    let record = LockRecord {
        backend: Some("asdf".into()),
        spec: Some("1".into()),
        version: None,
        checksum: Some("sha256:abc".into()),
        source: Some("https://x".into()),
        os: Some("linux".into()),
        arch: Some("arm64".into()),
    };
    assert!(Locker::compare_records(&record, &record.copy()).is_ok());
}

#[test]
fn shim_update_is_idempotent() {
    let mut map = ShimsMap::new();
    let secondary = Shim::secondary(ToolContext::new("go".into()));
    assert!(apply_shim_update(&mut map, "dlv", &secondary));
    assert!(!apply_shim_update(&mut map, "dlv", &secondary));
    assert_eq!(map.len(), 1);
}

#[test]
fn primary_wins_whatever_the_order() {
    let primary = Shim::primary();
    let secondary = Shim::secondary(ToolContext::new("xyz".into()));

    let mut first = ShimsMap::new();
    apply_shim_update(&mut first, "go", &primary);
    apply_shim_update(&mut first, "go", &secondary);

    let mut second = ShimsMap::new();
    apply_shim_update(&mut second, "go", &secondary);
    apply_shim_update(&mut second, "go", &primary);

    assert!(first.get("go").unwrap().context.is_none());
    assert!(second.get("go").unwrap().context.is_none());
}

#[test]
fn saving_keeps_entries_of_other_installs() {
    let mut registry = ShimRegistry::load(ShimsMap::new(), ProtoPath::parse("/p/shims/registry.json"));
    registry.update("node".into(), Shim::primary());
    // Meanwhile another install wrote `deno`
    let mut fresh = ShimsMap::new();
    apply_shim_update(&mut fresh, "deno", &Shim::primary());
    let (merged, dirty) = registry.merge_changes(fresh);
    assert!(dirty);
    assert!(merged.get("deno").is_some());
    assert!(merged.get("node").is_some());
    registry.finish_save(merged);
    assert!(!registry.has_changes());
    assert_eq!(registry.shims().len(), 2);
}

#[test]
fn removing_proto_pins_twice_changes_nothing() {
    let file = |versions: &[&str]| ProtoConfigFile {
        exists: true,
        path: ProtoPath::parse("/g/.prototools"),
        versions: versions.iter().map(|v| (ToolContext::new(v.to_string()), "*".to_string())).collect(),
        locked: false,
        trust: ProtoConfigTrust::NotRequired,
        sensitive: vec![],
        untrusted_plugins: None,
    };
    let mut m = ProtoFileManager {
        entries: vec![ProtoDirEntry {
            path: ProtoPath::parse("/g"),
            location: PinLocation::Global,
            configs: vec![file(&["proto", "node", "proto"])],
        }],
    };
    m.remove_proto_pins();
    let once: Vec<String> = m.entries[0].configs[0].versions.iter().map(|(c, _)| c.id.clone()).collect();
    m.remove_proto_pins();
    let twice: Vec<String> = m.entries[0].configs[0].versions.iter().map(|(c, _)| c.id.clone()).collect();
    assert_eq!(once, vec!["node"]);
    assert_eq!(once, twice);
}

fn plugin_ids(list: &[(String, PluginSource)]) -> Vec<String> {
    list.iter().map(|(k, _)| k.clone()).collect()
}

#[test]
fn inheriting_builtins_twice_changes_nothing() {
    for setting in [
        BuiltinPlugins::Enabled(true),
        BuiltinPlugins::Enabled(false),
        BuiltinPlugins::Allowed(vec!["go".into(), "asdf".into()]),
    ] {
        let mut plugins = ProtoPluginsConfig {
            backends: vec![],
            tools: vec![("go".into(), PluginSource::Configured("file://./go.wasm".into()))],
        };
        plugins.inherit_builtin_plugins(&setting);
        let (b1, t1) = (plugin_ids(&plugins.backends), plugin_ids(&plugins.tools));
        plugins.inherit_builtin_plugins(&setting);
        assert_eq!(plugin_ids(&plugins.backends), b1);
        assert_eq!(plugin_ids(&plugins.tools), t1);
        assert!(matches!(&plugins.tools[0].1, PluginSource::Configured(_)));
    }
}

#[test]
fn inheriting_builtins_keeps_the_configured_entries() {
    let mut plugins = ProtoPluginsConfig {
        backends: vec![("asdf".into(), PluginSource::Configured("file://./asdf.wasm".into()))],
        tools: vec![("zig".into(), PluginSource::Configured("file://./zig.wasm".into()))],
    };
    plugins.inherit_builtin_plugins(&BuiltinPlugins::Allowed(vec!["node".into()]));
    assert_eq!(plugin_ids(&plugins.backends), vec!["asdf".to_string()]);
    assert!(matches!(&plugins.backends[0].1, PluginSource::Configured(_)));
    assert_eq!(plugin_ids(&plugins.tools), vec!["zig", "node", "internal-schema", "proto"]);
    assert!(matches!(&plugins.tools[0].1, PluginSource::Configured(_)));
}
