use proto_core::paths::ProtoPath;
use proto_core::registry::{
    find_plugin, get_builtin_registry, registry_cache_fresh, registry_source, PluginAuthor, PluginPerson,
    RegistryKind,
};

#[test]
fn author_names() {
    assert_eq!(PluginAuthor::String("moonrepo".into()).get_name(), "moonrepo");
    let person = PluginPerson { name: "Miles".into(), email: Some("m@example.com".into()), url: None };
    assert_eq!(PluginAuthor::Object(person).get_name(), "Miles");
}

#[test]
fn registry_sources() {
    let cache = ProtoPath::parse("/home/.proto/cache");
    let (file, url) = registry_source(RegistryKind::Community, &cache);
    assert_eq!(file.render(), "/home/.proto/cache/registry/community-plugins.json");
    assert_eq!(url, "https://raw.githubusercontent.com/moonrepo/proto/master/registry/data/community.json");
    let (file, url) = registry_source(RegistryKind::Internal, &cache);
    assert_eq!(file.render(), "/home/.proto/cache/registry/internal-plugins.json");
    assert!(url.ends_with("/built-in.json"));
    let (file, url) = registry_source(RegistryKind::External, &cache);
    assert_eq!(file.render(), "/home/.proto/cache/registry/external-plugins.json");
    assert!(url.ends_with("/third-party.json"));
}

#[test]
fn registry_cache_lasts_a_day() {
    let day: u128 = 86_400_000;
    assert!(!registry_cache_fresh(false, 10 * day, 10 * day));
    assert!(registry_cache_fresh(true, 10 * day, 10 * day));
    assert!(registry_cache_fresh(true, 10 * day, 11 * day - 1));
    assert!(!registry_cache_fresh(true, 10 * day, 11 * day));
    assert!(registry_cache_fresh(true, 0, day - 1));
}

#[test]
fn finds_the_first_plugin_with_an_id() {
    let ids: Vec<String> = vec!["node".into(), "zig".into(), "node".into()];
    assert_eq!(find_plugin(&ids, "node"), Some(0));
    assert_eq!(find_plugin(&ids, "zig"), Some(1));
    assert_eq!(find_plugin(&ids, "bun"), None);
    assert_eq!(find_plugin(&vec![], "bun"), None);
}

#[test]
fn builtin_registry_defaults() {
    let r = get_builtin_registry(None, None, false, false);
    assert_eq!(r.registry, "ghcr.io");
    assert_eq!(r.namespace.as_deref(), Some("moonrepo"));
    assert!(!r.auth && !r.default);

    let r = get_builtin_registry(Some(""), Some(""), true, false);
    assert_eq!(r.registry, "ghcr.io");
    assert_eq!(r.namespace.as_deref(), Some("moonrepo"));
    assert!(r.auth);

    let r = get_builtin_registry(Some("registry.example.com"), Some("acme"), false, true);
    assert_eq!(r.registry, "registry.example.com");
    assert_eq!(r.namespace.as_deref(), Some("acme"));
    assert!(r.default);
}
