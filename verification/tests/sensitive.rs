// Each config below is given in JSON form, as its settings would be
// serialized; settings that are not configured are left out or null.

use proto_core::sensitive::{get_sensitive_fields, prune_json, sensitive_part_fields, split_config, Json};

fn s(text: &str) -> Json {
    Json::Text(text.to_owned())
}

fn obj(entries: Vec<(&str, Json)>) -> Json {
    Json::Object(entries.into_iter().map(|(k, v)| (k.to_owned(), v)).collect())
}

fn sensitive(config: Json) -> Vec<String> {
    get_sensitive_fields(&config)
}

fn keys(value: &Json) -> Vec<String> {
    match value {
        Json::Object(entries) => entries.iter().map(|(k, _)| k.clone()).collect(),
        _ => panic!("expected an object"),
    }
}

fn get<'a>(value: &'a Json, key: &str) -> Option<&'a Json> {
    match value {
        Json::Object(entries) => entries.iter().find(|(k, _)| k == key).map(|(_, v)| v),
        _ => None,
    }
}

#[test]
fn none_for_empty_config() {
    assert!(sensitive(obj(vec![])).is_empty());
}

#[test]
fn none_for_safe_settings() {
    assert!(sensitive(obj(vec![
        ("node", s("20")),
        ("npm", s("10.0.0")),
        ("npm:typescript", s("5")),
        ("tools", obj(vec![("node", obj(vec![("aliases", obj(vec![("work", s("18"))]))]))])),
        (
            "settings",
            obj(vec![
                ("detect-strategy", s("prefer-prototools")),
                ("lockfile", Json::Bool(true)),
                ("pin-latest", s("local")),
                ("telemetry", Json::Bool(false)),
            ]),
        ),
    ]))
    .is_empty());
}

#[test]
fn none_for_empty_tables() {
    assert!(sensitive(obj(vec![
        ("env", obj(vec![])),
        ("settings", obj(vec![])),
        ("shell", obj(vec![])),
        ("tools", obj(vec![("node", obj(vec![]))])),
    ]))
    .is_empty());
}

#[test]
fn includes_env_vars() {
    assert_eq!(sensitive(obj(vec![("env", obj(vec![("BASH_ENV", s("script.sh"))]))])), ["env"]);
}

#[test]
fn includes_env_files() {
    assert_eq!(sensitive(obj(vec![("env", obj(vec![("file", s(".env"))]))])), ["env"]);
}

#[test]
fn includes_shell_aliases() {
    assert_eq!(
        sensitive(obj(vec![("shell", obj(vec![("aliases", obj(vec![("ls", s("echo"))]))]))])),
        ["shell.aliases"]
    );
}

#[test]
fn includes_plugins() {
    assert_eq!(
        sensitive(obj(vec![
            ("plugins", obj(vec![("tools", obj(vec![("foo", s("file://./foo.wasm"))]))])),
            ("tools", obj(vec![("bar", obj(vec![("plugin", s("https://example.com/bar.wasm"))]))])),
        ])),
        ["plugins.tools", "tools.bar"]
    );
}

#[test]
fn includes_tool_and_backend_config() {
    assert_eq!(
        sensitive(obj(vec![
            (
                "tools",
                obj(vec![(
                    "node",
                    obj(vec![("dist-url", s("https://example.com")), ("env", obj(vec![("KEY", s("value"))]))]),
                )]),
            ),
            ("backends", obj(vec![("asdf", obj(vec![("repository", s("https://example.com"))]))])),
        ])),
        ["backends.asdf", "tools.node"]
    );
}

#[test]
fn includes_unsafe_settings() {
    assert_eq!(
        sensitive(obj(vec![(
            "settings",
            obj(vec![
                ("auto-install", Json::Bool(true)),
                ("lockfile", Json::Bool(true)),
                ("url-rewrites", obj(vec![("github.com", s("example.com"))])),
            ]),
        )])),
        ["settings.auto-install", "settings.url-rewrites"]
    );
}

#[test]
fn includes_proto_pin() {
    assert_eq!(sensitive(obj(vec![("node", s("20")), ("proto", s("0.40.0"))])), ["proto"]);
}

#[test]
fn keeps_safe_settings() {
    let (safe, _) = split_config(&obj(vec![
        ("node", s("20")),
        ("proto", s("0.40.0")),
        ("env", obj(vec![("KEY", s("value"))])),
        (
            "tools",
            obj(vec![(
                "node",
                obj(vec![("dist-url", s("https://example.com")), ("aliases", obj(vec![("work", s("18"))]))]),
            )]),
        ),
        ("settings", obj(vec![("auto-install", Json::Bool(true)), ("lockfile", Json::Bool(true))])),
    ]));

    assert!(get(&safe, "node").is_some());
    assert!(get(&safe, "proto").is_none());
    assert!(get(&safe, "env").is_none());
    assert!(get(&safe, "plugins").is_none());
    assert!(get(&safe, "shell").is_none());
    assert!(get(&safe, "backends").is_none());

    let tool = get(get(&safe, "tools").unwrap(), "node").unwrap();
    assert!(get(tool, "aliases").is_some());
    assert!(get(tool, "config").is_none());
    assert_eq!(keys(tool), ["aliases"]);

    let settings = get(&safe, "settings").unwrap();
    assert!(matches!(get(settings, "lockfile"), Some(Json::Bool(true))));
    assert!(get(settings, "auto-install").is_none());
}

#[test]
fn sensitive_part_keeps_the_rest() {
    let (safe, sensitive) = split_config(&obj(vec![
        ("node", s("20")),
        ("proto", s("0.40.0")),
        ("tools", obj(vec![("deno", obj(vec![("aliases", Json::Null), ("env", obj(vec![]))]))])),
        ("settings", Json::Null),
        ("future-setting", Json::Bool(true)),
    ]));
    // A tool without aliases gives the safe part no tools; an unknown
    // top-level key stands where version pins do, in the safe part
    assert_eq!(keys(&safe), ["node", "future-setting"]);
    assert_eq!(keys(&sensitive), ["proto", "tools", "settings"]);
    let deno = get(get(&sensitive, "tools").unwrap(), "deno").unwrap();
    assert_eq!(keys(deno), ["aliases", "env"]);
    // Not an object: all of it is sensitive
    let (safe, sensitive) = split_config(&s("x"));
    assert!(keys(&safe).is_empty());
    assert!(matches!(sensitive, Json::Text(t) if t == "x"));
}

#[test]
fn pruning_removes_nulls_and_empty_objects_at_any_depth() {
    let value = obj(vec![
        ("a", obj(vec![("b", obj(vec![("c", Json::Null)]))])),
        ("d", Json::Array(vec![Json::Null])),
        ("e", Json::Number("1".into())),
    ]);
    match prune_json(&value) {
        Some(Json::Object(entries)) => {
            let keys: Vec<&str> = entries.iter().map(|(k, _)| k.as_str()).collect();
            assert_eq!(keys, vec!["d", "e"]);
            // Arrays are kept as they are
            assert!(matches!(&entries[0].1, Json::Array(items) if items.len() == 1));
        }
        _ => panic!("expected an object"),
    }
    assert!(prune_json(&Json::Null).is_none());
    assert!(prune_json(&obj(vec![("x", obj(vec![]))])).is_none());
}

#[test]
fn fields_are_sorted() {
    assert_eq!(
        sensitive_part_fields(&obj(vec![
            ("zeta", s("1")),
            ("alpha", obj(vec![("y", s("1")), ("x", s("2"))])),
            ("env", obj(vec![("B", s("1"))])),
        ])),
        ["alpha.x", "alpha.y", "env", "zeta"]
    );
}

#[test]
fn split_partitions_pins_and_sections() {
    let (safe, sensitive) = split_config(&obj(vec![
        ("node", s("20")),
        ("env", obj(vec![("A", s("1"))])),
        ("proto", s("0.40.0")),
        ("shell", obj(vec![])),
        ("npm", s("10")),
    ]));
    assert_eq!(keys(&safe), ["node", "npm"]);
    assert_eq!(keys(&sensitive), ["env", "proto", "shell"]);
}
