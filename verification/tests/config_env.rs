use proto_core::config::{
    builtin_plugin_table, index_extend_exec, index_insert_exec, lookup, make_absolute,
    resolve_env_vars, resolve_path, BuiltinPlugins, EnvFile, EnvLayer, EnvVar, PluginSource,
    ProtoConfigEnv, ProtoConfigEnvOptions, ProtoPluginsConfig,
};
use proto_core::context::ToolContext;
use proto_core::paths::ProtoPath;

fn vars(items: &[(&str, Option<&str>)]) -> Vec<(String, Option<String>)> {
    items
        .iter()
        .map(|(k, v)| (k.to_string(), v.map(|s| s.to_string())))
        .collect()
}

#[test]
fn ordered_map_inserts_in_place() {
    let mut m = vars(&[("A", Some("1")), ("B", Some("2"))]);
    index_insert_exec(&mut m, "A".into(), Some("3".into()));
    assert_eq!(m, vars(&[("A", Some("3")), ("B", Some("2"))]));
    index_insert_exec(&mut m, "C".into(), None);
    assert_eq!(m, vars(&[("A", Some("3")), ("B", Some("2")), ("C", None)]));
    index_extend_exec(&mut m, &vars(&[("B", None), ("D", Some("4"))]));
    assert_eq!(m, vars(&[("A", Some("3")), ("B", None), ("C", None), ("D", Some("4"))]));
    assert_eq!(lookup(&m, "B"), Some(None));
    assert_eq!(lookup(&m, "D"), Some(Some("4".into())));
    assert_eq!(lookup(&m, "Z"), None);
}

#[test]
fn variables_are_interpolated() {
    let base = vars(&[
        ("file", Some(".env")),
        ("ROOT", Some("/opt")),
        ("BIN", Some("${ROOT}/bin:${MISSING}:${HOME}")),
        ("UNSET", None),
    ]);
    let process = vars(&[("HOME", Some("/home/me"))]);
    let resolved = resolve_env_vars(&base, false, &process);
    assert_eq!(
        resolved,
        vars(&[("ROOT", Some("/opt")), ("BIN", Some("/opt/bin::/home/me")), ("UNSET", None)])
    );
}

#[test]
fn process_variables_win_when_checked() {
    let base = vars(&[("HOME", Some("/elsewhere")), ("EMPTY", Some("x")), ("GONE", None)]);
    let process = vars(&[("HOME", Some("/home/me")), ("EMPTY", Some("")), ("GONE", Some("1"))]);
    assert_eq!(
        resolve_env_vars(&base, true, &process),
        vars(&[("EMPTY", Some("x")), ("GONE", None)])
    );
    assert_eq!(resolve_env_vars(&base, false, &process).len(), 3);
}

fn config_env() -> ProtoConfigEnv {
    ProtoConfigEnv {
        env: vars(&[("SHARED", Some("1")), ("KEY", Some("shared"))]),
        env_files: vec![EnvFile { path: ProtoPath::parse("/p/.env"), weight: 5 }],
        backends: vec![(
            "asdf".into(),
            EnvLayer {
                env: vars(&[("KEY", Some("backend"))]),
                env_files: vec![EnvFile { path: ProtoPath::parse("/p/.env.asdf"), weight: 1 }],
            },
        )],
        tools: vec![
            (
                "asdf:zig".into(),
                EnvLayer {
                    env: vars(&[("KEY", Some("tool")), ("ZIG", Some("${KEY}!"))]),
                    env_files: vec![EnvFile { path: ProtoPath::parse("/p/.env.zig"), weight: 5 }],
                },
            ),
            (
                "node".into(),
                EnvLayer { env: vars(&[("NODE", Some("yes"))]), env_files: vec![] },
            ),
        ],
    }
}

#[test]
fn tool_and_backend_tables() {
    let env = config_env();
    let zig = ToolContext { id: "zig".into(), backend: Some("asdf".into()) };
    assert_eq!(env.get_backend_config(&zig).unwrap().env, vars(&[("KEY", Some("backend"))]));
    assert!(env.get_tool_config(&zig).is_some());
    let node = ToolContext { id: "node".into(), backend: None };
    assert!(env.get_backend_config(&node).is_none());
    assert_eq!(env.get_tool_config(&node).unwrap().env, vars(&[("NODE", Some("yes"))]));
    // A backend-managed tool falls back to its id alone
    let asdf_node = ToolContext { id: "node".into(), backend: Some("asdf".into()) };
    assert!(env.get_tool_config(&asdf_node).is_some());
}

#[test]
fn env_vars_merge_in_order() {
    let env = config_env();
    let options = ProtoConfigEnvOptions {
        context: Some(ToolContext { id: "zig".into(), backend: Some("asdf".into()) }),
        check_process: false,
        include_shared: true,
    };
    let file_vars = vars(&[("FROM_FILE", Some("f")), ("KEY", Some("file"))]);
    let resolved = env.get_env_vars(&options, &file_vars, &vec![]);
    assert_eq!(
        resolved,
        vars(&[
            ("FROM_FILE", Some("f")),
            ("KEY", Some("tool")),
            ("SHARED", Some("1")),
            ("ZIG", Some("tool!")),
        ])
    );

    let only_shared = ProtoConfigEnvOptions { context: None, check_process: false, include_shared: true };
    assert_eq!(
        env.get_env_vars(&only_shared, &vec![], &vec![]),
        vars(&[("SHARED", Some("1")), ("KEY", Some("shared"))])
    );
}

#[test]
fn env_files_sorted_by_weight() {
    let env = config_env();
    let options = ProtoConfigEnvOptions {
        context: Some(ToolContext { id: "zig".into(), backend: Some("asdf".into()) }),
        check_process: false,
        include_shared: true,
    };
    let files: Vec<String> = env.get_env_files(&options).iter().map(|p| p.render()).collect();
    assert_eq!(files, vec!["/p/.env.asdf", "/p/.env", "/p/.env.zig"]);
    let none = ProtoConfigEnvOptions { context: None, check_process: false, include_shared: false };
    assert!(env.get_env_files(&none).is_empty());
}

#[test]
fn builtin_plugins_allowance() {
    assert!(BuiltinPlugins::Enabled(true).is_allowed("node"));
    assert!(!BuiltinPlugins::Enabled(false).is_allowed("node"));
    let list = BuiltinPlugins::Allowed(vec!["node".into(), "go".into()]);
    assert!(list.is_allowed("go"));
    assert!(!list.is_allowed("bun"));
}

#[test]
fn builtin_plugins_are_inherited() {
    let table = builtin_plugin_table();
    assert_eq!(table.len(), 16);
    assert_eq!(table[0].id, "asdf");
    assert!(table[0].backend);

    let mut plugins = ProtoPluginsConfig {
        backends: vec![],
        tools: vec![("node".into(), PluginSource::Configured("file://./node.wasm".into()))],
    };
    plugins.inherit_builtin_plugins(&BuiltinPlugins::Allowed(vec!["node".into(), "go".into()]));
    let tools: Vec<&str> = plugins.tools.iter().map(|(k, _)| k.as_str()).collect();
    assert_eq!(tools, vec!["node", "go", "internal-schema", "proto"]);
    assert!(plugins.backends.is_empty());
    assert!(matches!(&plugins.tools[0].1, PluginSource::Configured(_)));
    match &plugins.tools[1].1 {
        PluginSource::Builtin { plugin, version } => {
            assert_eq!(plugin, "go_tool");
            assert_eq!(version, "0.16.5");
        }
        _ => panic!("expected a builtin plugin"),
    }

    let mut all = ProtoPluginsConfig { backends: vec![], tools: vec![] };
    all.inherit_builtin_plugins(&BuiltinPlugins::Enabled(true));
    assert_eq!(all.backends.len(), 1);
    assert_eq!(all.tools.len(), 15);
}

#[test]
fn config_paths() {
    assert_eq!(resolve_path(&ProtoPath::parse("/p")).render(), "/p/.prototools");
    assert_eq!(resolve_path(&ProtoPath::parse("/p/.prototools")).render(), "/p/.prototools");
    let config = ProtoPath::parse("/p/.prototools");
    let cwd = ProtoPath::parse("/cwd");
    assert_eq!(make_absolute("/abs/.env", &config, &cwd).render(), "/abs/.env");
    assert_eq!(make_absolute(".env", &config, &cwd).render(), "/p/.env");
    assert_eq!(make_absolute("../x/.env", &config, &cwd).render(), "/p/../x/.env");
    assert_eq!(make_absolute(".env", &ProtoPath::empty(), &cwd).render(), "/cwd/.env");
}

#[test]
fn builtin_plugins_of_a_setting() {
    let none = BuiltinPlugins::Enabled(false).builtin_plugins();
    assert!(none.backends.is_empty());
    let tools: Vec<&str> = none.tools.iter().map(|(k, _)| k.as_str()).collect();
    assert_eq!(tools, vec!["internal-schema", "proto"]);

    let all = BuiltinPlugins::Enabled(true).builtin_plugins();
    assert_eq!(all.backends.len(), 1);
    assert_eq!(all.tools.len(), 15);

    let some = BuiltinPlugins::Allowed(vec!["bun".into()]).builtin_plugins();
    let tools: Vec<&str> = some.tools.iter().map(|(k, _)| k.as_str()).collect();
    assert_eq!(tools, vec!["bun", "internal-schema", "proto"]);
}

#[test]
fn env_var_values() {
    assert_eq!(EnvVar::State(true).to_value().as_deref(), Some("true"));
    assert_eq!(EnvVar::State(false).to_value(), None);
    assert_eq!(EnvVar::Value("abc".into()).to_value().as_deref(), Some("abc"));
    assert_eq!(EnvVar::Value(String::new()).to_value().as_deref(), Some(""));
}
