use proto_core::bins::{VersionKey, VersionKind};
use proto_core::locate::{
    replace_text, text_less, ExecutableConfig, LocateEnv, LocateExecutablesOutput, Locator,
    ProtoLocateError,
};
use proto_core::paths::ProtoPath;

fn config(exe_path: Option<&str>, primary: bool) -> ExecutableConfig {
    ExecutableConfig {
        exe_path: exe_path.map(|p| p.to_owned()),
        exe_link_path: None,
        no_bin: false,
        no_shim: false,
        primary,
        update_perms: false,
        shim_before_args: None,
        shim_after_args: None,
        shim_env_vars: None,
    }
}

fn output(exes: Vec<(&str, ExecutableConfig)>) -> LocateExecutablesOutput {
    LocateExecutablesOutput {
        exes: exes.into_iter().map(|(n, c)| (n.to_owned(), c)).collect(),
        exes_dir: None,
        exes_dirs: vec![],
        globals_lookup_dirs: vec![],
        globals_prefix: None,
    }
}

fn rendered(paths: &[ProtoPath]) -> Vec<String> {
    paths.iter().map(|p| p.render()).collect()
}

fn env() -> LocateEnv {
    LocateEnv {
        working_dir: Some("/work".into()),
        home_dir: Some("/home/me".into()),
        home: ProtoPath::parse("/home/me"),
        proto_home: Some("/home/me/.proto".into()),
        vars: vec![
            ("CARGO_HOME".into(), Some("/opt/cargo".into())),
            ("BROKEN".into(), None),
        ],
    }
}

#[test]
fn replaces_every_occurrence() {
    assert_eq!(replace_text("$A/x/$A", "$A", "b"), "b/x/b");
    assert_eq!(replace_text("aaa", "aa", "b"), "ba");
    assert_eq!(replace_text("none", "$X", "y"), "none");
}

#[test]
fn text_order_is_by_code_point() {
    assert!(text_less("a", "b"));
    assert!(text_less("a", "ab"));
    assert!(!text_less("b", "a"));
    assert!(!text_less("a", "a"));
    assert!(text_less("B", "a"));
}

#[test]
fn primary_is_the_last_marked_one_with_a_path() {
    let locator = Locator::new(ProtoPath::parse("/tools/node/20"));
    let out = output(vec![
        ("node", config(Some("bin/node"), true)),
        ("npx", config(Some("bin/npx"), false)),
        ("other", config(None, true)),
    ]);
    let primary = locator.locate_primary_exe(&out).unwrap();
    assert_eq!(primary.name, "node");
    assert_eq!(primary.path.render(), "/tools/node/20/bin/node");

    let secondaries = locator.locate_secondary_exes(&out);
    assert_eq!(secondaries.len(), 1);
    assert_eq!(secondaries[0].name, "npx");
    assert_eq!(secondaries[0].path.render(), "/tools/node/20/bin/npx");

    assert!(locator.locate_primary_exe(&output(vec![("npx", config(Some("npx"), false))])).is_none());
}

#[test]
fn shims_skip_opted_out_executables() {
    let locator = Locator::new(ProtoPath::parse("/tools/node/20"));
    let mut hidden = config(Some("bin/corepack"), false);
    hidden.no_shim = true;
    let out = output(vec![("node", config(Some("bin/node"), true)), ("corepack", hidden)]);
    let shims = locator.locate_shims(&out, &ProtoPath::parse("/home/me/.proto/shims"));
    assert_eq!(shims.len(), 1);
    assert_eq!(shims[0].path.render(), "/home/me/.proto/shims/node");
}

#[test]
fn permissions_are_updated_for_requested_executables() {
    let locator = Locator::new(ProtoPath::parse("/t"));
    let mut a = config(Some("bin/a"), true);
    a.update_perms = true;
    let mut b = config(None, false);
    b.update_perms = true;
    let out = output(vec![("a", a), ("b", b), ("c", config(Some("bin/c"), false))]);
    assert_eq!(rendered(&locator.exes_to_update_perms(&out)), vec!["/t/bin/a"]);
}

#[test]
fn exes_dirs_are_located_once() {
    let mut locator = Locator::new(ProtoPath::parse("/t"));
    let mut out = output(vec![]);
    out.exes_dirs = vec![".".into(), "bin".into()];
    assert_eq!(rendered(&locator.locate_exes_dirs(Some(&out))), vec!["/t", "/t/bin"]);
    assert_eq!(locator.get_exes_dir().unwrap().render(), "/t");

    // Remembered
    out.exes_dir = Some("other".into());
    assert_eq!(rendered(&locator.locate_exes_dirs(Some(&out))), vec!["/t", "/t/bin"]);

    let mut fresh = Locator::new(ProtoPath::parse("/t"));
    assert_eq!(rendered(&fresh.locate_exes_dirs(Some(&out))), vec!["/t/other"]);
    let mut none = Locator::new(ProtoPath::parse("/t"));
    assert!(none.locate_exes_dirs(None).is_empty());
    assert!(none.get_exes_dirs().is_empty());
}

#[test]
fn globals_dirs_expand_variables() {
    let mut locator = Locator::new(ProtoPath::parse("/tools/node/20"));
    let mut out = output(vec![]);
    out.globals_prefix = Some("npm-".into());
    out.globals_lookup_dirs = vec![
        "$CARGO_HOME/bin".into(),
        "$BROKEN/bin".into(),
        "$UNSET/bin".into(),
        "~/.local/bin".into(),
        "~.local/bin".into(),
        "$HOME/.local/bin".into(),
        "$TOOL_DIR/globals".into(),
        "$PROTO_HOME/tools".into(),
    ];
    let dirs = locator.locate_globals_dirs(Some(&out), &env());
    assert_eq!(
        rendered(&dirs),
        vec![
            // `~/.local/bin` joins the absolute `/.local/bin` to the home
            // directory, which it replaces
            "/opt/cargo/bin",
            "/.local/bin",
            "/home/me/.local/bin",
            "/tools/node/20/globals",
            "/home/me/.proto/tools",
        ]
    );
    assert_eq!(locator.get_globals_prefix().map(|s| s.as_str()), Some("npm-"));
    assert_eq!(rendered(locator.get_globals_dirs()), rendered(&dirs));

    // The globals directory is the first that holds files, else the last
    assert_eq!(
        locator.locate_globals_dir(&vec![false, false, true, true, false]).unwrap().render(),
        "/home/me/.local/bin"
    );
    let mut other = Locator::new(ProtoPath::parse("/tools/node/20"));
    other.locate_globals_dirs(Some(&out), &env());
    assert_eq!(
        other.locate_globals_dir(&vec![false, false, false, false, false]).unwrap().render(),
        "/home/me/.proto/tools"
    );
}

#[test]
fn globals_prefix_is_remembered() {
    let mut locator = Locator::new(ProtoPath::parse("/t"));
    assert!(locator.locate_globals_prefix(None).is_none());
    let mut out = output(vec![]);
    out.globals_prefix = Some("p-".into());
    assert_eq!(locator.locate_globals_prefix(Some(&out)).as_deref(), Some("p-"));
    out.globals_prefix = Some("q-".into());
    assert_eq!(locator.locate_globals_prefix(Some(&out)).as_deref(), Some("p-"));
}

#[test]
fn exe_file_is_the_primary_or_the_encoded_tool_name() {
    let mut locator = Locator::new(ProtoPath::parse("/t"));
    let candidate = locator.exe_file_candidate(None, ".npm:my-tool@");
    assert_eq!(candidate.render(), "/t/npm-my-tool");

    match locator.locate_exe_file(candidate.copy(), false, "my tool") {
        Err(ProtoLocateError::MissingToolExecutable { tool, path }) => {
            assert_eq!(tool, "my tool");
            assert_eq!(path.render(), "/t/npm-my-tool");
        }
        Ok(_) => panic!("expected a missing executable"),
    }
    assert!(locator.get_exe_file().is_none());

    let found = locator.locate_exe_file(candidate, true, "my tool").ok().unwrap();
    assert_eq!(found.render(), "/t/npm-my-tool");
    assert_eq!(locator.get_exe_file().unwrap().render(), "/t/npm-my-tool");
}

#[test]
fn bins_are_named_after_buckets_and_sorted() {
    let v = |t: &str| VersionKey { order: 1, kind: VersionKind::Version { major: 1, minor: 2 }, text: t.into() };
    let buckets = vec![("*".to_owned(), v("1.2.3")), ("1".to_owned(), v("1.2.3"))];
    let mut hidden = config(Some("bin/x"), false);
    hidden.no_bin = true;
    let out = output(vec![("node", config(Some("bin/node"), true)), ("x", hidden)]);
    let outs = vec![out.clone_for_test(), out];
    let bins = Locator::locate_bins_with_manager(&buckets, &outs, &ProtoPath::parse("/home/me/.proto/bin"));
    let names: Vec<String> = bins.iter().map(|b| b.name.clone()).collect();
    assert_eq!(names, vec!["node", "node-1"]);
    assert_eq!(bins[1].path.render(), "/home/me/.proto/bin/node-1");
}

trait CloneForTest {
    fn clone_for_test(&self) -> Self;
}

impl CloneForTest for LocateExecutablesOutput {
    fn clone_for_test(&self) -> Self {
        LocateExecutablesOutput {
            exes: self.exes.iter().map(|(n, c)| (n.clone(), c.copy())).collect(),
            exes_dir: self.exes_dir.clone(),
            exes_dirs: self.exes_dirs.clone(),
            globals_lookup_dirs: self.globals_lookup_dirs.clone(),
            globals_prefix: self.globals_prefix.clone(),
        }
    }
}
