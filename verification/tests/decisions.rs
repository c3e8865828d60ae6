use proto_core::context::ToolContext;
use proto_core::detect::{detect_step, DetectAction, DetectEvent, DetectStage};
use proto_core::expand::expansion_defined;
use proto_core::human::digit_runs_fit_in;
use proto_core::install::{install_finish, InstallFinish, ProtoInstallError};
use proto_core::lock::LockRecord;
use proto_core::locate::replace_text;
use proto_core::bins::VersionKind;
use proto_core::order::{resolve_start, version_keys, version_ranks, ResolveStart};
use proto_core::paths::ProtoPath;
use proto_core::validate::{unknown_field_errors, UnknownFieldError, UnknownValue};

fn run(events: Vec<DetectEvent>) -> (DetectStage, Vec<DetectAction>) {
    let mut stage = DetectStage::Start;
    let mut actions = vec![];
    for e in events {
        let (s, a) = detect_step(stage, e);
        stage = s;
        actions.push(a);
    }
    (stage, actions)
}

fn detected(a: &DetectAction) -> Option<String> {
    match a {
        DetectAction::Detected(v) => Some(v.clone()),
        _ => None,
    }
}

#[test]
fn forced_version_wins_at_once() {
    let (stage, actions) = run(vec![DetectEvent::Begin(Some("1.2.3".into()))]);
    assert_eq!(stage, DetectStage::Done);
    assert_eq!(detected(&actions[0]), Some("1.2.3".into()));
}

#[test]
fn session_variable_comes_before_directories() {
    let (stage, actions) = run(vec![DetectEvent::Begin(None), DetectEvent::SessionRead(Some("18".into()))]);
    assert!(matches!(actions[0], DetectAction::ReadSession));
    assert_eq!(stage, DetectStage::Done);
    assert_eq!(detected(&actions[1]), Some("18".into()));
}

#[test]
fn pin_of_a_parent_directory_is_found_after_the_ecosystem_of_the_child() {
    let (stage, actions) = run(vec![
        DetectEvent::Begin(None),
        DetectEvent::SessionRead(None),
        DetectEvent::Entered(true),
        DetectEvent::PinRead(None),
        DetectEvent::EcosystemRead(Some("^20".into())),
        DetectEvent::Expanded(None),
        DetectEvent::Entered(true),
        DetectEvent::PinRead(Some("20.1.0".into())),
    ]);
    assert!(matches!(actions[1], DetectAction::EnterWorkingDir));
    assert!(matches!(actions[2], DetectAction::ReadPin));
    assert!(matches!(actions[3], DetectAction::DetectEcosystem));
    assert!(matches!(&actions[4], DetectAction::Expand(v) if v == "^20"));
    assert!(matches!(actions[5], DetectAction::EnterParent));
    assert_eq!(stage, DetectStage::Done);
    assert_eq!(detected(&actions[7]), Some("20.1.0".into()));
}

#[test]
fn expanded_ecosystem_version_is_detected() {
    let (_, actions) = run(vec![
        DetectEvent::Begin(None),
        DetectEvent::SessionRead(None),
        DetectEvent::Entered(true),
        DetectEvent::PinRead(None),
        DetectEvent::EcosystemRead(Some("^20".into())),
        DetectEvent::Expanded(Some("20.1.0".into())),
    ]);
    assert_eq!(detected(&actions[5]), Some("20.1.0".into()));
}

#[test]
fn manifest_default_then_failure() {
    let (stage, actions) = run(vec![
        DetectEvent::Begin(None),
        DetectEvent::SessionRead(None),
        DetectEvent::Entered(false),
        DetectEvent::DefaultRead(Some("lts".into())),
    ]);
    assert!(matches!(actions[2], DetectAction::ReadDefault));
    assert_eq!(stage, DetectStage::Done);
    assert_eq!(detected(&actions[3]), Some("lts".into()));
    let (stage, actions) = run(vec![
        DetectEvent::Begin(None),
        DetectEvent::SessionRead(None),
        DetectEvent::Entered(false),
        DetectEvent::DefaultRead(None),
    ]);
    assert_eq!(stage, DetectStage::Done);
    assert!(matches!(actions[3], DetectAction::Failed));
}

#[test]
fn out_of_order_event_is_ignored() {
    let (stage, a) = detect_step(DetectStage::Pin, DetectEvent::Begin(Some("1".into())));
    assert_eq!(stage, DetectStage::Pin);
    assert!(matches!(a, DetectAction::Ignored));
}

#[test]
fn digit_runs_that_fit_a_u32() {
    assert!(digit_runs_fit_in("1.2.3"));
    assert!(digit_runs_fit_in("v4294967295"));
    assert!(!digit_runs_fit_in("v4294967296"));
    assert!(!digit_runs_fit_in("1.99999999999"));
}

#[test]
fn empty_pattern_is_replaced_around_each_character() {
    assert_eq!(replace_text("abc", "", "-"), "-a-b-c-");
    assert_eq!(replace_text("", "", "-"), "-");
    assert_eq!(replace_text("a.b.c", ".", ""), "abc");
}

#[test]
fn unknown_fields_are_refused_unless_pinned() {
    let unknown = vec![
        ("settings2".to_string(), UnknownValue::Compound),
        ("node".to_string(), UnknownValue::Scalar("20".into())),
        ("bun".to_string(), UnknownValue::Scalar("true".into())),
        ("bad key".to_string(), UnknownValue::Scalar("1".into())),
    ];
    let pinned = vec![ToolContext { id: "node".into(), backend: None }];
    let errors = unknown_field_errors(&unknown, &pinned);
    assert_eq!(errors.len(), 3);
    assert!(matches!(&errors[0], UnknownFieldError::UnknownField { field } if field == "settings2"));
    assert!(matches!(&errors[1], UnknownFieldError::InvalidVersionValue { field, value } if field == "bun" && value == "true"));
    assert!(matches!(&errors[2], UnknownFieldError::InvalidId { field, id } if field == "bad key" && id == "bad key"));
    assert!(unknown_field_errors(&vec![], &pinned).is_empty());
}

#[test]
fn failed_install_removes_its_directories() {
    let result: Result<LockRecord, ProtoInstallError> = Err(ProtoInstallError::RequiredInternetConnection);
    match install_finish(result, ProtoPath::parse("/p/tools/node/20"), ProtoPath::parse("/p/temp/node/20")) {
        InstallFinish::CleanUp { remove, error } => {
            assert_eq!(remove.len(), 2);
            assert_eq!(remove[0].parts, ProtoPath::parse("/p/tools/node/20").parts);
            assert_eq!(remove[1].parts, ProtoPath::parse("/p/temp/node/20").parts);
            assert!(matches!(error, ProtoInstallError::RequiredInternetConnection));
        },
        InstallFinish::Verify(_) => panic!("expected a clean up"),
    }
    let record = LockRecord {
        backend: None,
        spec: Some("20".into()),
        version: None,
        checksum: None,
        source: None,
        os: None,
        arch: None,
    };
    match install_finish(Ok(record), ProtoPath::parse("/p/a"), ProtoPath::parse("/p/b")) {
        InstallFinish::Verify(r) => assert_eq!(r.spec, Some("20".to_string())),
        InstallFinish::CleanUp { .. } => panic!("expected a record"),
    }
}

#[test]
fn versions_rank_canary_then_aliases_then_by_precedence() {
    let texts = vec!["1.2.3".to_string(), "canary".into(), "latest".into(), "1.10.0".into()];
    assert_eq!(version_ranks(&texts), Some(vec![2, 0, 1, 3]));
    assert_eq!(version_ranks(&vec!["1.2.3".to_string(), "!!".into()]), None);
}

#[test]
fn expansion_is_defined_for_ascii_versions() {
    assert!(expansion_defined("^18.1"));
    assert!(expansion_defined("latest"));
    assert!(expansion_defined("^18 || ^20"));
    assert!(!expansion_defined("\u{e9}1"));
    assert!(!expansion_defined("^18 || \u{e9}1"));
}

#[test]
fn fully_qualified_and_canary_short_circuit() {
    assert_eq!(resolve_start("1.2.3", true), Some(ResolveStart::UseAsIs));
    assert_eq!(resolve_start("1.2.3", false), Some(ResolveStart::Resolve));
    assert_eq!(resolve_start("^1", true), Some(ResolveStart::Resolve));
    assert_eq!(resolve_start("canary", false), Some(ResolveStart::UseAsIs));
    assert_eq!(resolve_start("latest", true), Some(ResolveStart::Resolve));
    assert_eq!(resolve_start("!!", true), None);
}

#[test]
fn version_keys_carry_rank_kind_and_text() {
    let texts = vec!["1.2.3".to_string(), "canary".into(), "latest".into()];
    let keys = version_keys(&texts).unwrap();
    assert_eq!(keys.len(), 3);
    assert_eq!(keys[0].order, 2);
    assert!(matches!(keys[0].kind, VersionKind::Version { major: 1, minor: 2 }));
    assert_eq!(keys[0].text, "1.2.3");
    assert_eq!(keys[1].order, 0);
    assert!(matches!(keys[1].kind, VersionKind::Canary));
    assert_eq!(keys[2].order, 1);
    assert!(matches!(&keys[2].kind, VersionKind::Alias(a) if a == "latest"));
    assert!(version_keys(&vec!["!!".to_string()]).is_none());
}
