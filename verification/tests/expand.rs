use proto_core::detect::{version_file_step, VersionFileAction, VersionFileEvent, VersionFileSearch};
use proto_core::expand::{expand_detected_version, sort_versions_desc, ExpandError};
use proto_core::helpers::millis_since_epoch;
use proto_core::text::char_is_whitespace;

fn installed(vs: &[&str]) -> Vec<String> {
    vs.iter().map(|v| v.to_string()).collect()
}

fn expand(version: &str, vs: &[&str]) -> Option<String> {
    match expand_detected_version(version, &installed(vs)) {
        Ok(v) => v,
        Err(_) => panic!("expected a version"),
    }
}

#[test]
fn installed_versions_sort_from_the_highest_down() {
    let sorted = sort_versions_desc(&installed(&["2.0.0", "20.0.0", "10.1.0", "2.10.0"]));
    assert_eq!(sorted, installed(&["20.0.0", "10.1.0", "2.10.0", "2.0.0"]));
}

#[test]
fn aliases_are_kept() {
    assert_eq!(expand("latest", &["18.1.0"]), Some("latest".into()));
    assert_eq!(expand("stable", &[]), Some("stable".into()));
}

#[test]
fn requirements_match_the_highest_installed_version() {
    let vs = ["18.1.0", "20.0.0", "18.2.3"];
    assert_eq!(expand("^18", &vs), Some("18.2.3".into()));
    assert_eq!(expand("18", &vs), Some("18.2.3".into()));
    assert_eq!(expand(">=18 <20", &vs), Some("18.2.3".into()));
    assert_eq!(expand(">=18, <20", &vs), Some("18.2.3".into()));
    assert_eq!(expand("*", &vs), Some("20.0.0".into()));
}

#[test]
fn unmatched_versions_keep_their_parts() {
    assert_eq!(expand("18", &[]), Some("18".into()));
    assert_eq!(expand("18.2", &[]), Some("18.2".into()));
    assert_eq!(expand("=1.2.3", &[]), Some("1.2.3".into()));
    assert_eq!(expand("1.2.3", &["1.2.4"]), Some("1.2.3".into()));
    assert_eq!(expand("^18", &[]), None);
    assert_eq!(expand("*", &[]), Some("latest".into()));
}

#[test]
fn alternatives_take_the_first_that_expands() {
    assert_eq!(expand("^18 || ^20", &["20.1.0"]), Some("20.1.0".into()));
    assert_eq!(expand("^16 || ^17", &["20.1.0"]), None);
}

#[test]
fn invalid_installed_versions_are_errors() {
    match expand_detected_version("^18", &installed(&["abc"])) {
        Err(ExpandError::Semver { version }) => assert_eq!(version, "abc"),
        _ => panic!("expected a semver error"),
    }
}

#[test]
fn epoch_milliseconds_fall_back_to_zero() {
    assert_eq!(millis_since_epoch(Some(1_700_000_000_000)), 1_700_000_000_000);
    assert_eq!(millis_since_epoch(None), 0);
}

#[test]
fn unicode_white_space() {
    for c in ['\t', '\n', ' ', '\u{85}', '\u{a0}', '\u{2003}', '\u{3000}'] {
        assert!(char_is_whitespace(c));
        assert_eq!(char_is_whitespace(c), c.is_whitespace());
    }
    for c in ['a', '0', '\u{200b}', '_'] {
        assert!(!char_is_whitespace(c));
        assert_eq!(char_is_whitespace(c), c.is_whitespace());
    }
}


#[test]
fn version_file_search_passes_over_missing_and_empty_files() {
    let s = VersionFileSearch { index: 0, count: 3, has_parser: false };
    let (s, a) = version_file_step(s, VersionFileEvent::Start);
    assert!(matches!(a, VersionFileAction::Read(0)));
    let (s, a) = version_file_step(s, VersionFileEvent::Read(None));
    assert!(matches!(a, VersionFileAction::Read(1)));
    let (s, a) = version_file_step(s, VersionFileEvent::Read(Some("  \n".into())));
    assert!(matches!(a, VersionFileAction::Read(2)));
    let (_, a) = version_file_step(s, VersionFileEvent::Read(Some(" 20.1 \n".into())));
    match a {
        VersionFileAction::Found(2, v) => assert_eq!(v, "20.1"),
        _ => panic!("expected the version"),
    }
}

#[test]
fn version_file_search_with_a_parser() {
    let s = VersionFileSearch { index: 0, count: 2, has_parser: true };
    let (s, _) = version_file_step(s, VersionFileEvent::Start);
    let (s, a) = version_file_step(s, VersionFileEvent::Read(Some("lts/*".into())));
    assert!(matches!(a, VersionFileAction::Parse(0, ref c) if c == "lts/*"));
    let (s, a) = version_file_step(s, VersionFileEvent::Parsed(None));
    assert!(matches!(a, VersionFileAction::Read(1)));
    let (s, a) = version_file_step(s, VersionFileEvent::Read(None));
    assert!(matches!(a, VersionFileAction::NotFound));
    let empty = VersionFileSearch { index: 0, count: 0, has_parser: true };
    assert!(matches!(version_file_step(empty, VersionFileEvent::Start).1, VersionFileAction::NotFound));
    let _ = s;
}
