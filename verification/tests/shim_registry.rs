use proto_core::context::ToolContext;
use proto_core::shims::{detect_shim_conflict, Shim, ShimConflict};

fn primary() -> Shim {
    Shim::primary()
}

fn secondary(tool: &str) -> Shim {
    Shim::secondary(ToolContext::new(tool.to_string()))
}

#[test]
fn no_conflict_between_same_primary() {
    assert!(detect_shim_conflict("go", &primary(), &primary()).is_none());
}

#[test]
fn no_conflict_between_same_secondary_owner() {
    assert!(detect_shim_conflict("dlv", &secondary("go"), &secondary("go")).is_none());
}

#[test]
fn secondary_loses_to_existing_primary() {
    assert!(matches!(
        detect_shim_conflict("go", &secondary("xyz"), &primary()),
        Some(ShimConflict::Ignored { owner, provider }) if owner == "go" && provider == "xyz"
    ));
}

#[test]
fn secondary_loses_to_existing_secondary() {
    assert!(matches!(
        detect_shim_conflict("foo", &secondary("b"), &secondary("a")),
        Some(ShimConflict::Ignored { owner, provider }) if owner == "a" && provider == "b"
    ));
}

#[test]
fn primary_reclaims_from_secondary() {
    assert!(matches!(
        detect_shim_conflict("go", &primary(), &secondary("xyz")),
        Some(ShimConflict::Reclaimed { provider }) if provider == "xyz"
    ));
}
