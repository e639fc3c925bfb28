use cargo_polylith::bump::{dirty_refusal, plan_bump, BumpPlan};
use cargo_polylith::cli::cargo_profile_name;
use cargo_polylith::model::{PolylithToml, VersioningPolicy};
use cargo_polylith::strmap::StrMap;

fn polylith(policy: Option<VersioningPolicy>, version: Option<&str>) -> Option<PolylithToml> {
    Some(PolylithToml {
        schema_version: 1,
        libraries: StrMap::new(),
        profiles: StrMap::new(),
        versioning_policy: policy,
        workspace_version: version.map(|s| s.to_string()),
        tag_prefix: None,
    })
}

fn err_of(r: Option<Result<BumpPlan, String>>) -> String {
    match r {
        Some(Err(e)) => e,
        _ => panic!("expected an error"),
    }
}

#[test]
fn relaxed_bump_plans_the_next_version() {
    match plan_bump(&polylith(Some(VersioningPolicy::Relaxed), Some("1.2.3")), Some("minor")) {
        Some(Ok(BumpPlan::Relaxed { old, new })) => {
            assert_eq!(old, "1.2.3");
            assert_eq!(new, "1.3.0");
        }
        _ => panic!("expected a relaxed plan"),
    }
}

#[test]
fn bump_refuses_without_polylith_toml_or_versioning() {
    assert!(err_of(plan_bump(&None, Some("patch"))).starts_with("Polylith.toml not found"));
    assert!(err_of(plan_bump(&polylith(None, Some("1.0.0")), Some("patch"))).starts_with("versioning not configured"));
}

#[test]
fn relaxed_bump_needs_a_level_a_version_and_a_known_level() {
    let p = polylith(Some(VersioningPolicy::Relaxed), Some("1.0.0"));
    assert!(err_of(plan_bump(&p, None)).starts_with("bump level required"));
    assert!(err_of(plan_bump(&polylith(Some(VersioningPolicy::Relaxed), None), Some("patch")))
        .starts_with("no workspace version set"));
    assert_eq!(
        err_of(plan_bump(&p, Some("huge"))),
        "unknown bump level 'huge' (expected 'major', 'minor', or 'patch')"
    );
    assert!(err_of(plan_bump(&polylith(Some(VersioningPolicy::Relaxed), Some("x.y")), Some("patch")))
        .starts_with("invalid version 'x.y': "));
}

#[test]
fn strict_bump_analyses_from_the_tag_prefix() {
    match plan_bump(&polylith(Some(VersioningPolicy::Strict), None), None) {
        Some(Ok(BumpPlan::Strict { tag_prefix })) => assert_eq!(tag_prefix, "v"),
        _ => panic!("expected a strict plan"),
    }
}

#[test]
fn dirty_files_are_named_in_the_refusal() {
    let r = dirty_refusal(&vec!["Polylith.toml".to_string(), "Cargo.toml".to_string()]);
    assert_eq!(
        r,
        "refusing to bump: uncommitted changes in Polylith.toml, Cargo.toml — commit or stash, or pass --allow-dirty"
    );
}

#[test]
fn cargo_runs_the_dev_profile_by_default() {
    assert_eq!(cargo_profile_name(&None), "dev");
    assert_eq!(cargo_profile_name(&Some("prod".to_string())), "prod");
}

use cargo_polylith::strict_bump::{severity_from_manifests, severity_from_sources, ChangeSeverity};
use cargo_polylith::version::pick_release_tag;

#[test]
fn manifests_decide_new_and_unchanged_bricks() {
    assert_eq!(severity_from_manifests(&None, "0.1.0"), Some(ChangeSeverity::InterfaceChanged));
    assert_eq!(
        severity_from_manifests(&Some(Some("0.1.0".to_string())), "0.1.0"),
        Some(ChangeSeverity::Unchanged)
    );
    assert_eq!(severity_from_manifests(&Some(Some("0.1.0".to_string())), "0.2.0"), None);
    assert_eq!(severity_from_manifests(&Some(None), "0.2.0"), None);
}

#[test]
fn sources_decide_moved_versions() {
    assert_eq!(
        severity_from_sources(Some("pub fn a() {}"), Some("pub fn a() {}\npub fn b() {}")),
        ChangeSeverity::InterfaceChanged
    );
    assert_eq!(
        severity_from_sources(Some("pub fn a() { 1; }"), Some("pub fn a() { 2; }")),
        ChangeSeverity::InternalsChanged
    );
    assert_eq!(severity_from_sources(Some("pub fn a() {}"), Some("pub fn a() {}")), ChangeSeverity::TransitivePatch);
    assert_eq!(severity_from_sources(None, Some("pub fn a() {}")), ChangeSeverity::InterfaceChanged);
    assert_eq!(severity_from_sources(Some("pub fn a() {}"), None), ChangeSeverity::InternalsChanged);
}

#[test]
fn the_newest_semver_tag_is_the_release() {
    let lines = vec!["".to_string(), "  vnext ".to_string(), "v1.2.0\n".to_string(), "v1.1.0".to_string()];
    assert_eq!(pick_release_tag(&lines, "v"), Some("v1.2.0".to_string()));
    assert_eq!(pick_release_tag(&vec!["junk".to_string()], "v"), None);
}
