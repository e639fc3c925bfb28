use cargo_polylith::errors::WorkspaceError;
use cargo_polylith::strict_bump::ChangeSeverity;
use cargo_polylith::version::{bump_version_checked, compute_bumped_version, parse_bump_level, BumpLevel};

#[test]
fn change_severity_ordering() {
    assert!(ChangeSeverity::Unchanged < ChangeSeverity::TransitivePatch);
    assert!(ChangeSeverity::TransitivePatch < ChangeSeverity::InternalsChanged);
    assert!(ChangeSeverity::InternalsChanged < ChangeSeverity::InterfaceChanged);
}

#[test]
fn change_severity_max_is_worst_wins() {
    let severities = vec![ChangeSeverity::Unchanged, ChangeSeverity::InternalsChanged, ChangeSeverity::TransitivePatch];
    let worst = severities.into_iter().max().unwrap();
    assert_eq!(worst, ChangeSeverity::InternalsChanged);
}

#[test]
fn bump_level_from_str_major() {
    assert_eq!("major".parse::<BumpLevel>().unwrap(), BumpLevel::Major);
}

#[test]
fn bump_level_from_str_minor() {
    assert_eq!("minor".parse::<BumpLevel>().unwrap(), BumpLevel::Minor);
}

#[test]
fn bump_level_from_str_patch() {
    assert_eq!("patch".parse::<BumpLevel>().unwrap(), BumpLevel::Patch);
}

#[test]
fn bump_level_from_str_unknown_errors() {
    let err = "micro".parse::<BumpLevel>().unwrap_err();
    assert!(err.contains("unknown bump level"), "unexpected error: {err}");
    assert!(err.contains("micro"), "unexpected error: {err}");
}

#[test]
fn compute_bumped_version_patch() {
    let v = compute_bumped_version("0.1.0", BumpLevel::Patch).unwrap();
    assert_eq!(v.to_string(), "0.1.1");
}

#[test]
fn compute_bumped_version_minor() {
    let v = compute_bumped_version("0.1.5", BumpLevel::Minor).unwrap();
    assert_eq!(v.to_string(), "0.2.0");
}

#[test]
fn compute_bumped_version_major() {
    let v = compute_bumped_version("0.9.3", BumpLevel::Major).unwrap();
    assert_eq!(v.to_string(), "1.0.0");
}

#[test]
fn compute_bumped_version_clears_prerelease() {
    let v = compute_bumped_version("1.0.0-alpha.1", BumpLevel::Patch).unwrap();
    assert_eq!(v.to_string(), "1.0.1");
}

#[test]
fn compute_bumped_version_invalid_semver_errors() {
    let err = compute_bumped_version("not-a-version", BumpLevel::Patch).unwrap_err();
    assert!(matches!(err, WorkspaceError::Other(_)), "expected Other variant");
}

#[test]
fn unknown_level_message_is_exact() {
    assert_eq!(
        parse_bump_level("micro").unwrap_err(),
        "unknown bump level 'micro' (expected 'major', 'minor', or 'patch')"
    );
}

#[test]
fn bump_keeps_build_metadata() {
    let v = compute_bumped_version("1.2.3-rc.1+build.7", BumpLevel::Minor).unwrap();
    assert_eq!(v.to_string(), "1.3.0+build.7");
}

#[test]
fn invalid_version_message_names_input() {
    match compute_bumped_version("1.0", BumpLevel::Patch) {
        Err(WorkspaceError::Other(m)) => assert!(m.starts_with("invalid version '1.0': "), "{m}"),
        _ => panic!("expected an error"),
    }
}

#[test]
fn checked_bump_refuses_overflow() {
    assert!(bump_version_checked("18446744073709551615.0.0", BumpLevel::Major).is_none());
    assert!(matches!(bump_version_checked("1.2.3", BumpLevel::Major), Some(Ok(_))));
}

#[test]
fn severity_names_and_levels() {
    assert_eq!(ChangeSeverity::InternalsChanged.as_str(), "internals-changed");
    assert_eq!(ChangeSeverity::Unchanged.to_bump_level(), None);
    assert_eq!(ChangeSeverity::InterfaceChanged.to_bump_level(), Some(BumpLevel::Major));
    assert_eq!(ChangeSeverity::TransitivePatch.to_bump_level(), Some(BumpLevel::Patch));
}

