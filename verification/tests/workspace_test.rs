use std::path::PathBuf;

use cargo_polylith::check::{
    check_profile, is_warning_kind, member_covers, run_checks, CheckFacts, ImplPathStatus, Violation, ViolationKind,
};
use cargo_polylith::model::{
    classify_dep, Brick, BrickKind, DepKind, ExternalDepInfo, PolylithToml, Profile, Project, VersioningPolicy,
    WorkspaceMap,
};
use cargo_polylith::status::{run_status, StatusFacts};
use cargo_polylith::strict_bump::{compute_project_recommendations, BrickChangeReport, ChangeSeverity};
use cargo_polylith::strmap::StrMap;
use cargo_polylith::version::BumpLevel;

fn brick(name: &str, kind: BrickKind, deps: &[&str], iface: Option<&str>) -> Brick {
    let dir = match kind {
        BrickKind::Component => "components",
        BrickKind::Base => "bases",
    };
    Brick {
        name: name.to_string(),
        kind,
        path: PathBuf::from(format!("/ws/{dir}/{name}")),
        deps: deps.iter().map(|d| d.to_string()).collect(),
        manifest_path: PathBuf::from(format!("/ws/{dir}/{name}/Cargo.toml")),
        interface: iface.map(|s| s.to_string()),
        path_dep_keys: vec![],
        hardwired_pkg_deps: vec![],
    }
}

fn project(name: &str, deps: &[&str]) -> Project {
    Project {
        name: name.to_string(),
        path: PathBuf::from(format!("/ws/projects/{name}")),
        deps: deps.iter().map(|d| d.to_string()).collect(),
        has_own_workspace: false,
        bin_name: None,
        dep_paths: vec![],
        external_deps: StrMap::new(),
        hardwired_pkg_deps: vec![],
    }
}

fn workspace(components: Vec<Brick>, bases: Vec<Brick>, projects: Vec<Project>) -> WorkspaceMap {
    let mut map = WorkspaceMap {
        root: PathBuf::from("/ws"),
        components,
        bases,
        projects,
        root_members: vec![],
        is_workspace: true,
        root_workspace_deps: StrMap::new(),
        root_workspace_interface_deps: StrMap::new(),
        polylith_toml: None,
        root_package_meta: None,
        component_by_name: StrMap::new(),
        component_by_interface: StrMap::new(),
        base_by_name: StrMap::new(),
    };
    map.rebuild_indexes();
    map
}

fn clean_facts(map: &WorkspaceMap) -> CheckFacts {
    let nc = map.components.len();
    let nb = map.bases.len();
    let all: Vec<&Brick> = map.components.iter().chain(map.bases.iter()).collect();
    CheckFacts {
        component_lib_rs: vec![Some("pub fn f() {}\n".to_string()); nc],
        component_impl_file: vec![true; nc],
        base_lib_rs: vec![true; nb],
        base_main_rs: vec![false; nb],
        brick_rel: all
            .iter()
            .map(|b| match b.kind {
                BrickKind::Component => format!("components/{}", b.name),
                BrickKind::Base => format!("bases/{}", b.name),
            })
            .collect(),
        brick_display: all.iter().map(|b| b.name.clone()).collect(),
        project_rel: map.projects.iter().map(|p| format!("projects/{}", p.name)).collect(),
        project_test_marker: vec![false; map.projects.len()],
        dep_path_packages: map.projects.iter().map(|_| vec![]).collect(),
        dep_path_display: map.projects.iter().map(|_| vec![]).collect(),
        component_canonical: map.components.iter().map(|c| format!("/ws/components/{}", c.name)).collect(),
        profile_impl_canonical: vec![],
        brick_uses_workspace_version: vec![Some(true); nc + nb],
    }
}

fn kinds(v: &[Violation]) -> Vec<ViolationKind> {
    v.iter().map(|x| x.kind.clone()).collect()
}

fn messages(v: &[Violation]) -> Vec<String> {
    v.iter().map(|x| x.kind.to_string()).collect()
}

#[test]
fn classify_dep_prefers_bases_then_components_then_interfaces() {
    let map = workspace(
        vec![brick("logger", BrickKind::Component, &[], Some("log")), brick("parser", BrickKind::Component, &[], None)],
        vec![brick("cli", BrickKind::Base, &[], None)],
        vec![],
    );
    assert_eq!(classify_dep("logger", &map), DepKind::Interface("log"));
    assert_eq!(classify_dep("parser", &map), DepKind::Interface("parser"));
    assert_eq!(classify_dep("log", &map), DepKind::Interface("log"));
    assert_eq!(classify_dep("cli", &map), DepKind::Base("cli"));
    assert_eq!(classify_dep("nonexistent_crate", &map), DepKind::External);
}

#[test]
fn clean_workspace_has_no_violations() {
    let map = workspace(
        vec![brick("logger", BrickKind::Component, &[], Some("logger"))],
        vec![brick("cli", BrickKind::Base, &["logger"], None)],
        vec![project("app", &["cli"])],
    );
    let facts = clean_facts(&map);
    assert!(run_checks(&map, &vec![], &facts).is_empty());
}

#[test]
fn orphan_and_missing_files_are_reported() {
    let map = workspace(
        vec![brick("used", BrickKind::Component, &["deep"], Some("used")), brick("deep", BrickKind::Component, &[], Some("deep")), brick("lonely", BrickKind::Component, &[], Some("lonely"))],
        vec![brick("cli", BrickKind::Base, &["used"], None)],
        vec![project("app", &["cli"])],
    );
    let mut facts = clean_facts(&map);
    facts.component_lib_rs[2] = None;
    facts.component_impl_file[2] = false;
    facts.base_main_rs[0] = true;
    let v = run_checks(&map, &vec![], &facts);
    assert_eq!(
        kinds(&v),
        vec![
            ViolationKind::MissingLibRs { brick: "lonely".to_string() },
            ViolationKind::MissingImplFile { brick: "lonely".to_string() },
            ViolationKind::OrphanComponent { brick: "lonely".to_string() },
            ViolationKind::BaseHasMainRs { brick: "cli".to_string() },
        ]
    );
    assert_eq!(messages(&v)[0], "component 'lonely': src/lib.rs is missing");
    assert_eq!(messages(&v)[1], "component 'lonely': src/lonely.rs is missing");
    assert!(!is_warning_kind(&v[0].kind));
    assert!(is_warning_kind(&v[2].kind));
}

#[test]
fn interface_alias_and_profile_selection_count_as_use() {
    let map = workspace(
        vec![brick("store-mem", BrickKind::Component, &[], Some("store")), brick("store-pg", BrickKind::Component, &[], Some("store"))],
        vec![brick("cli", BrickKind::Base, &[], None)],
        vec![project("app", &["cli"])],
    );
    let mut facts = clean_facts(&map);
    let v = run_checks(&map, &vec![], &facts);
    assert!(kinds(&v).contains(&ViolationKind::OrphanComponent { brick: "store-pg".to_string() }));
    assert!(kinds(&v).contains(&ViolationKind::AmbiguousInterface {
        interface: "store".to_string(),
        impls: vec!["store-mem".to_string(), "store-pg".to_string()],
    }));
    // A profile selecting store-pg makes it used.
    facts.profile_impl_canonical = vec![vec!["/ws/components/store-pg".to_string()]];
    let profile = Profile { name: "prod".to_string(), path: PathBuf::from("/ws/profiles/prod.profile"), implementations: StrMap::new(), libraries: StrMap::new() };
    let v = run_checks(&map, &vec![profile], &facts);
    assert!(!kinds(&v).contains(&ViolationKind::OrphanComponent { brick: "store-pg".to_string() }));
    assert!(kinds(&v).contains(&ViolationKind::OrphanComponent { brick: "store-mem".to_string() }));
}

#[test]
fn wildcard_duplicate_and_membership_checks() {
    let mut map = workspace(
        vec![brick("my-comp", BrickKind::Component, &[], None), brick("dup", BrickKind::Component, &[], Some("dup"))],
        vec![brick("dup", BrickKind::Base, &["my-comp", "dup"], None)],
        vec![project("app", &[])],
    );
    map.root_members = vec!["components/*".to_string()];
    let mut facts = clean_facts(&map);
    facts.component_lib_rs[0] = Some("mod my_comp;\npub use my_comp::*;\n".to_string());
    let v = run_checks(&map, &vec![], &facts);
    let k = kinds(&v);
    assert!(k.contains(&ViolationKind::WildcardReExport { brick: "my-comp".to_string(), rust_name: "my_comp".to_string() }));
    assert!(k.contains(&ViolationKind::MissingInterface { brick: "my-comp".to_string() }));
    assert!(k.contains(&ViolationKind::DuplicateName { name: "dup".to_string(), paths: vec!["dup".to_string(), "dup".to_string()] }));
    assert!(k.contains(&ViolationKind::ProjectMissingBase { project: "app".to_string() }));
    assert!(k.contains(&ViolationKind::NotInRootWorkspace {
        brick: "dup".to_string(),
        kind_label: "base".to_string(),
        rel: "bases/dup".to_string(),
    }));
    assert!(k.contains(&ViolationKind::ProjectNotInRootWorkspace { project: "app".to_string(), rel: "projects/app".to_string() }));
}

#[test]
fn drift_and_relaxed_version_checks() {
    let mut app = project("app", &["cli"]);
    app.external_deps.insert(
        "serde".to_string(),
        ExternalDepInfo { features: vec![], version: Some("1.0".to_string()), raw: None },
    );
    let mut map = workspace(vec![], vec![brick("cli", BrickKind::Base, &[], None)], vec![app]);
    map.root_workspace_deps.insert(
        "serde".to_string(),
        ExternalDepInfo { features: vec!["derive".to_string()], version: Some("1.1".to_string()), raw: None },
    );
    map.polylith_toml = Some(PolylithToml {
        schema_version: 1,
        libraries: StrMap::new(),
        profiles: StrMap::new(),
        versioning_policy: Some(VersioningPolicy::Relaxed),
        workspace_version: Some("1.0.0".to_string()),
        tag_prefix: None,
    });
    let mut facts = clean_facts(&map);
    facts.brick_uses_workspace_version[0] = Some(false);
    let v = run_checks(&map, &vec![], &facts);
    let k = kinds(&v);
    assert_eq!(k.len(), 3);
    assert!(matches!(&k[0], ViolationKind::ProjectFeatureDrift { dep, .. } if dep == "serde"));
    assert!(matches!(&k[1], ViolationKind::ProjectVersionDrift { project_version, workspace_version, .. } if project_version == "1.0" && workspace_version == "1.1"));
    assert_eq!(k[2], ViolationKind::BrickNotUsingWorkspaceVersion { brick_name: "cli".to_string() });
}

#[test]
fn member_patterns() {
    assert!(member_covers("components/*", "components/foo"));
    assert!(!member_covers("components/*", "components/foo/bar"));
    assert!(!member_covers("components/*", "bases/foo"));
    assert!(member_covers("components/foo", "components/foo"));
    assert!(!member_covers("components/foo", "components/bar"));
}

#[test]
fn profile_paths_are_checked() {
    let mut imps = StrMap::new();
    imps.insert("store".to_string(), "components/store-pg".to_string());
    imps.insert("log".to_string(), "components/nowhere".to_string());
    imps.insert("cfg".to_string(), "README.md".to_string());
    let profile = Profile { name: "prod".to_string(), path: PathBuf::from("/ws/profiles/prod.profile"), implementations: imps, libraries: StrMap::new() };
    let v = check_profile(&profile, &vec![ImplPathStatus::Component, ImplPathStatus::Missing, ImplPathStatus::NotAComponent]);
    assert_eq!(
        messages(&v),
        vec![
            "profile 'prod': implementation path 'components/nowhere' for interface 'log' does not exist".to_string(),
            "profile 'prod': 'README.md' for interface 'cfg' is not a known workspace component".to_string(),
        ]
    );
}

#[test]
fn ambiguous_interface_message() {
    let k = ViolationKind::AmbiguousInterface { interface: "store".to_string(), impls: vec!["a".to_string(), "b".to_string()] };
    assert_eq!(
        k.to_string(),
        "interface 'store' has 2 implementations (a, b) but none has the default package name — every consumer must explicitly declare which implementation to use (path + package = \"...\")"
    );
    let d = ViolationKind::ProjectFeatureDrift {
        project: "p".to_string(),
        dep: "serde".to_string(),
        project_features: vec!["std".to_string()],
        workspace_features: vec!["std".to_string(), "derive".to_string()],
    };
    assert_eq!(d.to_string(), "project 'p': dep 'serde' standalone build is missing workspace features [\"derive\"]");
}

#[test]
fn status_reports_counts_and_suggestions() {
    let map = workspace(
        vec![brick("used", BrickKind::Component, &[], None), brick("idle", BrickKind::Component, &[], None)],
        vec![brick("cli", BrickKind::Base, &["used"], None)],
        vec![],
    );
    let facts = StatusFacts {
        old_profile_dirs: vec!["dev".to_string()],
        component_lib_rs: vec![Some("pub use used::Thing;\n".to_string()), None],
        base_lib_rs: vec![true],
        base_main_rs: vec![true],
    };
    let r = run_status(&map, &facts);
    assert_eq!(r.confirmed, vec!["components/ (2 crates)".to_string(), "bases/ (1 crates)".to_string(), "1 component(s) use explicit re-exports".to_string()]);
    assert!(r.suggestions[0].contains("profiles/dev") && r.suggestions[0].contains("change-profile dev"));
    assert!(r.suggestions.contains(&"component 'idle' is not used by any base or project".to_string()));
    assert!(r.suggestions.contains(&"component 'idle': src/lib.rs is missing — add a lib.rs with re-exports".to_string()));
    assert_eq!(r.divergences.len(), 1);
    assert_eq!(r.divergences[0].observation, "base 'cli': has src/main.rs");
}

#[test]
fn recommendations_take_the_worst_reachable_change() {
    let map = workspace(
        vec![brick("core", BrickKind::Component, &[], None), brick("net", BrickKind::Component, &["core"], None)],
        vec![brick("cli", BrickKind::Base, &["net"], None)],
        vec![project("app", &["cli"]), project("tool", &[])],
    );
    let mut changes = StrMap::new();
    changes.insert("core".to_string(), BrickChangeReport { severity: ChangeSeverity::InternalsChanged });
    changes.insert("net".to_string(), BrickChangeReport { severity: ChangeSeverity::TransitivePatch });
    changes.insert("cli".to_string(), BrickChangeReport { severity: ChangeSeverity::Unchanged });
    let recs = compute_project_recommendations(&map, &changes, &vec![Some("1.4.2".to_string()), None]);
    assert_eq!(recs[0].worst_severity, ChangeSeverity::InternalsChanged);
    assert_eq!(recs[0].recommended_level, Some(BumpLevel::Minor));
    assert_eq!(recs[0].recommended_version, Some("1.5.0".to_string()));
    assert_eq!(recs[0].changed_bricks, vec!["core".to_string(), "net".to_string()]);
    assert_eq!(recs[1].current_version, "0.0.0");
    assert_eq!(recs[1].recommended_level, None);
    assert_eq!(recs[1].recommended_version, None);
}

#[test]
fn check_test_project_marker_suppresses_no_base() {
    let map = workspace(vec![], vec![brick("cli", BrickKind::Base, &[], None)], vec![project("bdd", &[])]);
    let mut facts = clean_facts(&map);
    facts.project_test_marker[0] = cargo_polylith::manifest::is_test_project(
        "[package]\nname=\"bdd\"\nversion=\"0.1.0\"\nedition=\"2021\"\n[package.metadata.polylith]\ntest-project = true\n",
    );
    assert!(facts.project_test_marker[0]);
    let v = run_checks(&map, &vec![], &facts);
    assert!(!kinds(&v).contains(&ViolationKind::ProjectMissingBase { project: "bdd".to_string() }));
    facts.project_test_marker[0] = false;
    let v = run_checks(&map, &vec![], &facts);
    assert!(kinds(&v).contains(&ViolationKind::ProjectMissingBase { project: "bdd".to_string() }));
}

#[test]
fn profile_impl_path_problems_are_warnings() {
    let missing = ViolationKind::ProfileImplPathNotFound {
        profile: "dev".to_string(),
        interface: "store".to_string(),
        path: "components/gone".to_string(),
    };
    let not_component = ViolationKind::ProfileImplNotAComponent {
        profile: "dev".to_string(),
        interface: "store".to_string(),
        path: "bases/cli".to_string(),
    };
    assert!(is_warning_kind(&missing));
    assert!(is_warning_kind(&not_component));
}
