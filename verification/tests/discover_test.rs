use std::path::PathBuf;

use cargo_polylith::discover::{parse_versioning_policy, resolve_profile_workspace, ProfilePaths};
use cargo_polylith::errors::WorkspaceError;
use cargo_polylith::model::{
    Brick, BrickKind, ExternalDepInfo, Profile, Project, VersioningPolicy, WorkspaceMap, WorkspacePackageMeta,
    WorkspacePathDep,
};
use cargo_polylith::strmap::StrMap;
use cargo_polylith::discover::profile_workspace_manifest;
use cargo_polylith::model::ResolvedProfileWorkspace;

fn component(name: &str, iface: Option<&str>, deps: &[&str]) -> Brick {
    Brick {
        name: name.to_string(),
        kind: BrickKind::Component,
        path: PathBuf::from(format!("/ws/components/{name}")),
        deps: deps.iter().map(|d| d.to_string()).collect(),
        manifest_path: PathBuf::from(format!("/ws/components/{name}/Cargo.toml")),
        interface: iface.map(|s| s.to_string()),
        path_dep_keys: vec![],
        hardwired_pkg_deps: vec![],
    }
}

fn base(name: &str, deps: &[&str]) -> Brick {
    Brick {
        name: name.to_string(),
        kind: BrickKind::Base,
        path: PathBuf::from(format!("/ws/bases/{name}")),
        deps: deps.iter().map(|d| d.to_string()).collect(),
        manifest_path: PathBuf::from(format!("/ws/bases/{name}/Cargo.toml")),
        interface: None,
        path_dep_keys: vec![],
        hardwired_pkg_deps: vec![],
    }
}

fn project(name: &str, deps: &[&str]) -> Project {
    Project {
        name: name.to_string(),
        path: PathBuf::from(format!("/ws/projects/{name}")),
        deps: deps.iter().map(|d| d.to_string()).collect(),
        has_own_workspace: false,
        bin_name: None,
        dep_paths: vec![],
        external_deps: StrMap::new(),
        hardwired_pkg_deps: vec![],
    }
}

fn map_of(components: Vec<Brick>, bases: Vec<Brick>, projects: Vec<Project>) -> WorkspaceMap {
    let mut map = WorkspaceMap {
        root: PathBuf::from("/ws"),
        components,
        bases,
        projects,
        root_members: vec![],
        is_workspace: true,
        root_workspace_deps: StrMap::new(),
        root_workspace_interface_deps: StrMap::new(),
        polylith_toml: None,
        root_package_meta: None,
        component_by_name: StrMap::new(),
        component_by_interface: StrMap::new(),
        base_by_name: StrMap::new(),
    };
    map.rebuild_indexes();
    map
}

/// The paths the caller gathers for a workspace rooted at `/ws`.
fn paths_for(map: &WorkspaceMap, profile: &Profile) -> ProfilePaths {
    let mut impl_paths = StrMap::new();
    for i in 0..profile.implementations.len() {
        let k = profile.implementations.key_at(i).clone();
        let v = profile.implementations.value_at(i).clone();
        impl_paths.insert(k, v);
    }
    let mut root_dep_paths = StrMap::new();
    for i in 0..map.root_workspace_interface_deps.len() {
        let k = map.root_workspace_interface_deps.key_at(i).clone();
        let v = map.root_workspace_interface_deps.value_at(i).path.clone();
        root_dep_paths.insert(k, v);
    }
    ProfilePaths {
        component_rel: map.components.iter().map(|c| Some(format!("components/{}", c.name))).collect(),
        component_member: map.components.iter().map(|c| format!("components/{}", c.name)).collect(),
        base_member: map.bases.iter().map(|b| format!("bases/{}", b.name)).collect(),
        project_member: map.projects.iter().map(|p| format!("projects/{}", p.name)).collect(),
        impl_paths,
        root_dep_paths,
    }
}

fn profile(name: &str, impls: &[(&str, &str)]) -> Profile {
    let mut implementations = StrMap::new();
    for (k, v) in impls {
        implementations.insert(k.to_string(), v.to_string());
    }
    Profile {
        name: name.to_string(),
        path: PathBuf::from(format!("/ws/profiles/{name}.profile")),
        implementations,
        libraries: StrMap::new(),
    }
}

#[test]
fn resolve_profile_workspace_excludes_unselected_implementation() {
    let store_mem = component("store_mem", Some("store"), &[]);
    let store_file = component("store_file", Some("store"), &[]);
    let app_base = base("app", &["store"]);
    let mut map = map_of(vec![store_file, store_mem], vec![app_base], vec![project("myproject", &[])]);
    map.root_workspace_interface_deps.insert(
        "store".to_string(),
        WorkspacePathDep { path: "components/store_mem".to_string(), package: None },
    );
    let profile = profile("file", &[("store", "components/store_file")]);
    let paths = paths_for(&map, &profile);
    let resolved = resolve_profile_workspace(&profile, &map, &paths);
    assert!(resolved.members.iter().any(|m| m.contains("store_file")), "store_file missing from members");
    assert!(!resolved.members.iter().any(|m| m.contains("store_mem")), "store_mem should be excluded");
}

#[test]
fn resolved_profile_lists_members_and_dependency_lines() {
    let mut map = map_of(
        vec![
            component("log_stdout", Some("log"), &[]),
            component("store_mem", Some("store"), &["log"]),
            component("store_file", Some("store"), &["log"]),
            component("unused", None, &[]),
        ],
        vec![base("app", &["store", "serde"])],
        vec![project("cli", &["app"])],
    );
    map.root_workspace_interface_deps.insert(
        "store".to_string(),
        WorkspacePathDep { path: "components/store_mem".to_string(), package: None },
    );
    map.root_workspace_interface_deps.insert(
        "log".to_string(),
        WorkspacePathDep { path: "components/log_stdout".to_string(), package: Some("log_stdout".to_string()) },
    );
    map.root_workspace_deps.insert(
        "serde".to_string(),
        ExternalDepInfo { features: vec!["derive".to_string()], version: Some("1".to_string()), raw: None },
    );
    map.root_workspace_deps.insert(
        "anyhow".to_string(),
        ExternalDepInfo { features: vec![], version: Some("1.0".to_string()), raw: None },
    );
    map.root_workspace_deps.insert(
        "local".to_string(),
        ExternalDepInfo { features: vec![], version: None, raw: None },
    );
    map.root_package_meta = Some(WorkspacePackageMeta {
        version: Some("0.3.0".to_string()),
        edition: Some("2021".to_string()),
        authors: Some(vec!["A".to_string()]),
        license: None,
        repository: None,
    });
    let mut profile = profile("file", &[("store", "components/store_file")]);
    profile.libraries.insert(
        "serde".to_string(),
        ExternalDepInfo { features: vec!["derive".to_string(), "rc".to_string()], version: None, raw: None },
    );
    let paths = paths_for(&map, &profile);
    let resolved = resolve_profile_workspace(&profile, &map, &paths);
    assert_eq!(resolved.profile_name, "file");
    assert_eq!(
        resolved.members,
        vec!["components/log_stdout", "components/store_file", "bases/app", "projects/cli"]
    );
    assert_eq!(
        resolved.interface_dep_lines,
        vec![
            "log = { path = \"components/log_stdout\", package = \"log_stdout\" }",
            "store = { path = \"components/store_file\", package = \"store_file\" }",
        ]
    );
    assert_eq!(
        resolved.library_dep_lines,
        vec!["anyhow = \"1.0\"", "serde = { features = [\"derive\", \"rc\"] }"]
    );
    let meta = resolved.workspace_package.expect("metadata carried over");
    assert_eq!(meta.version.as_deref(), Some("0.3.0"));
    assert_eq!(meta.authors, Some(vec!["A".to_string()]));
}

#[test]
fn profile_implementation_outside_components_keeps_the_key_as_package() {
    let map = map_of(vec![component("a", None, &[])], vec![base("b", &["a"])], vec![]);
    let profile = profile("p", &[("x", "vendor/x")]);
    let paths = paths_for(&map, &profile);
    let resolved = resolve_profile_workspace(&profile, &map, &paths);
    assert_eq!(resolved.interface_dep_lines, vec!["x = { path = \"vendor/x\" }"]);
    assert_eq!(resolved.members, vec!["components/a", "bases/b"]);
}

#[test]
fn versioning_policy_words() {
    assert_eq!(parse_versioning_policy("relaxed").ok(), Some(VersioningPolicy::Relaxed));
    assert_eq!(parse_versioning_policy("strict").ok(), Some(VersioningPolicy::Strict));
    match parse_versioning_policy("experimental") {
        Err(WorkspaceError::Other(m)) => assert!(m.contains("experimental")),
        _ => panic!("expected an error naming the value"),
    }
}

#[test]
fn profile_workspace_manifest_lists_members_metadata_and_dependencies() {
    let resolved = ResolvedProfileWorkspace {
        profile_name: "dev".to_string(),
        members: vec!["components/a".to_string(), "bases/b".to_string()],
        interface_dep_lines: vec!["a = { path = \"components/a\" }".to_string()],
        library_dep_lines: vec!["serde = \"1\"".to_string()],
        workspace_package: Some(WorkspacePackageMeta {
            version: Some("0.1.0".to_string()),
            edition: None,
            authors: Some(vec![]),
            license: Some("MIT".to_string()),
            repository: None,
        }),
    };
    assert_eq!(
        profile_workspace_manifest(&resolved),
        "# GENERATED BY cargo-polylith -- DO NOT EDIT\n# Source: profiles/dev.profile\n\n[workspace]\nmembers = [\n    \"components/a\",\n    \"bases/b\"\n]\nresolver = \"2\"\n\n[workspace.package]\nversion = \"0.1.0\"\nlicense = \"MIT\"\n\n[workspace.dependencies]\na = { path = \"components/a\" }\nserde = \"1\"\n"
    );
    let bare = ResolvedProfileWorkspace {
        profile_name: "p".to_string(),
        members: vec![],
        interface_dep_lines: vec![],
        library_dep_lines: vec![],
        workspace_package: None,
    };
    assert_eq!(
        profile_workspace_manifest(&bare),
        "# GENERATED BY cargo-polylith -- DO NOT EDIT\n# Source: profiles/p.profile\n\n[workspace]\nmembers = [\n\n]\nresolver = \"2\"\n"
    );
}
