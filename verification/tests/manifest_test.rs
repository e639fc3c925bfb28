use std::path::PathBuf;

use cargo_polylith::errors::WorkspaceError;
use cargo_polylith::manifest::{
    brick_from_manifest, bricks_from_manifests, collect_root_interface_deps, extract_version_from_cargo_toml_content,
    interface_path_deps, plan_root_demotion, polylith_from_text, profile_from_text, profiles_from_files,
    project_from_manifest, projects_from_manifests, read_root_package_meta, root_has_workspace_package,
    uses_workspace_version, workspace_map_from, ManifestEntry, ProfileFile, RootManifest, WorkspaceDep,
};
use cargo_polylith::model::{BrickKind, VersioningPolicy};
use cargo_polylith::manifest::{inheritance_edits, package_move_summary, read_polylith_workspace_package, InheritanceEdit};
use cargo_polylith::model::WorkspacePackageMeta;

fn entry(dir: &str, text: &str) -> ManifestEntry {
    ManifestEntry {
        dir_name: dir.to_string(),
        path: PathBuf::from(format!("/ws/x/{dir}")),
        manifest_path: PathBuf::from(format!("/ws/x/{dir}/Cargo.toml")),
        text: text.to_string(),
    }
}

#[test]
fn extract_version_standard_cargo_toml() {
    let content = r#"
[package]
name = "my-crate"
version = "1.2.3"
edition = "2021"
"#;
    assert_eq!(extract_version_from_cargo_toml_content(content), Some("1.2.3".to_string()));
}

#[test]
fn extract_version_no_version_field() {
    let content = r#"
[package]
name = "my-crate"
edition = "2021"
"#;
    assert_eq!(extract_version_from_cargo_toml_content(content), None);
}

#[test]
fn extract_version_invalid_toml() {
    let content = "this is not valid toml :::";
    assert_eq!(extract_version_from_cargo_toml_content(content), None);
}

#[test]
fn extract_version_workspace_inherited() {
    let content = r#"
[package]
name = "my-crate"
version.workspace = true
"#;
    assert_eq!(extract_version_from_cargo_toml_content(content), None);
}

#[test]
fn parse_polylith_toml_no_versioning_section() {
    let result = polylith_from_text(PathBuf::from("Polylith.toml"), "[workspace]\nschema_version = 1\n").unwrap();
    assert!(result.versioning_policy.is_none());
    assert!(result.workspace_version.is_none());
}

#[test]
fn parse_polylith_toml_relaxed_policy() {
    let text = "[workspace]\nschema_version = 1\n\n[versioning]\npolicy = \"relaxed\"\nversion = \"1.0.0\"\n";
    let result = polylith_from_text(PathBuf::from("Polylith.toml"), text).unwrap();
    assert_eq!(result.versioning_policy, Some(VersioningPolicy::Relaxed));
    assert_eq!(result.workspace_version.as_deref(), Some("1.0.0"));
}

#[test]
fn parse_polylith_toml_strict_policy() {
    let text = "[workspace]\nschema_version = 1\n\n[versioning]\npolicy = \"strict\"\nversion = \"2.3.4\"\n";
    let result = polylith_from_text(PathBuf::from("Polylith.toml"), text).unwrap();
    assert_eq!(result.versioning_policy, Some(VersioningPolicy::Strict));
    assert_eq!(result.workspace_version.as_deref(), Some("2.3.4"));
}

#[test]
fn parse_polylith_toml_unknown_policy() {
    let text = "[workspace]\nschema_version = 1\n\n[versioning]\npolicy = \"experimental\"\n";
    let result = polylith_from_text(PathBuf::from("Polylith.toml"), text);
    assert!(result.is_err(), "expected error for unknown policy");
    match result {
        Err(WorkspaceError::Other(m)) => {
            assert!(m.contains("experimental"), "error should mention the unknown value: {m}");
            assert_eq!(m, "unknown versioning policy 'experimental' in Polylith.toml (expected 'relaxed' or 'strict')");
        }
        _ => panic!("expected an error naming the policy"),
    }
}

#[test]
fn parse_polylith_toml_version_without_policy() {
    let text = "[workspace]\nschema_version = 1\n\n[versioning]\nversion = \"0.5.0\"\n";
    let result = polylith_from_text(PathBuf::from("Polylith.toml"), text).unwrap();
    assert!(result.versioning_policy.is_none());
    assert_eq!(result.workspace_version.as_deref(), Some("0.5.0"));
}

#[test]
fn polylith_toml_libraries_profiles_and_schema() {
    let text = r#"
[workspace]
schema_version = 2

[libraries]
serde = { version = "1", features = ["derive", "alloc"] }
anyhow = "1.0"
local = { path = "../local" }
anything = "*"

[profiles]
dev = "profiles/dev.profile"

[versioning]
policy = "relaxed"
version = "0.3.0"
tag_prefix = "v"
"#;
    let p = polylith_from_text(PathBuf::from("Polylith.toml"), text).unwrap();
    assert_eq!(p.schema_version, 2);
    assert_eq!(p.libraries.len(), 3);
    let serde = p.libraries.get("serde").unwrap();
    assert_eq!(serde.features, vec!["alloc".to_string(), "derive".to_string()]);
    assert_eq!(serde.version.as_deref(), Some("1"));
    assert_eq!(serde.raw.as_deref(), Some("{ version = \"1\", features = [\"derive\", \"alloc\"] }"));
    let anyhow = p.libraries.get("anyhow").unwrap();
    assert_eq!(anyhow.version.as_deref(), Some("1.0"));
    assert_eq!(anyhow.raw.as_deref(), Some("\"1.0\""));
    assert!(p.libraries.get("local").is_none());
    assert_eq!(p.libraries.get("anything").unwrap().version, None);
    assert_eq!(p.profiles.get("dev").map(|s| s.as_str()), Some("profiles/dev.profile"));
    assert_eq!(p.tag_prefix.as_deref(), Some("v"));
}

#[test]
fn polylith_toml_that_does_not_parse_is_a_parse_error() {
    let r = polylith_from_text(PathBuf::from("/ws/Polylith.toml"), "[workspace\n");
    match r {
        Err(WorkspaceError::TomlParse { path, source }) => {
            assert_eq!(path, PathBuf::from("/ws/Polylith.toml"));
            assert!(!source.is_empty());
        }
        _ => panic!("expected a parse error"),
    }
}

#[test]
fn brick_reads_name_deps_interface_and_path_deps() {
    let text = r#"
[package]
name = "user-store"
version = "0.1.0"

[package.metadata.polylith]
interface = "user"

[dependencies]
serde = "1"
log_api = { path = "../log", package = "log-impl" }
shared = { path = "../shared", workspace = true }
cache = { path = "../cache" }

[dev-dependencies]
my-helper = { version = "1", package = "my_helper" }
"#;
    let b = brick_from_manifest(
        BrickKind::Component,
        PathBuf::from("/ws/components/user_store"),
        PathBuf::from("/ws/components/user_store/Cargo.toml"),
        "user_store",
        text,
    )
    .unwrap();
    assert_eq!(b.name, "user-store");
    assert_eq!(b.kind, BrickKind::Component);
    assert_eq!(b.deps, vec!["serde", "log_api", "shared", "cache"]);
    assert_eq!(b.interface.as_deref(), Some("user"));
    assert_eq!(b.path_dep_keys, vec!["log_api", "cache"]);
    assert_eq!(b.hardwired_pkg_deps, vec![("log_api".to_string(), "log-impl".to_string())]);
}

#[test]
fn brick_name_falls_back_to_directory() {
    let b = brick_from_manifest(
        BrickKind::Base,
        PathBuf::from("/ws/bases/api"),
        PathBuf::from("/ws/bases/api/Cargo.toml"),
        "api",
        "[dependencies]\n",
    )
    .unwrap();
    assert_eq!(b.name, "api");
    assert!(b.deps.is_empty());
    assert!(b.interface.is_none());
}

#[test]
fn brick_manifest_that_does_not_parse_is_an_error() {
    let r = brick_from_manifest(
        BrickKind::Base,
        PathBuf::from("/ws/bases/api"),
        PathBuf::from("/ws/bases/api/Cargo.toml"),
        "api",
        "[package\nname = ",
    );
    match r {
        Err(WorkspaceError::TomlParse { path, .. }) => assert_eq!(path, PathBuf::from("/ws/bases/api/Cargo.toml")),
        _ => panic!("expected a parse error"),
    }
}

#[test]
fn components_are_sorted_by_name() {
    let entries = vec![
        entry("zeta", "[package]\nname = \"zeta\"\n"),
        entry("alpha", "[package]\nname = \"alpha\"\n"),
        entry("mid", "[package]\nname = \"mid\"\n"),
    ];
    let bricks = bricks_from_manifests(BrickKind::Component, entries).unwrap();
    let names: Vec<&str> = bricks.iter().map(|b| b.name.as_str()).collect();
    assert_eq!(names, vec!["alpha", "mid", "zeta"]);
    assert_eq!(bricks[0].path, PathBuf::from("/ws/x/alpha"));
}

#[test]
fn first_unparsable_brick_manifest_is_the_error() {
    let entries = vec![entry("good", "[package]\nname = \"good\"\n"), entry("bad", "[[["), entry("worse", "]")];
    match bricks_from_manifests(BrickKind::Base, entries) {
        Err(WorkspaceError::TomlParse { path, .. }) => assert_eq!(path, PathBuf::from("/ws/x/bad/Cargo.toml")),
        _ => panic!("expected a parse error"),
    }
}

#[test]
fn project_reads_packages_paths_and_registry_deps() {
    let text = r#"
[package]
name = "server"

[[bin]]
name = "server-bin"

[dependencies]
user = { path = "../../components/user_store", package = "user-store" }
api = { path = "../../bases/api" }
tokio = { version = "1.2", features = ["rt", "macros"] }
serde = { workspace = true }
also_user = { path = "../../components/user_store", package = "user-store" }
rand = "*"
"#;
    let p = project_from_manifest(PathBuf::from("/ws/projects/server"), "server", text).unwrap();
    assert_eq!(p.name, "server");
    assert_eq!(p.deps, vec!["user-store", "api", "tokio", "serde", "rand"]);
    let keys: Vec<&str> = p.dep_paths.iter().map(|(k, _)| k.as_str()).collect();
    assert_eq!(keys, vec!["api"]);
    assert_eq!(p.dep_paths[0].1, PathBuf::from("/ws/projects/server/../../bases/api"));
    assert_eq!(p.external_deps.len(), 2);
    let tokio = p.external_deps.get("tokio").unwrap();
    assert_eq!(tokio.features, vec!["macros".to_string(), "rt".to_string()]);
    assert_eq!(tokio.version.as_deref(), Some("1.2"));
    assert_eq!(tokio.raw, None);
    assert_eq!(p.external_deps.get("rand").unwrap().version, None);
    assert_eq!(p.bin_name.as_deref(), Some("server-bin"));
    assert!(!p.has_own_workspace);
    assert_eq!(
        p.hardwired_pkg_deps,
        vec![
            ("user".to_string(), "user-store".to_string()),
            ("also_user".to_string(), "user-store".to_string())
        ]
    );
}

#[test]
fn project_with_own_workspace_is_detected() {
    let p = project_from_manifest(PathBuf::from("/ws/projects/p"), "p", "[package]\nname = \"p\"\n[workspace]\n").unwrap();
    assert!(p.has_own_workspace);
    assert!(p.bin_name.is_none());
}

#[test]
fn unparsable_project_manifests_are_skipped_and_listed() {
    let entries = vec![entry("b", "[package]\nname = \"b\"\n"), entry("broken", "[oops"), entry("a", "")];
    let (projects, skipped) = projects_from_manifests(entries);
    let names: Vec<&str> = projects.iter().map(|p| p.name.as_str()).collect();
    assert_eq!(names, vec!["a", "b"]);
    assert_eq!(skipped.len(), 1);
    assert_eq!(skipped[0].0, PathBuf::from("/ws/x/broken/Cargo.toml"));
}

#[test]
fn profile_reads_implementations_and_libraries() {
    let text = r#"
[implementations]
storage = "components/storage_pg"
bogus = 3

[libraries]
tokio = { version = "1", features = ["full"] }
"#;
    let p = profile_from_text("dev".to_string(), PathBuf::from("/ws/profiles/dev.profile"), text).unwrap();
    assert_eq!(p.name, "dev");
    assert_eq!(p.implementations.len(), 1);
    assert_eq!(p.implementations.get("storage").map(|s| s.as_str()), Some("components/storage_pg"));
    let tokio = p.libraries.get("tokio").unwrap();
    assert_eq!(tokio.version.as_deref(), Some("1"));
    assert_eq!(tokio.features, vec!["full".to_string()]);
}

#[test]
fn profiles_are_sorted_by_name() {
    let files = vec![
        ProfileFile { name: "prod".to_string(), path: PathBuf::from("/p/prod.profile"), text: String::new() },
        ProfileFile { name: "dev".to_string(), path: PathBuf::from("/p/dev.profile"), text: String::new() },
    ];
    let ps = profiles_from_files(files).unwrap();
    let names: Vec<&str> = ps.iter().map(|p| p.name.as_str()).collect();
    assert_eq!(names, vec!["dev", "prod"]);
}

#[test]
fn root_package_meta_prefers_package_then_workspace_package() {
    let meta = read_root_package_meta("[package]\nname = \"x\"\nversion = \"1.0.0\"\nauthors = [\"A\"]\n")
        .unwrap()
        .unwrap();
    assert_eq!(meta.version.as_deref(), Some("1.0.0"));
    assert_eq!(meta.authors, Some(vec!["A".to_string()]));
    let ws = read_root_package_meta("[workspace.package]\nedition = \"2021\"\n").unwrap().unwrap();
    assert_eq!(ws.edition.as_deref(), Some("2021"));
    assert!(read_root_package_meta("[workspace]\nmembers = []\n").unwrap().is_none());
    assert!(read_root_package_meta("[package]\nname = \"x\"\n").unwrap().is_none());
    assert!(read_root_package_meta("= broken").is_err());
}

#[test]
fn interface_path_deps_keep_path_and_package() {
    let text = r#"
[workspace.dependencies]
storage = { path = "components/storage_pg", package = "storage-pg" }
log = { path = "components/log" }
serde = "1"
"#;
    let deps = interface_path_deps(text);
    assert_eq!(deps.len(), 2);
    let storage = deps.get("storage").unwrap();
    assert_eq!(storage.path, "components/storage_pg");
    assert_eq!(storage.package.as_deref(), Some("storage-pg"));
    assert!(deps.get("log").unwrap().package.is_none());
    assert!(collect_root_interface_deps(PathBuf::from("/ws/Cargo.toml"), "[[").is_err());
    assert_eq!(interface_path_deps("[[").len(), 0);
}

#[test]
fn root_demotion_plan_reads_metadata_libraries_and_profiles() {
    let text = r#"
[workspace]
members = ["components/*"]

[workspace.package]
version = "0.2.0"
license = "MIT"

[workspace.dependencies]
serde = { version = "1", features = ["derive"] }
storage = { path = "components/storage" }
"#;
    let plan = plan_root_demotion(text, &vec!["dev".to_string(), "prod".to_string()]).unwrap();
    let meta = plan.workspace_package.unwrap();
    assert_eq!(meta.version.as_deref(), Some("0.2.0"));
    assert_eq!(meta.license.as_deref(), Some("MIT"));
    assert_eq!(plan.libraries.len(), 1);
    assert_eq!(plan.libraries.get("serde").unwrap().raw.as_deref(), Some("{ version = \"1\", features = [\"derive\"] }"));
    assert_eq!(plan.profiles.get("prod").map(|s| s.as_str()), Some("profiles/prod.profile"));
}

#[test]
fn workspace_version_use_is_read_from_inline_table_only() {
    assert_eq!(uses_workspace_version("[package]\nversion = { workspace = true }\n"), Some(true));
    assert_eq!(uses_workspace_version("[package]\nversion = \"1.0.0\"\n"), Some(false));
    assert_eq!(uses_workspace_version("[package]\nversion.workspace = true\n"), Some(false));
    assert_eq!(uses_workspace_version("[package"), None);
}

#[test]
fn workspace_package_table_is_detected() {
    assert_eq!(root_has_workspace_package("[workspace.package]\nversion = \"1.0.0\"\n"), Ok(true));
    assert_eq!(root_has_workspace_package("[workspace]\n"), Ok(false));
    assert!(root_has_workspace_package("[workspace").is_err());
}

#[test]
fn workspace_map_prefers_polylith_libraries_and_builds_indexes() {
    let comps = bricks_from_manifests(
        BrickKind::Component,
        vec![entry("b", "[package]\nname = \"b\"\n[package.metadata.polylith]\ninterface = \"bee\"\n"), entry("a", "")],
    )
    .unwrap();
    let root = RootManifest {
        is_workspace: false,
        members: vec!["components/*".to_string()],
        deps: vec![
            WorkspaceDep {
                key: "serde".to_string(),
                path: None,
                version: None,
                req: "1".to_string(),
                features: vec!["z".to_string(), "a".to_string()],
            },
            WorkspaceDep {
                key: "local".to_string(),
                path: Some("components/a".to_string()),
                version: None,
                req: "*".to_string(),
                features: vec![],
            },
        ],
        text: "[workspace.dependencies]\nlocal = { path = \"components/a\" }\n".to_string(),
    };
    let map = workspace_map_from(PathBuf::from("/ws"), comps, vec![], vec![], Some(root), None, None);
    assert!(!map.is_workspace);
    assert_eq!(map.root_members, vec!["components/*".to_string()]);
    assert_eq!(map.root_workspace_deps.len(), 1);
    let serde = map.root_workspace_deps.get("serde").unwrap();
    assert_eq!(serde.features, vec!["a".to_string(), "z".to_string()]);
    assert_eq!(serde.version.as_deref(), Some("1"));
    assert_eq!(map.root_workspace_interface_deps.get("local").map(|d| d.path.as_str()), Some("components/a"));
    assert_eq!(map.component_by_name.get("a").copied(), Some(0));
    assert_eq!(map.component_by_interface.get("bee").copied(), Some(1));

    let polylith = polylith_from_text(PathBuf::from("Polylith.toml"), "[libraries]\ntokio = \"1\"\n").unwrap();
    let map2 = workspace_map_from(PathBuf::from("/ws"), vec![], vec![], vec![], None, Some(polylith), None);
    assert!(map2.is_workspace);
    assert_eq!(map2.root_workspace_deps.len(), 1);
    assert!(map2.root_workspace_deps.get("tokio").is_some());
}

#[test]
fn read_polylith_workspace_package_returns_none_when_section_absent() {
    let polylith_content = "[workspace]\nname = \"my-ws\"\n";
    let result = read_polylith_workspace_package(polylith_content).expect("expected Ok, got Err");
    assert!(result.is_none(), "expected None when [workspace.package] is absent, got: {result:?}");
}

#[test]
fn polylith_workspace_package_is_read_whole() {
    let text = "[workspace.package]\nversion = \"2.0.0\"\nauthors = []\n";
    let meta = read_polylith_workspace_package(text).unwrap().unwrap();
    assert_eq!(meta.version.as_deref(), Some("2.0.0"));
    assert_eq!(meta.authors, Some(vec![]));
    assert!(meta.license.is_none());
}

#[test]
fn moving_package_metadata_reports_the_fields() {
    let meta = WorkspacePackageMeta {
        version: Some("1.0.0".to_string()),
        edition: None,
        authors: Some(vec![]),
        license: Some("MIT".to_string()),
        repository: None,
    };
    assert_eq!(
        package_move_summary(&meta),
        "Migrated from Polylith.toml [workspace.package] to root Cargo.toml [package]: version = \"1.0.0\", authors = [], license = \"MIT\""
    );
    let empty = WorkspacePackageMeta { version: None, edition: None, authors: None, license: None, repository: None };
    assert_eq!(package_move_summary(&empty), "Polylith.toml [workspace.package] removed; no recognized fields to migrate");
}

#[test]
fn inheritance_is_replaced_from_libraries_and_metadata() {
    let polylith = polylith_from_text(
        PathBuf::from("Polylith.toml"),
        "[libraries]\nserde = { version = \"1\", features = [\"derive\"] }\nanyhow = \"1.0\"\ngitdep = { git = \"https://example.com/x\" }\n",
    )
    .unwrap();
    let meta = WorkspacePackageMeta {
        version: Some("0.4.0".to_string()),
        edition: Some("2021".to_string()),
        authors: Some(vec!["A".to_string()]),
        license: None,
        repository: None,
    };
    let text = r#"
[package]
name = "b"
version = { workspace = true }
edition.workspace = true
license = { workspace = true }
authors = { workspace = true }

[dependencies]
serde = { workspace = true }
anyhow = { workspace = true }
gitdep = { workspace = true }
mystery = { workspace = true }
plain = "2"
"#;
    let edits = inheritance_edits(text, &polylith, Some(&meta)).unwrap();
    assert_eq!(edits.len(), 7);
    assert!(matches!(&edits[0], InheritanceEdit::PackageField { field, value } if field == "version" && value == "0.4.0"));
    assert!(matches!(&edits[1], InheritanceEdit::PackageField { field, value } if field == "edition" && value == "2021"));
    assert!(matches!(&edits[2], InheritanceEdit::Authors { authors } if authors == &vec!["A".to_string()]));
    assert!(matches!(&edits[3], InheritanceEdit::DepTable { table, key, version, features }
        if table == "dependencies" && key == "serde" && version.as_deref() == Some("1") && features == &vec!["derive".to_string()]));
    assert!(matches!(&edits[4], InheritanceEdit::DepVersion { key, version, .. } if key == "anyhow" && version == "1.0"));
    assert!(matches!(&edits[5], InheritanceEdit::DepRaw { key, raw, .. } if key == "gitdep" && raw == "{ git = \"https://example.com/x\" }"));
    assert!(matches!(&edits[6], InheritanceEdit::Warning { message }
        if message == "dep 'mystery' uses workspace = true but is not in Polylith.toml [libraries] or [implementations] — left unchanged"));
    assert!(inheritance_edits("[[", &polylith, None).is_err());
}

#[test]
fn dev_profile_pairs_are_the_interface_wiring_in_key_order() {
    let text = r#"
[workspace.dependencies]
storage = { path = "components/storage_fs" }
auth = { path = "components/auth_jwt", package = "auth-jwt" }
serde = "1"
"#;
    let deps = collect_root_interface_deps(PathBuf::from("/ws/Cargo.toml"), text).unwrap();
    let pairs = cargo_polylith::manifest::dev_profile_pairs(&deps);
    assert_eq!(
        pairs,
        vec![
            ("auth".to_string(), "components/auth_jwt".to_string()),
            ("storage".to_string(), "components/storage_fs".to_string()),
        ]
    );
}

fn dep_key() -> Vec<String> {
    vec!["dep".to_string()]
}

#[test]
fn inline_table_true() {
    assert_eq!(cargo_polylith::manifest::toml_bool("dep = { workspace = true }", &dep_key(), "workspace"), Some(true));
}

#[test]
fn inline_table_false() {
    assert_eq!(cargo_polylith::manifest::toml_bool("dep = { workspace = false }", &dep_key(), "workspace"), Some(false));
}

#[test]
fn inline_table_missing_key() {
    assert_eq!(cargo_polylith::manifest::toml_bool("dep = { version = \"1.0\" }", &dep_key(), "workspace"), None);
}

#[test]
fn regular_table_true() {
    assert_eq!(cargo_polylith::manifest::toml_bool("[dep]\nworkspace = true\n", &dep_key(), "workspace"), Some(true));
}

#[test]
fn regular_table_false() {
    assert_eq!(cargo_polylith::manifest::toml_bool("[dep]\nworkspace = false\n", &dep_key(), "workspace"), Some(false));
}
