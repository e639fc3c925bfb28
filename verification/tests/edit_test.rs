use std::path::PathBuf;

use cargo_polylith::edit::{
    apply_inheritance_edits, dev_profile_text, migrated_manifests, updated_project_manifest, with_interface,
    with_polylith_version, with_profile_impl, with_test_base, with_workspace_member, with_workspace_package_version,
};
use cargo_polylith::manifest::{read_polylith_workspace_package, InheritanceEdit};
use cargo_polylith::model::{BrickKind, WorkspacePackageMeta};
use cargo_polylith::scaffold::DepEntry;

fn doc(text: &str) -> toml_edit::DocumentMut {
    text.parse().unwrap()
}

fn ws_pkg(poly: &str) -> WorkspacePackageMeta {
    read_polylith_workspace_package(poly).expect("reading failed").expect("expected [workspace.package]")
}

fn migrate(poly: &str, cargo: &str) -> Result<(String, String, String), String> {
    migrated_manifests(poly, cargo, &ws_pkg(poly))
}

#[test]
fn migrate_package_meta_overwrites_existing_version() {
    let poly = "\n[workspace.package]\nversion = \"0.17.0\"\n";
    let cargo = "\n[package]\nname = \"my-workspace\"\nversion = \"0.0.0\"\n";
    let (_, new_cargo, result) = migrate(poly, cargo).unwrap();
    assert!(result.contains("version"), "expected version in result: {result}");
    assert_eq!(doc(&new_cargo)["package"]["version"].as_str(), Some("0.17.0"));
}

#[test]
fn migrate_package_meta_selective_overwrite() {
    let poly = "\n[workspace.package]\nversion = \"1.2.3\"\nedition = \"2021\"\n";
    let cargo = "\n[package]\nname = \"foo\"\nversion = \"0.0.0\"\nedition = \"2018\"\ndescription = \"kept as-is\"\n";
    let (_, new_cargo, _) = migrate(poly, cargo).unwrap();
    let d = doc(&new_cargo);
    assert_eq!(d["package"]["version"].as_str(), Some("1.2.3"), "version should be overwritten");
    assert_eq!(d["package"]["edition"].as_str(), Some("2021"), "edition should be overwritten");
    assert_eq!(d["package"]["name"].as_str(), Some("foo"), "name should be untouched");
    assert_eq!(d["package"]["description"].as_str(), Some("kept as-is"), "description should be untouched");
}

#[test]
fn migrate_package_meta_removes_workspace_package_from_polylith_toml() {
    let poly = "\n[workspace]\nname = \"my-ws\"\n\n[workspace.package]\nversion = \"1.0.0\"\n";
    let cargo = "\n[package]\nname = \"my-ws\"\nversion = \"0.0.0\"\n";
    let (new_poly, _, _) = migrate(poly, cargo).unwrap();
    let d = doc(&new_poly);
    assert!(d.get("workspace").and_then(|w| w.get("package")).is_none(), "Polylith.toml should no longer have [workspace.package]");
    assert_eq!(d["workspace"]["name"].as_str(), Some("my-ws"));
}

#[test]
fn migrate_package_meta_missing_package_section_returns_error() {
    let poly = "\n[workspace.package]\nversion = \"1.0.0\"\n";
    let cargo = "\n[workspace]\nmembers = []\n";
    let msg = migrate(poly, cargo).unwrap_err();
    assert!(msg.contains("no [package] section"), "expected 'no [package] section' error, got: {msg}");
}

#[test]
fn migrate_package_meta_overwrites_authors() {
    let poly = "\n[workspace.package]\nauthors = [\"new1\", \"new2\"]\n";
    let cargo = "\n[package]\nname = \"my-workspace\"\nversion = \"0.0.0\"\nauthors = [\"old\"]\n";
    let (_, new_cargo, result) = migrate(poly, cargo).unwrap();
    assert!(result.contains("authors"), "expected authors in result: {result}");
    let d = doc(&new_cargo);
    let authors: Vec<&str> = d["package"]["authors"].as_array().unwrap().iter().filter_map(|v| v.as_str()).collect();
    assert_eq!(authors, vec!["new1", "new2"], "authors should be overwritten");
}

#[test]
fn migrate_package_meta_overwrites_license_and_repository() {
    let poly = "\n[workspace.package]\nlicense = \"MIT\"\nrepository = \"https://new.example/repo\"\n";
    let cargo = "\n[package]\nname = \"my-workspace\"\nversion = \"0.0.0\"\nlicense = \"Apache-2.0\"\nrepository = \"https://old.example/repo\"\n";
    let (_, new_cargo, _) = migrate(poly, cargo).unwrap();
    let d = doc(&new_cargo);
    assert_eq!(d["package"]["license"].as_str(), Some("MIT"), "license should be overwritten");
    assert_eq!(d["package"]["repository"].as_str(), Some("https://new.example/repo"), "repository should be overwritten");
}

#[test]
fn migrate_package_meta_explicit_empty_authors_clears_root() {
    let poly = "\n[workspace.package]\nauthors = []\n";
    let cargo = "\n[package]\nname = \"my-workspace\"\nversion = \"0.0.0\"\nauthors = [\"someone\"]\n";
    let pkg = ws_pkg(poly);
    assert_eq!(pkg.authors, Some(vec![]), "authors should be Some(empty), not None");
    let (_, new_cargo, result) = migrated_manifests(poly, cargo, &pkg).unwrap();
    assert!(result.contains("authors"), "expected authors in result: {result}");
    let d = doc(&new_cargo);
    assert!(d["package"]["authors"].as_array().unwrap().is_empty(), "root authors should be cleared");
}

#[test]
fn migrate_refuses_unparsable_text_and_a_non_table_package() {
    let pkg = ws_pkg("[workspace.package]\nversion = \"1.0.0\"\n");
    assert!(migrated_manifests("[[", "[package]\nname = \"x\"\n", &pkg).is_err());
    assert_eq!(migrated_manifests("", "package = 1\n", &pkg).unwrap_err(), "[package] is not a table");
}

#[test]
fn interface_and_test_base_are_set_under_polylith_metadata() {
    let t = with_interface("[package]\nname = \"store-pg\"\n", "store").unwrap();
    assert_eq!(doc(&t)["package"]["metadata"]["polylith"]["interface"].as_str(), Some("store"));
    let t = with_test_base(&t, true).unwrap();
    let d = doc(&t);
    assert_eq!(d["package"]["metadata"]["polylith"]["test-base"].as_bool(), Some(true));
    assert_eq!(d["package"]["metadata"]["polylith"]["interface"].as_str(), Some("store"));
}

#[test]
fn profile_impl_is_added_and_replaced() {
    let t = with_profile_impl("[implementations]\n", "store", "components/store_pg").unwrap();
    let t = with_profile_impl(&t, "store", "components/store_mem").unwrap();
    assert_eq!(doc(&t)["implementations"]["store"].as_str(), Some("components/store_mem"));
    let t = with_profile_impl("", "log", "components/log").unwrap();
    assert_eq!(doc(&t)["implementations"]["log"].as_str(), Some("components/log"));
}

#[test]
fn dev_profile_lists_each_pair() {
    let t = dev_profile_text(&vec![
        ("auth".to_string(), "components/auth_jwt".to_string()),
        ("store".to_string(), "components/store_fs".to_string()),
    ])
    .unwrap();
    let d = doc(&t);
    assert_eq!(d["implementations"]["auth"].as_str(), Some("components/auth_jwt"));
    assert_eq!(d["implementations"]["store"].as_str(), Some("components/store_fs"));
}

#[test]
fn versions_are_written_where_their_tables_are() {
    let t = with_polylith_version("[versioning]\npolicy = \"relaxed\"\nversion = \"0.1.0\"\n", "0.2.0").unwrap();
    assert_eq!(doc(&t)["versioning"]["version"].as_str(), Some("0.2.0"));
    assert_eq!(with_workspace_package_version("[workspace]\nmembers = []\n", "0.2.0").unwrap(), None);
    let t = with_workspace_package_version("[workspace.package]\nversion = \"0.1.0\"\n", "0.2.0").unwrap().unwrap();
    assert_eq!(doc(&t)["workspace"]["package"]["version"].as_str(), Some("0.2.0"));
}

#[test]
fn workspace_members_are_appended_once() {
    let t = with_workspace_member("[workspace]\nmembers = []\n", "components/a", false).unwrap().unwrap();
    let t = with_workspace_member(&t, "components/a", false).unwrap().unwrap();
    let d = doc(&t);
    let members: Vec<&str> = d["workspace"]["members"].as_array().unwrap().iter().filter_map(|v| v.as_str()).collect();
    assert_eq!(members, vec!["components/a"]);
    assert_eq!(with_workspace_member("[package]\nname = \"x\"\n", "components/a", true).unwrap(), None);
    assert!(with_workspace_member("[workspace]\n", "components/a", false).is_err());
}

#[test]
fn project_dependencies_follow_the_selected_rows() {
    let text = "[package]\nname = \"app\"\n\n[dependencies]\nold = { path = \"../../components/old\" }\nserde = \"1\"\n";
    let entries = vec![
        DepEntry {
            name: "store-pg".to_string(),
            interface: Some("store".to_string()),
            kind: BrickKind::Component,
            path: PathBuf::from("/ws/components/store_pg"),
            selected: true,
        },
        DepEntry {
            name: "old".to_string(),
            interface: None,
            kind: BrickKind::Component,
            path: PathBuf::from("/ws/components/old"),
            selected: false,
        },
    ];
    let dirs = vec!["store_pg".to_string(), "old".to_string()];
    let t = updated_project_manifest(text, &entries, &dirs).unwrap();
    let d = doc(&t);
    assert_eq!(d["dependencies"]["store"]["path"].as_str(), Some("../../components/store_pg"));
    assert_eq!(d["dependencies"]["store"]["package"].as_str(), Some("store-pg"));
    assert!(d["dependencies"].get("old").is_none());
    assert_eq!(d["dependencies"]["serde"].as_str(), Some("1"));
}

#[test]
fn inheritance_edits_are_applied_in_order() {
    let text = "[package]\nname = \"a\"\nversion.workspace = true\n\n[dependencies]\nserde = { workspace = true }\n";
    let edits = vec![
        InheritanceEdit::PackageField { field: "version".to_string(), value: "0.3.0".to_string() },
        InheritanceEdit::DepTable {
            table: "dependencies".to_string(),
            key: "serde".to_string(),
            version: Some("1".to_string()),
            features: vec!["derive".to_string()],
        },
        InheritanceEdit::Warning { message: "left as is".to_string() },
    ];
    let (t, changed, warnings) = apply_inheritance_edits(text, &edits).unwrap();
    assert!(changed);
    assert_eq!(warnings, vec!["left as is".to_string()]);
    let d = doc(&t);
    assert_eq!(d["package"]["version"].as_str(), Some("0.3.0"));
    assert_eq!(d["dependencies"]["serde"]["version"].as_str(), Some("1"));
    let (_, changed, _) = apply_inheritance_edits(text, &vec![InheritanceEdit::Warning { message: "w".to_string() }]).unwrap();
    assert!(!changed);
}

#[test]
fn metadata_is_refused_without_a_package_table() {
    assert_eq!(with_interface("name = \"x\"\n", "store").unwrap_err(), "[package] is not a table");
    assert_eq!(with_test_base("package = { name = \"x\" }\n", true).unwrap_err(), "[package] is not a table");
}

#[test]
fn removing_the_last_dependency_of_an_implicit_table_keeps_a_dependencies_table() {
    let text = "[package]\nname = \"app\"\n\n[dependencies.old]\npath = \"../../components/old\"\n";
    let entries = vec![DepEntry {
        name: "old".to_string(),
        interface: None,
        kind: BrickKind::Component,
        path: PathBuf::from("/ws/components/old"),
        selected: false,
    }];
    let t = updated_project_manifest(text, &entries, &vec!["old".to_string()]).unwrap();
    let d = doc(&t);
    assert!(d["dependencies"].as_table().is_some());
    assert!(d["dependencies"].get("old").is_none());
}

#[test]
fn migrate_removes_workspace_package_when_it_alone_makes_the_workspace_table() {
    let poly = "[workspace.package]\nversion = \"2.0.0\"\n";
    let (new_poly, _, _) = migrate(poly, "[package]\nname = \"x\"\n").unwrap();
    let d = doc(&new_poly);
    assert!(d.get("workspace").and_then(|w| w.get("package")).is_none());
}
