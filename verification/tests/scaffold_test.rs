use std::path::PathBuf;

use cargo_polylith::model::BrickKind;
use cargo_polylith::scaffold::{project_dep_edits, DepEdit, DepEntry, Slot};
use cargo_polylith::strmap::StrMap;

fn entry(name: &str, iface: Option<&str>, kind: BrickKind, selected: bool) -> DepEntry {
    DepEntry {
        name: name.to_string(),
        interface: iface.map(|s| s.to_string()),
        kind,
        path: PathBuf::from(format!("/ws/x/{name}")),
        selected,
    }
}

fn show(e: &DepEdit) -> String {
    match e {
        DepEdit::Add { key, path, package } => format!("add {key} {path} {}", package.as_deref().unwrap_or("-")),
        DepEdit::Remove { key } => format!("remove {key}"),
    }
}

#[test]
fn selections_become_path_dependencies_and_deselections_are_dropped() {
    let mut deps = StrMap::new();
    deps.insert("store".to_string(), Slot::Path("../../components/store_pg".to_string()));
    deps.insert("serde".to_string(), Slot::Plain);
    deps.insert("old".to_string(), Slot::Path("../../vendor/old".to_string()));
    let entries = vec![
        entry("store_pg", Some("store"), BrickKind::Component, false),
        entry("store_mem", Some("store"), BrickKind::Component, true),
        entry("log", Some("log"), BrickKind::Component, true),
        entry("cli", None, BrickKind::Base, true),
        entry("old", None, BrickKind::Component, false),
        entry("serde", None, BrickKind::Component, false),
    ];
    let dirs: Vec<String> = entries.iter().map(|e| e.name.clone()).collect();
    let edits: Vec<String> = project_dep_edits(&deps, &entries, &dirs).iter().map(show).collect();
    assert_eq!(
        edits,
        vec![
            "remove store",
            "add store ../../components/store_mem store_mem",
            "add log ../../components/log -",
            "add cli ../../bases/cli -",
        ]
    );
}

#[test]
fn a_selected_row_already_listed_is_left_alone() {
    let mut deps = StrMap::new();
    deps.insert("log".to_string(), Slot::Plain);
    let entries = vec![entry("log", None, BrickKind::Component, true)];
    let dirs = vec!["log".to_string()];
    assert!(project_dep_edits(&deps, &entries, &dirs).is_empty());
}
