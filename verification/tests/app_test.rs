use std::path::PathBuf;

use cargo_polylith::model::{Brick, BrickKind, Profile, Project, WorkspaceMap};
use cargo_polylith::strmap::StrMap;
use cargo_polylith::tui::app::{write_status, App, DepState, InputMode, RowKind};

fn brick(name: &str, kind: BrickKind, deps: &[&str], iface: Option<&str>) -> Brick {
    Brick {
        name: name.to_string(),
        kind,
        path: PathBuf::from(format!("/ws/x/{name}")),
        deps: deps.iter().map(|d| d.to_string()).collect(),
        manifest_path: PathBuf::from(format!("/ws/x/{name}/Cargo.toml")),
        interface: iface.map(|s| s.to_string()),
        path_dep_keys: vec![],
        hardwired_pkg_deps: vec![],
    }
}

fn project(name: &str, deps: &[&str]) -> Project {
    Project {
        name: name.to_string(),
        path: PathBuf::from(format!("/ws/projects/{name}")),
        deps: deps.iter().map(|d| d.to_string()).collect(),
        has_own_workspace: false,
        bin_name: None,
        dep_paths: vec![],
        external_deps: StrMap::new(),
        hardwired_pkg_deps: vec![],
    }
}

fn sample_map() -> WorkspaceMap {
    let mut map = WorkspaceMap {
        root: PathBuf::from("/ws"),
        components: vec![
            brick("zeta", BrickKind::Component, &[], None),
            brick("store-pg", BrickKind::Component, &["log"], Some("store")),
            brick("log", BrickKind::Component, &[], Some("log")),
            brick("store-mem", BrickKind::Component, &[], Some("store")),
        ],
        bases: vec![brick("cli", BrickKind::Base, &["store-pg"], None)],
        projects: vec![project("app", &["cli"])],
        root_members: vec![],
        is_workspace: true,
        root_workspace_deps: StrMap::new(),
        root_workspace_interface_deps: StrMap::new(),
        polylith_toml: None,
        root_package_meta: None,
        component_by_name: StrMap::new(),
        component_by_interface: StrMap::new(),
        base_by_name: StrMap::new(),
    };
    map.rebuild_indexes();
    map
}

fn names(app: &App) -> Vec<String> {
    app.rows.iter().map(|r| r.name.clone()).collect()
}

#[test]
fn rows_are_grouped_by_interface_then_bases() {
    let app = App::new(&sample_map(), vec![]);
    assert_eq!(names(&app), vec!["log", "store-mem", "store-pg", "zeta", "cli"]);
    assert_eq!(app.rows[4].kind, RowKind::Base);
    assert_eq!(app.n_components(), 4);
    assert_eq!(app.cols.len(), 1);
}

#[test]
fn cells_start_direct_transitive_or_absent() {
    let app = App::new(&sample_map(), vec![]);
    // app -> cli -> store-pg -> log
    assert_eq!(app.cells[4][0], DepState::Direct);
    assert_eq!(app.cells[2][0], DepState::Transitive);
    assert_eq!(app.cells[0][0], DepState::Transitive);
    assert_eq!(app.cells[1][0], DepState::Absent);
    assert_eq!(app.cells[3][0], DepState::Absent);
}

#[test]
fn toggling_a_direct_cell_recomputes_the_column() {
    let mut app = App::new(&sample_map(), vec![]);
    app.cursor_row = 4;
    app.toggle_cell();
    assert_eq!(app.cells[4][0], DepState::Absent);
    assert_eq!(app.cells[2][0], DepState::Absent);
    assert!(app.modified_cols[0]);
    app.toggle_cell();
    assert_eq!(app.cells[2][0], DepState::Transitive);
}

#[test]
fn navigation_and_fold_view() {
    let mut app = App::new(&sample_map(), vec![]);
    app.cursor_row = 2; // store-pg, transitive
    app.toggle_fold();
    assert!(app.fold_active);
    assert_eq!(app.chain_for_cursor(), Some(vec!["cli".to_string(), "store-pg".to_string()]));
    assert_eq!(app.downstream_levels_for_cursor(), vec![vec!["log".to_string()]]);
    app.move_up();
    assert_eq!(app.cursor_row, 0); // jumps to "log", skipping store-mem
    assert!(app.fold_active);
    app.move_down();
    assert_eq!(app.cursor_row, 2);
    app.move_right();
    assert_eq!(app.cursor_col, 0);
    app.fold_active = false;
    app.move_up();
    assert_eq!(app.cursor_row, 1);
}

#[test]
fn scrolling_keeps_the_cursor_visible() {
    let mut app = App::new(&sample_map(), vec![]);
    app.cursor_row = 4;
    app.scroll_to_cursor(2, 0);
    assert_eq!(app.scroll_row, 3);
    app.cursor_row = 1;
    app.scroll_to_cursor(2, 0);
    assert_eq!(app.scroll_row, 1);
}

#[test]
fn project_name_input() {
    let mut app = App::new(&sample_map(), vec![]);
    app.start_create_project();
    assert_eq!(app.input_mode, InputMode::CreatingProject);
    assert_eq!(app.status, "New project name: ");
    for c in "  new-proj!".chars() {
        app.input_char(c);
    }
    app.input_backspace();
    assert_eq!(app.pending_project_name(), Ok("new-proj".to_string()));
    assert_eq!(app.confirm_create_project(Ok(PathBuf::from("/ws/projects/new-proj"))), Ok(()));
    assert_eq!(app.cols.len(), 2);
    assert_eq!(app.cursor_col, 1);
    assert!(app.cells.iter().all(|r| r.len() == 2 && r[1] == DepState::Absent));
    assert_eq!(app.input_mode, InputMode::Normal);
    assert!(app.status.starts_with("Created project 'new-proj'."));
    app.start_create_project();
    app.input_char('9');
    assert!(app.pending_project_name().is_err());
    let cols = app.cols.len();
    assert!(app.confirm_create_project(Ok(PathBuf::from("/ws/projects/9"))).is_err());
    assert_eq!(app.cols.len(), cols);
    assert_eq!(app.input_mode, InputMode::CreatingProject);
    assert_eq!(app.input_buffer, "9");
    app.cancel_input();
    assert_eq!(app.input_buffer, "");
}

#[test]
fn interface_editing() {
    let mut app = App::new(&sample_map(), vec![]);
    app.cursor_row = 4;
    app.start_edit_interface();
    assert_eq!(app.status, "Bases do not have interfaces");
    app.cursor_row = 3;
    app.start_edit_interface();
    assert_eq!(app.input_mode, InputMode::EditingInterface);
    assert_eq!(app.input_buffer, "zeta");
    app.input_buffer = "  util ".to_string();
    app.confirm_edit_interface();
    assert_eq!(app.rows[3].interface, Some("util".to_string()));
    assert!(app.modified_rows[3]);
    assert_eq!(app.pending_interface_writes(), vec![3]);
    assert!(app.is_multi_impl_interface(1));
    assert!(!app.is_multi_impl_interface(0));
}

#[test]
fn profile_selection() {
    let profile = Profile {
        name: "dev".to_string(),
        path: PathBuf::from("/ws/profiles/dev.profile"),
        implementations: StrMap::new(),
        libraries: StrMap::new(),
    };
    let mut app = App::new(&sample_map(), vec![profile]);
    let w = app.toggle_profile_impl(1, "x/store-mem".to_string()).expect("a write");
    assert_eq!(w.interface, "store");
    assert_eq!(w.rel_path, "x/store-mem");
    assert!(app.toggle_profile_impl(1, "x/store-mem".to_string()).is_none());
    assert!(app.toggle_profile_impl(4, "x/cli".to_string()).is_none());
}

#[test]
fn write_summaries() {
    assert_eq!(write_status(0), "No changes to write.");
    assert_eq!(write_status(3), "Wrote 3 change(s).");
}
