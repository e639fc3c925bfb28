use std::path::PathBuf;

use cargo_polylith::corsett::{min_group_height, FoldEntry};
use cargo_polylith::model::{Brick, BrickKind, Profile, Project, WorkspaceMap};
use cargo_polylith::strmap::StrMap;
use cargo_polylith::tui::app::{App, ChainPosition, DepState};
use cargo_polylith::tui::view::{chain_positions, header_rows, header_target, CellMark};
use cargo_polylith::tui::app::InputMode;

fn brick(name: &str, kind: BrickKind, deps: &[&str], iface: Option<&str>) -> Brick {
    Brick {
        name: name.to_string(),
        kind,
        path: PathBuf::from(format!("/ws/x/{name}")),
        deps: deps.iter().map(|d| d.to_string()).collect(),
        manifest_path: PathBuf::from(format!("/ws/x/{name}/Cargo.toml")),
        interface: iface.map(|s| s.to_string()),
        path_dep_keys: vec![],
        hardwired_pkg_deps: vec![],
    }
}

fn sample_map() -> WorkspaceMap {
    let mut map = WorkspaceMap {
        root: PathBuf::from("/ws"),
        components: vec![
            brick("zeta", BrickKind::Component, &[], None),
            brick("store-pg", BrickKind::Component, &["log"], Some("store")),
            brick("log", BrickKind::Component, &[], Some("log")),
            brick("store-mem", BrickKind::Component, &[], Some("store")),
        ],
        bases: vec![brick("cli", BrickKind::Base, &["store-pg"], None)],
        projects: vec![Project {
            name: "app".to_string(),
            path: PathBuf::from("/ws/projects/app"),
            deps: vec!["cli".to_string()],
            has_own_workspace: false,
            bin_name: None,
            dep_paths: vec![],
            external_deps: StrMap::new(),
            hardwired_pkg_deps: vec![],
        }],
        root_members: vec![],
        is_workspace: true,
        root_workspace_deps: StrMap::new(),
        root_workspace_interface_deps: StrMap::new(),
        polylith_toml: None,
        root_package_meta: None,
        component_by_name: StrMap::new(),
        component_by_interface: StrMap::new(),
        base_by_name: StrMap::new(),
    };
    map.rebuild_indexes();
    map
}

fn rels(app: &App) -> Vec<Option<String>> {
    app.rows.iter().map(|r| Some(format!("x/{}", r.name))).collect()
}

#[test]
fn chain_positions_number_upstream_then_first_downstream_level() {
    let chain = vec!["cli".to_string(), "store-pg".to_string(), "log".to_string()];
    let levels = vec![vec!["x".to_string()], vec!["log".to_string(), "y".to_string(), "x".to_string()]];
    let p = chain_positions(&chain, &levels);
    assert_eq!(p.get("cli").copied(), Some(ChainPosition::Upstream { step: 1 }));
    assert_eq!(p.get("store-pg").copied(), Some(ChainPosition::Upstream { step: 2 }));
    assert_eq!(p.get("log").copied(), Some(ChainPosition::Upstream { step: 3 }));
    assert_eq!(p.get("x").copied(), Some(ChainPosition::Downstream { level: 1 }));
    assert_eq!(p.get("y").copied(), Some(ChainPosition::Downstream { level: 2 }));
    assert_eq!(p.len(), 5);
}

#[test]
fn unfolded_plan_lists_rows_from_the_scroll_position() {
    let mut app = App::new(&sample_map(), vec![]);
    let none = chain_positions(&vec![], &vec![]);
    assert_eq!(app.row_plan(&none), (0..5).map(FoldEntry::Row).collect::<Vec<_>>());
    app.scroll_row = 3;
    assert_eq!(app.row_plan(&none), vec![FoldEntry::Row(3), FoldEntry::Row(4)]);
    app.scroll_row = 9;
    assert!(app.row_plan(&none).is_empty());
}

#[test]
fn folded_plan_shows_the_chain_after_a_placeholder() {
    let mut app = App::new(&sample_map(), vec![]);
    // rows: log, store-mem, store-pg, zeta, cli; the cursor is on log in project app.
    app.fold_active = true;
    app.cursor_row = 0;
    app.cursor_col = 0;
    let chain = app.chain_for_cursor().unwrap_or_default();
    assert_eq!(chain, vec!["cli".to_string(), "store-pg".to_string(), "log".to_string()]);
    let p = chain_positions(&chain, &app.downstream_levels_for_cursor());
    assert_eq!(
        app.row_plan(&p),
        vec![FoldEntry::Hidden(2), FoldEntry::Row(4), FoldEntry::Row(2), FoldEntry::Row(0)]
    );
    // Folding with no chain falls back to the plain view.
    let none = chain_positions(&vec![], &vec![]);
    assert_eq!(app.row_plan(&none).len(), 5);
}

#[test]
fn cells_show_chain_marks_radios_and_states() {
    let mut app = App::new(&sample_map(), vec![]);
    app.cursor_row = 0;
    app.cursor_col = 0;
    let chain = app.chain_for_cursor().unwrap_or_default();
    let p = chain_positions(&chain, &app.downstream_levels_for_cursor());
    let rels = rels(&app);
    assert_eq!(
        app.cell_mark(&p, &rels, 0, 0),
        CellMark::State { state: DepState::Transitive, cursor: true, staged: false }
    );
    assert_eq!(app.cell_mark(&p, &rels, 4, 0), CellMark::ChainEntry);
    assert_eq!(app.cell_mark(&p, &rels, 2, 0), CellMark::ChainStep(1));
    assert_eq!(app.cell_mark(&p, &rels, 1, 0), CellMark::Radio { selected: false, cursor: false });
    assert_eq!(
        app.cell_mark(&p, &rels, 3, 0),
        CellMark::State { state: DepState::Absent, cursor: false, staged: false }
    );
}

#[test]
fn radio_follows_the_viewed_profile() {
    let mut imps = StrMap::new();
    imps.insert("store".to_string(), "x/store-mem".to_string());
    let profile = Profile {
        name: "dev".to_string(),
        path: PathBuf::from("/ws/profiles/dev.profile"),
        implementations: imps,
        libraries: StrMap::new(),
    };
    let mut app = App::new(&sample_map(), vec![profile]);
    app.cursor_row = 3;
    app.cursor_col = 0;
    let none = chain_positions(&vec![], &vec![]);
    let rels = rels(&app);
    assert_eq!(app.cell_mark(&none, &rels, 1, 0), CellMark::Radio { selected: true, cursor: false });
    assert_eq!(app.cell_mark(&none, &rels, 2, 0), CellMark::Radio { selected: false, cursor: false });
    app.modified_cols[0] = true;
    assert_eq!(
        app.cell_mark(&none, &rels, 4, 0),
        CellMark::State { state: DepState::Direct, cursor: false, staged: true }
    );
}

#[test]
fn interface_labels_start_groups() {
    let app = App::new(&sample_map(), vec![]);
    assert_eq!(app.interface_label(0).as_deref(), Some("log"));
    assert_eq!(app.interface_label(1).as_deref(), Some("store"));
    assert_eq!(app.interface_label(2), None);
    assert_eq!(app.interface_label(3), None);
    assert_eq!(app.interface_label(4), None);
}

#[test]
fn header_shrinks_while_scrolling_down_to_the_unique_floor() {
    let names = vec!["alpha-service", "beta"];
    assert_eq!(header_target(&names, 0), 13);
    assert_eq!(header_target(&names, 3), 10);
    assert_eq!(header_target(&names, 100), min_group_height(&names));
    assert_eq!(header_rows(&vec!["ab".to_string(), "abcd".to_string()]), 4);
    assert_eq!(header_rows(&vec![]), 1);
}

#[test]
fn status_line_shows_prompt_or_status_with_cursor_and_fold_hint() {
    let mut app = App::new(&sample_map(), vec![]);
    app.status = "ready".to_string();
    app.cursor_row = 4;
    app.cursor_col = 0;
    assert_eq!(app.status_line(), "ready  [app/cli]");
    app.fold_active = true;
    assert_eq!(app.status_line(), "ready  [app/cli]  [f] unfold");
    app.cursor_row = 7;
    assert_eq!(app.status_line(), "ready  [f] unfold");
    app.input_mode = InputMode::CreatingProject;
    app.input_buffer = "new-app".to_string();
    assert_eq!(app.status_line(), "New project name: new-app█   [Enter to create, Esc to cancel]");
    app.input_mode = InputMode::EditingInterface;
    assert_eq!(app.status_line(), "Interface name: new-app█   [Enter to save, Esc to cancel]");
}
