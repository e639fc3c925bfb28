use std::path::PathBuf;

use cargo_polylith::model::{Brick, BrickKind, Profile, Project, WorkspaceMap};
use cargo_polylith::strmap::StrMap;
use cargo_polylith::tui::app::{App, DepState, InputMode};
use cargo_polylith::tui::keys::{key_command, Command, EditorAction, Key};

fn brick(name: &str, kind: BrickKind, deps: &[&str], iface: Option<&str>) -> Brick {
    Brick {
        name: name.to_string(),
        kind,
        path: PathBuf::from(format!("/ws/x/{name}")),
        deps: deps.iter().map(|d| d.to_string()).collect(),
        manifest_path: PathBuf::from(format!("/ws/x/{name}/Cargo.toml")),
        interface: iface.map(|s| s.to_string()),
        path_dep_keys: vec![],
        hardwired_pkg_deps: vec![],
    }
}

fn editor(profiles: Vec<Profile>) -> App {
    let mut map = WorkspaceMap {
        root: PathBuf::from("/ws"),
        components: vec![
            brick("store-mem", BrickKind::Component, &[], Some("store")),
            brick("store-pg", BrickKind::Component, &[], Some("store")),
            brick("log", BrickKind::Component, &[], None),
        ],
        bases: vec![brick("cli", BrickKind::Base, &["store"], None)],
        projects: vec![Project {
            name: "app".to_string(),
            path: PathBuf::from("/ws/projects/app"),
            deps: vec!["cli".to_string()],
            has_own_workspace: false,
            bin_name: None,
            dep_paths: vec![],
            external_deps: StrMap::new(),
            hardwired_pkg_deps: vec![],
        }],
        root_members: vec![],
        is_workspace: true,
        root_workspace_deps: StrMap::new(),
        root_workspace_interface_deps: StrMap::new(),
        polylith_toml: None,
        root_package_meta: None,
        component_by_name: StrMap::new(),
        component_by_interface: StrMap::new(),
        base_by_name: StrMap::new(),
    };
    map.rebuild_indexes();
    App::new(&map, profiles)
}

fn ch(c: char) -> Key {
    Key::Char { c, ctrl: false }
}

#[test]
fn keys_map_to_commands_by_mode() {
    assert_eq!(key_command(InputMode::Normal, ch('k')), Command::MoveUp);
    assert_eq!(key_command(InputMode::Normal, Key::Down), Command::MoveDown);
    assert_eq!(key_command(InputMode::Normal, ch('3')), Command::ViewProfile(2));
    assert_eq!(key_command(InputMode::Normal, ch('0')), Command::Nothing);
    assert_eq!(key_command(InputMode::Normal, ch('n')), Command::Nothing);
    assert_eq!(key_command(InputMode::Normal, Key::Char { c: 'n', ctrl: true }), Command::NewProject);
    assert_eq!(key_command(InputMode::CreatingProject, ch('q')), Command::Type('q'));
    assert_eq!(key_command(InputMode::EditingInterface, Key::Enter), Command::ConfirmInterface);
    assert_eq!(key_command(InputMode::CreatingProject, Key::Up), Command::Nothing);
}

#[test]
fn quit_with_unsaved_changes_asks_again() {
    let mut app = editor(vec![]);
    // log row, app column: toggle it on
    let log_row = app.rows.iter().position(|r| r.name == "log").unwrap();
    app.cursor_row = log_row;
    assert_eq!(app.handle_key(ch(' ')), EditorAction::Nothing);
    assert_eq!(app.cells[log_row][0], DepState::Direct);
    assert!(app.modified_cols[0]);
    app.handle_key(ch('q'));
    assert!(!app.quit);
    assert!(app.confirm_quit);
    assert_eq!(app.status, "Unsaved changes — press w to save or q again to quit");
    app.handle_key(ch('q'));
    assert!(app.quit);
}

#[test]
fn another_key_drops_the_quit_confirmation() {
    let mut app = editor(vec![]);
    app.modified_cols[0] = true;
    app.handle_key(ch('q'));
    assert!(app.confirm_quit);
    app.handle_key(ch('j'));
    assert!(!app.confirm_quit);
    app.handle_key(ch('q'));
    assert!(!app.quit);
}

#[test]
fn gg_goes_to_the_top_and_capital_g_to_the_bottom() {
    let mut app = editor(vec![]);
    app.handle_key(ch('G'));
    assert_eq!(app.cursor_row, app.rows.len() - 1);
    app.handle_key(ch('g'));
    assert!(app.pending_g);
    app.handle_key(ch('g'));
    assert_eq!(app.cursor_row, 0);
    assert!(!app.pending_g);
}

#[test]
fn write_and_project_creation_are_left_to_the_caller() {
    let mut app = editor(vec![]);
    assert_eq!(app.handle_key(ch('w')), EditorAction::WriteAll);
    app.handle_key(Key::Char { c: 'n', ctrl: true });
    assert_eq!(app.input_mode, InputMode::CreatingProject);
    app.handle_key(ch('x'));
    app.handle_key(ch('y'));
    app.handle_key(Key::Backspace);
    assert_eq!(app.input_buffer, "x");
    assert_eq!(app.handle_key(Key::Enter), EditorAction::CreateProject);
    app.project_creation_failed("boom");
    assert_eq!(app.status, "error: boom");
    assert_eq!(app.input_mode, InputMode::Normal);
    assert_eq!(app.input_buffer, "");
}

#[test]
fn space_on_a_shared_interface_row_selects_the_profile_implementation() {
    let profile = Profile {
        name: "dev".to_string(),
        path: PathBuf::from("/ws/profiles/dev.profile"),
        implementations: StrMap::new(),
        libraries: StrMap::new(),
    };
    let mut app = editor(vec![profile]);
    let row = app.rows.iter().position(|r| r.name == "store-pg").unwrap();
    app.cursor_row = row;
    assert_eq!(app.handle_key(ch(' ')), EditorAction::ToggleProfileImpl(row));
    let log_row = app.rows.iter().position(|r| r.name == "log").unwrap();
    app.cursor_row = log_row;
    assert_eq!(app.handle_key(ch(' ')), EditorAction::Nothing);
}

#[test]
fn digits_view_existing_profiles_only() {
    let profile = Profile {
        name: "dev".to_string(),
        path: PathBuf::from("/ws/profiles/dev.profile"),
        implementations: StrMap::new(),
        libraries: StrMap::new(),
    };
    let mut app = editor(vec![profile]);
    app.handle_key(ch('2'));
    assert_eq!(app.viewed_profile_idx, 0);
    app.handle_key(ch('1'));
    assert_eq!(app.viewed_profile_idx, 0);
}

#[test]
fn written_flags_clear() {
    let mut app = editor(vec![]);
    app.modified_cols[0] = true;
    app.column_written(0);
    assert!(!app.modified_cols[0]);
}
