use std::path::PathBuf;

use cargo_polylith::graph::{compute_transitive, find_chain, DepMap};
use cargo_polylith::strmap::StrMap;
use cargo_polylith::tui::app::{DepState, GridRow, RowKind};
use cargo_polylith::tui::grid::Grid;

fn make_deps(entries: &[(&str, &[&str])]) -> DepMap {
    let mut m: DepMap = StrMap::new();
    for (k, vs) in entries {
        m.insert(k.to_string(), vs.iter().map(|v| v.to_string()).collect());
    }
    m
}

#[test]
fn app_test_find_chain_simple() {
    let all_deps = make_deps(&[("a", &["b"]), ("b", &["c"])]);
    let direct = vec!["a".to_string()];
    let result = find_chain("c", &direct, &all_deps);
    assert_eq!(result, Some(vec!["a".to_string(), "b".to_string(), "c".to_string()]));
}

#[test]
fn app_test_find_chain_diamond() {
    let all_deps = make_deps(&[("a", &["b", "c"]), ("b", &["d"]), ("c", &["d"])]);
    let direct = vec!["a".to_string()];
    let result = find_chain("d", &direct, &all_deps);
    let chain = result.expect("should find a chain");
    assert_eq!(chain.len(), 3);
    assert_eq!(chain[0], "a");
    assert_eq!(*chain.last().unwrap(), "d");
}

#[test]
fn app_test_find_chain_base_in_chain() {
    let all_deps = make_deps(&[("cli", &["mcp"]), ("mcp", &["scaffold"])]);
    let direct = vec!["cli".to_string()];
    let result = find_chain("scaffold", &direct, &all_deps);
    assert_eq!(result, Some(vec!["cli".to_string(), "mcp".to_string(), "scaffold".to_string()]));
}

#[test]
fn app_test_find_chain_not_reachable() {
    let all_deps = make_deps(&[("a", &["b"])]);
    let direct = vec!["a".to_string()];
    let result = find_chain("z", &direct, &all_deps);
    assert_eq!(result, None);
}

#[test]
fn grid_test_find_chain_simple() {
    let all_deps = make_deps(&[("a", &["b"]), ("b", &["c"])]);
    let direct = vec!["a".to_string()];
    let result = find_chain("c", &direct, &all_deps);
    assert_eq!(result, Some(vec!["a".to_string(), "b".to_string(), "c".to_string()]));
}

#[test]
fn grid_test_find_chain_diamond() {
    let all_deps = make_deps(&[("a", &["b", "c"]), ("b", &["d"]), ("c", &["d"])]);
    let direct = vec!["a".to_string()];
    let result = find_chain("d", &direct, &all_deps);
    let chain = result.expect("should find a chain");
    assert_eq!(chain.len(), 3);
    assert_eq!(chain[0], "a");
    assert_eq!(*chain.last().unwrap(), "d");
}

#[test]
fn grid_test_find_chain_base_in_chain() {
    let all_deps = make_deps(&[("cli", &["mcp"]), ("mcp", &["scaffold"])]);
    let direct = vec!["cli".to_string()];
    let result = find_chain("scaffold", &direct, &all_deps);
    assert_eq!(result, Some(vec!["cli".to_string(), "mcp".to_string(), "scaffold".to_string()]));
}

#[test]
fn grid_test_find_chain_not_reachable() {
    let all_deps = make_deps(&[("a", &["b"])]);
    let direct = vec!["a".to_string()];
    let result = find_chain("z", &direct, &all_deps);
    assert_eq!(result, None);
}

#[test]
fn test_compute_transitive_excludes_direct() {
    let comp_deps = make_deps(&[("a", &["b", "c"]), ("b", &["c"])]);
    let direct = vec!["a".to_string()];
    let result = compute_transitive(&direct, &comp_deps);
    assert!(result.contains(&"b".to_string()));
    assert!(result.contains(&"c".to_string()));
    assert!(!result.contains(&"a".to_string()));
}

fn one_row_grid(state: DepState, direct: Vec<String>) -> Grid {
    let rows = vec![GridRow {
        name: "comp-a".to_string(),
        kind: RowKind::Component,
        interface: None,
        path: PathBuf::from("components/comp-a"),
    }];
    Grid {
        rows,
        cells: vec![vec![state]],
        modified_cols: vec![false],
        modified_rows: vec![false],
        comp_deps: StrMap::new(),
        project_direct_deps: vec![direct],
    }
}

#[test]
fn test_grid_toggle_direct_to_none() {
    let mut grid = one_row_grid(DepState::Direct, vec!["comp-a".to_string()]);
    grid.toggle(0, 0);
    assert_eq!(grid.cells[0][0], DepState::Absent);
    assert!(grid.modified_cols[0]);
}

#[test]
fn test_grid_toggle_none_to_direct() {
    let mut grid = one_row_grid(DepState::Absent, vec![]);
    grid.toggle(0, 0);
    assert_eq!(grid.cells[0][0], DepState::Direct);
    assert!(grid.modified_cols[0]);
}

#[test]
fn test_grid_toggle_transitive_is_noop() {
    let mut grid = one_row_grid(DepState::Transitive, vec![]);
    grid.toggle(0, 0);
    assert_eq!(grid.cells[0][0], DepState::Transitive);
    assert!(!grid.modified_cols[0]);
}

fn row(name: &str) -> GridRow {
    GridRow {
        name: name.to_string(),
        kind: RowKind::Component,
        interface: None,
        path: PathBuf::from(format!("components/{name}")),
    }
}

fn chain_grid() -> Grid {
    // a -> b -> c; the project lists a directly.
    Grid {
        rows: vec![row("a"), row("b"), row("c")],
        cells: vec![vec![DepState::Direct], vec![DepState::Transitive], vec![DepState::Transitive]],
        modified_cols: vec![false],
        modified_rows: vec![false, false, false],
        comp_deps: make_deps(&[("a", &["b"]), ("b", &["c"])]),
        project_direct_deps: vec![vec!["a".to_string()]],
    }
}

#[test]
fn grid_toggle_recomputes_transitive_cells() {
    let mut grid = chain_grid();
    grid.toggle(0, 0);
    assert_eq!(grid.cells[0][0], DepState::Absent);
    assert_eq!(grid.cells[1][0], DepState::Absent);
    assert_eq!(grid.cells[2][0], DepState::Absent);
    grid.toggle(0, 0);
    assert_eq!(grid.cells[0][0], DepState::Direct);
    assert_eq!(grid.cells[1][0], DepState::Transitive);
    assert_eq!(grid.cells[2][0], DepState::Transitive);
}

#[test]
fn grid_toggle_outside_is_noop() {
    let mut grid = chain_grid();
    grid.toggle(5, 0);
    grid.toggle(0, 3);
    assert!(!grid.modified_cols[0]);
    assert_eq!(grid.cells[0][0], DepState::Direct);
}

#[test]
fn grid_chain_and_levels_for_cursor() {
    let grid = chain_grid();
    assert_eq!(grid.chain_for_cursor(2, 0), Some(vec!["a".to_string(), "b".to_string(), "c".to_string()]));
    assert_eq!(grid.chain_for_cursor(0, 0), None);
    assert_eq!(grid.downstream_levels_for_cursor(1, 0), vec![vec!["c".to_string()]]);
    assert!(grid.downstream_levels_for_cursor(0, 0).is_empty());
    assert_eq!(grid.n_cols(), 1);
}

#[test]
fn grid_recompute_twice_changes_nothing() {
    let mut grid = chain_grid();
    grid.cells[1][0] = DepState::Absent;
    grid.cells[2][0] = DepState::Direct;
    grid.recompute_transitive(0);
    let once = grid.cells.clone();
    assert_eq!(once, vec![vec![DepState::Direct], vec![DepState::Transitive], vec![DepState::Direct]]);
    grid.recompute_transitive(0);
    assert_eq!(grid.cells, once);
}
