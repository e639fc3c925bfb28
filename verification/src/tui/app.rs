//! Editor state: rows (bricks), columns (projects) and the dependency cells between them.
use vstd::prelude::*;

use std::path::PathBuf;

use crate::corsett::string_views;
use crate::graph::{add_brick_deps, clone_names, compute_transitive, contains_str, graph_deps, graph_has, lemma_last_named_bounds, reachable, DepMap};
use crate::model::{Brick, Profile, WorkspaceMap};
use crate::strmap::StrMap;
use crate::order::{lemma_lex_irreflexive, lemma_lex_total, lemma_lex_transitive, lex_less, lex_lt};
use crate::text::{chars_of, owned, push_char, str_eq, string_of, trim, trim_spec};
use crate::tui::grid::{
    cell_views, chain_at, is_transitive_at, levels_at, row_names, toggle_at, toggled,
    transitive_at,
};
use crate::graph::{bfs_levels, shortest_chain};
use crate::validate::{brick_name_error, validate_brick_name};

verus! {

/// The kind of brick a row shows.
#[derive(Debug, Clone, Copy, PartialEq, Eq, Structural)]
pub enum RowKind {
    Component,
    Base,
}

/// Whether a row (component/base) is a direct, transitive, or absent dependency
/// of a given project column.
#[derive(Debug, Clone, Copy, PartialEq, Eq, Structural)]
pub enum DepState {
    /// Not a dependency.
    Absent,
    /// Pulled in transitively through another component; read-only in the editor.
    Transitive,
    /// Listed directly in the project's `[dependencies]`.
    Direct,
}

/// Position of a cell within the hover chain visualization.
#[derive(Debug, Clone, Copy, PartialEq, Eq, Structural)]
pub enum ChainPosition {
    /// Part of the upstream path from a direct dependency to the hovered cell;
    /// `step = 1` is the direct dependency entry point.
    Upstream { step: usize },
    /// Downstream from the hovered cell; `level = 1` is a direct dependency of the
    /// hovered cell, and components at the same breadth-first level share the number.
    Downstream { level: usize },
}

/// What keystrokes currently feed.
#[derive(Debug, Clone, Copy, PartialEq, Eq, Structural)]
pub enum InputMode {
    Normal,
    CreatingProject,
    EditingInterface,
}

/// One brick row of the grid.
#[derive(Debug, Clone)]
pub struct GridRow {
    pub name: String,
    pub kind: RowKind,
    pub interface: Option<String>,
    pub path: PathBuf,
}

/// One project column of the grid.
#[derive(Debug, Clone)]
pub struct GridCol {
    pub name: String,
    /// Project directory.
    pub path: PathBuf,
}

/// The key a component row is sorted by: its interface (if any) and its name.
pub open spec fn row_key(b: Brick) -> (Option<Seq<char>>, Seq<char>) {
    (
        match b.interface {
            Some(i) => Some(i@),
            None => None,
        },
        b.name@,
    )
}

/// Components with an interface come first, ordered by interface and then by
/// name; components without one follow, ordered by name.
pub open spec fn key_lt(a: (Option<Seq<char>>, Seq<char>), b: (Option<Seq<char>>, Seq<char>)) -> bool {
    match (a.0, b.0) {
        (Some(x), Some(y)) => lex_lt(x, y) || (x == y && lex_lt(a.1, b.1)),
        (Some(_), None) => true,
        (None, Some(_)) => false,
        (None, None) => lex_lt(a.1, b.1),
    }
}

proof fn lemma_key_order(
    a: (Option<Seq<char>>, Seq<char>),
    b: (Option<Seq<char>>, Seq<char>),
    c: (Option<Seq<char>>, Seq<char>),
)
    ensures
        !key_lt(a, a),
        key_lt(a, b) && key_lt(b, c) ==> key_lt(a, c),
        a == b || key_lt(a, b) || key_lt(b, a),
        !(key_lt(a, b) && key_lt(b, a)),
{
    lemma_lex_irreflexive(a.1);
    if let Some(x) = a.0 {
        lemma_lex_irreflexive(x);
    }
    lemma_lex_total(a.1, b.1);
    match (a.0, b.0) {
        (Some(x), Some(y)) => {
            lemma_lex_total(x, y);
            if lex_lt(x, y) && lex_lt(y, x) {
                lemma_lex_transitive(x, y, x);
            }
            if lex_lt(a.1, b.1) && lex_lt(b.1, a.1) {
                lemma_lex_transitive(a.1, b.1, a.1);
            }
        },
        (None, None) => {
            if lex_lt(a.1, b.1) && lex_lt(b.1, a.1) {
                lemma_lex_transitive(a.1, b.1, a.1);
            }
        },
        _ => {},
    }
    if key_lt(a, b) && key_lt(b, c) {
        match (a.0, b.0, c.0) {
            (Some(x), Some(y), Some(z)) => {
                if lex_lt(x, y) && lex_lt(y, z) {
                    lemma_lex_transitive(x, y, z);
                }
                if lex_lt(a.1, b.1) && lex_lt(b.1, c.1) {
                    lemma_lex_transitive(a.1, b.1, c.1);
                }
            },
            (None, None, None) => {
                lemma_lex_transitive(a.1, b.1, c.1);
            },
            _ => {},
        }
    }
}

/// Position `i` of `bs` sorts before position `j`: by key, and equal keys keep
/// their original order.
pub open spec fn index_lt(bs: Seq<Brick>, i: int, j: int) -> bool {
    key_lt(row_key(bs[i]), row_key(bs[j])) || (row_key(bs[i]) == row_key(bs[j]) && i < j)
}

/// `order` lists every position of `bs` once, in the order the rows are shown.
pub open spec fn is_display_order(bs: Seq<Brick>, order: Seq<usize>) -> bool {
    &&& order.len() == bs.len()
    &&& order.no_duplicates()
    &&& forall|k: int| 0 <= k < order.len() ==> #[trigger] order[k] < bs.len()
    &&& forall|a: int, b: int| 0 <= a < b < order.len() ==> index_lt(bs, #[trigger] order[a] as int, #[trigger] order[b] as int)
}

/// Whether component `a` sorts strictly before component `b` by key.
fn key_less(a: &Brick, b: &Brick) -> (r: bool)
    ensures
        r == key_lt(row_key(*a), row_key(*b)),
{
    match (&a.interface, &b.interface) {
        (Some(x), Some(y)) => {
            if lex_less(x.as_str(), y.as_str()) {
                true
            } else if str_eq(x.as_str(), y.as_str()) {
                lex_less(a.name.as_str(), b.name.as_str())
            } else {
                false
            }
        },
        (Some(_), None) => true,
        (None, Some(_)) => false,
        (None, None) => lex_less(a.name.as_str(), b.name.as_str()),
    }
}

/// The order in which components are shown: grouped by interface
/// (alphabetically), components without an interface last, each group by name;
/// a stable sort, so equal keys keep their order.
pub fn display_order(bs: &Vec<Brick>) -> (order: Vec<usize>)
    ensures
        is_display_order(bs@, order@),
{
    let mut order: Vec<usize> = Vec::new();
    let mut i: usize = 0;
    while i < bs.len()
        invariant
            i <= bs.len(),
            order@.len() == i,
            order@.no_duplicates(),
            forall|k: int| 0 <= k < order@.len() ==> #[trigger] order@[k] < i,
            forall|a: int, b: int|
                0 <= a < b < order@.len() ==> index_lt(bs@, #[trigger] order@[a] as int, #[trigger] order@[b] as int),
        decreases bs.len() - i,
    {
        let mut p: usize = 0;
        while p < order.len() && !key_less(&bs[i], &bs[order[p]])
            invariant
                i < bs.len(),
                p <= order@.len(),
                forall|k: int| 0 <= k < order@.len() ==> #[trigger] order@[k] < i,
                forall|k: int| 0 <= k < p ==> !key_lt(row_key(bs@[i as int]), row_key(bs@[#[trigger] order@[k] as int])),
            decreases order@.len() - p,
        {
            p += 1;
        }
        let ghost old_order = order@;
        proof {
            assert forall|k: int| p <= k < old_order.len() implies key_lt(
                row_key(bs@[i as int]),
                row_key(bs@[#[trigger] old_order[k] as int]),
            ) by {
                if k > p {
                    let x = row_key(bs@[old_order[p as int] as int]);
                    let y = row_key(bs@[old_order[k] as int]);
                    let z = row_key(bs@[i as int]);
                    lemma_key_order(z, x, y);
                    lemma_key_order(x, y, z);
                    assert(index_lt(bs@, old_order[p as int] as int, old_order[k] as int));
                }
            }
        }
        order.insert(p, i);
        proof {
            assert forall|a: int, b: int| 0 <= a < b < order@.len() implies index_lt(
                bs@,
                #[trigger] order@[a] as int,
                #[trigger] order@[b] as int,
            ) by {
                let z = row_key(bs@[i as int]);
                if a == p {
                    let y = row_key(bs@[order@[b] as int]);
                    assert(order@[b] == old_order[b - 1]);
                    assert(key_lt(z, y));
                } else if b == p {
                    let x = row_key(bs@[order@[a] as int]);
                    assert(order@[a] == old_order[a]);
                    lemma_key_order(x, z, x);
                    assert(!key_lt(z, x));
                } else {
                    let a0 = if a < p { a } else { a - 1 };
                    let b0 = if b < p { b } else { b - 1 };
                    assert(order@[a] == old_order[a0]);
                    assert(order@[b] == old_order[b0]);
                }
            }
            assert forall|k: int| 0 <= k < order@.len() implies #[trigger] order@[k] < i + 1 by {
                if k < p {
                    assert(order@[k] == old_order[k]);
                } else if k > p {
                    assert(order@[k] == old_order[k - 1]);
                }
            }
            assert forall|a: int, b: int| 0 <= a < order@.len() && 0 <= b < order@.len() && a != b implies order@[a] != order@[b] by {
                if a != p && b != p {
                    let a0 = if a < p { a } else { a - 1 };
                    let b0 = if b < p { b } else { b - 1 };
                    assert(order@[a] == old_order[a0]);
                    assert(order@[b] == old_order[b0]);
                } else if a == p {
                    let b0 = if b < p { b } else { b - 1 };
                    assert(order@[b] == old_order[b0]);
                } else {
                    let a0 = if a < p { a } else { a - 1 };
                    assert(order@[a] == old_order[a0]);
                }
            }
        }
        i += 1;
    }
    order
}

/// The state a cell starts in: direct when the project lists the brick, transitive
/// when the brick is reachable from what it lists, absent otherwise.
pub open spec fn initial_state(g: Map<Seq<char>, Vec<String>>, direct: Seq<Seq<char>>, name: Seq<char>) -> DepState {
    if direct.contains(name) {
        DepState::Direct
    } else if reachable(g, direct.to_set(), name) {
        DepState::Transitive
    } else {
        DepState::Absent
    }
}

/// The interactive editor's state.
pub struct App {
    pub rows: Vec<GridRow>,
    pub cols: Vec<GridCol>,
    /// `cells[row][col]`.
    pub cells: Vec<Vec<DepState>>,
    pub modified_cols: Vec<bool>,
    pub modified_rows: Vec<bool>,
    pub cursor_row: usize,
    pub cursor_col: usize,
    pub scroll_row: usize,
    pub scroll_col: usize,
    pub status: String,
    pub quit: bool,
    pub workspace_root: PathBuf,
    pub input_mode: InputMode,
    pub input_buffer: String,
    pub pending_g: bool,
    pub confirm_quit: bool,
    pub fold_active: bool,
    pub available_profiles: Vec<Profile>,
    pub viewed_profile_idx: usize,
    /// Component dependency graph, used to recompute transitive states on toggle.
    pub comp_deps: DepMap,
    /// Direct deps per project column (indexed by column).
    pub project_direct_deps: Vec<Vec<String>>,
}

/// The cursor after moving one row up (see [`App::move_up`]).
pub open spec fn moved_up(a: App, b: App) -> bool {
    &&& b == (App { cursor_row: b.cursor_row, fold_active: b.fold_active, ..a })
    &&& a.fold_active ==> exists|ch: Option<Vec<String>>, lv: Seq<Vec<String>>|
        #![trigger a.cursor_chain(ch), a.cursor_levels(lv)]
        a.cursor_chain(ch) && a.cursor_levels(lv) && b.cursor_row == hit_or(
            prev_hit(a.rows@, a.cursor_row as int, fold_seq(ch, lv)),
            a.cursor_row as int,
        )
    &&& !a.fold_active ==> b.cursor_row == if a.cursor_row > 0 {
        a.cursor_row - 1
    } else {
        0
    }
    &&& b.fold_active == (a.fold_active && is_transitive_at(
        cell_views(a.cells@),
        b.cursor_row as int,
        a.cursor_col as int,
    ))
}

/// The cursor after moving one row down (see [`App::move_down`]).
pub open spec fn moved_down(a: App, b: App) -> bool {
    &&& b == (App { cursor_row: b.cursor_row, fold_active: b.fold_active, ..a })
    &&& a.fold_active ==> exists|ch: Option<Vec<String>>, lv: Seq<Vec<String>>|
        #![trigger a.cursor_chain(ch), a.cursor_levels(lv)]
        a.cursor_chain(ch) && a.cursor_levels(lv) && b.cursor_row == hit_or(
            next_hit(a.rows@, a.cursor_row as int, fold_seq(ch, lv)),
            a.cursor_row as int,
        )
    &&& !a.fold_active ==> b.cursor_row == if a.cursor_row + 1 < a.rows@.len() {
        a.cursor_row + 1
    } else {
        a.cursor_row as int
    }
    &&& b.fold_active == (a.fold_active && is_transitive_at(
        cell_views(a.cells@),
        b.cursor_row as int,
        a.cursor_col as int,
    ))
}

/// The cursor after moving one column left.
pub open spec fn moved_left(a: App, b: App) -> bool {
    &&& b == (App { cursor_col: b.cursor_col, fold_active: b.fold_active, ..a })
    &&& b.cursor_col == if a.cursor_col > 0 {
        a.cursor_col - 1
    } else {
        0
    }
    &&& b.fold_active == (a.fold_active && is_transitive_at(
        cell_views(a.cells@),
        a.cursor_row as int,
        b.cursor_col as int,
    ))
}

/// The cursor after moving one column right.
pub open spec fn moved_right(a: App, b: App) -> bool {
    &&& b == (App { cursor_col: b.cursor_col, fold_active: b.fold_active, ..a })
    &&& b.cursor_col == if a.cursor_col + 1 < a.cols@.len() {
        a.cursor_col + 1
    } else {
        a.cursor_col as int
    }
    &&& b.fold_active == (a.fold_active && is_transitive_at(
        cell_views(a.cells@),
        a.cursor_row as int,
        b.cursor_col as int,
    ))
}

/// The fold view switched while on a transitive cell.
pub open spec fn fold_toggled(a: App, b: App) -> bool {
    &&& b == (App {
        fold_active: if is_transitive_at(
            cell_views(a.cells@),
            a.cursor_row as int,
            a.cursor_col as int,
        ) {
            !a.fold_active
        } else {
            a.fold_active
        },
        ..a
    })
}

/// The cell under the cursor toggled and its column recomputed.
pub open spec fn cell_toggled(a: App, b: App) -> bool {
    &&& b.wf()
    &&& b == (App { cells: b.cells, modified_cols: b.modified_cols, ..a })
    &&& if a.cursor_row < a.rows@.len() && a.cursor_col < a.cols@.len() {
        toggled(
            a.comp_deps@,
            a.rows@,
            cell_views(a.cells@),
            cell_views(b.cells@),
            a.modified_cols@,
            b.modified_cols@,
            a.cursor_row as int,
            a.cursor_col as int,
        )
    } else {
        b.cells == a.cells && b.modified_cols == a.modified_cols
    }
}

/// Project-name input begun.
pub open spec fn creation_started(a: App, b: App) -> bool {
    &&& b == (App {
        input_mode: InputMode::CreatingProject,
        input_buffer: b.input_buffer,
        status: b.status,
        ..a
    })
    &&& b.input_buffer@ == Seq::<char>::empty()
    &&& b.status@ == "New project name: "@
}

/// One character appended to the input.
pub open spec fn typed(a: App, b: App, ch: char) -> bool {
    &&& b == (App { input_buffer: b.input_buffer, ..a })
    &&& b.input_buffer@ == a.input_buffer@.push(ch)
}

/// The last input character deleted.
pub open spec fn backspaced(a: App, b: App) -> bool {
    &&& b == (App { input_buffer: b.input_buffer, ..a })
    &&& b.input_buffer@ == if a.input_buffer@.len() > 0 {
        a.input_buffer@.drop_last()
    } else {
        a.input_buffer@
    }
}

/// Input mode left and the input discarded.
pub open spec fn input_cancelled(a: App, b: App) -> bool {
    &&& b == (App {
        input_mode: InputMode::Normal,
        input_buffer: b.input_buffer,
        status: b.status,
        ..a
    })
    &&& b.input_buffer@ == Seq::<char>::empty()
    &&& b.status@ == if a.cols@.len() == 0 {
        status_no_projects()
    } else {
        status_help()
    }
}

/// Interface input begun for the component under the cursor.
pub open spec fn interface_edit_started(a: App, b: App) -> bool {
    &&& ({
        let row = a.rows@[a.cursor_row as int];
        if row.kind != RowKind::Component {
            &&& b == (App { status: b.status, ..a })
            &&& b.status@ == "Bases do not have interfaces"@
        } else {
            &&& b == (App {
                input_mode: InputMode::EditingInterface,
                input_buffer: b.input_buffer,
                ..a
            })
            &&& b.input_buffer@ == match row.interface {
                Some(i) => i@,
                None => row.name@,
            }
        }
    })
}

/// The typed interface staged for the row under the cursor.
pub open spec fn interface_confirmed(a: App, b: App) -> bool {
    &&& trim_spec(a.input_buffer@).len() == 0 ==> {
        &&& b == (App {
            input_mode: InputMode::Normal,
            input_buffer: b.input_buffer,
            status: b.status,
            ..a
        })
        &&& b.input_buffer@ == Seq::<char>::empty()
        &&& b.status@ == if a.cols@.len() == 0 {
            status_no_projects()
        } else {
            status_help()
        }
    }
    &&& trim_spec(a.input_buffer@).len() > 0 ==> {
        &&& b == (App {
            rows: b.rows,
            modified_rows: b.modified_rows,
            input_mode: InputMode::Normal,
            input_buffer: b.input_buffer,
            status: b.status,
            ..a
        })
        &&& b.rows@.len() == a.rows@.len()
        &&& forall|r: int| 0 <= r < a.rows@.len() && r != a.cursor_row ==> #[trigger] b.rows@[r] == a.rows@[r]
        &&& ({
            let (o, n) = (a.rows@[a.cursor_row as int], b.rows@[a.cursor_row as int]);
            &&& n.name == o.name && n.kind == o.kind && n.path == o.path
            &&& n.interface matches Some(i) && i@ == trim_spec(a.input_buffer@)
        })
        &&& b.modified_rows@ == a.modified_rows@.update(a.cursor_row as int, true)
        &&& b.input_buffer@ == Seq::<char>::empty()
        &&& b.status@ == "Interface staged — press w to write.  "@ + status_help()
    }
}

/// Status line when there are projects to edit.
pub open spec fn status_help() -> Seq<char> {
    "←→↑↓/hjkl: navigate  Space: toggle  i: interface  w: write  Ctrl-n: new project  q: quit"@
}

/// Status line when there is no project yet.
pub open spec fn status_no_projects() -> Seq<char> {
    "Ctrl-n: new project  q: quit"@
}

impl App {
    /// The dependency graph the editor recomputes transitive states from.
    pub open spec fn deps_graph(&self) -> Map<Seq<char>, Vec<String>> {
        self.comp_deps@
    }

    /// The direct dependencies each project column started with.
    pub open spec fn direct_deps(&self) -> Seq<Seq<Seq<char>>> {
        self.project_direct_deps@.map_values(|v: Vec<String>| string_views(v@))
    }

    /// One row of cells per brick, one cell per project in each, one flag per
    /// project and per brick.
    pub open spec fn wf(&self) -> bool {
        &&& self.cells@.len() == self.rows@.len()
        &&& forall|r: int| 0 <= r < self.cells@.len() ==> (#[trigger] self.cells@[r])@.len() == self.cols@.len()
        &&& self.modified_cols@.len() == self.cols@.len()
        &&& self.modified_rows@.len() == self.rows@.len()
    }

    /// Builds the editor state for `map`: components sorted into interface
    /// groups (see [`display_order`]), then bases; one column per project, its
    /// cells direct, transitive or absent; nothing modified. `available_profiles`
    /// are the workspace's profiles, which the caller discovers on disk.
    pub fn new(map: &WorkspaceMap, available_profiles: Vec<Profile>) -> (app: App)
        ensures
            app.wf(),
            app.rows@.len() == map.components@.len() + map.bases@.len(),
            exists|order: Seq<usize>|
                {
                    &&& is_display_order(map.components@, order)
                    &&& forall|k: int| 0 <= k < order.len() ==> {
                        let c = #[trigger] map.components@[order[k] as int];
                        app.rows@[k] == GridRow { name: c.name, kind: RowKind::Component, interface: c.interface, path: c.path }
                    }
                },
            forall|k: int| 0 <= k < map.bases@.len() ==> {
                let b = #[trigger] map.bases@[k];
                app.rows@[map.components@.len() + k] == GridRow { name: b.name, kind: RowKind::Base, interface: None, path: b.path }
            },
            app.cols@.len() == map.projects@.len(),
            forall|j: int| 0 <= j < map.projects@.len() ==> (#[trigger] app.cols@[j]).name == map.projects@[j].name
                && app.cols@[j].path == map.projects@[j].path,
            forall|n: Seq<char>|
                {
                    &&& (#[trigger] app.deps_graph().contains_key(n) <==> graph_has(map.components@, map.bases@, n))
                    &&& (app.deps_graph().contains_key(n) ==> string_views(app.deps_graph()[n]@) == graph_deps(
                        map.components@,
                        map.bases@,
                        n,
                    ))
                },
            app.direct_deps().len() == map.projects@.len(),
            forall|j: int| 0 <= j < map.projects@.len() ==> #[trigger] app.direct_deps()[j] == string_views(map.projects@[j].deps@),
            forall|r: int, c: int|
                0 <= r < app.rows@.len() && 0 <= c < app.cols@.len() ==> #[trigger] app.cells@[r]@[c] == initial_state(
                    app.deps_graph(),
                    string_views(map.projects@[c].deps@),
                    app.rows@[r].name@,
                ),
            forall|c: int| 0 <= c < app.modified_cols@.len() ==> !#[trigger] app.modified_cols@[c],
            forall|r: int| 0 <= r < app.modified_rows@.len() ==> !#[trigger] app.modified_rows@[r],
            app.cursor_row == 0 && app.cursor_col == 0 && app.scroll_row == 0 && app.scroll_col == 0,
            app.status@ == if map.projects@.len() == 0 {
                "Ctrl-Ctrl-n: new project  q: quit"@
            } else {
                "←→↑↓/hjkl: navigate  Space: toggle  i: interface  w: write  Ctrl-Ctrl-n: new project  q: quit"@
            },
            !app.quit && !app.pending_g && !app.confirm_quit && !app.fold_active,
            app.workspace_root == map.root,
            app.input_mode == InputMode::Normal,
            app.input_buffer@.len() == 0,
            app.available_profiles@ == available_profiles@,
            app.viewed_profile_idx == 0,
    {
        let comps = &map.components;
        let order = display_order(comps);
        let mut rows: Vec<GridRow> = Vec::new();
        let mut k: usize = 0;
        while k < order.len()
            invariant
                k <= order@.len(),
                is_display_order(comps@, order@),
                rows@.len() == k,
                forall|q: int| 0 <= q < k ==> {
                    let c = #[trigger] comps@[order@[q] as int];
                    rows@[q] == GridRow { name: c.name, kind: RowKind::Component, interface: c.interface, path: c.path }
                },
            decreases order@.len() - k,
        {
            let c = &comps[order[k]];
            let iface = match &c.interface {
                Some(i) => Some(i.clone()),
                None => None,
            };
            rows.push(GridRow { name: c.name.clone(), kind: RowKind::Component, interface: iface, path: c.path.clone() });
            k += 1;
        }
        let nc = rows.len();
        let mut k: usize = 0;
        while k < map.bases.len()
            invariant
                k <= map.bases@.len(),
                nc == comps@.len(),
                order@.len() == nc,
                rows@.len() == nc + k,
                forall|q: int| 0 <= q < order@.len() ==> {
                    let c = #[trigger] comps@[order@[q] as int];
                    rows@[q] == GridRow { name: c.name, kind: RowKind::Component, interface: c.interface, path: c.path }
                },
                forall|q: int| 0 <= q < k ==> {
                    let b = #[trigger] map.bases@[q];
                    rows@[nc + q] == GridRow { name: b.name, kind: RowKind::Base, interface: None, path: b.path }
                },
            decreases map.bases@.len() - k,
        {
            let b = &map.bases[k];
            rows.push(GridRow { name: b.name.clone(), kind: RowKind::Base, interface: None, path: b.path.clone() });
            k += 1;
        }

        let mut cols: Vec<GridCol> = Vec::new();
        let mut direct_lists: Vec<Vec<String>> = Vec::new();
        let mut k: usize = 0;
        while k < map.projects.len()
            invariant
                k <= map.projects@.len(),
                cols@.len() == k,
                direct_lists@.len() == k,
                forall|j: int| 0 <= j < k ==> (#[trigger] cols@[j]).name == map.projects@[j].name
                    && cols@[j].path == map.projects@[j].path,
                forall|j: int| 0 <= j < k ==> string_views((#[trigger] direct_lists@[j])@) == string_views(map.projects@[j].deps@),
            decreases map.projects@.len() - k,
        {
            let p = &map.projects[k];
            cols.push(GridCol { name: p.name.clone(), path: p.path.clone() });
            direct_lists.push(clone_names(&p.deps));
            k += 1;
        }

        let mut comp_deps: DepMap = StrMap::new();
        add_brick_deps(&mut comp_deps, comps);
        add_brick_deps(&mut comp_deps, &map.bases);
        proof {
            assert forall|n: Seq<char>| #[trigger] comp_deps@.contains_key(n) implies string_views(comp_deps@[n]@) == graph_deps(comps@, map.bases@, n) by {
                lemma_last_named_bounds(comps@, n);
                lemma_last_named_bounds(map.bases@, n);
            }
        }

        let mut transitive: Vec<Vec<String>> = Vec::new();
        let mut k: usize = 0;
        while k < map.projects.len()
            invariant
                k <= map.projects@.len(),
                transitive@.len() == k,
                forall|j: int, n: Seq<char>| 0 <= j < k ==> (#[trigger] string_views(transitive@[j]@).contains(n) <==> (reachable(
                    comp_deps@,
                    string_views(map.projects@[j].deps@).to_set(),
                    n,
                ) && !string_views(map.projects@[j].deps@).contains(n))),
            decreases map.projects@.len() - k,
        {
            transitive.push(compute_transitive(&map.projects[k].deps, &comp_deps));
            k += 1;
        }

        let n_cols = cols.len();
        let mut cells: Vec<Vec<DepState>> = Vec::new();
        let mut r: usize = 0;
        while r < rows.len()
            invariant
                r <= rows@.len(),
                n_cols == map.projects@.len(),
                transitive@.len() == n_cols,
                cells@.len() == r,
                forall|j: int, n: Seq<char>| 0 <= j < n_cols ==> (#[trigger] string_views(transitive@[j]@).contains(n) <==> (reachable(
                    comp_deps@,
                    string_views(map.projects@[j].deps@).to_set(),
                    n,
                ) && !string_views(map.projects@[j].deps@).contains(n))),
                forall|q: int| 0 <= q < r ==> (#[trigger] cells@[q])@.len() == n_cols,
                forall|q: int, c: int|
                    0 <= q < r && 0 <= c < n_cols ==> #[trigger] cells@[q]@[c] == initial_state(
                        comp_deps@,
                        string_views(map.projects@[c].deps@),
                        rows@[q].name@,
                    ),
            decreases rows@.len() - r,
        {
            let mut line: Vec<DepState> = Vec::new();
            let mut c: usize = 0;
            while c < n_cols
                invariant
                    r < rows@.len(),
                    c <= n_cols,
                    n_cols == map.projects@.len(),
                    transitive@.len() == n_cols,
                    line@.len() == c,
                    forall|j: int, n: Seq<char>| 0 <= j < n_cols ==> (#[trigger] string_views(transitive@[j]@).contains(n) <==> (reachable(
                        comp_deps@,
                        string_views(map.projects@[j].deps@).to_set(),
                        n,
                    ) && !string_views(map.projects@[j].deps@).contains(n))),
                    forall|q: int| 0 <= q < c ==> #[trigger] line@[q] == initial_state(
                        comp_deps@,
                        string_views(map.projects@[q].deps@),
                        rows@[r as int].name@,
                    ),
                decreases n_cols - c,
            {
                let name = rows[r].name.as_str();
                let st = if contains_str(&map.projects[c].deps, name) {
                    DepState::Direct
                } else if contains_str(&transitive[c], name) {
                    DepState::Transitive
                } else {
                    DepState::Absent
                };
                proof {
                    let ghost nm = rows@[r as int].name@;
                    assert(string_views(transitive@[c as int]@).contains(nm) <==> (reachable(
                        comp_deps@,
                        string_views(map.projects@[c as int].deps@).to_set(),
                        nm,
                    ) && !string_views(map.projects@[c as int].deps@).contains(nm)));
                }
                line.push(st);
                c += 1;
            }
            cells.push(line);
            r += 1;
        }

        let mut modified_cols: Vec<bool> = Vec::new();
        let mut k: usize = 0;
        while k < n_cols
            invariant
                k <= n_cols,
                modified_cols@.len() == k,
                forall|j: int| 0 <= j < k ==> !#[trigger] modified_cols@[j],
            decreases n_cols - k,
        {
            modified_cols.push(false);
            k += 1;
        }
        let mut modified_rows: Vec<bool> = Vec::new();
        let mut k: usize = 0;
        while k < rows.len()
            invariant
                k <= rows@.len(),
                modified_rows@.len() == k,
                forall|j: int| 0 <= j < k ==> !#[trigger] modified_rows@[j],
            decreases rows@.len() - k,
        {
            modified_rows.push(false);
            k += 1;
        }

        let status = if n_cols == 0 {
            crate::text::owned("Ctrl-Ctrl-n: new project  q: quit")
        } else {
            crate::text::owned("←→↑↓/hjkl: navigate  Space: toggle  i: interface  w: write  Ctrl-Ctrl-n: new project  q: quit")
        };
        let app = App {
            rows,
            cols,
            cells,
            modified_cols,
            modified_rows,
            cursor_row: 0,
            cursor_col: 0,
            scroll_row: 0,
            scroll_col: 0,
            status,
            quit: false,
            workspace_root: map.root.clone(),
            input_mode: InputMode::Normal,
            input_buffer: String::new(),
            pending_g: false,
            confirm_quit: false,
            fold_active: false,
            available_profiles,
            viewed_profile_idx: 0,
            comp_deps,
            project_direct_deps: direct_lists,
        };
        proof {
            assert(is_display_order(map.components@, order@));
        }
        app
    }

    /// The upstream chain the cursor shows: see [`App::chain_for_cursor`].
    pub open spec fn cursor_chain(&self, ch: Option<Vec<String>>) -> bool {
        if is_transitive_at(cell_views(self.cells@), self.cursor_row as int, self.cursor_col as int)
            && self.cursor_row < self.rows@.len() && self.cursor_col < self.project_direct_deps@.len() {
            shortest_chain(
                self.comp_deps@,
                string_views(self.project_direct_deps@[self.cursor_col as int]@).to_set(),
                self.rows@[self.cursor_row as int].name@,
                ch,
            )
        } else {
            ch is None
        }
    }

    /// The downstream levels the cursor shows: see [`App::downstream_levels_for_cursor`].
    pub open spec fn cursor_levels(&self, lv: Seq<Vec<String>>) -> bool {
        if is_transitive_at(cell_views(self.cells@), self.cursor_row as int, self.cursor_col as int)
            && self.cursor_row < self.rows@.len() {
            bfs_levels(
                self.comp_deps@,
                row_names(self.rows@).to_set(),
                self.rows@[self.cursor_row as int].name@,
                lv,
            )
        } else {
            lv.len() == 0
        }
    }

    /// The number of component rows.
    pub fn n_components(&self) -> (n: usize)
        ensures
            n == count_components(self.rows@, self.rows@.len() as int),
    {
        let mut n: usize = 0;
        let mut i: usize = 0;
        while i < self.rows.len()
            invariant
                i <= self.rows@.len(),
                n == count_components(self.rows@, i as int),
                n <= i,
            decreases self.rows@.len() - i,
        {
            if self.rows[i].kind == RowKind::Component {
                n += 1;
            }
            i += 1;
        }
        n
    }

    /// Switches the fold view on or off while the cursor is on a transitive cell.
    pub fn toggle_fold(&mut self)
        ensures
            fold_toggled(*old(self), *final(self)),
    {
        if transitive_at(&self.cells, self.cursor_row, self.cursor_col) {
            self.fold_active = !self.fold_active;
        }
    }

    /// The names the fold view moves between: the upstream chain and every
    /// downstream level of the hovered cell.
    fn fold_names(&self) -> (names: Vec<String>)
        ensures
            exists|ch: Option<Vec<String>>, lv: Seq<Vec<String>>|
                #![trigger self.cursor_chain(ch), self.cursor_levels(lv)]
                self.cursor_chain(ch) && self.cursor_levels(lv) && string_views(names@) == fold_seq(ch, lv),
    {
        let ch = self.chain_for_cursor();
        let lv = self.downstream_levels_for_cursor();
        let mut names: Vec<String> = match &ch {
            Some(p) => clone_names(p),
            None => Vec::new(),
        };
        let ghost base = string_views(names@);
        proof {
            assert(lv@.take(0) =~= Seq::<Vec<String>>::empty());
        }
        let mut i: usize = 0;
        while i < lv.len()
            invariant
                i <= lv@.len(),
                base == chain_seq(ch),
                string_views(names@) == base + levels_seq(lv@.take(i as int)),
            decreases lv@.len() - i,
        {
            let more = clone_names(&lv[i]);
            let ghost before = names@;
            let mut j: usize = 0;
            while j < more.len()
                invariant
                    j <= more@.len(),
                    string_views(names@) == string_views(before) + string_views(more@).take(j as int),
                decreases more@.len() - j,
            {
                let ghost prev = names@;
                names.push(more[j].clone());
                proof {
                    assert(string_views(names@) =~= string_views(prev).push(more@[j as int]@));
                    assert(string_views(more@).take(j + 1) =~= string_views(more@).take(j as int).push(
                        more@[j as int]@,
                    ));
                    assert(string_views(names@) =~= string_views(before) + string_views(more@).take(j + 1));
                }
                j += 1;
            }
            proof {
                assert(string_views(more@).take(more@.len() as int) =~= string_views(more@));
                assert(lv@.take(i + 1).drop_last() =~= lv@.take(i as int));
                assert(lv@.take(i + 1).last() == lv@[i as int]);
                assert(string_views(names@) =~= base + levels_seq(lv@.take(i + 1)));
            }
            i += 1;
        }
        proof {
            assert(lv@.take(lv@.len() as int) =~= lv@);
        }
        names
    }

    /// Moves the cursor one row up; in the fold view, to the nearest row above
    /// that is on the hovered cell's chain or downstream levels. Leaving a
    /// transitive cell ends the fold view.
    pub fn move_up(&mut self)
        requires
            old(self).fold_active ==> old(self).cursor_row <= old(self).rows@.len(),
        ensures
            moved_up(*old(self), *final(self)),
    {
        if self.fold_active {
            let names = self.fold_names();
            match prev_in(&self.rows, self.cursor_row, &names) {
                Some(r) => {
                    self.cursor_row = r;
                },
                None => {},
            }
        } else if self.cursor_row > 0 {
            self.cursor_row -= 1;
        }
        if !transitive_at(&self.cells, self.cursor_row, self.cursor_col) {
            self.fold_active = false;
        }
    }

    /// Moves the cursor one row down; in the fold view, to the nearest row below
    /// that is on the hovered cell's chain or downstream levels. Leaving a
    /// transitive cell ends the fold view.
    pub fn move_down(&mut self)
        requires
            old(self).cursor_row < usize::MAX,
        ensures
            moved_down(*old(self), *final(self)),
    {
        if self.fold_active {
            let names = self.fold_names();
            match next_in(&self.rows, self.cursor_row, &names) {
                Some(r) => {
                    self.cursor_row = r;
                },
                None => {},
            }
        } else if self.cursor_row + 1 < self.rows.len() {
            self.cursor_row += 1;
        }
        if !transitive_at(&self.cells, self.cursor_row, self.cursor_col) {
            self.fold_active = false;
        }
    }

    /// Moves the cursor one column left; leaving a transitive cell ends the fold view.
    pub fn move_left(&mut self)
        ensures
            moved_left(*old(self), *final(self)),
    {
        if self.cursor_col > 0 {
            self.cursor_col -= 1;
        }
        if !transitive_at(&self.cells, self.cursor_row, self.cursor_col) {
            self.fold_active = false;
        }
    }

    /// Moves the cursor one column right; leaving a transitive cell ends the fold view.
    pub fn move_right(&mut self)
        requires
            old(self).cursor_col < usize::MAX,
        ensures
            moved_right(*old(self), *final(self)),
    {
        if self.cursor_col + 1 < self.cols.len() {
            self.cursor_col += 1;
        }
        if !transitive_at(&self.cells, self.cursor_row, self.cursor_col) {
            self.fold_active = false;
        }
    }

    /// Adjusts the scroll offsets so the cursor stays within a window of
    /// `visible_rows` by `visible_cols` (each at least 1).
    pub fn scroll_to_cursor(&mut self, visible_rows: usize, visible_cols: usize)
        requires
            old(self).cursor_row >= old(self).scroll_row ==> old(self).scroll_row + at_least_one(visible_rows)
                <= usize::MAX && old(self).cursor_row < usize::MAX,
            old(self).cursor_col >= old(self).scroll_col ==> old(self).scroll_col + at_least_one(visible_cols)
                <= usize::MAX && old(self).cursor_col < usize::MAX,
        ensures
            *final(self) == (App {
                scroll_row: scrolled(old(self).cursor_row as int, old(self).scroll_row as int, at_least_one(visible_rows)) as usize,
                scroll_col: scrolled(old(self).cursor_col as int, old(self).scroll_col as int, at_least_one(visible_cols)) as usize,
                ..*old(self)
            }),
    {
        let vr = if visible_rows > 0 {
            visible_rows
        } else {
            1
        };
        let vc = if visible_cols > 0 {
            visible_cols
        } else {
            1
        };
        if self.cursor_row < self.scroll_row {
            self.scroll_row = self.cursor_row;
        } else if self.cursor_row >= self.scroll_row + vr {
            self.scroll_row = self.cursor_row + 1 - vr;
        }
        if self.cursor_col < self.scroll_col {
            self.scroll_col = self.cursor_col;
        } else if self.cursor_col >= self.scroll_col + vc {
            self.scroll_col = self.cursor_col + 1 - vc;
        }
    }

    /// Toggles the cell under the cursor between `Direct` and `Absent`, marks its
    /// column modified and recomputes the column's transitive cells. Transitive
    /// cells are read-only; a cursor outside the grid changes nothing.
    pub fn toggle_cell(&mut self)
        requires
            old(self).wf(),
        ensures
            cell_toggled(*old(self), *final(self)),
    {
        let r = self.cursor_row;
        let c = self.cursor_col;
        if r < self.rows.len() && c < self.cols.len() {
            toggle_at(&self.rows, &mut self.cells, &mut self.modified_cols, &self.comp_deps, r, c);
            proof {
                assert forall|q: int| 0 <= q < self.cells@.len() implies (#[trigger] self.cells@[q])@.len() == self.cols@.len() by {
                    assert(cell_views(self.cells@)[q] == self.cells@[q]@);
                    assert(cell_views(old(self).cells@)[q] == old(self).cells@[q]@);
                }
            }
        }
    }

    /// Enters project-name input.
    pub fn start_create_project(&mut self)
        ensures
            creation_started(*old(self), *final(self)),
    {
        self.input_mode = InputMode::CreatingProject;
        self.input_buffer = String::new();
        self.status = owned("New project name: ");
    }

    /// Appends a typed character to the input.
    pub fn input_char(&mut self, ch: char)
        ensures
            typed(*old(self), *final(self), ch),
    {
        push_char(&mut self.input_buffer, ch);
    }

    /// Deletes the last character of the input, if any.
    pub fn input_backspace(&mut self)
        ensures
            backspaced(*old(self), *final(self)),
    {
        let mut cs = chars_of(self.input_buffer.as_str());
        if cs.len() > 0 {
            cs.pop();
        }
        self.input_buffer = string_of(cs.as_slice());
    }

    /// The name of the project being created: the input without surrounding
    /// whitespace, if it is a valid brick name (see [`validate_brick_name`]).
    pub fn pending_project_name(&self) -> (r: Result<String, String>)
        ensures
            match brick_name_error(trim_spec(self.input_buffer@)) {
                Some(msg) => r matches Err(e) && e@ == msg,
                None => r matches Ok(n) && n@ == trim_spec(self.input_buffer@),
            },
    {
        let name = trim(self.input_buffer.as_str());
        match validate_brick_name(name.as_str()) {
            Ok(()) => Ok(name),
            Err(e) => Err(e),
        }
    }

    /// Ends project-name input. The name is the input without surrounding
    /// whitespace; a name that [`validate_brick_name`] rejects gives its message and
    /// changes nothing. For a valid name, `created` is what creating the project on
    /// disk gave: its directory, or the failure, which is passed on and changes
    /// nothing; on success the column is added as [`App::add_project_column`] says.
    pub fn confirm_create_project(&mut self, created: Result<PathBuf, String>) -> (r: Result<(), String>)
        ensures
            match brick_name_error(trim_spec(old(self).input_buffer@)) {
                Some(msg) => r matches Err(e) && e@ == msg && *final(self) == *old(self),
                None => match created {
                    Err(m) => r matches Err(e) && e == m && *final(self) == *old(self),
                    Ok(dir) => r is Ok && project_column_added(
                        *old(self),
                        *final(self),
                        trim_spec(old(self).input_buffer@),
                        dir,
                    ),
                },
            },
    {
        let name = match self.pending_project_name() {
            Ok(n) => n,
            Err(e) => return Err(e),
        };
        match created {
            Err(m) => Err(m),
            Ok(dir) => {
                let ghost n = name@;
                let ghost before = *self;
                let ghost d = dir;
                self.add_project_column(name, dir);
                proof {
                    assert(self.cols@.drop_last() =~= before.cols@);
                    assert(self.cols@.last() == GridCol { name: self.cols@.last().name, path: d });
                }
                Ok(())
            },
        }
    }

    /// Adds the column of a project just created on disk at `project_dir`: an
    /// absent cell in every row, an unmodified flag, the cursor on the new column;
    /// input ends and the status reports the creation.
    pub fn add_project_column(&mut self, name: String, project_dir: PathBuf)
        ensures
            *final(self) == (App {
                cols: final(self).cols,
                cells: final(self).cells,
                modified_cols: final(self).modified_cols,
                cursor_col: final(self).cursor_col,
                input_mode: InputMode::Normal,
                input_buffer: final(self).input_buffer,
                status: final(self).status,
                ..*old(self)
            }),
            final(self).cols@ == old(self).cols@.push(GridCol { name: name, path: project_dir }),
            final(self).cells@.len() == old(self).cells@.len(),
            forall|r: int| 0 <= r < old(self).cells@.len() ==> (#[trigger] final(self).cells@[r])@ == old(
                self,
            ).cells@[r]@.push(DepState::Absent),
            final(self).modified_cols@ == old(self).modified_cols@.push(false),
            final(self).cursor_col == old(self).cols@.len(),
            final(self).input_buffer@ == Seq::<char>::empty(),
            final(self).status@ == "Created project '"@ + name@ + "'.  "@ + status_help(),
            old(self).wf() ==> final(self).wf(),
    {
        let mut status = owned("Created project '");
        status.append(name.as_str());
        status.append("'.  ");
        status.append("←→↑↓/hjkl: navigate  Space: toggle  i: interface  w: write  Ctrl-n: new project  q: quit");
        let mut cells: Vec<Vec<DepState>> = Vec::new();
        std::mem::swap(&mut cells, &mut self.cells);
        let ghost old_cells = cells@;
        let mut i: usize = 0;
        while i < cells.len()
            invariant
                i <= cells@.len(),
                cells@.len() == old_cells.len(),
                forall|r: int| 0 <= r < old_cells.len() ==> (#[trigger] cells@[r])@ == if r < i {
                    old_cells[r]@.push(DepState::Absent)
                } else {
                    old_cells[r]@
                },
            decreases cells@.len() - i,
        {
            cells[i].push(DepState::Absent);
            i += 1;
        }
        self.cells = cells;
        self.modified_cols.push(false);
        let new_col_idx = self.cols.len();
        self.cols.push(GridCol { name, path: project_dir });
        self.cursor_col = new_col_idx;
        self.input_mode = InputMode::Normal;
        self.input_buffer = String::new();
        self.status = status;
    }

    /// Leaves input mode, discarding the input.
    pub fn cancel_input(&mut self)
        ensures
            input_cancelled(*old(self), *final(self)),
    {
        self.input_mode = InputMode::Normal;
        self.input_buffer = String::new();
        self.status = if self.cols.len() == 0 {
            owned("Ctrl-n: new project  q: quit")
        } else {
            owned("←→↑↓/hjkl: navigate  Space: toggle  i: interface  w: write  Ctrl-n: new project  q: quit")
        };
    }

    /// Starts editing the interface of the component under the cursor, the input
    /// starting from its interface (or its name); bases have no interface.
    pub fn start_edit_interface(&mut self)
        requires
            old(self).cursor_row < old(self).rows@.len(),
        ensures
            interface_edit_started(*old(self), *final(self)),
    {
        let row = &self.rows[self.cursor_row];
        if row.kind != RowKind::Component {
            self.status = owned("Bases do not have interfaces");
            return;
        }
        let buf = match &row.interface {
            Some(i) => i.clone(),
            None => row.name.clone(),
        };
        self.input_mode = InputMode::EditingInterface;
        self.input_buffer = buf;
    }

    /// Stages the typed interface (without surrounding whitespace) for the row
    /// under the cursor and marks the row modified; an empty input cancels.
    pub fn confirm_edit_interface(&mut self)
        requires
            trim_spec(old(self).input_buffer@).len() > 0 ==> old(self).cursor_row < old(self).rows@.len()
                && old(self).cursor_row < old(self).modified_rows@.len(),
        ensures
            interface_confirmed(*old(self), *final(self)),
    {
        let iface = trim(self.input_buffer.as_str());
        if iface.as_str().is_empty() {
            self.cancel_input();
            return;
        }
        let row_i = self.cursor_row;
        self.rows[row_i].interface = Some(iface);
        self.modified_rows.set(row_i, true);
        self.input_mode = InputMode::Normal;
        self.input_buffer = String::new();
        let mut status = owned("Interface staged — press w to write.  ");
        status.append("←→↑↓/hjkl: navigate  Space: toggle  i: interface  w: write  Ctrl-n: new project  q: quit");
        self.status = status;
    }

    /// The dependency chain when the cursor is on a `Transitive` cell, ordered
    /// from the direct-dep end to the hovered brick: `["cli", "mcp", "scaffold"]`
    /// means project, then cli, then mcp, then scaffold.
    pub fn chain_for_cursor(&self) -> (res: Option<Vec<String>>)
        ensures
            self.cursor_chain(res),
    {
        chain_at(&self.rows, &self.cells, &self.project_direct_deps, &self.comp_deps, self.cursor_row, self.cursor_col)
    }

    /// The downstream breadth-first levels from the hovered cell, over the bricks
    /// that appear as rows; empty unless the cursor is on a `Transitive` cell.
    pub fn downstream_levels_for_cursor(&self) -> (res: Vec<Vec<String>>)
        ensures
            self.cursor_levels(res@),
    {
        levels_at(&self.rows, &self.cells, &self.comp_deps, self.cursor_row, self.cursor_col)
    }

    /// The columns with staged changes, in order.
    pub fn pending_column_writes(&self) -> (r: Vec<usize>)
        ensures
            r@ == flagged(self.modified_cols@, self.cols@.len() as int),
    {
        let n = if self.cols.len() < self.modified_cols.len() {
            self.cols.len()
        } else {
            self.modified_cols.len()
        };
        let mut out: Vec<usize> = Vec::new();
        let mut i: usize = 0;
        while i < n
            invariant
                i <= n,
                n == if self.cols@.len() < self.modified_cols@.len() { self.cols@.len() } else { self.modified_cols@.len() },
                out@ == flagged(self.modified_cols@, i as int),
            decreases n - i,
        {
            if self.modified_cols[i] {
                out.push(i);
            }
            i += 1;
        }
        proof {
            lemma_flagged_past_end(self.modified_cols@, n as int, self.cols@.len() as int);
        }
        out
    }

    /// The rows whose staged interface is to be written, in order.
    pub fn pending_interface_writes(&self) -> (r: Vec<usize>)
        ensures
            r@ == staged_interfaces(self.rows@, self.modified_rows@, self.rows@.len() as int),
    {
        let mut out: Vec<usize> = Vec::new();
        let mut i: usize = 0;
        while i < self.rows.len()
            invariant
                i <= self.rows@.len(),
                out@ == staged_interfaces(self.rows@, self.modified_rows@, i as int),
            decreases self.rows@.len() - i,
        {
            if i < self.modified_rows.len() && self.modified_rows[i] && self.rows[i].interface.is_some() {
                out.push(i);
            }
            i += 1;
        }
        out
    }

    /// Whether row `row_i` belongs to an interface that two or more rows implement.
    pub fn is_multi_impl_interface(&self, row_i: usize) -> (b: bool)
        ensures
            b == (row_i < self.rows@.len() && (self.rows@[row_i as int].interface matches Some(i)
                && count_interface(self.rows@, i@, self.rows@.len() as int) >= 2)),
    {
        if row_i >= self.rows.len() {
            return false;
        }
        match &self.rows[row_i].interface {
            Some(iface) => {
                let mut n: usize = 0;
                let mut k: usize = 0;
                while k < self.rows.len()
                    invariant
                        k <= self.rows@.len(),
                        n == count_interface(self.rows@, iface@, k as int),
                        n <= k,
                    decreases self.rows@.len() - k,
                {
                    match &self.rows[k].interface {
                        Some(x) => {
                            if str_eq(x.as_str(), iface.as_str()) {
                                n += 1;
                            }
                        },
                        None => {},
                    }
                    k += 1;
                }
                n >= 2
            },
            None => false,
        }
    }

    /// Selects row `row_i`'s component, at `rel_path` relative to the workspace
    /// root, as the implementation of its interface in the viewed profile. Gives
    /// back the profile file write that makes this permanent, or `None` when there
    /// is nothing to do: no profiles, no row or no interface, or already selected.
    pub fn toggle_profile_impl(&mut self, row_i: usize, rel_path: String) -> (w: Option<ProfileImplWrite>)
        requires
            old(self).available_profiles@.len() > 0 && row_i < old(self).rows@.len()
                && old(self).rows@[row_i as int].interface is Some ==> old(self).viewed_profile_idx
                < old(self).available_profiles@.len(),
        ensures
            match w {
                None => {
                    &&& *final(self) == *old(self)
                    &&& (old(self).available_profiles@.len() == 0 || row_i >= old(self).rows@.len()
                        || old(self).rows@[row_i as int].interface is None || ({
                        let iface = old(self).rows@[row_i as int].interface->0;
                        let imps = old(self).available_profiles@[old(self).viewed_profile_idx as int].implementations@;
                        imps.contains_key(iface@) && imps[iface@]@ == rel_path@
                    }))
                },
                Some(wr) => {
                    let idx = old(self).viewed_profile_idx as int;
                    let iface = old(self).rows@[row_i as int].interface->0;
                    let p = old(self).available_profiles@[idx];
                    let q = final(self).available_profiles@[idx];
                    &&& *final(self) == (App { available_profiles: final(self).available_profiles, ..*old(self) })
                    &&& row_i < old(self).rows@.len()
                    &&& old(self).rows@[row_i as int].interface is Some
                    &&& final(self).available_profiles@.len() == old(self).available_profiles@.len()
                    &&& forall|k: int| 0 <= k < old(self).available_profiles@.len() && k != idx ==> #[trigger] final(self).available_profiles@[k] == old(self).available_profiles@[k]
                    &&& q.name == p.name && q.path == p.path && q.libraries == p.libraries
                    &&& q.implementations@ == p.implementations@.insert(iface@, rel_path)
                    &&& !(p.implementations@.contains_key(iface@) && p.implementations@[iface@]@ == rel_path@)
                    &&& wr.profile_path == p.path
                    &&& wr.interface@ == iface@
                    &&& wr.rel_path@ == rel_path@
                },
            },
    {
        if self.available_profiles.len() == 0 || row_i >= self.rows.len() {
            return None;
        }
        let iface = match &self.rows[row_i].interface {
            Some(i) => i.clone(),
            None => {
                return None;
            },
        };
        let idx = self.viewed_profile_idx;
        match self.available_profiles[idx].implementations.get(iface.as_str()) {
            Some(cur) => {
                if str_eq(cur.as_str(), rel_path.as_str()) {
                    return None;
                }
            },
            None => {},
        }
        let mut profile = self.available_profiles.remove(idx);
        profile.implementations.insert(iface.clone(), rel_path.clone());
        let profile_path = profile.path.clone();
        self.available_profiles.insert(idx, profile);
        proof {
            assert forall|k: int| 0 <= k < old(self).available_profiles@.len() && k != idx implies #[trigger] self.available_profiles@[k] == old(self).available_profiles@[k] by {
                if k < idx {
                } else {
                }
            }
        }
        Some(ProfileImplWrite { profile_path, interface: iface, rel_path })
    }
}

/// A profile file update: select `rel_path` for `interface` in the profile at `profile_path`.
pub struct ProfileImplWrite {
    pub profile_path: PathBuf,
    pub interface: String,
    pub rel_path: String,
}

/// The status line after writing `written` staged changes.
pub fn write_status(written: usize) -> (s: String)
    ensures
        s@ == if written == 0 {
            "No changes to write."@
        } else {
            "Wrote "@ + crate::text::decimal_spec(written as nat) + " change(s)."@
        },
{
    if written == 0 {
        owned("No changes to write.")
    } else {
        let mut s = owned("Wrote ");
        let n = crate::text::decimal(written);
        s.append(n.as_str());
        s.append(" change(s).");
        s
    }
}

/// `v` if it is a row index, `default` if it is `-1`.
pub open spec fn hit_or(v: int, default: int) -> int {
    if v >= 0 {
        v
    } else {
        default
    }
}

/// `v`, or 1 when `v` is 0.
pub open spec fn at_least_one(v: usize) -> int {
    if v > 0 {
        v as int
    } else {
        1
    }
}

/// The scroll offset that keeps `cursor` inside a window of `window` lines starting at `scroll`.
pub open spec fn scrolled(cursor: int, scroll: int, window: int) -> int {
    if cursor < scroll {
        cursor
    } else if cursor >= scroll + window {
        cursor + 1 - window
    } else {
        scroll
    }
}

/// The number of component rows among the first `k`.
pub open spec fn count_components(rows: Seq<GridRow>, k: int) -> nat
    decreases k,
{
    if k <= 0 {
        0
    } else {
        count_components(rows, k - 1) + if rows[k - 1].kind == RowKind::Component {
            1nat
        } else {
            0nat
        }
    }
}

/// The number of rows among the first `k` that declare interface `iface`.
pub open spec fn count_interface(rows: Seq<GridRow>, iface: Seq<char>, k: int) -> nat
    decreases k,
{
    if k <= 0 {
        0
    } else {
        count_interface(rows, iface, k - 1) + if rows[k - 1].interface matches Some(x) && x@ == iface {
            1nat
        } else {
            0nat
        }
    }
}

/// The positions below `k` whose flag is set, in order.
pub open spec fn flagged(flags: Seq<bool>, k: int) -> Seq<usize>
    decreases k,
{
    if k <= 0 {
        Seq::empty()
    } else if k - 1 < flags.len() && flags[k - 1] {
        flagged(flags, k - 1).push((k - 1) as usize)
    } else {
        flagged(flags, k - 1)
    }
}

proof fn lemma_flagged_past_end(flags: Seq<bool>, n: int, k: int)
    requires
        0 <= n <= k,
        n == flags.len() || n == k,
    ensures
        flagged(flags, k) == flagged(flags, n),
    decreases k - n,
{
    if k > n {
        lemma_flagged_past_end(flags, n, k - 1);
    }
}

/// The rows below `k` that are marked modified and carry an interface, in order.
pub open spec fn staged_interfaces(rows: Seq<GridRow>, flags: Seq<bool>, k: int) -> Seq<usize>
    decreases k,
{
    if k <= 0 {
        Seq::empty()
    } else if k - 1 < flags.len() && flags[k - 1] && rows[k - 1].interface is Some {
        staged_interfaces(rows, flags, k - 1).push((k - 1) as usize)
    } else {
        staged_interfaces(rows, flags, k - 1)
    }
}

/// The names of a chain, if there is one.
pub open spec fn chain_seq(ch: Option<Vec<String>>) -> Seq<Seq<char>> {
    match ch {
        Some(p) => string_views(p@),
        None => Seq::empty(),
    }
}

/// The names of all levels, level by level.
pub open spec fn levels_seq(lv: Seq<Vec<String>>) -> Seq<Seq<char>>
    decreases lv.len(),
{
    if lv.len() == 0 {
        Seq::empty()
    } else {
        levels_seq(lv.drop_last()) + string_views(lv.last()@)
    }
}

/// The names the fold view moves between.
pub open spec fn fold_seq(ch: Option<Vec<String>>, lv: Seq<Vec<String>>) -> Seq<Seq<char>> {
    chain_seq(ch) + levels_seq(lv)
}

/// The nearest row above `r` whose name is in `s`, or -1.
pub open spec fn prev_hit(rows: Seq<GridRow>, r: int, s: Seq<Seq<char>>) -> int
    decreases r,
{
    if r <= 0 {
        -1
    } else if s.contains(rows[r - 1].name@) {
        r - 1
    } else {
        prev_hit(rows, r - 1, s)
    }
}

/// The nearest row below `r` whose name is in `s`, or -1.
pub open spec fn next_hit(rows: Seq<GridRow>, r: int, s: Seq<Seq<char>>) -> int
    decreases rows.len() - r,
{
    if r + 1 >= rows.len() {
        -1
    } else if s.contains(rows[r + 1].name@) {
        r + 1
    } else {
        next_hit(rows, r + 1, s)
    }
}

fn prev_in(rows: &Vec<GridRow>, from: usize, names: &Vec<String>) -> (r: Option<usize>)
    requires
        from <= rows@.len(),
    ensures
        match r {
            Some(k) => k == prev_hit(rows@, from as int, string_views(names@)),
            None => prev_hit(rows@, from as int, string_views(names@)) == -1,
        },
    decreases from,
{
    if from == 0 {
        None
    } else if contains_str(names, rows[from - 1].name.as_str()) {
        Some(from - 1)
    } else {
        prev_in(rows, from - 1, names)
    }
}

fn next_in(rows: &Vec<GridRow>, from: usize, names: &Vec<String>) -> (r: Option<usize>)
    ensures
        match r {
            Some(k) => k == next_hit(rows@, from as int, string_views(names@)),
            None => next_hit(rows@, from as int, string_views(names@)) == -1,
        },
    decreases rows@.len() - from,
{
    if from >= rows.len() || from + 1 >= rows.len() {
        None
    } else if contains_str(names, rows[from + 1].name.as_str()) {
        Some(from + 1)
    } else {
        next_in(rows, from + 1, names)
    }
}

/// `after` is `before` with the project `name` at `dir` added as its last
/// column: an absent cell in every row, an unmodified flag, the cursor on it,
/// input ended with an empty buffer and the creation reported.
pub open spec fn project_column_added(before: App, after: App, name: Seq<char>, dir: PathBuf) -> bool {
    &&& after == (App {
        cols: after.cols,
        cells: after.cells,
        modified_cols: after.modified_cols,
        cursor_col: after.cursor_col,
        input_mode: InputMode::Normal,
        input_buffer: after.input_buffer,
        status: after.status,
        ..before
    })
    &&& after.cols@.len() == before.cols@.len() + 1
    &&& after.cols@.drop_last() == before.cols@
    &&& after.cols@.last().name@ == name
    &&& after.cols@.last().path == dir
    &&& after.cells@.len() == before.cells@.len()
    &&& forall|r: int| 0 <= r < before.cells@.len() ==> (#[trigger] after.cells@[r])@ == before.cells@[r]@.push(DepState::Absent)
    &&& after.modified_cols@ == before.modified_cols@.push(false)
    &&& after.cursor_col == before.cols@.len()
    &&& after.input_buffer@ == Seq::<char>::empty()
    &&& after.status@ == "Created project '"@ + name + "'.  "@ + status_help()
}

} // verus!
