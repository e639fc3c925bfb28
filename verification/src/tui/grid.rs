//! The grid of dependency cells and its transitive recomputation.
use vstd::prelude::*;

use crate::corsett::string_views;
use crate::graph::{
    bfs_levels, compute_transitive, contains_str, downstream_levels, find_chain, reachable,
    shortest_chain, DepMap,
};
use crate::tui::app::{DepState, GridRow};

verus! {

/// The names of the rows, in order.
pub open spec fn row_names(rows: Seq<GridRow>) -> Seq<Seq<char>> {
    rows.map_values(|r: GridRow| r.name@)
}

/// The cells as plain sequences.
pub open spec fn cell_views(cells: Seq<Vec<DepState>>) -> Seq<Seq<DepState>> {
    cells.map_values(|v: Vec<DepState>| v@)
}

/// Every one of the first `nrows` rows of `cells` has a cell in column `col`.
pub open spec fn has_column(cells: Seq<Vec<DepState>>, nrows: int, col: int) -> bool {
    &&& cells.len() >= nrows
    &&& forall|r: int| 0 <= r < nrows ==> col < (#[trigger] cells[r])@.len()
}

/// The names of the rows among the first `k` whose cell in column `col` is `Direct`, in row order.
pub open spec fn direct_seq(rows: Seq<GridRow>, cells: Seq<Seq<DepState>>, col: int, k: int) -> Seq<Seq<char>>
    decreases k,
{
    if k <= 0 {
        Seq::empty()
    } else if cells[k - 1][col] == DepState::Direct {
        direct_seq(rows, cells, col, k - 1).push(rows[k - 1].name@)
    } else {
        direct_seq(rows, cells, col, k - 1)
    }
}

/// The names selected directly in column `col`.
pub open spec fn direct_set(rows: Seq<GridRow>, cells: Seq<Seq<DepState>>, col: int) -> Set<Seq<char>> {
    direct_seq(rows, cells, col, rows.len() as int).to_set()
}

/// The state that recomputation gives row `r` in column `col`: a direct cell stays
/// direct; any other cell is transitive when its name is reachable from the direct
/// selections without being one of them, and absent otherwise.
pub open spec fn recomputed(
    g: Map<Seq<char>, Vec<String>>,
    rows: Seq<GridRow>,
    cells: Seq<Seq<DepState>>,
    col: int,
    r: int,
) -> DepState {
    let d = direct_set(rows, cells, col);
    if cells[r][col] == DepState::Direct {
        DepState::Direct
    } else if reachable(g, d, rows[r].name@) && !d.contains(rows[r].name@) {
        DepState::Transitive
    } else {
        DepState::Absent
    }
}

/// `after` is `before` with column `col` of each of the first `nrows` rows recomputed.
pub open spec fn column_recomputed(
    g: Map<Seq<char>, Vec<String>>,
    rows: Seq<GridRow>,
    before: Seq<Seq<DepState>>,
    after: Seq<Seq<DepState>>,
    col: int,
) -> bool {
    &&& after.len() == before.len()
    &&& forall|r: int|
        0 <= r < before.len() ==> #[trigger] after[r] == if r < rows.len() {
            before[r].update(col, recomputed(g, rows, before, col, r))
        } else {
            before[r]
        }
}

/// The names of the rows whose cell in column `col` is `Direct`, in row order.
fn direct_names(rows: &Vec<GridRow>, cells: &Vec<Vec<DepState>>, col: usize) -> (r: Vec<String>)
    requires
        has_column(cells@, rows.len() as int, col as int),
    ensures
        string_views(r@) == direct_seq(rows@, cell_views(cells@), col as int, rows.len() as int),
{
    let mut out: Vec<String> = Vec::new();
    let mut i: usize = 0;
    while i < rows.len()
        invariant
            i <= rows.len(),
            has_column(cells@, rows.len() as int, col as int),
            string_views(out@) == direct_seq(rows@, cell_views(cells@), col as int, i as int),
        decreases rows.len() - i,
    {
        assert(col < cells@[i as int]@.len());
        if cells[i][col] == DepState::Direct {
            out.push(rows[i].name.clone());
            proof {
                assert(string_views(out@) =~= direct_seq(rows@, cell_views(cells@), col as int, i as int).push(
                    rows@[i as int].name@,
                ));
            }
        }
        i += 1;
    }
    out
}

/// Recomputes the `Transitive`/`Absent` states of column `col` from its `Direct` cells.
pub fn recompute_column(rows: &Vec<GridRow>, cells: &mut Vec<Vec<DepState>>, col: usize, g: &DepMap)
    requires
        has_column(old(cells)@, rows.len() as int, col as int),
    ensures
        column_recomputed(g@, rows@, cell_views(old(cells)@), cell_views(final(cells)@), col as int),
{
    let direct = direct_names(rows, cells, col);
    let transitive = compute_transitive(&direct, g);
    let ghost before = cell_views(cells@);
    let ghost d = direct_set(rows@, before, col as int);
    let mut i: usize = 0;
    while i < rows.len()
        invariant
            i <= rows.len(),
            has_column(old(cells)@, rows.len() as int, col as int),
            before == cell_views(old(cells)@),
            string_views(direct@).to_set() == d,
            d == direct_set(rows@, before, col as int),
            forall|n: Seq<char>|
                string_views(transitive@).contains(n) <==> (reachable(g@, d, n)
                    && !string_views(direct@).contains(n)),
            cells@.len() == before.len(),
            forall|r: int|
                0 <= r < before.len() ==> (#[trigger] cells@[r])@ == if r < i {
                    before[r].update(col as int, recomputed(g@, rows@, before, col as int, r))
                } else {
                    before[r]
                },
        decreases rows.len() - i,
    {
        assert(col < old(cells)@[i as int]@.len());
        assert(cells@[i as int]@ == before[i as int]);
        if cells[i][col] != DepState::Direct {
            let name = &rows[i].name;
            proof {
                assert(string_views(transitive@).contains(name@) <==> (reachable(g@, d, name@)
                    && !d.contains(name@)));
            }
            if contains_str(&transitive, name.as_str()) {
                cells[i][col] = DepState::Transitive;
            } else {
                cells[i][col] = DepState::Absent;
            }
        }
        proof {
            assert(cells@[i as int]@ =~= before[i as int].update(
                col as int,
                recomputed(g@, rows@, before, col as int, i as int),
            ));
        }
        i += 1;
    }
    proof {
        assert(cell_views(cells@) =~= cell_views(cells@));
        assert forall|r: int| 0 <= r < before.len() implies #[trigger] cell_views(cells@)[r] == if r
            < rows.len() {
            before[r].update(col as int, recomputed(g@, rows@, before, col as int, r))
        } else {
            before[r]
        } by {
            assert(cell_views(cells@)[r] == cells@[r]@);
        }
    }
}

/// The state a toggle turns `s` into: direct and absent swap, transitive stays.
pub open spec fn flipped(s: DepState) -> DepState {
    match s {
        DepState::Direct => DepState::Absent,
        DepState::Absent => DepState::Direct,
        DepState::Transitive => DepState::Transitive,
    }
}

/// `after`/`mod_after` are what toggling the cell at (`row`, `col`) makes of
/// `before`/`mod_before`: a transitive cell changes nothing; any other cell is
/// flipped, its column marked modified and recomputed.
pub open spec fn toggled(
    g: Map<Seq<char>, Vec<String>>,
    rows: Seq<GridRow>,
    before: Seq<Seq<DepState>>,
    after: Seq<Seq<DepState>>,
    mod_before: Seq<bool>,
    mod_after: Seq<bool>,
    row: int,
    col: int,
) -> bool {
    if before[row][col] == DepState::Transitive {
        after == before && mod_after == mod_before
    } else {
        &&& column_recomputed(
            g,
            rows,
            before.update(row, before[row].update(col, flipped(before[row][col]))),
            after,
            col,
        )
        &&& mod_after == mod_before.update(col, true)
    }
}

/// Toggles the cell at (`row`, `col`) between `Direct` and `Absent`, marks the
/// column modified and recomputes it; a `Transitive` cell is read-only.
pub fn toggle_at(
    rows: &Vec<GridRow>,
    cells: &mut Vec<Vec<DepState>>,
    modified_cols: &mut Vec<bool>,
    g: &DepMap,
    row: usize,
    col: usize,
)
    requires
        row < rows.len(),
        has_column(old(cells)@, rows.len() as int, col as int),
        col < old(modified_cols)@.len(),
    ensures
        toggled(
            g@,
            rows@,
            cell_views(old(cells)@),
            cell_views(final(cells)@),
            old(modified_cols)@,
            final(modified_cols)@,
            row as int,
            col as int,
        ),
{
    assert(col < cells@[row as int]@.len());
    let ghost before = cell_views(cells@);
    let s = cells[row][col];
    match s {
        DepState::Transitive => {
            assert(cell_views(cells@) =~= before);
        },
        _ => {
            let next = if s == DepState::Direct {
                DepState::Absent
            } else {
                DepState::Direct
            };
            cells[row][col] = next;
            modified_cols.set(col, true);
            proof {
                assert(cell_views(cells@) =~= before.update(
                    row as int,
                    before[row as int].update(col as int, flipped(before[row as int][col as int])),
                ));
                assert forall|r: int| 0 <= r < rows.len() implies col < (#[trigger] cells@[r])@.len() by {
                    assert(col < old(cells)@[r]@.len());
                }
            }
            recompute_column(rows, cells, col, g);
        },
    }
}

proof fn lemma_direct_seq_same(rows: Seq<GridRow>, a: Seq<Seq<DepState>>, b: Seq<Seq<DepState>>, col: int, k: int)
    requires
        forall|r: int| 0 <= r < k ==> (a[r][col] == DepState::Direct <==> b[r][col] == DepState::Direct),
    ensures
        direct_seq(rows, a, col, k) == direct_seq(rows, b, col, k),
    decreases k,
{
    if k > 0 {
        lemma_direct_seq_same(rows, a, b, col, k - 1);
    }
}

/// Recomputing a column a second time changes nothing: recomputation keeps the
/// direct cells as they are and derives every other cell from them alone.
pub proof fn law_recompute_twice_changes_nothing(
    g: Map<Seq<char>, Vec<String>>,
    rows: Seq<GridRow>,
    c0: Seq<Seq<DepState>>,
    c1: Seq<Seq<DepState>>,
    c2: Seq<Seq<DepState>>,
    col: int,
)
    requires
        c0.len() >= rows.len(),
        forall|r: int| 0 <= r < rows.len() ==> 0 <= col < (#[trigger] c0[r]).len(),
        column_recomputed(g, rows, c0, c1, col),
        column_recomputed(g, rows, c1, c2, col),
    ensures
        c2 == c1,
{
    assert forall|r: int| 0 <= r < rows.len() implies (c1[r][col] == DepState::Direct <==> c0[r][col]
        == DepState::Direct) by {
        assert(c1[r] == c0[r].update(col, recomputed(g, rows, c0, col, r)));
    }
    lemma_direct_seq_same(rows, c1, c0, col, rows.len() as int);
    assert forall|r: int| 0 <= r < c1.len() implies #[trigger] c2[r] == c1[r] by {
        if r < rows.len() {
            assert(c1[r] == c0[r].update(col, recomputed(g, rows, c0, col, r)));
            assert(recomputed(g, rows, c1, col, r) == c1[r][col]);
            assert(c2[r] =~= c1[r]);
        }
    }
    assert(c2 =~= c1);
}

/// Toggling a cell twice gives back the grid it started from, when its column
/// was up to date and the first toggle did not leave the cell transitive.
pub proof fn law_toggle_twice_restores(
    g: Map<Seq<char>, Vec<String>>,
    rows: Seq<GridRow>,
    c0: Seq<Seq<DepState>>,
    c1: Seq<Seq<DepState>>,
    c2: Seq<Seq<DepState>>,
    m0: Seq<bool>,
    m1: Seq<bool>,
    m2: Seq<bool>,
    row: int,
    col: int,
)
    requires
        0 <= row < rows.len(),
        c0.len() == rows.len(),
        forall|r: int| 0 <= r < rows.len() ==> 0 <= col < (#[trigger] c0[r]).len(),
        column_recomputed(g, rows, c0, c0, col),
        toggled(g, rows, c0, c1, m0, m1, row, col),
        c1[row][col] != DepState::Transitive,
        toggled(g, rows, c1, c2, m1, m2, row, col),
    ensures
        c2 == c0,
{
    let f0 = c0.update(row, c0[row].update(col, flipped(c0[row][col])));
    assert(c0[row][col] != DepState::Transitive);
    let f1 = c1.update(row, c1[row].update(col, flipped(c1[row][col])));
    assert(c1[row] == f0[row].update(col, recomputed(g, rows, f0, col, row)));
    assert forall|r: int| 0 <= r < rows.len() implies (f1[r][col] == DepState::Direct <==> c0[r][col]
        == DepState::Direct) by {
        assert(c1[r] == f0[r].update(col, recomputed(g, rows, f0, col, r)));
        if r != row {
            assert(f0[r] == c0[r]);
        }
    }
    lemma_direct_seq_same(rows, f1, c0, col, rows.len() as int);
    assert forall|r: int| 0 <= r < c0.len() implies #[trigger] c2[r] == c0[r] by {
        assert(c1[r] == f0[r].update(col, recomputed(g, rows, f0, col, r)));
        assert(c2[r] == f1[r].update(col, recomputed(g, rows, f1, col, r)));
        assert(c0[r] == c0[r].update(col, recomputed(g, rows, c0, col, r)));
        assert(recomputed(g, rows, f1, col, r) == recomputed(g, rows, c0, col, r));
        assert(c2[r] =~= c0[r]);
    }
    assert(c2 =~= c0);
}

/// The cell at (`r`, `c`) exists and is transitive.
pub open spec fn is_transitive_at(cells: Seq<Seq<DepState>>, r: int, c: int) -> bool {
    &&& 0 <= r < cells.len()
    &&& 0 <= c < cells[r].len()
    &&& cells[r][c] == DepState::Transitive
}

/// The names of the rows.
pub fn names_of(rows: &Vec<GridRow>) -> (r: Vec<String>)
    ensures
        string_views(r@) == row_names(rows@),
{
    let mut out: Vec<String> = Vec::new();
    let mut i: usize = 0;
    while i < rows.len()
        invariant
            i <= rows.len(),
            string_views(out@) == row_names(rows@).take(i as int),
        decreases rows.len() - i,
    {
        let ghost prev = out@;
        out.push(rows[i].name.clone());
        proof {
            assert(string_views(prev).len() == i);
            assert forall|k: int| 0 <= k <= i implies #[trigger] string_views(out@)[k] == row_names(
                rows@,
            ).take(i + 1)[k] by {
                if k < i {
                    assert(out@[k] == prev[k]);
                    assert(string_views(prev)[k] == row_names(rows@).take(i as int)[k]);
                }
            }
            assert(string_views(out@) =~= row_names(rows@).take(i + 1));
        }
        i += 1;
    }
    proof {
        assert(row_names(rows@).take(rows.len() as int) =~= row_names(rows@));
    }
    out
}

/// Whether the cell at (`r`, `c`) exists and is transitive.
pub fn transitive_at(cells: &Vec<Vec<DepState>>, r: usize, c: usize) -> (b: bool)
    ensures
        b == is_transitive_at(cell_views(cells@), r as int, c as int),
{
    if r < cells.len() && c < cells[r].len() {
        cells[r][c] == DepState::Transitive
    } else {
        false
    }
}

/// The upstream chain of a transitive cell: `None` unless (`r`, `c`) is a
/// transitive cell with a row and a column; otherwise the shortest chain from the
/// column's direct dependencies to the row's brick.
pub fn chain_at(
    rows: &Vec<GridRow>,
    cells: &Vec<Vec<DepState>>,
    direct_deps: &Vec<Vec<String>>,
    g: &DepMap,
    r: usize,
    c: usize,
) -> (res: Option<Vec<String>>)
    ensures
        if is_transitive_at(cell_views(cells@), r as int, c as int) && r < rows.len() && c
            < direct_deps.len() {
            shortest_chain(g@, string_views(direct_deps@[c as int]@).to_set(), rows@[r as int].name@, res)
        } else {
            res is None
        },
{
    if !transitive_at(cells, r, c) || r >= rows.len() || c >= direct_deps.len() {
        return None;
    }
    find_chain(rows[r].name.as_str(), &direct_deps[c], g)
}

/// The downstream breadth-first levels of a transitive cell: empty unless
/// (`r`, `c`) is a transitive cell with a row; otherwise the levels below the
/// row's brick over the names of all rows.
pub fn levels_at(rows: &Vec<GridRow>, cells: &Vec<Vec<DepState>>, g: &DepMap, r: usize, c: usize) -> (res: Vec<
    Vec<String>,
>)
    ensures
        if is_transitive_at(cell_views(cells@), r as int, c as int) && r < rows.len() {
            bfs_levels(g@, row_names(rows@).to_set(), rows@[r as int].name@, res@)
        } else {
            res@.len() == 0
        },
{
    if !transitive_at(cells, r, c) || r >= rows.len() {
        return Vec::new();
    }
    let names = names_of(rows);
    downstream_levels(rows[r].name.as_str(), &names, g)
}

/// Pure grid state: rows, columns, cells, and the dependency graph used to
/// recompute transitive dependency states when direct deps are toggled.
pub struct Grid {
    pub rows: Vec<GridRow>,
    /// `cells[row][col]`.
    pub cells: Vec<Vec<DepState>>,
    pub modified_cols: Vec<bool>,
    pub modified_rows: Vec<bool>,
    /// Component dependency graph, used to recompute transitive states on toggle.
    pub comp_deps: DepMap,
    /// Direct deps per project column (indexed by column).
    pub project_direct_deps: Vec<Vec<String>>,
}

impl Grid {
    /// The number of columns: the length of the first row of cells, or the number
    /// of column flags when there are no rows.
    pub open spec fn n_cols_spec(&self) -> nat {
        if self.rows@.len() == 0 {
            self.modified_cols@.len()
        } else if self.cells@.len() == 0 {
            0
        } else {
            self.cells@[0]@.len()
        }
    }

    /// Everything but the cells and the column flags is as in `other`.
    pub open spec fn same_frame(&self, other: &Grid) -> bool {
        &&& self.rows == other.rows
        &&& self.modified_rows == other.modified_rows
        &&& self.comp_deps == other.comp_deps
        &&& self.project_direct_deps == other.project_direct_deps
    }

    /// Toggle the cell at (`row`, `col`): `Direct` to `Absent` or `Absent` to `Direct`.
    /// Transitive cells are read-only, and a position outside the grid changes nothing.
    pub fn toggle(&mut self, row: usize, col: usize)
        requires
            row < old(self).rows.len() && col < old(self).n_cols_spec() ==> {
                &&& has_column(old(self).cells@, old(self).rows.len() as int, col as int)
                &&& col < old(self).modified_cols.len()
            },
        ensures
            final(self).same_frame(old(self)),
            if row < old(self).rows.len() && col < old(self).n_cols_spec() {
                toggled(
                    old(self).comp_deps@,
                    old(self).rows@,
                    cell_views(old(self).cells@),
                    cell_views(final(self).cells@),
                    old(self).modified_cols@,
                    final(self).modified_cols@,
                    row as int,
                    col as int,
                )
            } else {
                final(self).cells == old(self).cells && final(self).modified_cols == old(
                    self,
                ).modified_cols
            },
    {
        if row < self.rows.len() && col < self.n_cols() {
            toggle_at(&self.rows, &mut self.cells, &mut self.modified_cols, &self.comp_deps, row, col);
        }
    }

    /// Recompute all `Transitive`/`Absent` states of column `col_i` from its `Direct` cells.
    pub fn recompute_transitive(&mut self, col_i: usize)
        requires
            has_column(old(self).cells@, old(self).rows.len() as int, col_i as int),
        ensures
            final(self).same_frame(old(self)),
            final(self).modified_cols == old(self).modified_cols,
            column_recomputed(
                old(self).comp_deps@,
                old(self).rows@,
                cell_views(old(self).cells@),
                cell_views(final(self).cells@),
                col_i as int,
            ),
    {
        recompute_column(&self.rows, &mut self.cells, col_i, &self.comp_deps);
    }

    /// The upstream dependency chain when the cursor is on a `Transitive` cell,
    /// ordered from the direct-dep end to the hovered brick: `["cli", "mcp",
    /// "scaffold"]` means project, then cli, then mcp, then scaffold.
    pub fn chain_for_cursor(&self, cursor_row: usize, cursor_col: usize) -> (res: Option<Vec<String>>)
        ensures
            if is_transitive_at(cell_views(self.cells@), cursor_row as int, cursor_col as int)
                && cursor_row < self.rows.len() && cursor_col < self.project_direct_deps.len() {
                shortest_chain(
                    self.comp_deps@,
                    string_views(self.project_direct_deps@[cursor_col as int]@).to_set(),
                    self.rows@[cursor_row as int].name@,
                    res,
                )
            } else {
                res is None
            },
    {
        chain_at(&self.rows, &self.cells, &self.project_direct_deps, &self.comp_deps, cursor_row, cursor_col)
    }

    /// The downstream breadth-first levels from the hovered cell, over the bricks
    /// that appear as rows; empty unless the cursor is on a `Transitive` cell.
    pub fn downstream_levels_for_cursor(&self, cursor_row: usize, cursor_col: usize) -> (res: Vec<
        Vec<String>,
    >)
        ensures
            if is_transitive_at(cell_views(self.cells@), cursor_row as int, cursor_col as int)
                && cursor_row < self.rows.len() {
                bfs_levels(
                    self.comp_deps@,
                    row_names(self.rows@).to_set(),
                    self.rows@[cursor_row as int].name@,
                    res@,
                )
            } else {
                res@.len() == 0
            },
    {
        levels_at(&self.rows, &self.cells, &self.comp_deps, cursor_row, cursor_col)
    }

    /// Number of columns (projects) in the grid.
    pub fn n_cols(&self) -> (r: usize)
        ensures
            r == self.n_cols_spec(),
    {
        if self.rows.len() == 0 {
            self.modified_cols.len()
        } else if self.cells.len() == 0 {
            0
        } else {
            self.cells[0].len()
        }
    }
}

} // verus!
