//! What the dependency grid shows: the height of the project header, where each
//! brick stands on the hovered cell's chains, which rows are drawn in which
//! order, and what each cell holds. Drawing itself is the caller's.
use vstd::prelude::*;

use crate::corsett::{min_group_height, min_group_height_spec, str_views, string_views, FoldEntry};
use crate::discover::opt_chars;
use crate::strmap::StrMap;
use crate::text::{chars_of, owned, str_eq};
use crate::tui::app::{count_interface, App, ChainPosition, DepState, GridRow, InputMode};
use vstd::relations::{sorted_by, total_ordering};

verus! {

// ---------------------------------------------------------------------------
// The header.

/// The length of the longest name; 0 for none.
pub open spec fn longest(names: Seq<Seq<char>>) -> nat
    decreases names.len(),
{
    if names.len() == 0 {
        0
    } else {
        let p = longest(names.drop_last());
        if names.last().len() > p {
            names.last().len()
        } else {
            p
        }
    }
}

/// The rows a header of `names` takes: its longest name, 1 for no names.
pub open spec fn header_height(names: Seq<Seq<char>>) -> nat {
    if names.len() == 0 {
        1
    } else {
        longest(names)
    }
}

/// The height the project header shrinks to after scrolling down `scroll`
/// rows: one row less per row scrolled, but never below the height at which
/// every project name stays distinct.
pub open spec fn header_target_spec(names: Seq<Seq<char>>, scroll: nat) -> nat {
    let full = header_height(names);
    let shrunk: nat = if full > scroll {
        (full - scroll) as nat
    } else {
        0
    };
    let floor = min_group_height_spec(names);
    if shrunk > floor {
        shrunk
    } else {
        floor
    }
}

/// The rows a header of `names` takes.
pub fn header_rows(names: &Vec<String>) -> (r: usize)
    ensures
        r == header_height(string_views(names@)),
{
    if names.len() == 0 {
        return 1;
    }
    let ghost nv = string_views(names@);
    let mut best: usize = 0;
    let mut i: usize = 0;
    proof {
        assert(nv.take(0) =~= Seq::<Seq<char>>::empty());
    }
    while i < names.len()
        invariant
            i <= names@.len(),
            nv == string_views(names@),
            best == longest(nv.take(i as int)),
        decreases names@.len() - i,
    {
        let n = chars_of(names[i].as_str()).len();
        proof {
            assert(nv.take(i + 1).drop_last() =~= nv.take(i as int));
            assert(nv.take(i + 1).last() == names@[i as int]@);
        }
        if n > best {
            best = n;
        }
        i += 1;
    }
    proof {
        assert(nv.take(names@.len() as int) =~= nv);
    }
    best
}

/// The height the project header takes after scrolling down `scroll` rows.
pub fn header_target(names: &[&str], scroll: usize) -> (r: usize)
    ensures
        r == header_target_spec(str_views(names@), scroll as nat),
{
    let mut owned_names: Vec<String> = Vec::new();
    let mut i: usize = 0;
    while i < names.len()
        invariant
            i <= names@.len(),
            string_views(owned_names@) == str_views(names@).take(i as int),
        decreases names@.len() - i,
    {
        let ghost before = string_views(owned_names@);
        owned_names.push(crate::text::owned(names[i]));
        proof {
            assert(string_views(owned_names@) =~= before.push(names@[i as int]@));
            assert(str_views(names@).take(i + 1) =~= str_views(names@).take(i as int).push(
                str_views(names@)[i as int],
            ));
        }
        i += 1;
    }
    proof {
        assert(str_views(names@).take(names@.len() as int) =~= str_views(names@));
    }
    let full = header_rows(&owned_names);
    let shrunk: usize = if full > scroll {
        full - scroll
    } else {
        0
    };
    let floor = min_group_height(names);
    if shrunk > floor {
        shrunk
    } else {
        floor
    }
}

// ---------------------------------------------------------------------------
// Chain positions.

/// The upstream chain's first `k` bricks, numbered from 1.
pub open spec fn upstream_positions(chain: Seq<Seq<char>>, k: int) -> Map<Seq<char>, ChainPosition>
    decreases k,
{
    if k <= 0 {
        Map::empty()
    } else {
        upstream_positions(chain, k - 1).insert(chain[k - 1], ChainPosition::Upstream { step: k as usize })
    }
}

/// `m` with the first `j` of `names` at downstream `level`, where they are not placed yet.
pub open spec fn with_level(m: Map<Seq<char>, ChainPosition>, names: Seq<Seq<char>>, level: usize, j: int) -> Map<
    Seq<char>,
    ChainPosition,
>
    decreases j,
{
    if j <= 0 {
        m
    } else {
        let p = with_level(m, names, level, j - 1);
        if p.contains_key(names[j - 1]) {
            p
        } else {
            p.insert(names[j - 1], ChainPosition::Downstream { level })
        }
    }
}

/// `m` with the first `l` downstream levels, numbered from 1.
pub open spec fn downstream_positions(m: Map<Seq<char>, ChainPosition>, levels: Seq<Seq<Seq<char>>>, l: int) -> Map<
    Seq<char>,
    ChainPosition,
>
    decreases l,
{
    if l <= 0 {
        m
    } else {
        let p = downstream_positions(m, levels, l - 1);
        with_level(p, levels[l - 1], l as usize, levels[l - 1].len() as int)
    }
}

/// Where each brick stands: on the upstream chain by step, else downstream by
/// the first level it appears on.
pub open spec fn chain_positions_spec(chain: Seq<Seq<char>>, levels: Seq<Seq<Seq<char>>>) -> Map<
    Seq<char>,
    ChainPosition,
> {
    downstream_positions(upstream_positions(chain, chain.len() as int), levels, levels.len() as int)
}

/// Levels of names as plain values.
pub open spec fn level_views(levels: Seq<Vec<String>>) -> Seq<Seq<Seq<char>>> {
    levels.map_values(|l: Vec<String>| string_views(l@))
}

/// The chain position of every brick on the hovered cell's upstream `chain`
/// and downstream `levels`.
pub fn chain_positions(chain: &Vec<String>, levels: &Vec<Vec<String>>) -> (r: StrMap<ChainPosition>)
    ensures
        r@ == chain_positions_spec(string_views(chain@), level_views(levels@)),
{
    let ghost cv = string_views(chain@);
    let ghost lv = level_views(levels@);
    let mut out: StrMap<ChainPosition> = StrMap::new();
    let mut i: usize = 0;
    while i < chain.len()
        invariant
            i <= chain@.len(),
            cv == string_views(chain@),
            out@ == upstream_positions(cv, i as int),
        decreases chain@.len() - i,
    {
        out.insert(chain[i].clone(), ChainPosition::Upstream { step: i + 1 });
        i += 1;
    }
    let ghost up = out@;
    let mut l: usize = 0;
    while l < levels.len()
        invariant
            l <= levels@.len(),
            lv == level_views(levels@),
            out@ == downstream_positions(up, lv, l as int),
        decreases levels@.len() - l,
    {
        let names = &levels[l];
        let ghost base = out@;
        let level = l + 1;
        let mut j: usize = 0;
        proof {
            assert(lv[l as int] == string_views(names@));
        }
        while j < names.len()
            invariant
                j <= names@.len(),
                l < levels@.len(),
                names == levels@[l as int],
                lv == level_views(levels@),
                lv[l as int] == string_views(names@),
                level == l + 1,
                out@ == with_level(base, lv[l as int], level, j as int),
            decreases names@.len() - j,
        {
            if !out.contains_key(names[j].as_str()) {
                out.insert(names[j].clone(), ChainPosition::Downstream { level });
            }
            j += 1;
        }
        l += 1;
    }
    out
}

// ---------------------------------------------------------------------------
// Which rows, in which order.

/// Pairs ordered by their first, then their second component.
pub open spec fn pair_order() -> spec_fn((usize, usize), (usize, usize)) -> bool {
    |a: (usize, usize), b: (usize, usize)| a.0 < b.0 || (a.0 == b.0 && a.1 <= b.1)
}

proof fn lemma_pair_order()
    ensures
        total_ordering(pair_order()),
{
}

/// Sorts pairs by [`pair_order`].
fn sort_pairs(v: Vec<(usize, usize)>) -> (r: Vec<(usize, usize)>)
    ensures
        r@ == v@.sort_by(pair_order()),
{
    broadcast use vstd::seq_lib::group_to_multiset_ensures;

    let ghost leq = pair_order();
    proof {
        lemma_pair_order();
    }
    let mut out: Vec<(usize, usize)> = Vec::new();
    let mut i: usize = 0;
    proof {
        assert(out@ =~= v@.take(0));
    }
    while i < v.len()
        invariant
            i <= v@.len(),
            leq == pair_order(),
            total_ordering(leq),
            sorted_by(out@, leq),
            out@.to_multiset() == v@.take(i as int).to_multiset(),
        decreases v@.len() - i,
    {
        let x = v[i];
        let ghost before = out@;
        let mut p: usize = 0;
        while p < out.len() && (out[p].0 < x.0 || (out[p].0 == x.0 && out[p].1 <= x.1))
            invariant
                p <= out@.len(),
                leq == pair_order(),
                before == out@,
                forall|k: int| 0 <= k < p ==> leq(#[trigger] before[k], x),
            decreases out@.len() - p,
        {
            p += 1;
        }
        proof {
            if p < out.len() {
                assert(leq(x, before[p as int]));
            }
        }
        out.insert(p, x);
        proof {
            let after = out@;
            assert(sorted_by(before, leq));
            assert(after =~= before.insert(p as int, x));
            assert forall|a: int, b: int| 0 <= a < b < after.len() implies #[trigger] leq(after[a], after[b]) by {
                if b < p {
                    assert(after[a] == before[a] && after[b] == before[b]);
                } else if b == p {
                    assert(after[a] == before[a]);
                } else if a < p {
                    assert(after[a] == before[a] && after[b] == before[b - 1]);
                    assert(leq(before[a], before[b - 1]));
                } else if a == p {
                    assert(after[b] == before[b - 1]);
                    assert(leq(x, before[p as int]));
                    if b - 1 > p {
                        assert(leq(before[p as int], before[b - 1]));
                    }
                } else {
                    assert(after[a] == before[a - 1] && after[b] == before[b - 1]);
                }
            }
            vstd::seq_lib::to_multiset_insert(before, p as int, x);
            assert(v@.take(i + 1) =~= v@.take(i as int).push(x));
            vstd::seq_lib::to_multiset_build(v@.take(i as int), x);
        }
        i += 1;
    }
    proof {
        assert(v@.take(v@.len() as int) =~= v@);
        v@.lemma_sort_by_ensures(leq);
        vstd::seq_lib::lemma_sorted_unique(out@, v@.sort_by(leq), leq);
    }
    out
}

/// The name of the hovered row; empty when the cursor is past the rows.
pub open spec fn cursor_name(a: App) -> Seq<char> {
    if a.cursor_row < a.rows@.len() {
        a.rows@[a.cursor_row as int].name@
    } else {
        Seq::<char>::empty()
    }
}

/// (step, row) for the rows among the first `k`, other than those named `c`,
/// that stand upstream.
pub open spec fn upstream_rows(rows: Seq<GridRow>, p: Map<Seq<char>, ChainPosition>, c: Seq<char>, k: int) -> Seq<
    (usize, usize),
>
    decreases k,
{
    if k <= 0 {
        Seq::<(usize, usize)>::empty()
    } else {
        let q = upstream_rows(rows, p, c, k - 1);
        let n = rows[k - 1].name@;
        if n != c && p.contains_key(n) && p[n] is Upstream {
            q.push((p[n]->step, (k - 1) as usize))
        } else {
            q
        }
    }
}

/// (level, row) for the rows among the first `k`, other than those named `c`,
/// that stand downstream.
pub open spec fn downstream_rows(rows: Seq<GridRow>, p: Map<Seq<char>, ChainPosition>, c: Seq<char>, k: int) -> Seq<
    (usize, usize),
>
    decreases k,
{
    if k <= 0 {
        Seq::<(usize, usize)>::empty()
    } else {
        let q = downstream_rows(rows, p, c, k - 1);
        let n = rows[k - 1].name@;
        if n != c && p.contains_key(n) && p[n] is Downstream {
            q.push((p[n]->level, (k - 1) as usize))
        } else {
            q
        }
    }
}

/// The rows of pairs.
pub open spec fn rows_of(s: Seq<(usize, usize)>) -> Seq<usize> {
    s.map_values(|x: (usize, usize)| x.1)
}

/// The rows a folded view shows: the upstream rows by step, the hovered row,
/// then the downstream rows by level (rows in order among equals).
pub open spec fn fold_order(a: App, p: Map<Seq<char>, ChainPosition>) -> Seq<usize> {
    let n = a.rows@.len() as int;
    rows_of(upstream_rows(a.rows@, p, cursor_name(a), n).sort_by(pair_order())) + seq![a.cursor_row]
        + rows_of(downstream_rows(a.rows@, p, cursor_name(a), n).sort_by(pair_order()))
}

/// The folded view: a placeholder for the rows it leaves out, when there are
/// any, then the chain's rows.
pub open spec fn fold_plan_spec(a: App, p: Map<Seq<char>, ChainPosition>) -> Seq<FoldEntry> {
    let order = fold_order(a, p);
    let shown = order.to_set().len();
    let n = a.rows@.len();
    let lead = if n > shown {
        seq![FoldEntry::Hidden((n - shown) as usize)]
    } else {
        Seq::<FoldEntry>::empty()
    };
    lead + order.map_values(|r: usize| FoldEntry::Row(r))
}

/// The plain view: every row from the first one scrolled to.
pub open spec fn scroll_plan_spec(a: App) -> Seq<FoldEntry> {
    let n = a.rows@.len() as int;
    let s = a.scroll_row as int;
    if s < n {
        Seq::new((n - s) as nat, |i: int| FoldEntry::Row((s + i) as usize))
    } else {
        Seq::<FoldEntry>::empty()
    }
}

/// The number of distinct values in `v`.
fn distinct_count(v: &Vec<usize>) -> (r: usize)
    ensures
        r == v@.to_set().len(),
{
    let mut seen: Vec<usize> = Vec::new();
    let mut i: usize = 0;
    proof {
        assert(v@.take(0).to_set() =~= Set::<usize>::empty());
        assert(seen@.to_set() =~= Set::<usize>::empty());
    }
    while i < v.len()
        invariant
            i <= v@.len(),
            seen@.no_duplicates(),
            seen@.to_set() == v@.take(i as int).to_set(),
            seen@.len() <= i,
        decreases v@.len() - i,
    {
        let x = v[i];
        let mut k: usize = 0;
        let mut found = false;
        while k < seen.len()
            invariant
                k <= seen@.len(),
                found == (exists|j: int| 0 <= j < k && seen@[j] == x),
            decreases seen@.len() - k,
        {
            if seen[k] == x {
                found = true;
            }
            k += 1;
        }
        proof {
            assert(v@.take(i + 1) =~= v@.take(i as int).push(x));
            assert(v@.take(i + 1).to_set() =~= v@.take(i as int).to_set().insert(x)) by {
                broadcast use vstd::seq_lib::group_seq_properties;
            }
        }
        if !found {
            let ghost before = seen@;
            seen.push(x);
            proof {
                assert(seen@.to_set() =~= before.to_set().insert(x)) by {
                    broadcast use vstd::seq_lib::group_seq_properties;
                }
                assert forall|a: int, b: int| 0 <= a < b < seen@.len() implies seen@[a] != seen@[b] by {
                    if b == seen@.len() - 1 {
                        assert(seen@[b] == x);
                        assert(seen@[a] == before[a]);
                    } else {
                        assert(seen@[a] == before[a] && seen@[b] == before[b]);
                    }
                }
            }
        } else {
            proof {
                let j = choose|j: int| 0 <= j < seen@.len() && seen@[j] == x;
                assert(seen@.to_set().contains(x));
                assert(seen@.to_set().insert(x) =~= seen@.to_set());
            }
        }
        i += 1;
    }
    proof {
        assert(v@.take(v@.len() as int) =~= v@);
        seen@.unique_seq_to_set();
    }
    seen.len()
}

impl App {
    /// The rows the grid draws, in order: when folded and the hovered cell
    /// has a chain, the chain's rows after a placeholder for the others (see
    /// [`fold_plan_spec`]); else every row from the first one scrolled to.
    pub fn row_plan(&self, positions: &StrMap<ChainPosition>) -> (r: Vec<FoldEntry>)
        ensures
            r@ == if self.fold_active && positions@.dom().len() > 0 {
                fold_plan_spec(*self, positions@)
            } else {
                scroll_plan_spec(*self)
            },
    {
        if !(self.fold_active && positions.len() > 0) {
            let mut out: Vec<FoldEntry> = Vec::new();
            let mut r = self.scroll_row;
            let ghost s = self.scroll_row as int;
            while r < self.rows.len()
                invariant
                    s <= r <= self.rows@.len() || (r == s && s >= self.rows@.len()),
                    s == self.scroll_row,
                    out@ == Seq::new((r - s) as nat, |i: int| FoldEntry::Row((s + i) as usize)),
                decreases self.rows@.len() - r,
            {
                let ghost before = out@;
                out.push(FoldEntry::Row(r));
                proof {
                    assert(out@ =~= Seq::new((r + 1 - s) as nat, |i: int| FoldEntry::Row((s + i) as usize)));
                }
                r += 1;
            }
            proof {
                if s >= self.rows@.len() {
                    assert(out@ =~= Seq::<FoldEntry>::empty());
                }
            }
            return out;
        }
        let ghost p = positions@;
        let ghost c = cursor_name(*self);
        let ghost n = self.rows@.len() as int;
        let cname: &str = if self.cursor_row < self.rows.len() {
            self.rows[self.cursor_row].name.as_str()
        } else {
            ""
        };
        proof {
            if self.cursor_row >= self.rows@.len() {
                reveal_strlit("");
                assert(cname@ =~= Seq::<char>::empty());
            }
        }
        let mut ups: Vec<(usize, usize)> = Vec::new();
        let mut downs: Vec<(usize, usize)> = Vec::new();
        let mut k: usize = 0;
        while k < self.rows.len()
            invariant
                k <= self.rows@.len(),
                p == positions@,
                cname@ == c,
                ups@ == upstream_rows(self.rows@, p, c, k as int),
                downs@ == downstream_rows(self.rows@, p, c, k as int),
            decreases self.rows@.len() - k,
        {
            let name = self.rows[k].name.as_str();
            if !str_eq(name, cname) {
                match positions.get(name) {
                    Some(ChainPosition::Upstream { step }) => {
                        ups.push((*step, k));
                    },
                    Some(ChainPosition::Downstream { level }) => {
                        downs.push((*level, k));
                    },
                    None => {},
                }
            }
            k += 1;
        }
        let ups = sort_pairs(ups);
        let downs = sort_pairs(downs);
        let mut order: Vec<usize> = Vec::new();
        let mut i: usize = 0;
        while i < ups.len()
            invariant
                i <= ups@.len(),
                order@ == rows_of(ups@.take(i as int)),
            decreases ups@.len() - i,
        {
            order.push(ups[i].1);
            proof {
                assert(rows_of(ups@.take(i + 1)) =~= rows_of(ups@.take(i as int)).push(ups@[i as int].1));
            }
            i += 1;
        }
        order.push(self.cursor_row);
        let ghost head = order@;
        proof {
            assert(ups@.take(ups@.len() as int) =~= ups@);
            assert(head =~= rows_of(ups@) + seq![self.cursor_row]);
        }
        let mut j: usize = 0;
        while j < downs.len()
            invariant
                j <= downs@.len(),
                order@ == head + rows_of(downs@.take(j as int)),
            decreases downs@.len() - j,
        {
            order.push(downs[j].1);
            proof {
                assert(rows_of(downs@.take(j + 1)) =~= rows_of(downs@.take(j as int)).push(downs@[j as int].1));
                assert(head + rows_of(downs@.take(j + 1)) =~= (head + rows_of(downs@.take(j as int))).push(
                    downs@[j as int].1,
                ));
            }
            j += 1;
        }
        proof {
            assert(downs@.take(downs@.len() as int) =~= downs@);
            assert(order@ =~= fold_order(*self, p));
        }
        let shown = distinct_count(&order);
        let mut plan: Vec<FoldEntry> = Vec::new();
        if self.rows.len() > shown {
            plan.push(FoldEntry::Hidden(self.rows.len() - shown));
        }
        let ghost lead = plan@;
        let mut m: usize = 0;
        while m < order.len()
            invariant
                m <= order@.len(),
                plan@ == lead + order@.take(m as int).map_values(|r: usize| FoldEntry::Row(r)),
            decreases order@.len() - m,
        {
            plan.push(FoldEntry::Row(order[m]));
            proof {
                assert(order@.take(m + 1).map_values(|r: usize| FoldEntry::Row(r)) =~= order@.take(
                    m as int,
                ).map_values(|r: usize| FoldEntry::Row(r)).push(FoldEntry::Row(order@[m as int])));
                assert(lead + order@.take(m + 1).map_values(|r: usize| FoldEntry::Row(r)) =~= (lead + order@.take(
                    m as int,
                ).map_values(|r: usize| FoldEntry::Row(r))).push(FoldEntry::Row(order@[m as int])));
            }
            m += 1;
        }
        proof {
            assert(order@.take(order@.len() as int) =~= order@);
        }
        plan
    }
}

// ---------------------------------------------------------------------------
// What each cell and row label shows.

/// What a grid cell shows.
#[derive(Debug, Clone, Copy, PartialEq, Eq, Structural)]
pub enum CellMark {
    /// The direct dependency through which the hovered brick is reached.
    ChainEntry,
    /// An upstream hop after the entry, numbered from 1.
    ChainStep(usize),
    /// A downstream brick at this breadth-first level.
    ChainLevel(usize),
    /// One of an interface's implementations, as chosen by the viewed profile.
    Radio { selected: bool, cursor: bool },
    /// A dependency state; `staged` when the project's column has unsaved changes.
    State { state: DepState, cursor: bool, staged: bool },
}

/// The state of cell (`r`, `c`); absent outside the grid.
pub open spec fn cell_state(a: App, r: int, c: int) -> DepState {
    if 0 <= r < a.cells@.len() && 0 <= c < a.cells@[r]@.len() {
        a.cells@[r]@[c]
    } else {
        DepState::Absent
    }
}

/// The implementation the viewed profile selects for `iface`.
pub open spec fn selected_impl(a: App, iface: Seq<char>) -> Option<Seq<char>> {
    if a.viewed_profile_idx < a.available_profiles@.len() {
        let imps = a.available_profiles@[a.viewed_profile_idx as int].implementations@;
        if imps.contains_key(iface) {
            Some(imps[iface]@)
        } else {
            None
        }
    } else {
        None
    }
}

/// Some row among the first `k` implements `iface` and is a dependency of project `c`.
pub open spec fn uses_interface(a: App, iface: Seq<char>, c: int, k: int) -> bool
    decreases k,
{
    if k <= 0 {
        false
    } else {
        uses_interface(a, iface, c, k - 1) || (a.rows@[k - 1].interface matches Some(x) && x@ == iface && cell_state(
            a,
            k - 1,
            c,
        ) != DepState::Absent)
    }
}

/// Row `r`'s path relative to the workspace root, when known.
pub open spec fn rel_at(rels: Seq<Option<String>>, r: int) -> Option<Seq<char>> {
    if 0 <= r < rels.len() {
        opt_chars(rels[r])
    } else {
        None
    }
}

/// The hop a chain position shows.
pub open spec fn chain_mark(pos: ChainPosition) -> CellMark {
    match pos {
        ChainPosition::Upstream { step } => if step <= 1 {
            CellMark::ChainEntry
        } else {
            CellMark::ChainStep((step - 1) as usize)
        },
        ChainPosition::Downstream { level } => CellMark::ChainLevel(level),
    }
}

/// What cell (`r`, `c`) shows. In the hovered column, other rows show their
/// place on the hovered cell's chains. Elsewhere, a row of an interface that
/// two or more rows implement shows as a choice of the viewed profile, when
/// the project depends on some implementation of it; any other cell shows its
/// dependency state.
pub open spec fn mark_spec(a: App, p: Map<Seq<char>, ChainPosition>, rels: Seq<Option<String>>, r: int, c: int) -> CellMark {
    let n = a.rows@.len() as int;
    let row = a.rows@[r];
    let is_cursor = r == a.cursor_row && c == a.cursor_col;
    let on_chain = c == a.cursor_col && !is_cursor && p.contains_key(row.name@);
    let radio = match row.interface {
        Some(i) => count_interface(a.rows@, i@, n) >= 2 && uses_interface(a, i@, c, n),
        None => false,
    };
    let selected = match row.interface {
        Some(i) => match selected_impl(a, i@) {
            Some(sel) => rel_at(rels, r) == Some(sel),
            None => false,
        },
        None => false,
    };
    if on_chain {
        chain_mark(p[row.name@])
    } else if radio {
        CellMark::Radio { selected, cursor: is_cursor }
    } else {
        CellMark::State {
            state: cell_state(a, r, c),
            cursor: is_cursor,
            staged: 0 <= c < a.modified_cols@.len() && a.modified_cols@[c],
        }
    }
}

/// The interface that row `r` starts a group of: its interface, unless the
/// row above has the same one.
pub open spec fn group_label(rows: Seq<GridRow>, r: int) -> Option<Seq<char>> {
    match rows[r].interface {
        Some(i) => if r > 0 && (rows[r - 1].interface matches Some(j) && j@ == i@) {
            None
        } else {
            Some(i@)
        },
        None => None,
    }
}

impl App {
    /// The state of cell (`r`, `c`).
    pub fn state_at(&self, r: usize, c: usize) -> (s: DepState)
        ensures
            s == cell_state(*self, r as int, c as int),
    {
        if r < self.cells.len() && c < self.cells[r].len() {
            self.cells[r][c]
        } else {
            DepState::Absent
        }
    }

    /// What cell (`r`, `c`) shows (see [`mark_spec`]); `positions` are the
    /// chain positions of the hovered cell and `rels` each row's path relative
    /// to the workspace root.
    pub fn cell_mark(&self, positions: &StrMap<ChainPosition>, rels: &Vec<Option<String>>, r: usize, c: usize) -> (m:
        CellMark)
        requires
            r < self.rows@.len(),
        ensures
            m == mark_spec(*self, positions@, rels@, r as int, c as int),
    {
        let ghost n = self.rows@.len() as int;
        let row = &self.rows[r];
        let is_cursor = r == self.cursor_row && c == self.cursor_col;
        if c == self.cursor_col && !is_cursor {
            match positions.get(row.name.as_str()) {
                Some(pos) => {
                    return match *pos {
                        ChainPosition::Upstream { step } => if step <= 1 {
                            CellMark::ChainEntry
                        } else {
                            CellMark::ChainStep(step - 1)
                        },
                        ChainPosition::Downstream { level } => CellMark::ChainLevel(level),
                    };
                },
                None => {},
            }
        }
        let (radio, selected) = match &row.interface {
            Some(iface) => {
                let multi = self.is_multi_impl_interface(r);
                let mut uses = false;
                let mut k: usize = 0;
                while k < self.rows.len()
                    invariant
                        k <= self.rows@.len(),
                        n == self.rows@.len(),
                        uses == uses_interface(*self, iface@, c as int, k as int),
                    decreases self.rows@.len() - k,
                {
                    let hit = match &self.rows[k].interface {
                        Some(x) => str_eq(x.as_str(), iface.as_str()) && self.state_at(k, c) != DepState::Absent,
                        None => false,
                    };
                    uses = uses || hit;
                    k += 1;
                }
                let selected = if self.viewed_profile_idx < self.available_profiles.len() {
                    match self.available_profiles[self.viewed_profile_idx].implementations.get(iface.as_str()) {
                        Some(sel) => if r < rels.len() {
                            match &rels[r] {
                                Some(rel) => str_eq(rel.as_str(), sel.as_str()),
                                None => false,
                            }
                        } else {
                            false
                        },
                        None => false,
                    }
                } else {
                    false
                };
                (multi && uses, selected)
            },
            None => (false, false),
        };
        if radio {
            CellMark::Radio { selected, cursor: is_cursor }
        } else {
            let staged = c < self.modified_cols.len() && self.modified_cols[c];
            CellMark::State { state: self.state_at(r, c), cursor: is_cursor, staged }
        }
    }

    /// The interface row `r` starts a group of (see [`group_label`]).
    pub fn interface_label(&self, r: usize) -> (l: Option<String>)
        requires
            r < self.rows@.len(),
        ensures
            opt_chars(l) == group_label(self.rows@, r as int),
    {
        match &self.rows[r].interface {
            Some(i) => {
                if r == 0 {
                    return Some(i.clone());
                }
                let same = match &self.rows[r - 1].interface {
                    Some(j) => str_eq(j.as_str(), i.as_str()),
                    None => false,
                };
                if same {
                    None
                } else {
                    Some(i.clone())
                }
            },
            None => None,
        }
    }
}

// ---------------------------------------------------------------------------
// The status line.

/// The status line: the prompt while a name is typed, else the status
/// message, the hovered project and brick, and a hint while folded.
pub open spec fn status_line_spec(a: App) -> Seq<char> {
    match a.input_mode {
        InputMode::CreatingProject => "New project name: "@ + a.input_buffer@ + "█   [Enter to create, Esc to cancel]"@,
        InputMode::EditingInterface => "Interface name: "@ + a.input_buffer@ + "█   [Enter to save, Esc to cancel]"@,
        InputMode::Normal => {
            let cursor_info = if a.cursor_col < a.cols@.len() && a.cursor_row < a.rows@.len() {
                "  ["@ + a.cols@[a.cursor_col as int].name@ + "/"@ + a.rows@[a.cursor_row as int].name@ + "]"@
            } else {
                Seq::<char>::empty()
            };
            let hint = if a.fold_active {
                "  [f] unfold"@
            } else {
                Seq::<char>::empty()
            };
            a.status@ + cursor_info + hint
        },
    }
}

impl App {
    /// The status line (see [`status_line_spec`]).
    pub fn status_line(&self) -> (s: String)
        ensures
            s@ == status_line_spec(*self),
    {
        match self.input_mode {
            InputMode::CreatingProject => {
                let mut s = owned("New project name: ");
                s.append(self.input_buffer.as_str());
                s.append("█   [Enter to create, Esc to cancel]");
                s
            },
            InputMode::EditingInterface => {
                let mut s = owned("Interface name: ");
                s.append(self.input_buffer.as_str());
                s.append("█   [Enter to save, Esc to cancel]");
                s
            },
            InputMode::Normal => {
                let mut s = self.status.clone();
                if self.cursor_col < self.cols.len() && self.cursor_row < self.rows.len() {
                    s.append("  [");
                    s.append(self.cols[self.cursor_col].name.as_str());
                    s.append("/");
                    s.append(self.rows[self.cursor_row].name.as_str());
                    s.append("]");
                }
                if self.fold_active {
                    s.append("  [f] unfold");
                }
                proof {
                    assert(s@ =~= status_line_spec(*self));
                }
                s
            },
        }
    }
}

} // verus!
