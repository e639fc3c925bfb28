//! How the editor's selections turn into edits of a project's `[dependencies]`.
use vstd::prelude::*;

use std::path::PathBuf;

use crate::check::{contains_text, find_text};
use crate::model::BrickKind;
use crate::strmap::StrMap;
use crate::text::{owned, str_eq};

verus! {

/// Minimal description of one row (component or base) needed to update a
/// project's `[dependencies]`.
pub struct DepEntry {
    pub name: String,
    pub interface: Option<String>,
    pub kind: BrickKind,
    pub path: PathBuf,
    /// Whether this entry should be a direct dependency of the project.
    pub selected: bool,
}

/// What a `[dependencies]` key holds: nothing (any more), a dependency with a
/// `path`, or one without.
pub enum Slot {
    Gone,
    Path(String),
    Plain,
}

/// One edit of a project's `[dependencies]`.
pub enum DepEdit {
    /// `key = { path = "path" }`, with `package = "..."` when given.
    Add { key: String, path: String, package: Option<String> },
    /// Drop `key`.
    Remove { key: String },
}

/// A slot as plain values.
pub enum SlotView {
    Gone,
    Path(Seq<char>),
    Plain,
}

/// An edit as plain values.
pub enum EditView {
    Add(Seq<char>, Seq<char>, Option<Seq<char>>),
    Remove(Seq<char>),
}

pub open spec fn slot_view(s: Slot) -> SlotView {
    match s {
        Slot::Gone => SlotView::Gone,
        Slot::Path(p) => SlotView::Path(p@),
        Slot::Plain => SlotView::Plain,
    }
}

pub open spec fn edit_view(e: DepEdit) -> EditView {
    match e {
        DepEdit::Add { key, path, package } => EditView::Add(
            key@,
            path@,
            match package {
                Some(p) => Some(p@),
                None => None,
            },
        ),
        DepEdit::Remove { key } => EditView::Remove(key@),
    }
}

/// The dependencies as plain values.
pub open spec fn slots_view(m: Map<Seq<char>, Slot>) -> Map<Seq<char>, SlotView> {
    m.map_values(|s: Slot| slot_view(s))
}

/// The key a row is listed under: its interface when that differs from its
/// name (Cargo's `package` then names the crate), else its name.
pub open spec fn dep_key(e: DepEntry) -> Seq<char> {
    match e.interface {
        Some(i) => if i@ != e.name@ {
            i@
        } else {
            e.name@
        },
        None => e.name@,
    }
}

/// The directory bricks of a kind live in.
pub open spec fn kind_dir(k: BrickKind) -> Seq<char> {
    match k {
        BrickKind::Component => "components"@,
        BrickKind::Base => "bases"@,
    }
}

/// A `path` that points into `components/` or `bases/`.
pub open spec fn is_brick_path(p: Seq<char>) -> bool {
    contains_text(p, "/components/"@) || contains_text(p, "/bases/"@)
}

/// Whether `key` is present in `deps`.
pub open spec fn present(deps: Map<Seq<char>, SlotView>, key: Seq<char>) -> bool {
    deps.contains_key(key) && !(deps[key] is Gone)
}

/// What one row does to the dependencies `deps`, the row's directory being
/// `dir`: a selected row missing from them is added as a path dependency; a
/// deselected row whose key is a path dependency into the bricks is removed;
/// anything else is left as it is.
pub open spec fn entry_edit(deps: Map<Seq<char>, SlotView>, e: DepEntry, dir: Seq<char>) -> Option<EditView> {
    let key = dep_key(e);
    if e.selected {
        if present(deps, key) {
            None
        } else {
            Some(
                EditView::Add(
                    key,
                    "../../"@ + kind_dir(e.kind) + "/"@ + dir,
                    if key != e.name@ {
                        Some(e.name@)
                    } else {
                        None
                    },
                ),
            )
        }
    } else if deps.contains_key(key) && (deps[key] matches SlotView::Path(p) && is_brick_path(p)) {
        Some(EditView::Remove(key))
    } else {
        None
    }
}

/// The dependencies after an edit.
pub open spec fn applied(deps: Map<Seq<char>, SlotView>, ed: Option<EditView>) -> Map<Seq<char>, SlotView> {
    match ed {
        Some(EditView::Add(k, p, _)) => deps.insert(k, SlotView::Path(p)),
        Some(EditView::Remove(k)) => deps.insert(k, SlotView::Gone),
        None => deps,
    }
}

/// The dependencies after the first `k` rows.
pub open spec fn deps_after(deps: Map<Seq<char>, SlotView>, es: Seq<DepEntry>, dirs: Seq<String>, k: int) -> Map<
    Seq<char>,
    SlotView,
>
    decreases k,
{
    if k <= 0 {
        deps
    } else {
        let before = deps_after(deps, es, dirs, k - 1);
        applied(before, entry_edit(before, es[k - 1], dirs[k - 1]@))
    }
}

/// The edits the first `k` rows make, in order.
pub open spec fn edits_upto(deps: Map<Seq<char>, SlotView>, es: Seq<DepEntry>, dirs: Seq<String>, k: int) -> Seq<
    EditView,
>
    decreases k,
{
    if k <= 0 {
        Seq::empty()
    } else {
        let before = deps_after(deps, es, dirs, k - 1);
        edits_upto(deps, es, dirs, k - 1) + match entry_edit(before, es[k - 1], dirs[k - 1]@) {
            Some(ed) => seq![ed],
            None => Seq::empty(),
        }
    }
}

fn slot_copy(s: &Slot) -> (r: Slot)
    ensures
        slot_view(r) == slot_view(*s),
{
    match s {
        Slot::Gone => Slot::Gone,
        Slot::Path(p) => Slot::Path(p.clone()),
        Slot::Plain => Slot::Plain,
    }
}

/// The edits that bring a project's `[dependencies]` in line with the rows:
/// `deps` is what the manifest lists now, `dirs[i]` the directory name of row
/// `i`. Rows are taken in order, each seeing the edits of the rows before it.
pub fn project_dep_edits(deps: &StrMap<Slot>, entries: &Vec<DepEntry>, dirs: &Vec<String>) -> (r: Vec<DepEdit>)
    requires
        dirs@.len() == entries@.len(),
    ensures
        r@.map_values(|e: DepEdit| edit_view(e)) == edits_upto(
            slots_view(deps@),
            entries@,
            dirs@,
            entries@.len() as int,
        ),
{
    let ghost d0 = slots_view(deps@);
    let mut cur: StrMap<Slot> = StrMap::new();
    let mut q: usize = 0;
    let n = deps.len();
    while q < n
        invariant
            q <= n,
            n == deps.key_seq().len(),
            deps@.dom() == deps.key_seq().to_set(),
            forall|k: Seq<char>| #[trigger] cur@.contains_key(k) <==> deps.key_seq().take(q as int).contains(k),
            forall|k: Seq<char>| cur@.contains_key(k) ==> slot_view(#[trigger] cur@[k]) == slot_view(deps@[k]),
        decreases n - q,
    {
        let k = deps.key_at(q);
        let v = deps.value_at(q);
        cur.insert(k.clone(), slot_copy(v));
        proof {
            let t0 = deps.key_seq().take(q as int);
            let t1 = deps.key_seq().take(q + 1);
            assert(t1 =~= t0.push(k@));
            assert forall|x: Seq<char>| #[trigger] cur@.contains_key(x) <==> t1.contains(x) by {
                if x == k@ {
                    assert(t1[q as int] == x);
                } else {
                    if t1.contains(x) {
                        let w = choose|w: int| 0 <= w < t1.len() && t1[w] == x;
                        assert(t0[w] == x);
                    }
                    if t0.contains(x) {
                        let w = choose|w: int| 0 <= w < t0.len() && t0[w] == x;
                        assert(t1[w] == x);
                    }
                }
            }
        }
        q += 1;
    }
    proof {
        assert(deps.key_seq().take(n as int) =~= deps.key_seq());
        assert(slots_view(cur@) =~= d0);
    }
    let mut out: Vec<DepEdit> = Vec::new();
    let mut i: usize = 0;
    while i < entries.len()
        invariant
            i <= entries@.len(),
            dirs@.len() == entries@.len(),
            slots_view(cur@) == deps_after(d0, entries@, dirs@, i as int),
            out@.map_values(|e: DepEdit| edit_view(e)) == edits_upto(d0, entries@, dirs@, i as int),
        decreases entries@.len() - i,
    {
        let e = &entries[i];
        let key: String = match &e.interface {
            Some(iface) => if !str_eq(iface.as_str(), e.name.as_str()) {
                iface.clone()
            } else {
                e.name.clone()
            },
            None => e.name.clone(),
        };
        let ghost before = slots_view(cur@);
        let ghost ed = entry_edit(before, *e, dirs@[i as int]@);
        let ghost prev = out@.map_values(|x: DepEdit| edit_view(x));
        let present_now = match cur.get(key.as_str()) {
            Some(s) => match s {
                Slot::Gone => false,
                _ => true,
            },
            None => false,
        };
        if e.selected {
            if !present_now {
                let mut path = owned("../../");
                match e.kind {
                    BrickKind::Component => path.append("components"),
                    BrickKind::Base => path.append("bases"),
                }
                path.append("/");
                path.append(dirs[i].as_str());
                let package = if !str_eq(key.as_str(), e.name.as_str()) {
                    Some(e.name.clone())
                } else {
                    None
                };
                cur.insert(key.clone(), Slot::Path(path.clone()));
                out.push(DepEdit::Add { key, path, package });
                proof {
                    assert(out@.map_values(|x: DepEdit| edit_view(x)) =~= prev.push(ed->0));
                }
            }
        } else {
            let remove = match cur.get(key.as_str()) {
                Some(s) => match s {
                    Slot::Path(p) => find_text(p.as_str(), "/components/") || find_text(p.as_str(), "/bases/"),
                    _ => false,
                },
                None => false,
            };
            if remove {
                cur.insert(key.clone(), Slot::Gone);
                out.push(DepEdit::Remove { key });
                proof {
                    assert(out@.map_values(|x: DepEdit| edit_view(x)) =~= prev.push(ed->0));
                }
            }
        }
        proof {
            assert(slots_view(cur@) =~= applied(before, ed));
        }
        i += 1;
    }
    out
}

} // verus!
