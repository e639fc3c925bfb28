//! Reachability over brick dependency graphs.
use vstd::prelude::*;

use crate::corsett::string_views;
use crate::model::{last_named, Brick};
use crate::order::{insert_sorted_unique, strictly_sorted};
use crate::strmap::StrMap;

verus! {

/// Dependency lists by brick name.
pub type DepMap = StrMap<Vec<String>>;

/// The names `n` depends on (none when `n` has no entry).
pub open spec fn succ(g: Map<Seq<char>, Vec<String>>, n: Seq<char>) -> Seq<Seq<char>> {
    if g.contains_key(n) {
        string_views(g[n]@)
    } else {
        Seq::<Seq<char>>::empty()
    }
}

/// `p` is a non-empty walk along dependency edges.
pub open spec fn is_path(g: Map<Seq<char>, Vec<String>>, p: Seq<Seq<char>>) -> bool {
    &&& p.len() >= 1
    &&& forall|i: int| 0 <= i < p.len() - 1 ==> (#[trigger] succ(g, p[i])).contains(p[i + 1])
}

/// `n` can be reached from one of `srcs` along dependency edges (zero or more).
pub open spec fn reachable(g: Map<Seq<char>, Vec<String>>, srcs: Set<Seq<char>>, n: Seq<char>) -> bool {
    exists|p: Seq<Seq<char>>| #[trigger] is_path(g, p) && srcs.contains(p[0]) && p.last() == n
}

/// Every dependency of a member of `s` is in `s`.
pub open spec fn closed_under(g: Map<Seq<char>, Vec<String>>, s: Set<Seq<char>>) -> bool {
    forall|a: Seq<char>, b: Seq<char>| s.contains(a) && #[trigger] succ(g, a).contains(b) ==> s.contains(b)
}

/// A set closed under the edges that holds the sources holds everything reachable from them.
pub proof fn lemma_closed_contains_reachable(
    g: Map<Seq<char>, Vec<String>>,
    srcs: Set<Seq<char>>,
    s: Set<Seq<char>>,
    n: Seq<char>,
)
    requires
        srcs.subset_of(s),
        closed_under(g, s),
        reachable(g, srcs, n),
    ensures
        s.contains(n),
{
    let p = choose|p: Seq<Seq<char>>| #[trigger] is_path(g, p) && srcs.contains(p[0]) && p.last() == n;
    assert forall|k: int| 0 <= k < p.len() implies s.contains(#[trigger] p[k]) by {
        lemma_path_prefix_in(g, srcs, s, p, k);
    }
}

proof fn lemma_path_prefix_in(
    g: Map<Seq<char>, Vec<String>>,
    srcs: Set<Seq<char>>,
    s: Set<Seq<char>>,
    p: Seq<Seq<char>>,
    k: int,
)
    requires
        srcs.subset_of(s),
        closed_under(g, s),
        is_path(g, p),
        srcs.contains(p[0]),
        0 <= k < p.len(),
    ensures
        s.contains(p[k]),
    decreases k,
{
    if k > 0 {
        lemma_path_prefix_in(g, srcs, s, p, k - 1);
        assert(succ(g, p[k - 1]).contains(p[k]));
    }
}

/// All names that occur in dependency lists of the first `n` keys.
pub open spec fn targets_upto(g: &DepMap, n: int) -> Set<Seq<char>>
    decreases n,
{
    if n <= 0 {
        Set::<Seq<char>>::empty()
    } else {
        targets_upto(g, n - 1).union(succ(g@, g.key_seq()[n - 1]).to_set())
    }
}

pub proof fn lemma_targets_upto(g: &DepMap, n: int)
    requires
        0 <= n <= g.key_seq().len(),
    ensures
        targets_upto(g, n).finite(),
        forall|i: int, b: Seq<char>|
            0 <= i < n && #[trigger] succ(g@, g.key_seq()[i]).contains(b) ==> targets_upto(g, n).contains(b),
    decreases n,
{
    if n > 0 {
        lemma_targets_upto(g, n - 1);
        assert(succ(g@, g.key_seq()[n - 1]).to_set().finite()) by {
            succ(g@, g.key_seq()[n - 1]).lemma_cardinality_of_set();
        }
        assert forall|i: int, b: Seq<char>|
            0 <= i < n && #[trigger] succ(g@, g.key_seq()[i]).contains(b) implies targets_upto(g, n).contains(b) by {
            if i == n - 1 {
                assert(succ(g@, g.key_seq()[n - 1]).to_set().contains(b));
            }
        }
    }
}

/// Whether `v` holds a string equal to `s`.
pub fn contains_str(v: &Vec<String>, s: &str) -> (r: bool)
    ensures
        r == string_views(v@).contains(s@),
{
    let mut i: usize = 0;
    while i < v.len()
        invariant
            i <= v.len(),
            forall|k: int| 0 <= k < i ==> v@[k]@ != s@,
        decreases v.len() - i,
    {
        if crate::text::str_eq(v[i].as_str(), s) {
            proof {
                assert(string_views(v@)[i as int] == s@);
            }
            return true;
        }
        i += 1;
    }
    proof {
        if string_views(v@).contains(s@) {
            let k = choose|k: int| 0 <= k < string_views(v@).len() && string_views(v@)[k] == s@;
            assert(v@[k]@ == s@);
        }
    }
    false
}

/// The dependency list of `name` (empty when `name` has no entry).
fn deps_of<'a>(g: &'a DepMap, name: &str) -> (r: Option<&'a Vec<String>>)
    ensures
        match r {
            Some(v) => g@.contains_key(name@) && succ(g@, name@) == string_views(v@),
            None => !g@.contains_key(name@) && succ(g@, name@) == Seq::<Seq<char>>::empty(),
        },
{
    g.get(name)
}

/// One more edge extends reachability.
pub proof fn lemma_reach_step(g: Map<Seq<char>, Vec<String>>, srcs: Set<Seq<char>>, a: Seq<char>, b: Seq<char>)
    requires
        reachable(g, srcs, a),
        succ(g, a).contains(b),
    ensures
        reachable(g, srcs, b),
{
    let pa = choose|p: Seq<Seq<char>>| #[trigger] is_path(g, p) && srcs.contains(p[0]) && p.last() == a;
    let pb = pa.push(b);
    assert forall|i: int| 0 <= i < pb.len() - 1 implies (#[trigger] succ(g, pb[i])).contains(pb[i + 1]) by {
        if i < pa.len() - 1 {
            assert(pb[i] == pa[i] && pb[i + 1] == pa[i + 1]);
        }
    }
    assert(is_path(g, pb));
    assert(pb[0] == pa[0]);
}

/// A source is reachable from itself.
pub proof fn lemma_reach_source(g: Map<Seq<char>, Vec<String>>, srcs: Set<Seq<char>>, a: Seq<char>)
    requires
        srcs.contains(a),
    ensures
        reachable(g, srcs, a),
{
    assert(is_path(g, seq![a]));
    assert(seq![a][0] == a);
}

/// Every dependency of a key lies among the map's targets.
proof fn lemma_succ_in_targets(g: &DepMap, a: Seq<char>, b: Seq<char>)
    requires
        g@.dom() == g.key_seq().to_set(),
        succ(g@, a).contains(b),
    ensures
        targets_upto(g, g.key_seq().len() as int).contains(b),
        targets_upto(g, g.key_seq().len() as int).finite(),
{
    lemma_targets_upto(g, g.key_seq().len() as int);
    assert(g@.contains_key(a));
    assert(g.key_seq().to_set().contains(a));
    let ki = choose|ki: int| 0 <= ki < g.key_seq().len() && g.key_seq()[ki] == a;
    assert(succ(g@, g.key_seq()[ki]).contains(b));
}

/// Appends `s` unless an equal string is already present.
pub fn push_unique(v: &mut Vec<String>, s: &str) -> (added: bool)
    requires
        string_views(old(v)@).no_duplicates(),
    ensures
        string_views(final(v)@).no_duplicates(),
        added == !string_views(old(v)@).contains(s@),
        string_views(final(v)@) == if added {
            string_views(old(v)@).push(s@)
        } else {
            string_views(old(v)@)
        },
        string_views(final(v)@).to_set() == string_views(old(v)@).to_set().insert(s@),
        old(v)@.len() <= final(v)@.len(),
        forall|k: int| 0 <= k < old(v)@.len() ==> #[trigger] final(v)@[k] == old(v)@[k],
{
    let ghost before = string_views(v@);
    if contains_str(v, s) {
        proof {
            assert(before.to_set().insert(s@) =~= before.to_set());
        }
        false
    } else {
        v.push(crate::text::owned(s));
        proof {
            assert(string_views(v@) =~= before.push(s@));
            before.lemma_push_to_set_commute(s@);
            assert forall|x: int, y: int|
                0 <= x < before.len() + 1 && 0 <= y < before.len() + 1 && x != y implies before.push(
                s@,
            )[x] != before.push(s@)[y] by {
                if x < before.len() && y < before.len() {
                } else if x < before.len() {
                    assert(before.contains(before[x]));
                } else {
                    assert(before.contains(before[y]));
                }
            }
        }
        true
    }
}

/// Adds every dependency in `ds` to `visited`.
fn absorb(
    visited: &mut Vec<String>,
    ds: &Vec<String>,
    Ghost(g): Ghost<Map<Seq<char>, Vec<String>>>,
    Ghost(srcs): Ghost<Set<Seq<char>>>,
    Ghost(a): Ghost<Seq<char>>,
)
    requires
        string_views(old(visited)@).no_duplicates(),
        reachable(g, srcs, a),
        succ(g, a) == string_views(ds@),
        forall|n: Seq<char>| #[trigger] string_views(old(visited)@).contains(n) ==> reachable(g, srcs, n),
    ensures
        string_views(final(visited)@).no_duplicates(),
        forall|n: Seq<char>| #[trigger] string_views(final(visited)@).contains(n) ==> reachable(g, srcs, n),
        string_views(final(visited)@).to_set() == string_views(old(visited)@).to_set().union(
            string_views(ds@).to_set(),
        ),
        old(visited)@.len() <= final(visited)@.len(),
        forall|k: int| 0 <= k < old(visited)@.len() ==> #[trigger] final(visited)@[k] == old(visited)@[k],
{
    let ghost start = string_views(visited@);
    let ghost start_raw = visited@;
    let mut j: usize = 0;
    proof {
        assert(string_views(ds@).take(0).to_set() =~= Set::<Seq<char>>::empty());
        assert(start.to_set().union(Set::<Seq<char>>::empty()) =~= start.to_set());
    }
    while j < ds.len()
        invariant
            j <= ds.len(),
            string_views(visited@).no_duplicates(),
            reachable(g, srcs, a),
            succ(g, a) == string_views(ds@),
            forall|n: Seq<char>| #[trigger] string_views(visited@).contains(n) ==> reachable(g, srcs, n),
            string_views(visited@).to_set() == start.to_set().union(string_views(ds@).take(j as int).to_set()),
            start_raw.len() <= visited@.len(),
            forall|k: int| 0 <= k < start_raw.len() ==> #[trigger] visited@[k] == start_raw[k],
        decreases ds.len() - j,
    {
        let ghost before = string_views(visited@);
        let ghost before_raw = visited@;
        let b = ds[j].as_str();
        proof {
            assert(string_views(ds@)[j as int] == b@);
            assert(succ(g, a).contains(b@));
            lemma_reach_step(g, srcs, a, b@);
        }
        let added = push_unique(visited, b);
        proof {
            assert(string_views(ds@).take(j + 1) =~= string_views(ds@).take(j as int).push(b@));
            string_views(ds@).take(j as int).lemma_push_to_set_commute(b@);
            assert(string_views(visited@).to_set() =~= start.to_set().union(
                string_views(ds@).take(j + 1).to_set(),
            ));
            assert forall|n: Seq<char>| #[trigger] string_views(visited@).contains(n) implies reachable(g, srcs, n) by {
                if n != b@ {
                    assert(string_views(visited@).to_set().contains(n));
                    assert(before.to_set().contains(n));
                }
            }
            assert forall|k: int| 0 <= k < start_raw.len() implies #[trigger] visited@[k] == start_raw[k] by {
                assert(visited@[k] == before_raw[k]);
            }
        }
        j += 1;
    }
    proof {
        assert(string_views(ds@).take(ds.len() as int) =~= string_views(ds@));
    }
}

/// Everything reachable from `seeds` (seeds included), each name once, in
/// breadth-first discovery order.
pub fn reach_all(g: &DepMap, seeds: &Vec<String>) -> (r: Vec<String>)
    ensures
        string_views(r@).no_duplicates(),
        forall|n: Seq<char>|
            string_views(r@).contains(n) <==> reachable(g@, string_views(seeds@).to_set(), n),
{
    let ghost srcs = string_views(seeds@).to_set();
    let nkeys = g.len();
    let ghost targets = targets_upto(g, nkeys as int);
    let ghost universe = srcs.union(targets);
    proof {
        lemma_targets_upto(g, nkeys as int);
        string_views(seeds@).lemma_cardinality_of_set();
    }
    let mut visited: Vec<String> = Vec::new();
    let mut i: usize = 0;
    proof {
        assert(string_views(visited@).to_set() =~= Set::<Seq<char>>::empty());
        assert(string_views(seeds@).take(0).to_set() =~= Set::<Seq<char>>::empty());
    }
    while i < seeds.len()
        invariant
            i <= seeds.len(),
            srcs == string_views(seeds@).to_set(),
            string_views(visited@).no_duplicates(),
            string_views(visited@).to_set() == string_views(seeds@).take(i as int).to_set(),
        decreases seeds.len() - i,
    {
        let s = seeds[i].as_str();
        proof {
            assert(string_views(seeds@)[i as int] == s@);
        }
        push_unique(&mut visited, s);
        proof {
            assert(string_views(seeds@).take(i + 1) =~= string_views(seeds@).take(i as int).push(s@));
            string_views(seeds@).take(i as int).lemma_push_to_set_commute(s@);
        }
        i += 1;
    }
    proof {
        assert(string_views(seeds@).take(seeds.len() as int) =~= string_views(seeds@));
        assert forall|n: Seq<char>| #[trigger] string_views(visited@).contains(n) implies reachable(g@, srcs, n) by {
            assert(string_views(visited@).to_set().contains(n));
            lemma_reach_source(g@, srcs, n);
        }
    }
    let mut head: usize = 0;
    while head < visited.len()
        invariant
            head <= visited.len(),
            srcs == string_views(seeds@).to_set(),
            universe == srcs.union(targets),
            targets == targets_upto(g, g.key_seq().len() as int),
            universe.finite(),
            g@.dom() == g.key_seq().to_set(),
            string_views(visited@).no_duplicates(),
            srcs.subset_of(string_views(visited@).to_set()),
            string_views(visited@).to_set().subset_of(universe),
            forall|n: Seq<char>| #[trigger] string_views(visited@).contains(n) ==> reachable(g@, srcs, n),
            forall|k: int, b: Seq<char>|
                0 <= k < head && #[trigger] succ(g@, visited@[k]@).contains(b)
                    ==> string_views(visited@).to_set().contains(b),
        decreases universe.len() - visited.len(), visited.len() - head,
    {
        proof {
            lemma_visited_bounded(string_views(visited@), universe);
        }
        let name = visited[head].clone();
        let ghost a = name@;
        let ghost before = visited@;
        proof {
            assert(string_views(visited@)[head as int] == a);
            assert(string_views(visited@).contains(a));
        }
        match deps_of(g, name.as_str()) {
            Some(ds) => {
                absorb(&mut visited, ds, Ghost(g@), Ghost(srcs), Ghost(a));
                proof {
                    assert forall|n: Seq<char>| string_views(visited@).to_set().contains(n) implies universe.contains(n) by {
                        if !string_views(before).to_set().contains(n) {
                            assert(string_views(ds@).to_set().contains(n));
                            assert(succ(g@, a).contains(n));
                            lemma_succ_in_targets(g, a, n);
                        }
                    }
                    assert forall|k: int, b: Seq<char>|
                        0 <= k < head + 1 && #[trigger] succ(g@, visited@[k]@).contains(b)
                            implies string_views(visited@).to_set().contains(b) by {
                        assert(visited@[k] == before[k]);
                        if k == head {
                            assert(string_views(ds@).to_set().contains(b));
                        } else {
                            assert(string_views(before).to_set().contains(b));
                        }
                    }
                    lemma_visited_bounded(string_views(visited@), universe);
                }
            },
            None => {},
        }
        head += 1;
    }
    proof {
        assert(closed_under(g@, string_views(visited@).to_set())) by {
            assert forall|x: Seq<char>, b: Seq<char>|
                string_views(visited@).to_set().contains(x) && #[trigger] succ(g@, x).contains(b)
                    implies string_views(visited@).to_set().contains(b) by {
                let k = choose|k: int| 0 <= k < string_views(visited@).len() && string_views(visited@)[k] == x;
                assert(visited@[k]@ == x);
            }
        }
        assert forall|n: Seq<char>| reachable(g@, srcs, n) implies string_views(visited@).contains(n) by {
            lemma_closed_contains_reachable(g@, srcs, string_views(visited@).to_set(), n);
        }
    }
    visited
}

proof fn lemma_visited_bounded(v: Seq<Seq<char>>, u: Set<Seq<char>>)
    requires
        v.no_duplicates(),
        u.finite(),
        forall|n: Seq<char>| #[trigger] v.contains(n) ==> u.contains(n),
    ensures
        v.len() <= u.len(),
{
    v.unique_seq_to_set();
    assert(v.to_set().subset_of(u));
    vstd::set_lib::lemma_len_subset(v.to_set(), u);
}


/// Names reachable from `direct` through `comp_deps` that are not in `direct`
/// themselves, each once.
pub fn compute_transitive(direct: &Vec<String>, comp_deps: &DepMap) -> (r: Vec<String>)
    ensures
        string_views(r@).no_duplicates(),
        forall|n: Seq<char>|
            string_views(r@).contains(n) <==> (reachable(comp_deps@, string_views(direct@).to_set(), n)
                && !string_views(direct@).contains(n)),
{
    let all = reach_all(comp_deps, direct);
    let mut out: Vec<String> = Vec::new();
    let mut i: usize = 0;
    while i < all.len()
        invariant
            i <= all.len(),
            string_views(all@).no_duplicates(),
            string_views(out@).no_duplicates(),
            forall|n: Seq<char>|
                string_views(out@).contains(n) <==> (string_views(all@).take(i as int).contains(n)
                    && !string_views(direct@).contains(n)),
        decreases all.len() - i,
    {
        let s = all[i].as_str();
        proof {
            assert(string_views(all@)[i as int] == s@);
            assert(string_views(all@).take(i + 1) =~= string_views(all@).take(i as int).push(s@));
        }
        let ghost before = string_views(out@);
        let inside = contains_str(direct, s);
        if !inside {
            push_unique(&mut out, s);
        }
        proof {
            broadcast use vstd::seq_lib::lemma_seq_contains_after_push;
            assert forall|n: Seq<char>|
                string_views(out@).contains(n) <==> (string_views(all@).take(i + 1).contains(n)
                    && !string_views(direct@).contains(n)) by {
                if n == s@ {
                } else {
                    assert(string_views(all@).take(i + 1).contains(n) == string_views(all@).take(i as int).contains(n));
                }
            }
        }
        i += 1;
    }
    proof {
        assert(string_views(all@).take(all.len() as int) =~= string_views(all@));
    }
    out
}

/// `q` is a walk from one of `srcs` to `n`.
pub open spec fn src_path(g: Map<Seq<char>, Vec<String>>, srcs: Set<Seq<char>>, q: Seq<Seq<char>>, n: Seq<char>) -> bool {
    is_path(g, q) && srcs.contains(q[0]) && q.last() == n
}

/// A prefix of a walk is a walk.
proof fn lemma_path_prefix(g: Map<Seq<char>, Vec<String>>, q: Seq<Seq<char>>, m: int)
    requires
        is_path(g, q),
        1 <= m <= q.len(),
    ensures
        is_path(g, q.take(m)),
        q.take(m)[0] == q[0],
        q.take(m).last() == q[m - 1],
{
    assert forall|i: int| 0 <= i < q.take(m).len() - 1 implies (#[trigger] succ(g, q.take(m)[i])).contains(q.take(m)[i + 1]) by {
        assert(q.take(m)[i] == q[i]);
        assert(q.take(m)[i + 1] == q[i + 1]);
        assert(succ(g, q[i]).contains(q[i + 1]));
    }
}

/// Breadth-first bookkeeping for the shortest-chain search.
pub open spec fn bfs_state(
    g: Map<Seq<char>, Vec<String>>,
    srcs: Set<Seq<char>>,
    vs: Seq<Seq<char>>,
    parent: Seq<Option<usize>>,
    lvl: Seq<nat>,
    head: int,
) -> bool {
    &&& vs.no_duplicates()
    &&& vs.len() == parent.len() == lvl.len()
    &&& 0 <= head <= vs.len()
    &&& srcs.subset_of(vs.to_set())
    &&& forall|k: int| 0 <= k < vs.len() ==> match #[trigger] parent[k] {
        Some(p) => p < k && succ(g, vs[p as int]).contains(vs[k]) && lvl[k] == lvl[p as int] + 1,
        None => srcs.contains(vs[k]) && lvl[k] == 0,
    }
    &&& forall|k: int, q: Seq<Seq<char>>|
        0 <= k < vs.len() && #[trigger] src_path(g, srcs, q, vs[k]) ==> q.len() >= lvl[k] + 1
    &&& forall|i: int, j: int| 0 <= i <= j < vs.len() ==> lvl[i] <= lvl[j]
    &&& head < vs.len() ==> forall|k: int| 0 <= k < vs.len() ==> #[trigger] lvl[k] <= lvl[head] + 1
    &&& head < vs.len() ==> forall|n: Seq<char>, q: Seq<Seq<char>>|
        #[trigger] src_path(g, srcs, q, n) && q.len() <= lvl[head] + 1 ==> vs.contains(n)
    &&& forall|k: int, b: Seq<char>| 0 <= k < head && #[trigger] succ(g, vs[k]).contains(b) ==> vs.contains(b)
}

/// A newly found dependency of the node being expanded has no shorter walk
/// than one step past that node.
proof fn lemma_new_node_distance(
    g: Map<Seq<char>, Vec<String>>,
    srcs: Set<Seq<char>>,
    vs: Seq<Seq<char>>,
    parent: Seq<Option<usize>>,
    lvl: Seq<nat>,
    head: int,
    b: Seq<char>,
    q: Seq<Seq<char>>,
)
    requires
        bfs_state(g, srcs, vs, parent, lvl, head),
        head < vs.len(),
        !vs.contains(b),
        src_path(g, srcs, q, b),
    ensures
        q.len() >= lvl[head] + 2,
{
    if q.len() <= lvl[head] + 1 {
        assert(vs.contains(b));
    }
}

/// Walks that reach the predecessor of a node.
proof fn lemma_pred_path(g: Map<Seq<char>, Vec<String>>, srcs: Set<Seq<char>>, q: Seq<Seq<char>>, n: Seq<char>)
    requires
        src_path(g, srcs, q, n),
        q.len() >= 2,
    ensures
        src_path(g, srcs, q.take(q.len() - 1), q[q.len() - 2]),
        succ(g, q[q.len() - 2]).contains(n),
{
    lemma_path_prefix(g, q, q.len() - 1);
    assert(succ(g, q[q.len() - 2]).contains(q[q.len() - 2 + 1]));
}

/// Moving to the next node keeps every short walk's end among the found nodes.
proof fn lemma_advance_head(
    g: Map<Seq<char>, Vec<String>>,
    srcs: Set<Seq<char>>,
    vs: Seq<Seq<char>>,
    parent: Seq<Option<usize>>,
    lvl: Seq<nat>,
    head: int,
)
    requires
        bfs_state(g, srcs, vs, parent, lvl, head),
        head < vs.len(),
        forall|b: Seq<char>| #[trigger] succ(g, vs[head]).contains(b) ==> vs.contains(b),
    ensures
        bfs_state(g, srcs, vs, parent, lvl, head + 1),
{
    let nh = head + 1;
    if nh < vs.len() {
        assert(lvl[head] <= lvl[nh]);
        assert(lvl[nh] <= lvl[head] + 1);
        assert forall|k: int| 0 <= k < vs.len() implies #[trigger] lvl[k] <= lvl[nh] + 1 by {
            assert(lvl[k] <= lvl[head] + 1);
        }
        assert forall|n: Seq<char>, q: Seq<Seq<char>>|
            #[trigger] src_path(g, srcs, q, n) && q.len() <= lvl[nh] + 1 implies vs.contains(n) by {
            if q.len() <= lvl[head] + 1 {
            } else {
                // q.len() == lvl[head] + 2 and lvl[nh] == lvl[head] + 1
                lemma_pred_path(g, srcs, q, n);
                let c = q[q.len() - 2];
                let qc = q.take(q.len() - 1);
                assert(vs.contains(c));
                let kc = choose|kc: int| 0 <= kc < vs.len() && vs[kc] == c;
                assert(src_path(g, srcs, qc, vs[kc]));
                assert(qc.len() >= lvl[kc] + 1);
                if kc >= nh {
                    assert(lvl[nh] <= lvl[kc]);
                }
                assert(kc < nh);
            }
        }
    }
    assert forall|k: int, b: Seq<char>| 0 <= k < nh && #[trigger] succ(g, vs[k]).contains(b) implies vs.contains(b) by {
        if k == head {
        } else {
        }
    }
}


/// Recording a newly found dependency of the node being expanded keeps the
/// breadth-first bookkeeping.
proof fn lemma_push_node(
    g: Map<Seq<char>, Vec<String>>,
    srcs: Set<Seq<char>>,
    vs: Seq<Seq<char>>,
    parent: Seq<Option<usize>>,
    lvl: Seq<nat>,
    head: usize,
    b: Seq<char>,
)
    requires
        bfs_state(g, srcs, vs, parent, lvl, head as int),
        head < vs.len(),
        !vs.contains(b),
        succ(g, vs[head as int]).contains(b),
    ensures
        bfs_state(
            g,
            srcs,
            vs.push(b),
            parent.push(Some(head)),
            lvl.push(lvl[head as int] + 1),
            head as int,
        ),
{
    let vs2 = vs.push(b);
    let parent2 = parent.push(Some(head));
    let lvl2 = lvl.push(lvl[head as int] + 1);
    let n = vs.len() as int;
    assert(vs2.no_duplicates()) by {
        assert forall|x: int, y: int| 0 <= x < vs2.len() && 0 <= y < vs2.len() && x != y implies vs2[x] != vs2[y] by {
            if x < n && y < n {
            } else if x < n {
                assert(vs.contains(vs[x]));
            } else {
                assert(vs.contains(vs[y]));
            }
        }
    }
    assert(srcs.subset_of(vs2.to_set())) by {
        assert forall|x: Seq<char>| srcs.contains(x) implies vs2.to_set().contains(x) by {
            assert(vs.to_set().contains(x));
            let w = choose|w: int| 0 <= w < vs.len() && vs[w] == x;
            assert(vs2[w] == x);
        }
    }
    assert forall|k: int| 0 <= k < vs2.len() implies match #[trigger] parent2[k] {
        Some(p) => p < k && succ(g, vs2[p as int]).contains(vs2[k]) && lvl2[k] == lvl2[p as int] + 1,
        None => srcs.contains(vs2[k]) && lvl2[k] == 0,
    } by {
        if k == n {
            assert(parent2[k] == Some(head));
            assert(vs2[head as int] == vs[head as int]);
            assert(lvl2[head as int] == lvl[head as int]);
        }
        if k < n {
            assert(parent2[k] == parent[k]);
            match parent[k] {
                Some(p) => {
                    assert(vs2[p as int] == vs[p as int]);
                },
                None => {},
            }
        }
    }
    assert forall|k: int, q: Seq<Seq<char>>|
        0 <= k < vs2.len() && #[trigger] src_path(g, srcs, q, vs2[k]) implies q.len() >= lvl2[k] + 1 by {
        if k < n {
            assert(vs2[k] == vs[k]);
            assert(src_path(g, srcs, q, vs[k]));
        } else {
            lemma_new_node_distance(g, srcs, vs, parent, lvl, head as int, b, q);
        }
    }
    assert forall|i: int, j: int| 0 <= i <= j < vs2.len() implies lvl2[i] <= lvl2[j] by {
        if j == n && i < n {
            assert(lvl[i] <= lvl[head as int] + 1);
        }
    }
    assert forall|k: int| 0 <= k < vs2.len() implies #[trigger] lvl2[k] <= lvl2[head as int] + 1 by {
        if k < n {
            assert(lvl[k] <= lvl[head as int] + 1);
        }
    }
    assert forall|m: Seq<char>, q: Seq<Seq<char>>|
        #[trigger] src_path(g, srcs, q, m) && q.len() <= lvl2[head as int] + 1 implies vs2.contains(m) by {
        assert(vs.contains(m));
        let w = choose|w: int| 0 <= w < vs.len() && vs[w] == m;
        assert(vs2[w] == m);
    }
    assert forall|k: int, c: Seq<char>| 0 <= k < head && #[trigger] succ(g, vs2[k]).contains(c) implies vs2.contains(c) by {
        assert(vs2[k] == vs[k]);
        assert(vs.contains(c));
        let w = choose|w: int| 0 <= w < vs.len() && vs[w] == c;
        assert(vs2[w] == c);
    }
}

/// `r` is `None` exactly when `target` cannot be reached from `srcs`, and otherwise
/// a walk from one of `srcs` to `target` that no other such walk is shorter than.
pub open spec fn shortest_chain(
    g: Map<Seq<char>, Vec<String>>,
    srcs: Set<Seq<char>>,
    target: Seq<char>,
    r: Option<Vec<String>>,
) -> bool {
    &&& (r is None <==> !reachable(g, srcs, target))
    &&& (r matches Some(p) ==> {
        &&& src_path(g, srcs, string_views(p@), target)
        &&& forall|q: Seq<Seq<char>>| #[trigger] src_path(g, srcs, q, target) ==> q.len() >= p@.len()
    })
}

/// The shortest dependency chain from one of `direct` to `target`, found by
/// breadth-first search: the chain starts at a direct dependency and ends at
/// `target`, e.g. `["cli", "mcp", "scaffold"]`. `None` when `target` cannot be
/// reached.
pub fn find_chain(target: &str, direct: &Vec<String>, all_deps: &DepMap) -> (r: Option<Vec<String>>)
    ensures
        shortest_chain(all_deps@, string_views(direct@).to_set(), target@, r),
{
    let ghost g = all_deps@;
    let ghost srcs = string_views(direct@).to_set();
    let nkeys = all_deps.len();
    let ghost targets = targets_upto(all_deps, nkeys as int);
    let ghost universe = srcs.union(targets);
    proof {
        lemma_targets_upto(all_deps, nkeys as int);
        string_views(direct@).lemma_cardinality_of_set();
    }
    let mut visited: Vec<String> = Vec::new();
    let mut parent: Vec<Option<usize>> = Vec::new();
    let ghost mut lvl: Seq<nat> = Seq::empty();
    let mut i: usize = 0;
    proof {
        assert(string_views(visited@).to_set() =~= Set::<Seq<char>>::empty());
        assert(string_views(direct@).take(0).to_set() =~= Set::<Seq<char>>::empty());
    }
    while i < direct.len()
        invariant
            i <= direct.len(),
            srcs == string_views(direct@).to_set(),
            string_views(visited@).no_duplicates(),
            string_views(visited@).to_set() == string_views(direct@).take(i as int).to_set(),
            visited@.len() == parent@.len() == lvl.len(),
            forall|k: int| 0 <= k < visited@.len() ==> (#[trigger] parent@[k]) == None::<usize>,
            forall|k: int| 0 <= k < visited@.len() ==> (#[trigger] lvl[k]) == 0,
        decreases direct.len() - i,
    {
        let d = direct[i].as_str();
        proof {
            assert(string_views(direct@)[i as int] == d@);
        }
        let ghost vb = visited@;
        let ghost pb0 = parent@;
        let ghost lb0 = lvl;
        if push_unique(&mut visited, d) {
            parent.push(None);
            proof {
                lvl = lvl.push(0);
                assert(string_views(visited@).len() == string_views(vb).len() + 1);
                assert forall|k: int| 0 <= k < visited@.len() implies (#[trigger] parent@[k]) == None::<usize> by {
                    if k < vb.len() {
                        assert(parent@[k] == pb0[k]);
                    }
                }
                assert forall|k: int| 0 <= k < visited@.len() implies (#[trigger] lvl[k]) == 0 by {
                    if k < vb.len() {
                        assert(lvl[k] == lb0[k]);
                    }
                }
            }
        } else {
            proof {
                assert(string_views(visited@).len() == visited@.len());
                assert(string_views(vb).len() == vb.len());
                assert(visited@.len() == vb.len());
            }
        }
        proof {
            assert(string_views(visited@).len() == visited@.len());
            assert(string_views(vb).len() == vb.len());
            assert(string_views(direct@).take(i + 1) =~= string_views(direct@).take(i as int).push(d@));
            string_views(direct@).take(i as int).lemma_push_to_set_commute(d@);
            assert(visited@.len() == parent@.len());
            assert(parent@.len() == lvl.len());
        }
        i += 1;
    }
    proof {
        let vs = string_views(visited@);
        assert(string_views(direct@).take(direct.len() as int) =~= string_views(direct@));
        assert forall|k: int| 0 <= k < vs.len() implies srcs.contains(#[trigger] vs[k]) by {
            assert(vs.to_set().contains(vs[k]));
        }
        assert forall|n: Seq<char>, q: Seq<Seq<char>>|
            #[trigger] src_path(g, srcs, q, n) && q.len() <= 1 implies vs.contains(n) by {
            assert(vs.to_set().contains(q[0]));
        }
        assert(srcs.subset_of(vs.to_set()));
        assert forall|k: int| 0 <= k < vs.len() implies match #[trigger] parent@[k] {
            Some(p) => p < k && succ(g, vs[p as int]).contains(vs[k]) && lvl[k] == lvl[p as int] + 1,
            None => srcs.contains(vs[k]) && lvl[k] == 0,
        } by {
            assert(parent@[k] == None::<usize>);
        }
        assert forall|k: int, q: Seq<Seq<char>>|
            0 <= k < vs.len() && #[trigger] src_path(g, srcs, q, vs[k]) implies q.len() >= lvl[k] + 1 by {
            assert(parent@[k] == None::<usize>);
        }
        assert forall|i: int, j: int| 0 <= i <= j < vs.len() implies lvl[i] <= lvl[j] by {
            assert(parent@[i] == None::<usize>);
            assert(parent@[j] == None::<usize>);
        }
        if 0 < vs.len() {
            assert forall|k: int| 0 <= k < vs.len() implies #[trigger] lvl[k] <= lvl[0] + 1 by {
                assert(parent@[k] == None::<usize>);
                assert(parent@[0] == None::<usize>);
            }
            assert forall|n: Seq<char>, q: Seq<Seq<char>>|
                #[trigger] src_path(g, srcs, q, n) && q.len() <= lvl[0] + 1 implies vs.contains(n) by {
                assert(parent@[0] == None::<usize>);
            }
        }
        assert(bfs_state(g, srcs, vs, parent@, lvl, 0));
        assert(vs.to_set().subset_of(universe));
    }
    let mut head: usize = 0;
    while head < visited.len()
        invariant
            srcs == string_views(direct@).to_set(),
            g == all_deps@,
            universe == srcs.union(targets),
            targets == targets_upto(all_deps, all_deps.key_seq().len() as int),
            universe.finite(),
            g.dom() == all_deps.key_seq().to_set(),
            bfs_state(g, srcs, string_views(visited@), parent@, lvl, head as int),
            string_views(visited@).to_set().subset_of(universe),
            forall|k: int| 0 <= k < head ==> string_views(visited@)[k] != target@,
        decreases universe.len() - visited.len(), visited.len() - head,
    {
        proof {
            lemma_visited_bounded(string_views(visited@), universe);
        }
        if crate::text::str_eq(visited[head].as_str(), target) {
            proof {
                assert(string_views(visited@)[head as int] == target@);
            }
            return Some(rebuild_chain(&visited, &parent, head, Ghost(g), Ghost(srcs), Ghost(lvl)));
        }
        let name = visited[head].clone();
        let ghost a = name@;
        let ghost before = visited@;
        proof {
            assert(string_views(visited@)[head as int] == a);
        }
        match deps_of(all_deps, name.as_str()) {
            Some(ds) => {
                let mut j: usize = 0;
                while j < ds.len()
                    invariant
                        j <= ds.len(),
                        head < visited@.len(),
                        before.len() <= visited@.len(),
                        srcs == string_views(direct@).to_set(),
                        g == all_deps@,
                        universe == srcs.union(targets),
                        targets == targets_upto(all_deps, all_deps.key_seq().len() as int),
                        g.dom() == all_deps.key_seq().to_set(),
                        succ(g, a) == string_views(ds@),
                        string_views(visited@)[head as int] == a,
                        bfs_state(g, srcs, string_views(visited@), parent@, lvl, head as int),
                        string_views(visited@).to_set().subset_of(universe),
                        forall|k: int| 0 <= k < head ==> string_views(visited@)[k] != target@,
                        forall|q: int| 0 <= q < j ==> string_views(visited@).contains(#[trigger] string_views(ds@)[q]),
                    decreases ds.len() - j,
                {
                    let b = ds[j].as_str();
                    let ghost vs0 = string_views(visited@);
                    proof {
                        assert(string_views(ds@)[j as int] == b@);
                        assert(succ(g, a).contains(b@));
                    }
                    let ghost pb = parent@;
                    if push_unique(&mut visited, b) {
                        parent.push(Some(head));
                        proof {
                            lemma_push_node(g, srcs, vs0, pb, lvl, head, b@);
                            lvl = lvl.push(lvl[head as int] + 1);
                            lemma_succ_in_targets(all_deps, a, b@);
                            assert(string_views(visited@).to_set() =~= vs0.to_set().insert(b@));
                        }
                    }
                    proof {
                        let vs = string_views(visited@);
                        assert(vs.to_set().contains(b@));
                        assert forall|q: int| 0 <= q < j + 1 implies vs.contains(#[trigger] string_views(ds@)[q]) by {
                            if q < j {
                                assert(vs0.contains(string_views(ds@)[q]));
                                let w = choose|w: int| 0 <= w < vs0.len() && vs0[w] == string_views(ds@)[q];
                                assert(vs[w] == vs0[w]);
                            }
                        }
                        assert forall|k: int| 0 <= k < head implies vs[k] != target@ by {
                            assert(vs[k] == vs0[k]);
                        }
                    }
                    j += 1;
                }
                proof {
                    let vs = string_views(visited@);
                    assert forall|b: Seq<char>| #[trigger] succ(g, vs[head as int]).contains(b) implies vs.contains(b) by {
                        let q = choose|q: int| 0 <= q < string_views(ds@).len() && string_views(ds@)[q] == b;
                    }
                    lemma_advance_head(g, srcs, vs, parent@, lvl, head as int);
                }
            },
            None => {
                proof {
                    let vs = string_views(visited@);
                    lemma_advance_head(g, srcs, vs, parent@, lvl, head as int);
                }
            },
        }
        proof {
            lemma_visited_bounded(string_views(visited@), universe);
        }
        head += 1;
    }
    proof {
        let vs = string_views(visited@);
        assert(closed_under(g, vs.to_set())) by {
            assert forall|x: Seq<char>, b: Seq<char>|
                vs.to_set().contains(x) && #[trigger] succ(g, x).contains(b) implies vs.to_set().contains(b) by {
                let k = choose|k: int| 0 <= k < vs.len() && vs[k] == x;
            }
        }
        if reachable(g, srcs, target@) {
            lemma_closed_contains_reachable(g, srcs, vs.to_set(), target@);
            let k = choose|k: int| 0 <= k < vs.len() && vs[k] == target@;
        }
    }
    None
}

/// Follows parent links from `end` back to a direct dependency and returns
/// the chain in forward order.
fn rebuild_chain(
    visited: &Vec<String>,
    parent: &Vec<Option<usize>>,
    end: usize,
    Ghost(g): Ghost<Map<Seq<char>, Vec<String>>>,
    Ghost(srcs): Ghost<Set<Seq<char>>>,
    Ghost(lvl): Ghost<Seq<nat>>,
) -> (r: Vec<String>)
    requires
        bfs_state(g, srcs, string_views(visited@), parent@, lvl, end as int),
        end < visited@.len(),
    ensures
        src_path(g, srcs, string_views(r@), visited@[end as int]@),
        r@.len() == lvl[end as int] + 1,
        forall|q: Seq<Seq<char>>|
            #[trigger] src_path(g, srcs, q, visited@[end as int]@) ==> q.len() >= r@.len(),
{
    let ghost vs = string_views(visited@);
    let mut rev: Vec<String> = Vec::new();
    rev.push(visited[end].clone());
    let mut cur = end;
    proof {
        assert(vs[end as int] == visited@[end as int]@);
    }
    loop
        invariant
            cur <= end < visited@.len(),
            vs == string_views(visited@),
            bfs_state(g, srcs, vs, parent@, lvl, end as int),
            rev@.len() >= 1,
            rev@.len() + lvl[cur as int] == lvl[end as int] + 1,
            rev@[0]@ == vs[end as int],
            rev@[rev@.len() - 1]@ == vs[cur as int],
            forall|i: int| 0 <= i < rev@.len() - 1 ==> #[trigger] succ(g, rev@[i + 1]@).contains(rev@[i]@),
        ensures
            rev@.len() == lvl[end as int] + 1,
            rev@[0]@ == vs[end as int],
            srcs.contains(rev@[rev@.len() - 1]@),
            forall|i: int| 0 <= i < rev@.len() - 1 ==> #[trigger] succ(g, rev@[i + 1]@).contains(rev@[i]@),
        decreases cur,
    {
        match parent[cur] {
            Some(p) => {
                let ghost before = rev@;
                proof {
                    assert(match parent@[cur as int] {
                        Some(pp) => pp < cur && succ(g, vs[pp as int]).contains(vs[cur as int]) && lvl[cur as int] == lvl[pp as int] + 1,
                        None => true,
                    });
                    assert(vs[p as int] == visited@[p as int]@);
                }
                rev.push(visited[p].clone());
                proof {
                    assert forall|i: int| 0 <= i < rev@.len() - 1 implies #[trigger] succ(g, rev@[i + 1]@).contains(rev@[i]@) by {
                        if i < before.len() - 1 {
                            assert(rev@[i] == before[i] && rev@[i + 1] == before[i + 1]);
                        } else {
                            assert(rev@[i] == before[before.len() - 1]);
                        }
                    }
                }
                cur = p;
            },
            None => {
                proof {
                    assert(match parent@[cur as int] {
                        Some(pp) => true,
                        None => srcs.contains(vs[cur as int]) && lvl[cur as int] == 0,
                    });
                }
                break;
            },
        }
    }
    let mut out: Vec<String> = Vec::new();
    let n = rev.len();
    let mut i: usize = 0;
    while i < n
        invariant
            n == rev@.len(),
            i <= n,
            out@.len() == i,
            forall|k: int| 0 <= k < i ==> #[trigger] out@[k] == rev@[n - 1 - k],
        decreases n - i,
    {
        out.push(rev[n - 1 - i].clone());
        i += 1;
    }
    proof {
        let ov = string_views(out@);
        assert forall|k: int| 0 <= k < ov.len() - 1 implies (#[trigger] succ(g, ov[k])).contains(ov[k + 1]) by {
            assert(out@[k] == rev@[n - 1 - k]);
            assert(out@[k + 1] == rev@[n - 1 - (k + 1)]);
            assert(succ(g, rev@[(n - 2 - k) + 1]@).contains(rev@[n - 2 - k]@));
        }
        assert(out@[0] == rev@[n - 1]);
        assert(out@[n - 1] == rev@[0]);
        assert(is_path(g, ov));
        assert forall|q: Seq<Seq<char>>| #[trigger] src_path(g, srcs, q, visited@[end as int]@) implies q.len() >= out@.len() by {
            assert(src_path(g, srcs, q, vs[end as int]));
        }
    }
    out
}


/// The row names one step past `layer` that have not been seen yet.
pub open spec fn layer_step(
    g: Map<Seq<char>, Vec<String>>,
    rows: Set<Seq<char>>,
    layer: Set<Seq<char>>,
    seen: Set<Seq<char>>,
) -> Set<Seq<char>> {
    Set::new(
        |n: Seq<char>|
            rows.contains(n) && !seen.contains(n) && exists|m: Seq<char>|
                layer.contains(m) && #[trigger] succ(g, m).contains(n),
    )
}

/// Breadth-first layers from `h` over the names in `rows`: the `k`-th layer
/// and every name seen up to it.
pub open spec fn bfs_layers(
    g: Map<Seq<char>, Vec<String>>,
    rows: Set<Seq<char>>,
    h: Seq<char>,
    k: nat,
) -> (Set<Seq<char>>, Set<Seq<char>>)
    decreases k,
{
    if k == 0 {
        (set![h], set![h])
    } else {
        let (l, s) = bfs_layers(g, rows, h, (k - 1) as nat);
        let nl = layer_step(g, rows, l, s);
        (nl, s.union(nl))
    }
}

proof fn lemma_bfs_layers_bounds(g: Map<Seq<char>, Vec<String>>, rows: Set<Seq<char>>, h: Seq<char>, k: nat)
    ensures
        bfs_layers(g, rows, h, k).1.subset_of(rows.insert(h)),
        bfs_layers(g, rows, h, k).0.subset_of(bfs_layers(g, rows, h, k).1),
        k > 0 ==> bfs_layers(g, rows, h, k).0.disjoint(bfs_layers(g, rows, h, (k - 1) as nat).1),
    decreases k,
{
    if k > 0 {
        lemma_bfs_layers_bounds(g, rows, h, (k - 1) as nat);
    }
}

/// The row names one step past `layer` that are not in `seen`, sorted.
fn next_layer(layer: &Vec<String>, seen: &Vec<String>, rows: &Vec<String>, g: &DepMap) -> (r: Vec<String>)
    ensures
        strictly_sorted(string_views(r@)),
        string_views(r@).to_set() == layer_step(
            g@,
            string_views(rows@).to_set(),
            string_views(layer@).to_set(),
            string_views(seen@).to_set(),
        ),
{
    let ghost rs = string_views(rows@).to_set();
    let ghost ss = string_views(seen@).to_set();
    let ghost ls = string_views(layer@).to_set();
    let ghost target = layer_step(g@, rs, ls, ss);
    let mut out: Vec<String> = Vec::new();
    let mut i: usize = 0;
    while i < layer.len()
        invariant
            i <= layer.len(),
            rs == string_views(rows@).to_set(),
            ss == string_views(seen@).to_set(),
            strictly_sorted(string_views(out@)),
            string_views(out@).to_set() == layer_step(g@, rs, string_views(layer@).take(i as int).to_set(), ss),
        decreases layer.len() - i,
    {
        let m = layer[i].as_str();
        let ghost mv = m@;
        let ghost before = string_views(out@).to_set();
        proof {
            assert(string_views(layer@)[i as int] == mv);
        }
        match deps_of(g, m) {
            Some(ds) => {
                let mut j: usize = 0;
                while j < ds.len()
                    invariant
                        j <= ds.len(),
                        rs == string_views(rows@).to_set(),
                        ss == string_views(seen@).to_set(),
                        succ(g@, mv) == string_views(ds@),
                        strictly_sorted(string_views(out@)),
                        string_views(out@).to_set() == before.union(Set::new(
                            |n: Seq<char>| rs.contains(n) && !ss.contains(n) && string_views(ds@).take(j as int).contains(n),
                        )),
                    decreases ds.len() - j,
                {
                    let d = ds[j].as_str();
                    proof {
                        assert(string_views(ds@)[j as int] == d@);
                    }
                    let in_rows = contains_str(rows, d);
                    let was_seen = contains_str(seen, d);
                    let ghost o1 = string_views(out@).to_set();
                    if in_rows && !was_seen {
                        insert_sorted_unique(&mut out, d);
                    }
                    proof {
                        broadcast use vstd::seq_lib::lemma_seq_contains_after_push;
                        assert(string_views(ds@).take(j + 1) =~= string_views(ds@).take(j as int).push(d@));
                        assert(rs.contains(d@) == in_rows);
                        assert(ss.contains(d@) == was_seen);
                        assert(string_views(out@).to_set() =~= before.union(Set::new(
                            |n: Seq<char>| rs.contains(n) && !ss.contains(n) && string_views(ds@).take(j + 1).contains(n),
                        )));
                    }
                    j += 1;
                }
                proof {
                    assert(string_views(ds@).take(ds.len() as int) =~= string_views(ds@));
                }
            },
            None => {},
        }
        proof {
            broadcast use vstd::seq_lib::lemma_seq_contains_after_push;
            let li = string_views(layer@).take(i as int);
            let lj = string_views(layer@).take(i + 1);
            assert(lj =~= li.push(mv));
            li.lemma_push_to_set_commute(mv);
            assert forall|n: Seq<char>| string_views(out@).to_set().contains(n) == layer_step(g@, rs, lj.to_set(), ss).contains(n) by {
                if layer_step(g@, rs, lj.to_set(), ss).contains(n) {
                    let w = choose|w: Seq<char>| lj.to_set().contains(w) && #[trigger] succ(g@, w).contains(n);
                    if w != mv {
                        assert(li.to_set().contains(w));
                        assert(layer_step(g@, rs, li.to_set(), ss).contains(n));
                    }
                }
                if layer_step(g@, rs, li.to_set(), ss).contains(n) {
                    let w = choose|w: Seq<char>| li.to_set().contains(w) && #[trigger] succ(g@, w).contains(n);
                    assert(lj.to_set().contains(w));
                }
                if rs.contains(n) && !ss.contains(n) && succ(g@, mv).contains(n) {
                    assert(lj.to_set().contains(mv));
                }
            }
            assert(string_views(out@).to_set() =~= layer_step(g@, rs, lj.to_set(), ss));
        }
        i += 1;
    }
    proof {
        assert(string_views(layer@).take(layer.len() as int) =~= string_views(layer@));
    }
    out
}

/// `levels` are the non-empty breadth-first layers below `h` over the names in
/// `rows`, each sorted, up to the first empty layer.
pub open spec fn bfs_levels(
    g: Map<Seq<char>, Vec<String>>,
    rows: Set<Seq<char>>,
    h: Seq<char>,
    levels: Seq<Vec<String>>,
) -> bool {
    &&& forall|i: int| 0 <= i < levels.len() ==> {
        &&& strictly_sorted(string_views(#[trigger] levels[i]@))
        &&& levels[i]@.len() > 0
        &&& string_views(levels[i]@).to_set() == bfs_layers(g, rows, h, (i + 1) as nat).0
    }
    &&& bfs_layers(g, rows, h, (levels.len() + 1) as nat).0 == Set::<Seq<char>>::empty()
}

/// Breadth-first levels below `hovered` over the names in `row_names`: each
/// inner list holds, sorted, the names first met at that distance; the walk
/// stops at the first empty level.
pub fn downstream_levels(hovered: &str, row_names: &Vec<String>, comp_deps: &DepMap) -> (r: Vec<Vec<String>>)
    ensures
        bfs_levels(comp_deps@, string_views(row_names@).to_set(), hovered@, r@),
{
    let ghost g = comp_deps@;
    let ghost rs = string_views(row_names@).to_set();
    let ghost h = hovered@;
    let ghost universe = rs.insert(h);
    proof {
        string_views(row_names@).lemma_cardinality_of_set();
    }
    let mut visited: Vec<String> = Vec::new();
    visited.push(crate::text::owned(hovered));
    proof {
        assert(string_views(visited@) =~= seq![h]);
        assert forall|x: Seq<char>| seq![h].to_set().contains(x) == set![h].contains(x) by {
            if x == h {
                assert(seq![h][0] == h);
            }
        }
        assert(seq![h].to_set() =~= set![h]);
    }
    let mut frontier = next_layer(&visited, &visited, row_names, comp_deps);
    let mut levels: Vec<Vec<String>> = Vec::new();
    let ghost mut k: nat = 1;
    proof {
        assert(bfs_layers(g, rs, h, 0) == (set![h], set![h]));
        assert(bfs_layers(g, rs, h, 1).0 == layer_step(g, rs, set![h], set![h]));
    }
    while frontier.len() > 0
        invariant
            g == comp_deps@,
            rs == string_views(row_names@).to_set(),
            universe == rs.insert(h),
            universe.finite(),
            h == hovered@,
            k == levels@.len() + 1,
            strictly_sorted(string_views(frontier@)),
            string_views(frontier@).to_set() == bfs_layers(g, rs, h, k).0,
            string_views(visited@).no_duplicates(),
            string_views(visited@).to_set() == bfs_layers(g, rs, h, (k - 1) as nat).1,
            forall|i: int| 0 <= i < levels@.len() ==> {
                &&& strictly_sorted(string_views(#[trigger] levels@[i]@))
                &&& levels@[i]@.len() > 0
                &&& string_views(levels@[i]@).to_set() == bfs_layers(g, rs, h, (i + 1) as nat).0
            },
        decreases universe.len() - visited.len(),
    {
        proof {
            lemma_bfs_layers_bounds(g, rs, h, k);
            lemma_bfs_layers_bounds(g, rs, h, (k - 1) as nat);
            lemma_visited_bounded(string_views(visited@), universe);
        }
        let ghost v0 = visited@;
        let mut q: usize = 0;
        while q < frontier.len()
            invariant
                q <= frontier.len(),
                v0.len() <= visited@.len(),
                string_views(visited@).no_duplicates(),
                string_views(visited@).to_set() == string_views(v0).to_set().union(string_views(frontier@).take(q as int).to_set()),
            decreases frontier.len() - q,
        {
            proof {
                assert(string_views(frontier@)[q as int] == frontier@[q as int]@);
                assert(string_views(frontier@).take(q + 1) =~= string_views(frontier@).take(q as int).push(frontier@[q as int]@));
                string_views(frontier@).take(q as int).lemma_push_to_set_commute(frontier@[q as int]@);
            }
            push_unique(&mut visited, frontier[q].as_str());
            proof {
                assert(string_views(visited@).to_set() =~= string_views(v0).to_set().union(string_views(frontier@).take(q + 1).to_set()));
            }
            q += 1;
        }
        proof {
            assert(string_views(frontier@).take(frontier.len() as int) =~= string_views(frontier@));
            // the frontier is non-empty and new, so the visited list grew
            assert(string_views(frontier@)[0] == frontier@[0]@);
            assert(bfs_layers(g, rs, h, k).0.contains(frontier@[0]@));
            assert(!bfs_layers(g, rs, h, (k - 1) as nat).1.contains(frontier@[0]@));
            if visited@.len() == v0.len() {
                assert(string_views(visited@).len() == string_views(v0).len());
            }
            assert(string_views(visited@).to_set().subset_of(universe));
            lemma_visited_bounded(string_views(visited@), universe);
            string_views(v0).unique_seq_to_set();
            string_views(visited@).unique_seq_to_set();
            if visited@.len() == v0.len() {
                assert(string_views(visited@).to_set().len() == string_views(v0).to_set().len());
                assert(string_views(visited@).to_set().contains(frontier@[0]@));
                vstd::set_lib::lemma_len_subset(string_views(v0).to_set().insert(frontier@[0]@), string_views(visited@).to_set());
            }
        }
        let next = next_layer(&frontier, &visited, row_names, comp_deps);
        let ghost lv = levels@;
        levels.push(frontier);
        frontier = next;
        proof {
            assert forall|i: int| 0 <= i < levels@.len() implies {
                &&& strictly_sorted(string_views(#[trigger] levels@[i]@))
                &&& levels@[i]@.len() > 0
                &&& string_views(levels@[i]@).to_set() == bfs_layers(g, rs, h, (i + 1) as nat).0
            } by {
                if i < lv.len() {
                    assert(levels@[i] == lv[i]);
                }
            }
            k = k + 1;
        }
    }
    proof {
        assert(string_views(frontier@).to_set() =~= Set::<Seq<char>>::empty());
    }
    levels
}

/// The graph built from components and then bases has an entry for `n` when a
/// component or a base carries that name.
pub open spec fn graph_has(comps: Seq<Brick>, bases: Seq<Brick>, n: Seq<char>) -> bool {
    last_named(comps, n) >= 0 || last_named(bases, n) >= 0
}

/// The dependencies that graph records for `n`: those of the last base
/// named `n`, or else of the last component named `n`.
pub open spec fn graph_deps(comps: Seq<Brick>, bases: Seq<Brick>, n: Seq<char>) -> Seq<Seq<char>> {
    if last_named(bases, n) >= 0 {
        string_views(bases[last_named(bases, n)].deps@)
    } else {
        string_views(comps[last_named(comps, n)].deps@)
    }
}

/// `g` is the graph of components and then bases: see [`graph_has`] and [`graph_deps`].
pub open spec fn bricks_graph(comps: Seq<Brick>, bases: Seq<Brick>, g: Map<Seq<char>, Vec<String>>) -> bool {
    forall|n: Seq<char>|
        {
            &&& (#[trigger] g.contains_key(n) <==> graph_has(comps, bases, n))
            &&& (g.contains_key(n) ==> string_views(g[n]@) == graph_deps(comps, bases, n))
        }
}

/// `g` maps the names of `bs` to their dependency lists, the last brick of a name winning.
pub open spec fn graph_of(g: Map<Seq<char>, Vec<String>>, bs: Seq<Brick>) -> bool {
    forall|n: Seq<char>|
        {
            &&& (#[trigger] g.contains_key(n) <==> last_named(bs, n) >= 0)
            &&& (g.contains_key(n) ==> string_views(g[n]@) == string_views(bs[last_named(bs, n)].deps@))
        }
}

pub proof fn lemma_last_named_bounds(bricks: Seq<Brick>, n: Seq<char>)
    ensures
        -1 <= last_named(bricks, n) < bricks.len(),
        last_named(bricks, n) >= 0 ==> bricks[last_named(bricks, n)].name@ == n,
    decreases bricks.len(),
{
    if bricks.len() > 0 {
        lemma_last_named_bounds(bricks.drop_last(), n);
    }
}

/// Copies a list of names.
pub fn clone_names(v: &Vec<String>) -> (r: Vec<String>)
    ensures
        string_views(r@) == string_views(v@),
{
    let mut out: Vec<String> = Vec::new();
    let mut i: usize = 0;
    while i < v.len()
        invariant
            i <= v.len(),
            string_views(out@) == string_views(v@).take(i as int),
        decreases v.len() - i,
    {
        let ghost prev = out@;
        out.push(v[i].clone());
        proof {
            assert(string_views(prev).len() == i);
            assert forall|k: int| 0 <= k <= i implies #[trigger] string_views(out@)[k] == string_views(
                v@,
            ).take(i + 1)[k] by {
                if k < i {
                    assert(out@[k] == prev[k]);
                    assert(string_views(prev)[k] == string_views(v@).take(i as int)[k]);
                }
            }
            assert(string_views(out@) =~= string_views(v@).take(i + 1));
        }
        i += 1;
    }
    proof {
        assert(string_views(v@).take(v.len() as int) =~= string_views(v@));
    }
    out
}

/// Adds every brick of `bs`, in order, to `g` under its name with its dependencies.
pub fn add_brick_deps(g: &mut DepMap, bs: &Vec<Brick>)
    ensures
        forall|n: Seq<char>|
            {
                &&& (#[trigger] final(g)@.contains_key(n) <==> (old(g)@.contains_key(n) || last_named(bs@, n) >= 0))
                &&& (final(g)@.contains_key(n) ==> string_views(final(g)@[n]@) == if last_named(bs@, n) >= 0 {
                    string_views(bs@[last_named(bs@, n)].deps@)
                } else {
                    string_views(old(g)@[n]@)
                })
            },
{
    let ghost g0 = g@;
    let mut i: usize = 0;
    while i < bs.len()
        invariant
            i <= bs.len(),
            forall|n: Seq<char>|
                {
                    &&& (#[trigger] g@.contains_key(n) <==> (g0.contains_key(n) || last_named(bs@.take(i as int), n) >= 0))
                    &&& (g@.contains_key(n) ==> string_views(g@[n]@) == if last_named(bs@.take(i as int), n) >= 0 {
                        string_views(bs@.take(i as int)[last_named(bs@.take(i as int), n)].deps@)
                    } else {
                        string_views(g0[n]@)
                    })
                },
        decreases bs.len() - i,
    {
        let ghost before = g@;
        let deps = clone_names(&bs[i].deps);
        g.insert(bs[i].name.clone(), deps);
        proof {
            let t = bs@.take(i + 1);
            assert(t.drop_last() =~= bs@.take(i as int));
            assert(t.last() == bs@[i as int]);
            assert forall|n: Seq<char>| #[trigger] g@.contains_key(n) implies string_views(g@[n]@) == if last_named(t, n) >= 0 {
                string_views(t[last_named(t, n)].deps@)
            } else {
                string_views(g0[n]@)
            } by {
                lemma_last_named_bounds(t, n);
                lemma_last_named_bounds(bs@.take(i as int), n);
                if n != bs@[i as int].name@ {
                    assert(before.contains_key(n));
                    assert(last_named(t, n) == last_named(bs@.take(i as int), n));
                    if last_named(t, n) >= 0 {
                        assert(t[last_named(t, n)] == bs@.take(i as int)[last_named(t, n)]);
                    }
                } else {
                    assert(last_named(t, n) == i);
                }
            }
        }
        i += 1;
    }
    proof {
        assert(bs@.take(bs.len() as int) =~= bs@);
    }
}

} // verus!
