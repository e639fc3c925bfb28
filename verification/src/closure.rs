//! Transitive closure over a dependency relation given by two functions.
use vstd::prelude::*;

use crate::corsett::string_views;
use crate::graph::{
    clone_names, closed_under, contains_str, is_path, lemma_closed_contains_reachable,
    lemma_targets_upto, push_unique, reachable, succ, targets_upto, DepMap,
};

verus! {

/// `f` can give back `ds` for a string whose characters are `a`.
pub open spec fn produces<F: Fn(&str) -> Vec<String>>(f: F, a: Seq<char>, ds: Vec<String>) -> bool {
    exists|s: &str| s@ == a && #[trigger] call_ensures(f, (s,), ds)
}

/// What `f` gives back for a string whose characters are `a`, as names.
pub open spec fn outputs<F: Fn(&str) -> Vec<String>>(f: F, a: Seq<char>) -> Seq<Seq<char>> {
    string_views((choose|ds: Vec<String>| #[trigger] produces(f, a, ds))@)
}

/// `f` gives equal names back for equal strings.
pub open spec fn functional<F: Fn(&str) -> Vec<String>>(f: F) -> bool {
    forall|s1: &str, s2: &str, a: Vec<String>, b: Vec<String>|
        #![trigger call_ensures(f, (s1,), a), call_ensures(f, (s2,), b)]
        s1@ == s2@ && call_ensures(f, (s1,), a) && call_ensures(f, (s2,), b) ==> string_views(a@)
            == string_views(b@)
}

/// `f` may be called on any string.
pub open spec fn total<F: Fn(&str) -> Vec<String>>(f: F) -> bool {
    forall|s: &str| call_requires(f, (s,))
}

proof fn lemma_outputs<F: Fn(&str) -> Vec<String>>(f: F, s: &str, ds: Vec<String>)
    requires
        functional(f),
        call_ensures(f, (s,), ds),
    ensures
        outputs(f, s@) == string_views(ds@),
{
    assert(produces(f, s@, ds));
    let w = choose|w: Vec<String>| #[trigger] produces(f, s@, w);
    let t = choose|t: &str| t@ == s@ && #[trigger] call_ensures(f, (t,), w);
    assert(call_ensures(f, (t,), w) && call_ensures(f, (s,), ds));
}

/// One step: `b` is a name that one of `a`'s dependency keys resolves to.
pub open spec fn step<G: Fn(&str) -> Vec<String>, R: Fn(&str) -> Vec<String>>(
    get_deps: G,
    resolve: R,
    a: Seq<char>,
    b: Seq<char>,
) -> bool {
    exists|ds: Vec<String>, k: int, rs: Vec<String>|
        #![trigger produces(get_deps, a, ds), produces(resolve, ds@[k]@, rs)]
        produces(get_deps, a, ds) && 0 <= k < ds@.len() && produces(resolve, ds@[k]@, rs) && string_views(
            rs@,
        ).contains(b)
}

proof fn lemma_produces_outputs<F: Fn(&str) -> Vec<String>>(f: F, a: Seq<char>, ds: Vec<String>)
    requires
        functional(f),
        produces(f, a, ds),
    ensures
        outputs(f, a) == string_views(ds@),
{
    let s = choose|s: &str| s@ == a && #[trigger] call_ensures(f, (s,), ds);
    lemma_outputs(f, s, ds);
}

/// With functional `get_deps` and `resolve`, a step goes through what they give back.
proof fn lemma_step_outputs<G: Fn(&str) -> Vec<String>, R: Fn(&str) -> Vec<String>>(
    get_deps: G,
    resolve: R,
    a: Seq<char>,
    b: Seq<char>,
    ds0: Vec<String>,
)
    requires
        functional(get_deps),
        functional(resolve),
        produces(get_deps, a, ds0),
        step(get_deps, resolve, a, b),
    ensures
        exists|k: int| 0 <= k < ds0@.len() && #[trigger] outputs(resolve, ds0@[k]@).contains(b),
{
    let (ds, k, rs) = choose|ds: Vec<String>, k: int, rs: Vec<String>|
        #![trigger produces(get_deps, a, ds), produces(resolve, ds@[k]@, rs)]
        produces(get_deps, a, ds) && 0 <= k < ds@.len() && produces(resolve, ds@[k]@, rs) && string_views(
            rs@,
        ).contains(b);
    lemma_produces_outputs(get_deps, a, ds);
    lemma_produces_outputs(get_deps, a, ds0);
    assert(string_views(ds@).len() == ds@.len());
    assert(string_views(ds0@).len() == ds0@.len());
    assert(ds0@.len() == ds@.len());
    assert(string_views(ds@)[k] == string_views(ds0@)[k]);
    assert(string_views(ds@)[k] == ds@[k]@);
    assert(string_views(ds0@)[k] == ds0@[k]@);
    lemma_produces_outputs(resolve, ds@[k]@, rs);
    assert(outputs(resolve, ds0@[k]@).contains(b));
}

/// `get_deps` was run on `a`, and `resolve` on every key it gave back.
pub open spec fn expanded<G: Fn(&str) -> Vec<String>, R: Fn(&str) -> Vec<String>>(
    get_deps: G,
    resolve: R,
    a: Seq<char>,
) -> bool {
    exists|ds: Vec<String>|
        #[trigger] produces(get_deps, a, ds) && forall|k: int| 0 <= k < ds@.len() ==> #[trigger] resolvable(resolve, ds@[k]@)
}

/// `resolve` was run on `d`.
pub open spec fn resolvable<R: Fn(&str) -> Vec<String>>(resolve: R, d: Seq<char>) -> bool {
    exists|rs: Vec<String>| #[trigger] produces(resolve, d, rs)
}

/// `p` is a walk of steps.
pub open spec fn is_walk<G: Fn(&str) -> Vec<String>, R: Fn(&str) -> Vec<String>>(
    get_deps: G,
    resolve: R,
    p: Seq<Seq<char>>,
) -> bool {
    &&& p.len() >= 1
    &&& forall|i: int| 0 <= i < p.len() - 1 ==> #[trigger] step(get_deps, resolve, p[i], p[i + 1])
}

/// `n` is reached from one of `seeds` in zero or more steps.
pub open spec fn reaches<G: Fn(&str) -> Vec<String>, R: Fn(&str) -> Vec<String>>(
    get_deps: G,
    resolve: R,
    seeds: Set<Seq<char>>,
    n: Seq<char>,
) -> bool {
    exists|p: Seq<Seq<char>>| #[trigger] is_walk(get_deps, resolve, p) && seeds.contains(p[0]) && p.last() == n
}

/// Every step from a member of `u` stays in `u`.
pub open spec fn step_closed<G: Fn(&str) -> Vec<String>, R: Fn(&str) -> Vec<String>>(
    get_deps: G,
    resolve: R,
    u: Set<Seq<char>>,
) -> bool {
    forall|a: Seq<char>, b: Seq<char>| u.contains(a) && #[trigger] step(get_deps, resolve, a, b) ==> u.contains(b)
}

/// Some finite set holds the seeds and everything one step from its members, so
/// the search ends.
pub open spec fn bounded<G: Fn(&str) -> Vec<String>, R: Fn(&str) -> Vec<String>>(
    get_deps: G,
    resolve: R,
    seeds: Set<Seq<char>>,
) -> bool {
    exists|u: Set<Seq<char>>| #[trigger] u.finite() && seeds.subset_of(u) && step_closed(get_deps, resolve, u)
}

proof fn lemma_push_contains(s: Seq<Seq<char>>, x: Seq<char>, y: Seq<char>)
    ensures
        s.push(x).contains(y) <==> (s.contains(y) || y == x),
{
    if s.contains(y) {
        let w = choose|w: int| 0 <= w < s.len() && s[w] == y;
        assert(s.push(x)[w] == y);
    }
    if y == x {
        assert(s.push(x)[s.len() as int] == y);
    }
    if s.push(x).contains(y) {
        let w = choose|w: int| 0 <= w < s.push(x).len() && s.push(x)[w] == y;
        if w < s.len() {
            assert(s[w] == y);
        }
    }
}

proof fn lemma_grown_skip_contains(q: Seq<Seq<char>>, old: Seq<Seq<char>>, h: int, b: Seq<char>)
    requires
        0 <= h <= old.len() <= q.len(),
        q.take(old.len() as int) == old,
        old.skip(h).contains(b),
    ensures
        q.skip(h).contains(b),
{
    let w = choose|w: int| 0 <= w < old.skip(h).len() && old.skip(h)[w] == b;
    assert(old[h + w] == b);
    assert(q.take(old.len() as int)[h + w] == b);
    assert(q.skip(h)[w] == b);
}

proof fn lemma_skip_one(q: Seq<Seq<char>>, h: int, b: Seq<char>)
    requires
        0 <= h < q.len(),
        q.skip(h).contains(b),
        b != q[h],
    ensures
        q.skip(h + 1).contains(b),
{
    let w = choose|w: int| 0 <= w < q.skip(h).len() && q.skip(h)[w] == b;
    assert(w != 0);
    assert(q.skip(h + 1)[w - 1] == b);
}

pub proof fn lemma_reach_seed<G: Fn(&str) -> Vec<String>, R: Fn(&str) -> Vec<String>>(
    get_deps: G,
    resolve: R,
    seeds: Set<Seq<char>>,
    a: Seq<char>,
)
    requires
        seeds.contains(a),
    ensures
        reaches(get_deps, resolve, seeds, a),
{
    let p = seq![a];
    assert(is_walk(get_deps, resolve, p));
}

pub proof fn lemma_reach_next<G: Fn(&str) -> Vec<String>, R: Fn(&str) -> Vec<String>>(
    get_deps: G,
    resolve: R,
    seeds: Set<Seq<char>>,
    a: Seq<char>,
    b: Seq<char>,
)
    requires
        reaches(get_deps, resolve, seeds, a),
        step(get_deps, resolve, a, b),
    ensures
        reaches(get_deps, resolve, seeds, b),
{
    let p = choose|p: Seq<Seq<char>>| #[trigger] is_walk(get_deps, resolve, p) && seeds.contains(p[0]) && p.last() == a;
    let q = p.push(b);
    assert forall|i: int| 0 <= i < q.len() - 1 implies #[trigger] step(get_deps, resolve, q[i], q[i + 1]) by {
        if i < p.len() - 1 {
            assert(q[i] == p[i] && q[i + 1] == p[i + 1]);
            assert(step(get_deps, resolve, p[i], p[i + 1]));
        }
    }
    assert(is_walk(get_deps, resolve, q));
}

proof fn lemma_closed_holds_reach<G: Fn(&str) -> Vec<String>, R: Fn(&str) -> Vec<String>>(
    get_deps: G,
    resolve: R,
    seeds: Set<Seq<char>>,
    s: Set<Seq<char>>,
    p: Seq<Seq<char>>,
)
    requires
        seeds.subset_of(s),
        step_closed(get_deps, resolve, s),
        is_walk(get_deps, resolve, p),
        seeds.contains(p[0]),
    ensures
        s.contains(p.last()),
    decreases p.len(),
{
    if p.len() > 1 {
        let q = p.drop_last();
        assert forall|i: int| 0 <= i < q.len() - 1 implies #[trigger] step(get_deps, resolve, q[i], q[i + 1]) by {
            assert(q[i] == p[i] && q[i + 1] == p[i + 1]);
            assert(step(get_deps, resolve, p[i], p[i + 1]));
        }
        lemma_closed_holds_reach(get_deps, resolve, seeds, s, q);
        let i = p.len() - 2;
        assert(step(get_deps, resolve, p[i], p[i + 1]));
    }
}

/// Breadth-first transitive closure: every name reachable from `seeds` (seeds
/// included) by repeatedly taking a name's dependency keys (`get_deps`) and what
/// each key resolves to (`resolve`), each name once.
///
/// `resolve` maps a dependency key to the component names it stands for: the
/// interface-resolving form expands an interface alias to the components that
/// implement it, the identity form gives the key back.
pub fn transitive_closure<G: Fn(&str) -> Vec<String>, R: Fn(&str) -> Vec<String>>(
    seeds: Vec<String>,
    get_deps: G,
    resolve: R,
) -> (r: Vec<String>)
    requires
        total(get_deps),
        total(resolve),
        functional(get_deps),
        functional(resolve),
        bounded(get_deps, resolve, string_views(seeds@).to_set()),
    ensures
        string_views(r@).no_duplicates(),
        forall|n: Seq<char>|
            #[trigger] string_views(r@).contains(n) <==> reaches(get_deps, resolve, string_views(seeds@).to_set(), n),
        forall|n: Seq<char>| #[trigger] string_views(r@).contains(n) ==> expanded(get_deps, resolve, n),
{
    let ghost srcs = string_views(seeds@).to_set();
    let ghost u = choose|u: Set<Seq<char>>| #[trigger] u.finite() && srcs.subset_of(u) && step_closed(get_deps, resolve, u);
    let mut visited: Vec<String> = Vec::new();
    let mut queue: Vec<String> = seeds;
    let mut head: usize = 0;
    proof {
        assert forall|n: Seq<char>| #[trigger] string_views(queue@).contains(n) implies reaches(get_deps, resolve, srcs, n) && u.contains(n) by {
            assert(srcs.contains(n));
            lemma_reach_seed(get_deps, resolve, srcs, n);
        }
        assert(string_views(queue@).skip(0) =~= string_views(queue@));
        assert forall|n: Seq<char>| #[trigger] srcs.contains(n) implies string_views(visited@).contains(n) || string_views(queue@).skip(head as int).contains(n) by {
        }
    }
    while head < queue.len()
        invariant
            head <= queue@.len(),
            total(get_deps),
            total(resolve),
            functional(get_deps),
            functional(resolve),
            u.finite(),
            srcs.subset_of(u),
            step_closed(get_deps, resolve, u),
            string_views(visited@).no_duplicates(),
            forall|n: Seq<char>| #[trigger] string_views(visited@).contains(n) ==> reaches(get_deps, resolve, srcs, n) && u.contains(n),
            forall|n: Seq<char>| #[trigger] string_views(visited@).contains(n) ==> expanded(get_deps, resolve, n),
            forall|n: Seq<char>| #[trigger] string_views(queue@).contains(n) ==> reaches(get_deps, resolve, srcs, n) && u.contains(n),
            forall|n: Seq<char>| #[trigger] srcs.contains(n) ==> string_views(visited@).contains(n) || string_views(queue@).skip(head as int).contains(n),
            forall|a: Seq<char>, b: Seq<char>|
                #[trigger] string_views(visited@).contains(a) && #[trigger] step(get_deps, resolve, a, b) ==> string_views(visited@).contains(b)
                    || string_views(queue@).skip(head as int).contains(b),
        decreases u.len() - visited@.len(), queue@.len() - head,
    {
        proof {
            string_views(visited@).unique_seq_to_set();
            assert(string_views(visited@).to_set().subset_of(u));
            vstd::set_lib::lemma_len_subset(string_views(visited@).to_set(), u);
        }
        let ghost old_visited = string_views(visited@);
        let ghost old_queue = string_views(queue@);
        let ghost old_head = head;
        let name = queue[head].clone();
        head += 1;
        proof {
            assert(old_queue.skip(old_head as int) =~= seq![name@] + old_queue.skip(head as int));
            assert(old_queue.contains(name@)) by {
                assert(old_queue[old_head as int] == name@);
            }
        }
        if !contains_str(&visited, name.as_str()) {
            push_unique(&mut visited, name.as_str());
            let name_str = name.as_str();
            let ds = get_deps(name_str);
            proof {
                lemma_outputs(get_deps, name_str, ds);
                assert(produces(get_deps, name@, ds));
            }
            let mut k: usize = 0;
            while k < ds.len()
                invariant
                    k <= ds@.len(),
                    head <= queue@.len(),
                    total(resolve),
                    functional(resolve),
                    u.finite(),
                    step_closed(get_deps, resolve, u),
                    string_views(visited@) == old_visited.push(name@),
                    outputs(get_deps, name@) == string_views(ds@),
                    produces(get_deps, name@, ds),
                    forall|kk: int| 0 <= kk < k ==> #[trigger] resolvable(resolve, ds@[kk]@),
                    forall|n: Seq<char>| #[trigger] old_visited.contains(n) ==> expanded(get_deps, resolve, n),
                    reaches(get_deps, resolve, srcs, name@),
                    u.contains(name@),
                    queue@.len() >= old_queue.len(),
                    string_views(queue@).take(old_queue.len() as int) == old_queue,
                    forall|n: Seq<char>| #[trigger] string_views(queue@).contains(n) ==> reaches(get_deps, resolve, srcs, n) && u.contains(n),
                    forall|j: int, b: Seq<char>|
                        0 <= j < k && #[trigger] outputs(resolve, outputs(get_deps, name@)[j]).contains(b) ==> string_views(visited@).contains(b)
                            || string_views(queue@).skip(head as int).contains(b),
                decreases ds@.len() - k,
            {
                let key = ds[k].as_str();
                let rs = resolve(key);
                proof {
                    lemma_outputs(resolve, key, rs);
                    assert(produces(resolve, ds@[k as int]@, rs));
                    assert(resolvable(resolve, ds@[k as int]@));
                    assert(outputs(get_deps, name@)[k as int] == ds@[k as int]@);
                }
                let mut j: usize = 0;
                while j < rs.len()
                    invariant
                        j <= rs@.len(),
                        k < ds@.len(),
                        head <= queue@.len(),
                        u.finite(),
                        step_closed(get_deps, resolve, u),
                        string_views(visited@) == old_visited.push(name@),
                        outputs(get_deps, name@) == string_views(ds@),
                        outputs(resolve, outputs(get_deps, name@)[k as int]) == string_views(rs@),
                        produces(get_deps, name@, ds),
                        produces(resolve, ds@[k as int]@, rs),
                        forall|kk: int| 0 <= kk < k ==> #[trigger] resolvable(resolve, ds@[kk]@),
                        forall|n: Seq<char>| #[trigger] old_visited.contains(n) ==> expanded(get_deps, resolve, n),
                        reaches(get_deps, resolve, srcs, name@),
                        u.contains(name@),
                        queue@.len() >= old_queue.len(),
                        string_views(queue@).take(old_queue.len() as int) == old_queue,
                        forall|n: Seq<char>| #[trigger] string_views(queue@).contains(n) ==> reaches(get_deps, resolve, srcs, n) && u.contains(n),
                        forall|jj: int, b: Seq<char>|
                            0 <= jj < k && #[trigger] outputs(resolve, outputs(get_deps, name@)[jj]).contains(b) ==> string_views(visited@).contains(b)
                                || string_views(queue@).skip(head as int).contains(b),
                        forall|i: int| 0 <= i < j ==> string_views(visited@).contains(#[trigger] string_views(rs@)[i])
                            || string_views(queue@).skip(head as int).contains(string_views(rs@)[i]),
                    decreases rs@.len() - j,
                {
                    let ghost qb = string_views(queue@);
                    let target = rs[j].as_str();
                    proof {
                        assert(string_views(rs@)[j as int] == target@);
                        assert(string_views(rs@).contains(target@));
                        assert(step(get_deps, resolve, name@, target@));
                        lemma_reach_next(get_deps, resolve, srcs, name@, target@);
                    }
                    if !contains_str(&visited, target) {
                        queue.push(crate::text::owned(target));
                        proof {
                            assert(string_views(queue@) =~= qb.push(target@));
                            assert(string_views(queue@).take(old_queue.len() as int) =~= qb.take(old_queue.len() as int));
                            assert forall|n: Seq<char>| #[trigger] qb.skip(head as int).contains(n) implies string_views(queue@).skip(head as int).contains(n) by {
                                let w = choose|w: int| 0 <= w < qb.skip(head as int).len() && qb.skip(head as int)[w] == n;
                                assert(string_views(queue@).skip(head as int)[w] == n);
                            }
                            assert(string_views(queue@).skip(head as int).contains(target@)) by {
                                assert(string_views(queue@).skip(head as int)[qb.len() - head] == target@);
                            }
                            assert forall|n: Seq<char>| #[trigger] string_views(queue@).contains(n) implies reaches(get_deps, resolve, srcs, n) && u.contains(n) by {
                                lemma_push_contains(qb, target@, n);
                            }
                        }
                    }
                    j += 1;
                }
                proof {
                    assert forall|jj: int, b: Seq<char>|
                        0 <= jj < k + 1 && #[trigger] outputs(resolve, outputs(get_deps, name@)[jj]).contains(b) implies string_views(visited@).contains(b)
                            || string_views(queue@).skip(head as int).contains(b) by {
                        if jj == k {
                            let w = choose|w: int| 0 <= w < string_views(rs@).len() && string_views(rs@)[w] == b;
                            assert(string_views(visited@).contains(string_views(rs@)[w])
                                || string_views(queue@).skip(head as int).contains(string_views(rs@)[w]));
                        }
                    }
                }
                k += 1;
            }
            proof {
                let q = string_views(queue@);
                assert forall|n: Seq<char>| #[trigger] string_views(visited@).contains(n) implies reaches(get_deps, resolve, srcs, n) && u.contains(n) by {
                    lemma_push_contains(old_visited, name@, n);
                }
                assert(expanded(get_deps, resolve, name@));
                assert forall|n: Seq<char>| #[trigger] string_views(visited@).contains(n) implies expanded(get_deps, resolve, n) by {
                    lemma_push_contains(old_visited, name@, n);
                }
                string_views(visited@).unique_seq_to_set();
                assert(string_views(visited@).to_set().subset_of(u));
                vstd::set_lib::lemma_len_subset(string_views(visited@).to_set(), u);
                assert(old_queue.skip(old_head as int)[0] == name@);
                assert forall|a: Seq<char>, b: Seq<char>|
                    #[trigger] string_views(visited@).contains(a) && #[trigger] step(get_deps, resolve, a, b) implies string_views(visited@).contains(b)
                        || string_views(queue@).skip(head as int).contains(b) by {
                    lemma_push_contains(old_visited, name@, a);
                    lemma_push_contains(old_visited, name@, b);
                    if a == name@ {
                        lemma_step_outputs(get_deps, resolve, a, b, ds);
                        let kk = choose|kk: int| 0 <= kk < ds@.len() && #[trigger] outputs(resolve, ds@[kk]@).contains(b);
                        assert(outputs(get_deps, name@)[kk] == ds@[kk]@);
                        assert(outputs(resolve, outputs(get_deps, name@)[kk]).contains(b));
                    } else {
                        assert(old_visited.contains(a));
                        assert(old_visited.contains(b) || old_queue.skip(old_head as int).contains(b));
                        if !old_visited.contains(b) && b != name@ {
                            lemma_skip_one(old_queue, old_head as int, b);
                            lemma_grown_skip_contains(q, old_queue, head as int, b);
                        }
                    }
                }
                assert forall|n: Seq<char>| #[trigger] srcs.contains(n) implies string_views(visited@).contains(n) || string_views(queue@).skip(head as int).contains(n) by {
                    lemma_push_contains(old_visited, name@, n);
                    if !old_visited.contains(n) && n != name@ {
                        lemma_skip_one(old_queue, old_head as int, n);
                        lemma_grown_skip_contains(q, old_queue, head as int, n);
                    }
                }
            }
        } else {
            proof {
                assert(old_queue.skip(old_head as int)[0] == name@);
                assert(old_queue.skip(head as int) =~= old_queue.skip(old_head as int).drop_first());
                assert forall|a: Seq<char>, b: Seq<char>|
                    #[trigger] string_views(visited@).contains(a) && #[trigger] step(get_deps, resolve, a, b) implies string_views(visited@).contains(b)
                        || string_views(queue@).skip(head as int).contains(b) by {
                    assert(old_visited.contains(b) || old_queue.skip(old_head as int).contains(b));
                    if !old_visited.contains(b) && b != name@ {
                        lemma_skip_one(old_queue, old_head as int, b);
                    }
                }
                assert forall|n: Seq<char>| #[trigger] srcs.contains(n) implies string_views(visited@).contains(n) || string_views(queue@).skip(head as int).contains(n) by {
                    if !old_visited.contains(n) && n != name@ {
                        lemma_skip_one(old_queue, old_head as int, n);
                    }
                }
            }
        }
    }
    proof {
        assert forall|n: Seq<char>| reaches(get_deps, resolve, srcs, n) implies #[trigger] string_views(visited@).contains(n) by {
            let p = choose|p: Seq<Seq<char>>| #[trigger] is_walk(get_deps, resolve, p) && srcs.contains(p[0]) && p.last() == n;
            assert(string_views(queue@).skip(head as int).len() == 0);
            assert forall|x: Seq<char>| srcs.contains(x) implies #[trigger] string_views(visited@).to_set().contains(x) by {
                assert(string_views(visited@).contains(x) || string_views(queue@).skip(head as int).contains(x));
            }
            assert forall|a: Seq<char>, b: Seq<char>| string_views(visited@).to_set().contains(a) && #[trigger] step(get_deps, resolve, a, b) implies string_views(visited@).to_set().contains(b) by {
                assert(string_views(visited@).contains(a));
                assert(string_views(visited@).contains(b) || string_views(queue@).skip(head as int).contains(b));
            }
            lemma_closed_holds_reach(get_deps, resolve, srcs, string_views(visited@).to_set(), p);
        }
    }
    visited
}

/// Everything reachable from `seeds` through the dependency lists of `g` (seeds
/// included), each name once: [`transitive_closure`] with lookups in `g` and
/// dependency keys standing for themselves.
pub fn closure_in(g: &DepMap, seeds: Vec<String>) -> (r: Vec<String>)
    ensures
        string_views(r@).no_duplicates(),
        forall|n: Seq<char>|
            #[trigger] string_views(r@).contains(n) <==> reachable(g@, string_views(seeds@).to_set(), n),
{
    let ghost srcs = string_views(seeds@).to_set();
    let nkeys = g.len();
    let ghost targets = targets_upto(g, nkeys as int);
    proof {
        lemma_targets_upto(g, nkeys as int);
        string_views(seeds@).lemma_cardinality_of_set();
    }
    let get_deps = |name: &str| -> (ds: Vec<String>)
        ensures
            string_views(ds@) == succ(g@, name@),
        {
            match g.get(name) {
                Some(v) => clone_names(v),
                None => {
                    let e: Vec<String> = Vec::new();
                    proof {
                        assert(string_views(e@) =~= succ(g@, name@));
                    }
                    e
                },
            }
        };
    let resolve = |d: &str| -> (rs: Vec<String>)
        ensures
            string_views(rs@) == seq![d@],
        {
            let mut v: Vec<String> = Vec::new();
            v.push(crate::text::owned(d));
            proof {
                assert(string_views(v@) =~= seq![d@]);
            }
            v
        };
    proof {
        assert forall|a: Seq<char>, b: Seq<char>| #[trigger] step(get_deps, resolve, a, b) implies succ(g@, a).contains(b) by {
            let (ds, k, rs) = choose|ds: Vec<String>, k: int, rs: Vec<String>|
                #![trigger produces(get_deps, a, ds), produces(resolve, ds@[k]@, rs)]
                produces(get_deps, a, ds) && 0 <= k < ds@.len() && produces(resolve, ds@[k]@, rs) && string_views(
                    rs@,
                ).contains(b);
            let s1 = choose|s1: &str| s1@ == a && #[trigger] call_ensures(get_deps, (s1,), ds);
            let s2 = choose|s2: &str| s2@ == ds@[k]@ && #[trigger] call_ensures(resolve, (s2,), rs);
            assert(string_views(rs@) == seq![s2@]);
            assert(string_views(ds@)[k] == ds@[k]@);
        }
        let u = srcs.union(targets);
        assert forall|a: Seq<char>, b: Seq<char>| u.contains(a) && #[trigger] step(get_deps, resolve, a, b) implies u.contains(b) by {
            assert(succ(g@, a).contains(b));
            assert(g@.contains_key(a));
            assert(g.key_seq().to_set().contains(a));
            let i = choose|i: int| 0 <= i < g.key_seq().len() && g.key_seq()[i] == a;
            assert(succ(g@, g.key_seq()[i]).contains(b));
        }
        assert(srcs.subset_of(u));
        assert(u.finite());
        assert(bounded(get_deps, resolve, srcs));
    }
    let r = transitive_closure(seeds, get_deps, resolve);
    proof {
        let rs = string_views(r@).to_set();
        assert forall|a: Seq<char>, b: Seq<char>| rs.contains(a) && #[trigger] succ(g@, a).contains(b) implies rs.contains(b) by {
            assert(string_views(r@).contains(a));
            assert(expanded(get_deps, resolve, a));
            let ds = choose|ds: Vec<String>|
                #[trigger] produces(get_deps, a, ds) && forall|k: int| 0 <= k < ds@.len() ==> #[trigger] resolvable(resolve, ds@[k]@);
            let s1 = choose|s1: &str| s1@ == a && #[trigger] call_ensures(get_deps, (s1,), ds);
            assert(string_views(ds@) == succ(g@, a));
            let k = choose|k: int| 0 <= k < string_views(ds@).len() && string_views(ds@)[k] == b;
            assert(string_views(ds@)[k] == ds@[k]@);
            assert(resolvable(resolve, ds@[k]@));
            let rr = choose|rr: Vec<String>| #[trigger] produces(resolve, ds@[k]@, rr);
            let s2 = choose|s2: &str| s2@ == ds@[k]@ && #[trigger] call_ensures(resolve, (s2,), rr);
            assert(string_views(rr@) == seq![s2@]);
            assert(string_views(rr@)[0] == b);
            assert(step(get_deps, resolve, a, b));
            lemma_reach_next(get_deps, resolve, srcs, a, b);
        }
        assert(closed_under(g@, rs));
        assert forall|x: Seq<char>| srcs.contains(x) implies #[trigger] rs.contains(x) by {
            lemma_reach_seed(get_deps, resolve, srcs, x);
            assert(string_views(r@).contains(x));
        }
        assert forall|n: Seq<char>| #[trigger] string_views(r@).contains(n) <==> reachable(g@, srcs, n) by {
            if string_views(r@).contains(n) {
                assert(reaches(get_deps, resolve, srcs, n));
                let p = choose|p: Seq<Seq<char>>| #[trigger] is_walk(get_deps, resolve, p) && srcs.contains(p[0]) && p.last() == n;
                assert forall|i: int| 0 <= i < p.len() - 1 implies (#[trigger] succ(g@, p[i])).contains(p[i + 1]) by {
                    assert(step(get_deps, resolve, p[i], p[i + 1]));
                }
                assert(is_path(g@, p));
            }
            if reachable(g@, srcs, n) {
                lemma_closed_contains_reachable(g@, srcs, rs, n);
            }
        }
    }
    r
}

/// `p` is a non-empty walk along `r`.
pub open spec fn rel_walk(r: spec_fn(Seq<char>, Seq<char>) -> bool, p: Seq<Seq<char>>) -> bool {
    &&& p.len() >= 1
    &&& forall|i: int| 0 <= i < p.len() - 1 ==> #[trigger] r(p[i], p[i + 1])
}

/// `n` is reached from one of `srcs` along `r` in zero or more steps.
pub open spec fn rel_reach(r: spec_fn(Seq<char>, Seq<char>) -> bool, srcs: Set<Seq<char>>, n: Seq<char>) -> bool {
    exists|p: Seq<Seq<char>>| #[trigger] rel_walk(r, p) && srcs.contains(p[0]) && p.last() == n
}

proof fn lemma_rel_closed(r: spec_fn(Seq<char>, Seq<char>) -> bool, srcs: Set<Seq<char>>, s: Set<Seq<char>>, p: Seq<Seq<char>>)
    requires
        srcs.subset_of(s),
        forall|a: Seq<char>, b: Seq<char>| s.contains(a) && #[trigger] r(a, b) ==> s.contains(b),
        rel_walk(r, p),
        srcs.contains(p[0]),
    ensures
        s.contains(p.last()),
    decreases p.len(),
{
    if p.len() > 1 {
        let q = p.drop_last();
        assert forall|i: int| 0 <= i < q.len() - 1 implies #[trigger] r(q[i], q[i + 1]) by {
            assert(q[i] == p[i] && q[i + 1] == p[i + 1]);
            assert(r(p[i], p[i + 1]));
        }
        lemma_rel_closed(r, srcs, s, q);
        let i = p.len() - 2;
        assert(r(p[i], p[i + 1]));
    }
}

/// A closure result matches reachability along `r` when every step is an `r`
/// step and every `r` step from an expanded name is a step.
pub proof fn lemma_closure_is_rel_reach<G: Fn(&str) -> Vec<String>, R: Fn(&str) -> Vec<String>>(
    get_deps: G,
    resolve: R,
    srcs: Set<Seq<char>>,
    result: Seq<Seq<char>>,
    r: spec_fn(Seq<char>, Seq<char>) -> bool,
)
    requires
        forall|n: Seq<char>| #[trigger] result.contains(n) <==> reaches(get_deps, resolve, srcs, n),
        forall|n: Seq<char>| #[trigger] result.contains(n) ==> expanded(get_deps, resolve, n),
        forall|a: Seq<char>, b: Seq<char>| #[trigger] step(get_deps, resolve, a, b) ==> r(a, b),
        forall|a: Seq<char>, b: Seq<char>| expanded(get_deps, resolve, a) && #[trigger] r(a, b) ==> step(get_deps, resolve, a, b),
    ensures
        forall|n: Seq<char>| #[trigger] result.contains(n) <==> rel_reach(r, srcs, n),
{
    let s = result.to_set();
    assert forall|a: Seq<char>, b: Seq<char>| s.contains(a) && #[trigger] r(a, b) implies s.contains(b) by {
        assert(result.contains(a));
        assert(step(get_deps, resolve, a, b));
        lemma_reach_next(get_deps, resolve, srcs, a, b);
        assert(result.contains(b));
    }
    assert forall|x: Seq<char>| srcs.contains(x) implies #[trigger] s.contains(x) by {
        lemma_reach_seed(get_deps, resolve, srcs, x);
        assert(result.contains(x));
    }
    assert forall|n: Seq<char>| #[trigger] result.contains(n) <==> rel_reach(r, srcs, n) by {
        if result.contains(n) {
            let p = choose|p: Seq<Seq<char>>| #[trigger] is_walk(get_deps, resolve, p) && srcs.contains(p[0]) && p.last() == n;
            assert forall|i: int| 0 <= i < p.len() - 1 implies #[trigger] r(p[i], p[i + 1]) by {
                assert(step(get_deps, resolve, p[i], p[i + 1]));
            }
            assert(rel_walk(r, p));
        }
        if rel_reach(r, srcs, n) {
            let p = choose|p: Seq<Seq<char>>| #[trigger] rel_walk(r, p) && srcs.contains(p[0]) && p.last() == n;
            lemma_rel_closed(r, srcs, s, p);
        }
    }
}

} // verus!
