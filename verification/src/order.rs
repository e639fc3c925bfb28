//! Lexicographic order on names, and sorted name lists.
use vstd::prelude::*;

use crate::corsett::string_views;
use crate::text::chars_of;
use vstd::relations::{sorted_by, total_ordering};

verus! {

/// `a` sorts strictly before `b`, comparing character by character.
pub open spec fn lex_lt(a: Seq<char>, b: Seq<char>) -> bool
    decreases a.len(),
{
    if a.len() == 0 {
        b.len() > 0
    } else if b.len() == 0 {
        false
    } else if a[0] != b[0] {
        a[0] < b[0]
    } else {
        lex_lt(a.drop_first(), b.drop_first())
    }
}

/// Strictly increasing, hence free of repeats.
pub open spec fn strictly_sorted(v: Seq<Seq<char>>) -> bool {
    forall|i: int, j: int| 0 <= i < j < v.len() ==> lex_lt(#[trigger] v[i], #[trigger] v[j])
}

pub proof fn lemma_lex_irreflexive(a: Seq<char>)
    ensures
        !lex_lt(a, a),
    decreases a.len(),
{
    if a.len() > 0 {
        lemma_lex_irreflexive(a.drop_first());
    }
}

pub proof fn lemma_lex_transitive(a: Seq<char>, b: Seq<char>, c: Seq<char>)
    requires
        lex_lt(a, b),
        lex_lt(b, c),
    ensures
        lex_lt(a, c),
    decreases a.len(),
{
    if a.len() > 0 && b.len() > 0 && c.len() > 0 && a[0] == b[0] && b[0] == c[0] {
        lemma_lex_transitive(a.drop_first(), b.drop_first(), c.drop_first());
    }
}

pub proof fn lemma_lex_total(a: Seq<char>, b: Seq<char>)
    ensures
        a == b || lex_lt(a, b) || lex_lt(b, a),
    decreases a.len(),
{
    if a.len() > 0 && b.len() > 0 && a[0] == b[0] {
        lemma_lex_total(a.drop_first(), b.drop_first());
        if a.drop_first() == b.drop_first() {
            assert(a =~= seq![a[0]] + a.drop_first());
            assert(b =~= seq![b[0]] + b.drop_first());
        }
    } else if a.len() == 0 && b.len() == 0 {
        assert(a =~= b);
    }
}

pub proof fn lemma_lex_asymmetric(a: Seq<char>, b: Seq<char>)
    requires
        lex_lt(a, b),
    ensures
        !lex_lt(b, a),
{
    if lex_lt(b, a) {
        lemma_lex_transitive(a, b, a);
        lemma_lex_irreflexive(a);
    }
}

/// Whether `a` sorts strictly before `b`.
pub fn lex_less(a: &str, b: &str) -> (r: bool)
    ensures
        r == lex_lt(a@, b@),
{
    let x = chars_of(a);
    let y = chars_of(b);
    let mut i: usize = 0;
    proof {
        assert(x@.skip(0) =~= x@);
        assert(y@.skip(0) =~= y@);
        assert(x@.take(0) =~= y@.take(0));
    }
    while i < x.len() && i < y.len()
        invariant
            i <= x.len(),
            i <= y.len(),
            x@ == a@,
            y@ == b@,
            x@.take(i as int) == y@.take(i as int),
            lex_lt(x@, y@) == lex_lt(x@.skip(i as int), y@.skip(i as int)),
        decreases x.len() - i,
    {
        if x[i] != y[i] {
            let cx = x[i];
            let cy = y[i];
            let r = cx < cy;
            proof {
                assert(x@.skip(i as int).len() > 0 && y@.skip(i as int).len() > 0);
                assert(x@.skip(i as int)[0] == x@[i as int]);
                assert(y@.skip(i as int)[0] == y@[i as int]);
                assert(cx == x@[i as int] && cy == y@[i as int]);
                assert(lex_lt(x@.skip(i as int), y@.skip(i as int)) == (cx < cy));
            }
            return r;
        }
        proof {
            assert(x@.skip(i as int).drop_first() =~= x@.skip(i + 1));
            assert(y@.skip(i as int).drop_first() =~= y@.skip(i + 1));
            assert(x@.take(i + 1) =~= x@.take(i as int).push(x@[i as int]));
            assert(y@.take(i + 1) =~= y@.take(i as int).push(y@[i as int]));
        }
        i += 1;
    }
    proof {
        if i == x.len() {
            assert(x@.skip(i as int).len() == 0);
        } else {
            assert(y@.skip(i as int).len() == 0);
        }
    }
    i == x.len() && i < y.len()
}

/// Puts `s` into the strictly sorted list `v` unless it is already there.
pub fn insert_sorted_unique(v: &mut Vec<String>, s: &str)
    requires
        strictly_sorted(string_views(old(v)@)),
    ensures
        strictly_sorted(string_views(final(v)@)),
        string_views(final(v)@).to_set() == string_views(old(v)@).to_set().insert(s@),
{
    let ghost before = string_views(v@);
    let mut p: usize = 0;
    while p < v.len() && lex_less(v[p].as_str(), s)
        invariant
            p <= v.len(),
            before == string_views(v@),
            forall|k: int| 0 <= k < p ==> lex_lt(#[trigger] before[k], s@),
        decreases v.len() - p,
    {
        proof {
            assert(before[p as int] == v@[p as int]@);
        }
        p += 1;
    }
    proof {
        if p < v.len() {
            assert(before[p as int] == v@[p as int]@);
        }
    }
    if p < v.len() && crate::text::str_eq(v[p].as_str(), s) {
        proof {
            assert(before.to_set().contains(s@)) by {
                assert(before[p as int] == s@);
            }
            assert(before.to_set().insert(s@) =~= before.to_set());
        }
        return;
    }
    v.insert(p, crate::text::owned(s));
    proof {
        let after = string_views(v@);
        assert(after =~= before.insert(p as int, s@));
        // everything from p on sorts after s
        assert forall|k: int| p <= k < before.len() implies lex_lt(s@, #[trigger] before[k]) by {
            lemma_lex_total(before[p as int], s@);
            if k > p {
                assert(lex_lt(before[p as int], before[k]));
                lemma_lex_transitive(s@, before[p as int], before[k]);
            }
        }
        assert forall|i: int, j: int| 0 <= i < j < after.len() implies lex_lt(#[trigger] after[i], #[trigger] after[j]) by {
            if j < p {
                assert(after[i] == before[i] && after[j] == before[j]);
            } else if j == p {
                assert(after[i] == before[i]);
            } else if i < p {
                assert(after[i] == before[i] && after[j] == before[j - 1]);
                lemma_lex_transitive(before[i], s@, before[j - 1]);
            } else if i == p {
                assert(after[j] == before[j - 1]);
            } else {
                assert(after[i] == before[i - 1] && after[j] == before[j - 1]);
            }
        }
        assert forall|x: Seq<char>| after.to_set().contains(x) == before.to_set().insert(s@).contains(x) by {
            if after.to_set().contains(x) {
                let k = choose|k: int| 0 <= k < after.len() && after[k] == x;
                if k < p {
                    assert(before[k] == x);
                } else if k > p {
                    assert(before[k - 1] == x);
                }
            }
            if before.to_set().contains(x) {
                let k = choose|k: int| 0 <= k < before.len() && before[k] == x;
                if k < p {
                    assert(after[k] == x);
                } else {
                    assert(after[k + 1] == x);
                }
            }
            if x == s@ {
                assert(after[p as int] == x);
            }
        }
        assert(after.to_set() =~= before.to_set().insert(s@));
    }
}

/// Two strictly sorted lists with the same members are equal.
pub proof fn lemma_sorted_unique(a: Seq<Seq<char>>, b: Seq<Seq<char>>)
    requires
        strictly_sorted(a),
        strictly_sorted(b),
        a.to_set() == b.to_set(),
    ensures
        a == b,
    decreases a.len(),
{
    if a.len() == 0 {
        if b.len() > 0 {
            assert(b.to_set().contains(b[0]));
        }
        assert(a =~= b);
    } else {
        assert(a.to_set().contains(a[0]));
        assert(b.len() > 0);
        assert(b.to_set().contains(b[0]));
        let i = choose|i: int| 0 <= i < a.len() && a[i] == b[0];
        let j = choose|j: int| 0 <= j < b.len() && b[j] == a[0];
        if a[0] != b[0] {
            assert(i > 0 && j > 0);
            assert(lex_lt(a[0], a[i]));
            assert(lex_lt(b[0], b[j]));
            lemma_lex_asymmetric(a[0], b[0]);
        }
        let a1 = a.drop_first();
        let b1 = b.drop_first();
        assert forall|x: Seq<char>| a1.to_set().contains(x) == b1.to_set().contains(x) by {
            if a1.to_set().contains(x) {
                let k = choose|k: int| 0 <= k < a1.len() && a1[k] == x;
                assert(a[k + 1] == x);
                assert(lex_lt(a[0], a[k + 1]));
                lemma_lex_irreflexive(x);
                assert(a.to_set().contains(x));
                let m = choose|m: int| 0 <= m < b.len() && b[m] == x;
                assert(m != 0);
                assert(b1[m - 1] == x);
            }
            if b1.to_set().contains(x) {
                let k = choose|k: int| 0 <= k < b1.len() && b1[k] == x;
                assert(b[k + 1] == x);
                assert(lex_lt(b[0], b[k + 1]));
                lemma_lex_irreflexive(x);
                assert(b.to_set().contains(x));
                let m = choose|m: int| 0 <= m < a.len() && a[m] == x;
                assert(m != 0);
                assert(a1[m - 1] == x);
            }
        }
        assert(a1.to_set() =~= b1.to_set());
        assert forall|x: int, y: int| 0 <= x < y < a1.len() implies lex_lt(#[trigger] a1[x], #[trigger] a1[y]) by {
            assert(a1[x] == a[x + 1] && a1[y] == a[y + 1]);
        }
        assert forall|x: int, y: int| 0 <= x < y < b1.len() implies lex_lt(#[trigger] b1[x], #[trigger] b1[y]) by {
            assert(b1[x] == b[x + 1] && b1[y] == b[y + 1]);
        }
        lemma_sorted_unique(a1, b1);
        assert(a[0] == b[0]);
        assert(a.len() == b.len());
        assert forall|k: int| 0 <= k < a.len() implies a[k] == b[k] by {
            if k > 0 {
                assert(a[k] == a1[k - 1]);
                assert(b[k] == b1[k - 1]);
            }
        }
        assert(a =~= b);
    }
}


/// Names in ascending order, repeats allowed: `a` comes no later than `b`.
pub open spec fn name_order() -> spec_fn(Seq<char>, Seq<char>) -> bool {
    |a: Seq<char>, b: Seq<char>| !lex_lt(b, a)
}

/// [`name_order`] is a total order.
pub proof fn lemma_name_order()
    ensures
        total_ordering(name_order()),
{
    let leq = name_order();
    assert forall|x: Seq<char>| #[trigger] leq(x, x) by {
        lemma_lex_irreflexive(x);
    }
    assert forall|x: Seq<char>, y: Seq<char>| #[trigger] leq(x, y) && #[trigger] leq(y, x) implies x == y by {
        lemma_lex_total(x, y);
    }
    assert forall|x: Seq<char>, y: Seq<char>, z: Seq<char>| #[trigger] leq(x, y) && #[trigger] leq(y, z) implies leq(
        x,
        z,
    ) by {
        if lex_lt(z, x) {
            lemma_lex_total(x, y);
            lemma_lex_total(y, z);
            if lex_lt(x, y) {
                lemma_lex_transitive(z, x, y);
            } else if x == y {
            }
        }
    }
    assert forall|x: Seq<char>, y: Seq<char>| #[trigger] leq(x, y) || #[trigger] leq(y, x) by {
        if lex_lt(y, x) {
            lemma_lex_asymmetric(y, x);
        }
    }
}

/// Values sorted by a name of theirs.
pub trait Named {
    /// The name the value sorts by.
    spec fn key_view(&self) -> Seq<char>;

    /// The name the value sorts by.
    fn sort_key(&self) -> (r: &str)
        ensures
            r@ == self.key_view(),
    ;
}

impl Named for String {
    open spec fn key_view(&self) -> Seq<char> {
        self@
    }

    fn sort_key(&self) -> (r: &str) {
        self.as_str()
    }
}

/// The names of values, in order.
pub open spec fn names_of<T: Named>(s: Seq<T>) -> Seq<Seq<char>> {
    s.map_values(|x: T| x.key_view())
}

/// Sorts values by name, keeping every value.
pub fn sort_by_name<T: Named>(v: Vec<T>) -> (r: Vec<T>)
    ensures
        names_of(r@) == names_of(v@).sort_by(name_order()),
        r@.to_multiset() == v@.to_multiset(),
{
    broadcast use vstd::multiset::group_multiset_axioms;

    let ghost leq = name_order();
    let ghost orig = v@;
    proof {
        broadcast use vstd::seq_lib::group_to_multiset_ensures, vstd::multiset::lemma_multiset_empty_len;

        lemma_name_order();
        assert(names_of(Seq::<T>::empty()) =~= Seq::<Seq<char>>::empty());
        assert(Seq::<T>::empty().to_multiset().len() == 0);
        assert(Seq::<Seq<char>>::empty().to_multiset().len() == 0);
        assert(Seq::<T>::empty().to_multiset().add(orig.to_multiset()) =~= orig.to_multiset());
        assert(Seq::<Seq<char>>::empty().to_multiset().add(names_of(orig).to_multiset()) =~= names_of(
            orig,
        ).to_multiset());
    }
    let mut src = v;
    let mut out: Vec<T> = Vec::new();
    while src.len() > 0
        invariant
            leq == name_order(),
            total_ordering(leq),
            sorted_by(names_of(out@), leq),
            out@.to_multiset().add(src@.to_multiset()) == orig.to_multiset(),
            names_of(out@).to_multiset().add(names_of(src@).to_multiset()) == names_of(orig).to_multiset(),
        decreases src@.len(),
    {
        let ghost s0 = src@;
        let x = match src.pop() {
            Some(x) => x,
            None => {
                proof {
                    assert(false);
                }
                return out;
            },
        };
        proof {
            assert(s0 =~= src@.push(x));
            vstd::seq_lib::to_multiset_build(src@, x);
            assert(names_of(s0) =~= names_of(src@).push(x.key_view()));
            vstd::seq_lib::to_multiset_build(names_of(src@), x.key_view());
        }
        let ghost before = names_of(out@);
        let ghost out0 = out@;
        let mut p: usize = 0;
        while p < out.len() && !lex_less(x.sort_key(), out[p].sort_key())
            invariant
                p <= out@.len(),
                leq == name_order(),
                before == names_of(out@),
                forall|k: int| 0 <= k < p ==> leq(#[trigger] before[k], x.key_view()),
            decreases out@.len() - p,
        {
            proof {
                assert(before[p as int] == out@[p as int].key_view());
            }
            p += 1;
        }
        proof {
            if p < out.len() {
                assert(before[p as int] == out@[p as int].key_view());
                lemma_lex_asymmetric(x.key_view(), before[p as int]);
            }
        }
        out.insert(p, x);
        proof {
            let v0 = x.key_view();
            let after = names_of(out@);
            assert(after =~= before.insert(p as int, v0));
            assert(sorted_by(before, leq));
            assert forall|a: int, b: int| 0 <= a < b < after.len() implies #[trigger] leq(after[a], after[b]) by {
                if b < p {
                    assert(after[a] == before[a] && after[b] == before[b]);
                } else if b == p {
                    assert(after[a] == before[a]);
                    assert(leq(before[a], v0));
                } else if a < p {
                    assert(after[a] == before[a] && after[b] == before[b - 1]);
                    assert(leq(before[a], before[b - 1]));
                } else if a == p {
                    assert(after[b] == before[b - 1]);
                    assert(after[a] == v0);
                    assert(leq(v0, before[p as int]));
                    if b - 1 > p {
                        assert(leq(before[p as int], before[b - 1]));
                        assert(leq(v0, before[b - 1]));
                    }
                } else {
                    assert(after[a] == before[a - 1] && after[b] == before[b - 1]);
                    assert(leq(before[a - 1], before[b - 1]));
                }
            }
            vstd::seq_lib::to_multiset_insert(out0, p as int, x);
            vstd::seq_lib::to_multiset_insert(before, p as int, v0);
            assert(out@ =~= out0.insert(p as int, x));
            assert(out@.to_multiset().add(src@.to_multiset()) =~= out0.to_multiset().add(s0.to_multiset()));
            assert(after.to_multiset().add(names_of(src@).to_multiset()) =~= before.to_multiset().add(
                names_of(s0).to_multiset(),
            ));
        }
    }
    proof {
        assert(src@ =~= Seq::<T>::empty());
        assert(names_of(src@) =~= Seq::<Seq<char>>::empty());
        assert(out@.to_multiset() =~= orig.to_multiset());
        assert(names_of(out@).to_multiset() =~= names_of(orig).to_multiset());
        names_of(orig).lemma_sort_by_ensures(leq);
        vstd::seq_lib::lemma_sorted_unique(names_of(out@), names_of(orig).sort_by(leq), leq);
    }
    out
}

/// Sorts names, keeping repeats.
pub fn sort_strings(v: Vec<String>) -> (r: Vec<String>)
    ensures
        string_views(r@) == string_views(v@).sort_by(name_order()),
{
    let r = sort_by_name(v);
    proof {
        assert(names_of(r@) =~= string_views(r@));
        assert(names_of(v@) =~= string_views(v@));
    }
    r
}

} // verus!
