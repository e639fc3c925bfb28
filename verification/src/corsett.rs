//! Compact, unique label shortening and fold plans for scrolled views.
//!
//! Labels are split into segments at `-` and `_`. A label is shortened by
//! compressing segments to their first character, by cutting a prefix and
//! marking the cut with `…`, or, for a group of labels, by compressing the
//! leading segments that every label shares.
use vstd::prelude::*;

use std::collections::HashSet;

use crate::text::{chars_of, owned, string_of};

verus! {

/// The character that marks a truncation point.
pub open spec fn ellipsis() -> char {
    '…'
}

/// `-` and `_` separate the segments of a label.
pub open spec fn is_sep(c: char) -> bool {
    c == '-' || c == '_'
}

/// The segments of `s` between separators, empty segments included
/// (so a label with `k` separators has `k + 1` segments).
pub open spec fn segments(s: Seq<char>) -> Seq<Seq<char>>
    decreases s.len(),
{
    if s.len() == 0 {
        seq![Seq::<char>::empty()]
    } else {
        let p = segments(s.drop_last());
        if is_sep(s.last()) {
            p.push(Seq::<char>::empty())
        } else {
            p.update(p.len() - 1, p.last().push(s.last()))
        }
    }
}

/// The parts joined by single `-` characters.
pub open spec fn join_dash(parts: Seq<Seq<char>>) -> Seq<char>
    decreases parts.len(),
{
    if parts.len() == 0 {
        Seq::<char>::empty()
    } else if parts.len() == 1 {
        parts[0]
    } else {
        join_dash(parts.drop_last()).push('-') + parts.last()
    }
}

/// The first character of every non-empty segment, each as a one-character part.
pub open spec fn initials(segs: Seq<Seq<char>>) -> Seq<Seq<char>>
    decreases segs.len(),
{
    if segs.len() == 0 {
        Seq::<Seq<char>>::empty()
    } else if segs.last().len() == 0 {
        initials(segs.drop_last())
    } else {
        initials(segs.drop_last()).push(seq![segs.last()[0]])
    }
}

/// Compact form of a label: the first character of each non-empty segment, joined by `-`.
pub open spec fn compact_spec(name: Seq<char>) -> Seq<char> {
    join_dash(initials(segments(name)))
}

/// A single label cut to at most `max_len` characters (plain prefix strategy).
pub open spec fn shorten_spec(name: Seq<char>, max_len: nat) -> Seq<char> {
    if name.len() <= max_len {
        name
    } else if max_len <= compact_spec(name).len() {
        compact_spec(name)
    } else {
        name.take(max_len - 1).push(ellipsis())
    }
}

pub proof fn lemma_segments_nonempty(s: Seq<char>)
    ensures
        segments(s).len() >= 1,
    decreases s.len(),
{
    if s.len() > 0 {
        lemma_segments_nonempty(s.drop_last());
    }
}

proof fn lemma_initials_single(segs: Seq<Seq<char>>)
    ensures
        forall|i: int| 0 <= i < initials(segs).len() ==> #[trigger] initials(segs)[i].len() == 1,
    decreases segs.len(),
{
    if segs.len() > 0 {
        lemma_initials_single(segs.drop_last());
        let p = initials(segs.drop_last());
        if segs.last().len() > 0 {
            assert forall|i: int| 0 <= i < initials(segs).len() implies #[trigger] initials(
                segs,
            )[i].len() == 1 by {
                if i < p.len() {
                    assert(initials(segs)[i] == p[i]);
                }
            }
        }
    }
}

proof fn lemma_join_dash_empty(parts: Seq<Seq<char>>)
    requires
        forall|i: int| 0 <= i < parts.len() ==> #[trigger] parts[i].len() >= 1,
    ensures
        (join_dash(parts).len() == 0) == (parts.len() == 0),
    decreases parts.len(),
{
    if parts.len() > 1 {
        lemma_join_dash_empty(parts.drop_last());
    }
}

proof fn lemma_join_dash_push(parts: Seq<Seq<char>>, x: Seq<char>)
    ensures
        join_dash(parts.push(x)) == if parts.len() == 0 {
            x
        } else {
            join_dash(parts).push('-') + x
        },
{
    assert(parts.push(x).drop_last() =~= parts);
}

/// Compact form: first character of each segment split on `-` or `_`, joined with `-`.
pub fn compact(name: &str) -> (r: String)
    ensures
        r@ == compact_spec(name@),
{
    let cs = chars_of(name);
    let ghost s = cs@;
    let mut out: Vec<char> = Vec::new();
    let mut at_start = true;
    let mut i: usize = 0;
    proof {
        assert(s.take(0) =~= Seq::<char>::empty());
        let e = Seq::<char>::empty();
        assert(segments(e) == seq![e]);
        assert(seq![e].drop_last() =~= Seq::<Seq<char>>::empty());
        assert(seq![e].last() == e);
        assert(initials(Seq::<Seq<char>>::empty()) == Seq::<Seq<char>>::empty());
        assert(initials(seq![e]) =~= Seq::<Seq<char>>::empty());
    }
    while i < cs.len()
        invariant
            i <= cs.len(),
            s == cs@,
            out@ == compact_spec(s.take(i as int)),
            segments(s.take(i as int)).len() >= 1,
            at_start == (segments(s.take(i as int)).last().len() == 0),
        decreases cs.len() - i,
    {
        let c = cs[i];
        let ghost pre = s.take(i as int);
        let ghost p = segments(pre);
        let ghost next = s.take(i + 1);
        proof {
            assert(next.drop_last() =~= pre);
            assert(next.last() == c);
            lemma_initials_single(p);
        }
        if c == '-' || c == '_' {
            proof {
                assert(segments(next) == p.push(Seq::<char>::empty()));
                assert(p.push(Seq::<char>::empty()).drop_last() =~= p);
            }
            at_start = true;
        } else {
            let ghost q = segments(next);
            proof {
                assert(q == p.update(p.len() - 1, p.last().push(c)));
                assert(q.drop_last() =~= p.drop_last());
                assert(p =~= p.drop_last().push(p.last()));
            }
            if at_start {
                proof {
                    assert(initials(p) == initials(p.drop_last()));
                    assert(initials(q) == initials(p).push(seq![c]));
                    lemma_join_dash_push(initials(p), seq![c]);
                    lemma_join_dash_empty(initials(p));
                }
                if out.len() > 0 {
                    out.push('-');
                }
                out.push(c);
                proof {
                    assert(out@ =~= compact_spec(next));
                }
            } else {
                proof {
                    assert(q.last()[0] == p.last()[0]);
                    assert(initials(q) == initials(p));
                }
            }
            at_start = false;
        }
        i += 1;
    }
    proof {
        assert(s.take(cs.len() as int) =~= s);
    }
    string_of(&out)
}


/// Shorten a single `name` to at most `max_len` characters (plain prefix).
///
/// - Full name if it fits.
/// - Compact form if `max_len` is at or below the compact length.
/// - Otherwise: longest prefix that fits, followed by a single `…` char.
pub fn shorten(name: &str, max_len: usize) -> (r: String)
    ensures
        r@ == shorten_spec(name@, max_len as nat),
{
    let cs = chars_of(name);
    if cs.len() <= max_len {
        return owned(name);
    }
    let c = compact(name);
    let c_len = chars_of(c.as_str()).len();
    if max_len <= c_len {
        return c;
    }
    let mut out: Vec<char> = Vec::new();
    let mut i: usize = 0;
    while i < max_len - 1
        invariant
            max_len - 1 < cs.len(),
            i <= max_len - 1,
            out@ == cs@.take(i as int),
        decreases max_len - 1 - i,
    {
        out.push(cs[i]);
        proof {
            assert(cs@.take(i + 1) =~= cs@.take(i as int).push(cs@[i as int]));
        }
        i += 1;
    }
    out.push('…');
    string_of(&out)
}

// ─── segment-level views ───────────────────────────────────────────────────

/// The characters held by each vector.
pub open spec fn char_views(v: Seq<Vec<char>>) -> Seq<Seq<char>> {
    v.map_values(|x: Vec<char>| x@)
}

/// The characters held by each string slice.
pub open spec fn str_views(v: Seq<&str>) -> Seq<Seq<char>> {
    v.map_values(|x: &str| x@)
}

/// The characters held by each string.
pub open spec fn string_views(v: Seq<String>) -> Seq<Seq<char>> {
    v.map_values(|x: String| x@)
}

/// Every segment list has a segment at position `i`, and all of them agree there.
pub open spec fn shared_at(segs: Seq<Seq<Seq<char>>>, i: int) -> bool {
    forall|j: int| 0 <= j < segs.len() ==> i < #[trigger] segs[j].len() && segs[j][i] == segs[0][i]
}

/// The first position at or after `i` where the segment lists stop agreeing.
pub open spec fn lcp_from(segs: Seq<Seq<Seq<char>>>, i: nat) -> nat
    decreases segs[0].len() - i,
{
    if i < segs[0].len() && shared_at(segs, i as int) {
        lcp_from(segs, i + 1)
    } else {
        i
    }
}

/// Number of leading segment positions where all segment lists share the same value.
pub open spec fn common_prefix_len(segs: Seq<Seq<Seq<char>>>) -> nat {
    if segs.len() == 0 {
        0
    } else {
        lcp_from(segs, 0)
    }
}

/// How one common segment is shown in a compact prefix: its first character,
/// followed by `…` when the segment had more than one character (`?` for an empty one).
pub open spec fn marker(seg: Seq<char>) -> Seq<char> {
    if seg.len() == 0 {
        seq!['?']
    } else if seg.len() == 1 {
        seq![seg[0]]
    } else {
        seq![seg[0], ellipsis()]
    }
}

/// The markers of the first `count` segments.
pub open spec fn markers(segs: Seq<Seq<char>>, count: nat) -> Seq<Seq<char>> {
    Seq::new(count, |i: int| marker(segs[i]))
}

/// The compact prefix built from the first `count` segments.
pub open spec fn compact_prefix_spec(segs: Seq<Seq<char>>, count: nat) -> Seq<char> {
    join_dash(markers(segs, count))
}

/// One label shortened with its `common` leading segments compressed to markers.
pub open spec fn shorten_with_prefix_spec(name: Seq<char>, common: nat, target: nat) -> Seq<
    char,
> {
    let c = compact_spec(name);
    let segs = segments(name);
    let cp = compact_prefix_spec(segs, common);
    let suffix = join_dash(segs.skip(common as int));
    if target <= c.len() {
        c
    } else if suffix.len() == 0 {
        c
    } else if target <= cp.len() + 1 {
        cp
    } else {
        let remaining = (target - cp.len() - 1) as nat;
        if suffix.len() <= remaining {
            cp.push('-') + suffix
        } else if remaining <= 1 {
            cp.push('-').push(ellipsis())
        } else {
            cp.push('-') + suffix.take(remaining - 1).push(ellipsis())
        }
    }
}

/// Every label fits in `target` characters.
pub open spec fn all_fit(names: Seq<Seq<char>>, target: nat) -> bool {
    forall|i: int| 0 <= i < names.len() ==> #[trigger] names[i].len() <= target
}

/// A group of labels shortened together to at most `target` characters each.
/// The segments of every label.
pub open spec fn segment_lists(names: Seq<Seq<char>>) -> Seq<Seq<Seq<char>>> {
    names.map_values(|n: Seq<char>| segments(n))
}

pub open spec fn fit_group_spec(names: Seq<Seq<char>>, target: nat) -> Seq<Seq<char>> {
    let common = common_prefix_len(segment_lists(names));
    if names.len() == 0 {
        names
    } else if all_fit(names, target) {
        names
    } else if common == 0 {
        names.map_values(|n: Seq<char>| shorten_spec(n, target))
    } else {
        names.map_values(|n: Seq<char>| shorten_with_prefix_spec(n, common, target))
    }
}

proof fn lemma_lcp_bounds(segs: Seq<Seq<Seq<char>>>, i: nat)
    requires
        segs.len() > 0,
        forall|k: int| 0 <= k < i ==> shared_at(segs, k),
    ensures
        lcp_from(segs, i) >= i,
        forall|k: int| 0 <= k < lcp_from(segs, i) ==> shared_at(segs, k),
        lcp_from(segs, i) < segs[0].len() ==> !shared_at(segs, lcp_from(segs, i) as int),
        lcp_from(segs, i) > segs[0].len() ==> lcp_from(segs, i) == i,
    decreases segs[0].len() - i,
{
    if i < segs[0].len() && shared_at(segs, i as int) {
        lemma_lcp_bounds(segs, i + 1);
    }
}

/// The common prefix length never exceeds any segment list's length.
proof fn lemma_common_prefix_le(segs: Seq<Seq<Seq<char>>>, j: int)
    requires
        0 <= j < segs.len(),
    ensures
        common_prefix_len(segs) <= segs[j].len(),
        forall|k: int| 0 <= k < common_prefix_len(segs) ==> shared_at(segs, k),
{
    lemma_lcp_bounds(segs, 0);
    let c = common_prefix_len(segs);
    if c > 0 {
        assert(shared_at(segs, c - 1));
        assert(c - 1 < segs[j].len());
    }
}

/// Splits a label into its segments.
fn split_segs(cs: &Vec<char>) -> (r: Vec<Vec<char>>)
    ensures
        char_views(r@) == segments(cs@),
{
    let mut segs: Vec<Vec<char>> = Vec::new();
    let mut cur: Vec<char> = Vec::new();
    let mut i: usize = 0;
    proof {
        assert(cs@.take(0) =~= Seq::<char>::empty());
        assert(char_views(segs@).push(cur@) =~= seq![Seq::<char>::empty()]);
    }
    while i < cs.len()
        invariant
            i <= cs.len(),
            char_views(segs@).push(cur@) == segments(cs@.take(i as int)),
        decreases cs.len() - i,
    {
        let c = cs[i];
        let ghost pre = cs@.take(i as int);
        let ghost next = cs@.take(i + 1);
        proof {
            assert(next.drop_last() =~= pre);
            assert(next.last() == c);
        }
        if c == '-' || c == '_' {
            let done = cur;
            segs.push(done);
            cur = Vec::new();
            proof {
                assert(char_views(segs@) =~= char_views(segs@.drop_last()).push(done@));
                assert(char_views(segs@).push(cur@) =~= segments(next));
            }
        } else {
            let ghost old_cur = cur@;
            cur.push(c);
            proof {
                assert(char_views(segs@).push(cur@) =~= char_views(segs@).push(old_cur).update(
                    segs@.len() as int,
                    old_cur.push(c),
                ));
            }
        }
        i += 1;
    }
    segs.push(cur);
    proof {
        assert(cs@.take(cs.len() as int) =~= cs@);
        assert(char_views(segs@) =~= char_views(segs@.drop_last()).push(segs@.last()@));
    }
    segs
}


/// Character-wise equality of two character vectors.
fn chars_eq(a: &Vec<char>, b: &Vec<char>) -> (r: bool)
    ensures
        r == (a@ == b@),
{
    if a.len() != b.len() {
        return false;
    }
    let mut i: usize = 0;
    while i < a.len()
        invariant
            a.len() == b.len(),
            i <= a.len(),
            forall|k: int| 0 <= k < i ==> a@[k] == b@[k],
        decreases a.len() - i,
    {
        if a[i] != b[i] {
            return false;
        }
        i += 1;
    }
    proof {
        assert(a@ =~= b@);
    }
    true
}

spec fn seg_lists(v: Seq<Vec<Vec<char>>>) -> Seq<Seq<Seq<char>>> {
    v.map_values(|x: Vec<Vec<char>>| char_views(x@))
}

/// Number of leading segment positions where all names share the same value.
fn common_prefix_count(segs: &Vec<Vec<Vec<char>>>) -> (r: usize)
    ensures
        r == common_prefix_len(seg_lists(segs@)),
{
    let ghost sl = seg_lists(segs@);
    if segs.len() == 0 {
        return 0;
    }
    proof {
        assert forall|k: int| 0 <= k < sl.len() implies #[trigger] sl[k].len() == segs@[k]@.len()
            && (forall|m: int| 0 <= m < sl[k].len() ==> #[trigger] sl[k][m] == segs@[k]@[m]@) by {
            assert(sl[k] == char_views(segs@[k]@));
        }
    }
    let mut min_len = segs[0].len();
    let mut j: usize = 1;
    let ghost mut w: int = 0;
    while j < segs.len()
        invariant
            1 <= j <= segs.len(),
            sl == seg_lists(segs@),
            forall|k: int| 0 <= k < sl.len() ==> #[trigger] sl[k].len() == segs@[k]@.len(),
            forall|k: int| 0 <= k < j ==> min_len <= #[trigger] sl[k].len(),
            0 <= w < j,
            min_len == sl[w].len(),
        decreases segs.len() - j,
    {
        if segs[j].len() < min_len {
            min_len = segs[j].len();
            proof {
                w = j as int;
            }
        }
        j += 1;
    }
    let mut i: usize = 0;
    proof {
        assert(sl.len() > 0);
    }
    while i < min_len
        invariant
            sl == seg_lists(segs@),
            sl.len() > 0,
            i <= min_len,
            forall|k: int| 0 <= k < sl.len() ==> #[trigger] sl[k].len() == segs@[k]@.len(),
            forall|k: int, m: int|
                0 <= k < sl.len() && 0 <= m < sl[k].len() ==> #[trigger] sl[k][m] == segs@[k]@[m]@,
            forall|k: int| 0 <= k < sl.len() ==> min_len <= #[trigger] sl[k].len(),
            lcp_from(sl, 0) == lcp_from(sl, i as nat),
        decreases min_len - i,
    {
        proof {
            assert(sl[0].len() >= min_len);
            assert(sl[0][i as int] == segs@[0]@[i as int]@);
        }
        let first = &segs[0][i];
        let mut all = true;
        let mut k: usize = 1;
        while k < segs.len()
            invariant
                sl == seg_lists(segs@),
                1 <= k <= segs.len(),
                forall|k: int| 0 <= k < sl.len() ==> #[trigger] sl[k].len() == segs@[k]@.len(),
                forall|k: int, m: int|
                    0 <= k < sl.len() && 0 <= m < sl[k].len() ==> #[trigger] sl[k][m] == segs@[k]@[m]@,
                i < min_len,
                forall|q: int| 0 <= q < sl.len() ==> min_len <= #[trigger] sl[q].len(),
                first@ == sl[0][i as int],
                all == (forall|q: int| 0 <= q < k ==> #[trigger] sl[q][i as int] == sl[0][i as int]),
            decreases segs.len() - k,
        {
            proof {
                assert(sl[k as int].len() >= min_len);
                assert(sl[k as int][i as int] == segs@[k as int]@[i as int]@);
            }
            let eq = chars_eq(&segs[k][i], first);
            all = all && eq;
            k += 1;
        }
        if !all {
            proof {
                let q = choose|q: int| 0 <= q < k && !(#[trigger] sl[q][i as int] == sl[0][i as int]);
                assert(sl[q].len() >= min_len);
                assert(!shared_at(sl, i as int));
            }
            return i;
        }
        proof {
            assert(shared_at(sl, i as int));
            assert(sl[0].len() >= min_len);
        }
        i += 1;
    }
    proof {
        assert(!shared_at(sl, min_len as int)) by {
            assert(!(min_len < sl[w].len()));
        }
    }
    min_len
}

/// Joins `parts[from..]` with `-`.
fn join_from(parts: &Vec<Vec<char>>, from: usize) -> (r: Vec<char>)
    requires
        from <= parts.len(),
    ensures
        r@ == join_dash(char_views(parts@).skip(from as int)),
{
    let ghost v = char_views(parts@);
    let mut out: Vec<char> = Vec::new();
    let mut k: usize = from;
    proof {
        assert(v.subrange(from as int, from as int) =~= Seq::<Seq<char>>::empty());
    }
    while k < parts.len()
        invariant
            from <= k <= parts.len(),
            v == char_views(parts@),
            out@ == join_dash(v.subrange(from as int, k as int)),
        decreases parts.len() - k,
    {
        proof {
            assert(v.subrange(from as int, k + 1) =~= v.subrange(from as int, k as int).push(v[k as int]));
            lemma_join_dash_push(v.subrange(from as int, k as int), v[k as int]);
        }
        if k > from {
            out.push('-');
        }
        let mut m: usize = 0;
        let ghost base = out@;
        while m < parts[k].len()
            invariant
                k < parts.len(),
                m <= parts[k as int].len(),
                out@ == base + parts@[k as int]@.take(m as int),
            decreases parts[k as int].len() - m,
        {
            out.push(parts[k][m]);
            proof {
                assert(parts@[k as int]@.take(m + 1) =~= parts@[k as int]@.take(m as int).push(parts@[k as int]@[m as int]));
            }
            m += 1;
        }
        proof {
            assert(parts@[k as int]@.take(parts[k as int].len() as int) =~= parts@[k as int]@);
            assert(v[k as int] == parts@[k as int]@);
            assert(out@ =~= join_dash(v.subrange(from as int, k + 1)));
        }
        k += 1;
    }
    proof {
        assert(v.subrange(from as int, parts.len() as int) =~= v.skip(from as int));
    }
    out
}

/// Compact representation of the first `count` segments: each segment's first
/// character, followed by `…` when the segment had more than one character.
fn build_compact_prefix(segs: &Vec<Vec<char>>, count: usize) -> (r: Vec<char>)
    requires
        count <= segs.len(),
    ensures
        r@ == compact_prefix_spec(char_views(segs@), count as nat),
{
    let ghost v = char_views(segs@);
    let mut out: Vec<char> = Vec::new();
    let mut k: usize = 0;
    proof {
        assert(markers(v, 0) =~= Seq::<Seq<char>>::empty());
    }
    while k < count
        invariant
            count <= segs.len(),
            k <= count,
            v == char_views(segs@),
            out@ == join_dash(markers(v, k as nat)),
        decreases count - k,
    {
        proof {
            assert(markers(v, (k + 1) as nat) =~= markers(v, k as nat).push(marker(v[k as int])));
            lemma_join_dash_push(markers(v, k as nat), marker(v[k as int]));
            assert(v[k as int] == segs@[k as int]@);
        }
        if k > 0 {
            out.push('-');
        }
        let seg = &segs[k];
        if seg.len() == 0 {
            out.push('?');
        } else if seg.len() == 1 {
            out.push(seg[0]);
        } else {
            out.push(seg[0]);
            out.push('…');
        }
        proof {
            assert(out@ =~= join_dash(markers(v, (k + 1) as nat)));
        }
        k += 1;
    }
    out
}


/// Appends `src[..n]` to `out`.
fn append_prefix(out: &mut Vec<char>, src: &Vec<char>, n: usize)
    requires
        n <= src.len(),
    ensures
        final(out)@ == old(out)@ + src@.take(n as int),
{
    let mut m: usize = 0;
    while m < n
        invariant
            n <= src.len(),
            m <= n,
            out@ == old(out)@ + src@.take(m as int),
        decreases n - m,
    {
        out.push(src[m]);
        proof {
            assert(src@.take(m + 1) =~= src@.take(m as int).push(src@[m as int]));
        }
        m += 1;
    }
}

/// Shorten one name using a compact-prefix strategy.
///
/// Common leading segments are collapsed to their markers; the remaining
/// segments get as much of the remaining budget as possible, with a trailing
/// `…` if they are cut as well.
fn shorten_with_compact_prefix(
    name: &str,
    name_segs: &Vec<Vec<char>>,
    common: usize,
    target_h: usize,
) -> (r: String)
    requires
        char_views(name_segs@) == segments(name@),
        common <= name_segs.len(),
    ensures
        r@ == shorten_with_prefix_spec(name@, common as nat, target_h as nat),
{
    let c = compact(name);
    let c_len = chars_of(c.as_str()).len();
    if target_h <= c_len {
        return c;
    }
    let cp = build_compact_prefix(name_segs, common);
    let suffix = join_from(name_segs, common);
    if suffix.len() == 0 {
        return c;
    }
    if target_h - 1 <= cp.len() {
        return string_of(&cp);
    }
    let remaining = target_h - 1 - cp.len();
    let mut out = cp.clone();
    out.push('-');
    if suffix.len() <= remaining {
        let n = suffix.len();
        append_prefix(&mut out, &suffix, n);
        proof {
            assert(suffix@.take(n as int) =~= suffix@);
        }
    } else if remaining <= 1 {
        out.push('…');
    } else {
        append_prefix(&mut out, &suffix, remaining - 1);
        out.push('…');
    }
    proof {
        assert(out@ =~= shorten_with_prefix_spec(name@, common as nat, target_h as nat));
    }
    string_of(&out)
}

/// The labels of a group at height `target`: the shortened forms when they are
/// all different, else the full names, so that different names never share a label.
pub open spec fn fit_group_labels(names: Seq<Seq<char>>, target: nat) -> Seq<Seq<char>> {
    if fit_group_spec(names, target).no_duplicates() {
        fit_group_spec(names, target)
    } else {
        names
    }
}

/// Labels of names that differ differ too.
pub proof fn law_fit_group_keeps_names_apart(names: Seq<Seq<char>>, target: nat)
    requires
        names.no_duplicates(),
    ensures
        fit_group_labels(names, target).no_duplicates(),
{
}

/// Shorten a group of names to at most `target_h` characters each, keeping
/// all shortened forms mutually unique.
///
/// Common leading segments (identical across all names) are compressed to
/// their markers, freeing budget for the distinctive suffix. When any name
/// in the group must be shortened, the compact-prefix form is applied to all
/// names; with no common leading segment each name is shortened on its own.
/// Where the shortened forms of two different names would be identical, the
/// full names are returned instead.
pub fn fit_group(names: &[&str], target_h: usize) -> (r: Vec<String>)
    ensures
        string_views(r@) == fit_group_labels(str_views(names@), target_h as nat),
{
    let s = fit_group_shortened(names, target_h);
    if all_unique(&s) {
        return s;
    }
    let mut out: Vec<String> = Vec::new();
    let mut i: usize = 0;
    while i < names.len()
        invariant
            i <= names@.len(),
            string_views(out@) == str_views(names@).take(i as int),
        decreases names@.len() - i,
    {
        let ghost before = string_views(out@);
        let o = owned(names[i]);
        out.push(o);
        proof {
            assert(string_views(out@) =~= before.push(o@));
            assert(str_views(names@).take(i + 1) =~= str_views(names@).take(i as int).push(names@[i as int]@));
        }
        i += 1;
    }
    proof {
        assert(str_views(names@).take(names@.len() as int) =~= str_views(names@));
    }
    out
}

/// The shortened forms of a group of names at `target_h` (see [`fit_group_spec`]).
fn fit_group_shortened(names: &[&str], target_h: usize) -> (r: Vec<String>)
    ensures
        string_views(r@) == fit_group_spec(str_views(names@), target_h as nat),
{
    let ghost nv = str_views(names@);
    let ghost all_segs = segment_lists(nv);
    if names.len() == 0 {
        let r: Vec<String> = Vec::new();
        proof {
            assert(string_views(r@) =~= nv);
        }
        return r;
    }
    let mut segs: Vec<Vec<Vec<char>>> = Vec::new();
    let mut i: usize = 0;
    while i < names.len()
        invariant
            i <= names.len(),
            nv == str_views(names@),
            all_segs == segment_lists(nv),
            seg_lists(segs@) == all_segs.take(i as int),
        decreases names.len() - i,
    {
        let cs = chars_of(names[i]);
        let sg = split_segs(&cs);
        let ghost sgv = char_views(sg@);
        let ghost before = segs@;
        segs.push(sg);
        proof {
            assert(segs@ == before.push(sg));
            assert(seg_lists(segs@) =~= seg_lists(before).push(sgv));
            assert(nv[i as int] == names@[i as int]@);
            assert(all_segs[i as int] == segments(nv[i as int]));
            assert(seg_lists(segs@)[i as int] == sgv);
            assert(seg_lists(segs@) =~= all_segs.take(i + 1));
        }
        i += 1;
    }
    proof {
        assert(all_segs.take(names.len() as int) =~= all_segs);
    }
    let common = common_prefix_count(&segs);
    let mut any_too_long = false;
    let mut i: usize = 0;
    while i < names.len()
        invariant
            i <= names.len(),
            nv == str_views(names@),
            any_too_long == !all_fit(nv.take(i as int), target_h as nat),
        decreases names.len() - i,
    {
        let n = chars_of(names[i]).len();
        proof {
            assert forall|k: int| 0 <= k < i + 1 implies (#[trigger] nv.take(i + 1)[k]).len()
                <= target_h || any_too_long || n > target_h by {}
            if !any_too_long && n <= target_h {
                assert(all_fit(nv.take(i + 1), target_h as nat));
            }
            if any_too_long {
                let k = choose|k: int| 0 <= k < i && !((#[trigger] nv.take(i as int)[k]).len() <= target_h);
                assert(nv.take(i + 1)[k] == nv.take(i as int)[k]);
            }
            if n > target_h {
                assert(nv.take(i + 1)[i as int] == nv[i as int]);
            }
        }
        any_too_long = any_too_long || n > target_h;
        i += 1;
    }
    proof {
        assert(nv.take(names.len() as int) =~= nv);
    }
    let mut out: Vec<String> = Vec::new();
    let mut i: usize = 0;
    while i < names.len()
        invariant
            i <= names.len(),
            nv == str_views(names@),
            all_segs == segment_lists(nv),
            seg_lists(segs@) == all_segs,
            common == common_prefix_len(all_segs),
            any_too_long == !all_fit(nv, target_h as nat),
            string_views(out@) == fit_group_spec(nv, target_h as nat).take(i as int),
        decreases names.len() - i,
    {
        let s = if !any_too_long {
            owned(names[i])
        } else if common == 0 {
            shorten(names[i], target_h)
        } else {
            proof {
                lemma_common_prefix_le(all_segs, i as int);
                assert(seg_lists(segs@)[i as int] == char_views(segs@[i as int]@));
            }
            shorten_with_compact_prefix(names[i], &segs[i], common, target_h)
        };
        let ghost sv = s@;
        let ghost before = out@;
        out.push(s);
        proof {
            assert(string_views(out@) =~= string_views(before).push(sv));
            let fg = fit_group_spec(nv, target_h as nat);
            assert(nv[i as int] == names@[i as int]@);
            assert(fg.len() == nv.len());
            assert(fg[i as int] == sv);
            assert(string_views(out@) =~= fit_group_spec(nv, target_h as nat).take(i + 1));
        }
        i += 1;
    }
    proof {
        assert(fit_group_spec(nv, target_h as nat).take(names.len() as int) =~= fit_group_spec(
            nv,
            target_h as nat,
        ));
    }
    out
}

/// True when no two strings are equal.
pub fn all_unique(items: &Vec<String>) -> (r: bool)
    ensures
        r == string_views(items@).no_duplicates(),
{
    let ghost v = string_views(items@);
    let mut i: usize = 0;
    while i < items.len()
        invariant
            i <= items.len(),
            v == string_views(items@),
            forall|a: int, b: int| 0 <= a < i && 0 <= b < items.len() && a != b ==> v[a] != v[b],
        decreases items.len() - i,
    {
        let mut j: usize = 0;
        while j < items.len()
            invariant
                i < items.len(),
                j <= items.len(),
                v == string_views(items@),
                forall|a: int, b: int| 0 <= a < i && 0 <= b < items.len() && a != b ==> v[a] != v[b],
                forall|b: int| 0 <= b < j && b != i ==> v[i as int] != v[b],
            decreases items.len() - j,
        {
            if j != i && items[i] == items[j] {
                proof {
                    assert(v[i as int] == items@[i as int]@);
                    assert(v[j as int] == items@[j as int]@);
                }
                return false;
            }
            proof {
                assert(v[i as int] == items@[i as int]@);
                assert(v[j as int] == items@[j as int]@);
            }
            j += 1;
        }
        i += 1;
    }
    true
}


/// The largest element, or 0 for an empty sequence.
pub open spec fn seq_max(v: Seq<nat>) -> nat
    decreases v.len(),
{
    if v.len() == 0 {
        0
    } else if v.last() > seq_max(v.drop_last()) {
        v.last()
    } else {
        seq_max(v.drop_last())
    }
}

/// The character lengths of the labels.
pub open spec fn lengths(names: Seq<Seq<char>>) -> Seq<nat> {
    names.map_values(|n: Seq<char>| n.len())
}

/// The character lengths of the labels' compact forms.
pub open spec fn compact_lengths(names: Seq<Seq<char>>) -> Seq<nat> {
    names.map_values(|n: Seq<char>| compact_spec(n).len())
}

/// The first height from `t` up to `hi` at which the group stays unique, or `hi`
/// when there is none.
pub open spec fn first_unique_height(names: Seq<Seq<char>>, t: nat, hi: nat) -> nat
    decreases hi + 1 - t,
{
    if t > hi {
        hi
    } else if fit_group_spec(names, t).no_duplicates() {
        t
    } else {
        first_unique_height(names, t + 1, hi)
    }
}

/// The smallest height, between the longest compact form and the longest label,
/// at which `fit_group` keeps every label apart.
pub open spec fn min_group_height_spec(names: Seq<Seq<char>>) -> nat {
    if names.len() == 0 {
        1
    } else if names.len() == 1 {
        if compact_spec(names[0]).len() >= 1 {
            compact_spec(names[0]).len()
        } else {
            1
        }
    } else {
        first_unique_height(names, seq_max(compact_lengths(names)), seq_max(lengths(names)))
    }
}

proof fn lemma_seq_max_ge(v: Seq<nat>)
    ensures
        forall|i: int| 0 <= i < v.len() ==> #[trigger] v[i] <= seq_max(v),
    decreases v.len(),
{
    if v.len() > 0 {
        lemma_seq_max_ge(v.drop_last());
        assert forall|i: int| 0 <= i < v.len() implies #[trigger] v[i] <= seq_max(v) by {
            if i < v.len() - 1 {
                assert(v.drop_last()[i] == v[i]);
            }
        }
    }
}

proof fn lemma_first_unique_height(names: Seq<Seq<char>>, t: nat, hi: nat)
    requires
        fit_group_spec(names, hi).no_duplicates(),
    ensures
        fit_group_spec(names, first_unique_height(names, t, hi)).no_duplicates(),
    decreases hi + 1 - t,
{
    if t <= hi && !fit_group_spec(names, t).no_duplicates() {
        lemma_first_unique_height(names, t + 1, hi);
    }
}

/// Law: for labels that are pairwise distinct, shortening them together at
/// their minimum group height keeps every shortened label distinct.
pub proof fn law_unique_at_min_group_height(names: Seq<Seq<char>>)
    requires
        names.no_duplicates(),
    ensures
        fit_group_spec(names, min_group_height_spec(names)).no_duplicates(),
{
    let h = min_group_height_spec(names);
    if names.len() <= 1 {
        let fg = fit_group_spec(names, h);
        assert(fg.len() == names.len());
    } else {
        let hi = seq_max(lengths(names));
        lemma_seq_max_ge(lengths(names));
        assert forall|i: int| 0 <= i < names.len() implies #[trigger] names[i].len() <= hi by {
            assert(lengths(names)[i] == names[i].len());
        }
        assert(all_fit(names, hi));
        assert(fit_group_spec(names, hi) == names);
        lemma_first_unique_height(names, seq_max(compact_lengths(names)), hi);
    }
}

/// Machine integers as natural numbers.
pub open spec fn nats(v: Seq<usize>) -> Seq<nat> {
    v.map_values(|x: usize| x as nat)
}

/// Largest value in a sequence computed left to right.
fn max_of(v: &Vec<usize>) -> (r: usize)
    ensures
        r == seq_max(nats(v@)),
{
    let ghost w = nats(v@);
    let mut m: usize = 0;
    let mut i: usize = 0;
    proof {
        assert(w.take(0) =~= Seq::<nat>::empty());
    }
    while i < v.len()
        invariant
            i <= v.len(),
            w == nats(v@),
            m == seq_max(w.take(i as int)),
        decreases v.len() - i,
    {
        proof {
            assert(w.take(i + 1).drop_last() =~= w.take(i as int));
            assert(w.take(i + 1).last() == v@[i as int]);
        }
        if v[i] > m {
            m = v[i];
        }
        i += 1;
    }
    proof {
        assert(w.take(v.len() as int) =~= w);
    }
    m
}

/// Minimum height (max chars) at which `fit_group` produces all-unique results.
pub fn min_group_height(names: &[&str]) -> (r: usize)
    ensures
        r == min_group_height_spec(str_views(names@)),
{
    let ghost nv = str_views(names@);
    if names.len() <= 1 {
        if names.len() == 0 {
            return 1;
        }
        let c = compact(names[0]);
        let n = chars_of(c.as_str()).len();
        proof {
            assert(nv[0] == names@[0]@);
        }
        return if n >= 1 {
            n
        } else {
            1
        };
    }
    let mut compact_lens: Vec<usize> = Vec::new();
    let mut full_lens: Vec<usize> = Vec::new();
    let mut i: usize = 0;
    while i < names.len()
        invariant
            i <= names.len(),
            nv == str_views(names@),
            nats(compact_lens@) == compact_lengths(nv).take(i as int),
            nats(full_lens@) == lengths(nv).take(i as int),
        decreases names.len() - i,
    {
        let c = compact(names[i]);
        let cn = chars_of(c.as_str()).len();
        let fnl = chars_of(names[i]).len();
        proof {
            assert(nv[i as int] == names@[i as int]@);
        }
        let ghost cb = compact_lens@;
        let ghost fb = full_lens@;
        compact_lens.push(cn);
        full_lens.push(fnl);
        proof {
            assert(nats(compact_lens@) =~= nats(cb).push(cn as nat));
            assert(nats(full_lens@) =~= nats(fb).push(fnl as nat));
            assert(nats(compact_lens@) =~= compact_lengths(nv).take(i + 1));
            assert(nats(full_lens@) =~= lengths(nv).take(i + 1));
        }
        i += 1;
    }
    proof {
        assert(compact_lengths(nv).take(names.len() as int) =~= compact_lengths(nv));
        assert(lengths(nv).take(names.len() as int) =~= lengths(nv));
    }
    let compact_max = max_of(&compact_lens);
    let full_max = max_of(&full_lens);
    if compact_max > full_max {
        return full_max;
    }
    let mut t = compact_max;
    while t <= full_max
        invariant
            compact_max <= t <= full_max,
            nv == str_views(names@),
            names.len() >= 2,
            min_group_height_spec(nv) == first_unique_height(nv, t as nat, full_max as nat),
        decreases full_max - t,
    {
        let shortened = fit_group_shortened(names, t);
        if all_unique(&shortened) {
            return t;
        }
        if t == full_max {
            proof {
                assert(first_unique_height(nv, (t + 1) as nat, full_max as nat) == full_max);
            }
            return full_max;
        }
        t += 1;
    }
    full_max
}


// ─── fold plan ─────────────────────────────────────────────────────────────

/// A single entry in a fold plan: either a real row (by original index) or a
/// placeholder for a run of hidden rows.
#[derive(Debug, Clone, Copy, PartialEq, Eq, Structural)]
pub enum FoldEntry {
    /// Index into the original rows.
    Row(usize),
    /// Count of consecutive rows hidden at this position.
    Hidden(usize),
}

/// Number of must-show rows in `[lo, hi)`.
pub open spec fn must_count(ms: Set<usize>, lo: int, hi: int) -> nat
    decreases hi - lo,
{
    if hi <= lo {
        0
    } else if ms.contains((hi - 1) as usize) {
        must_count(ms, lo, hi - 1) + 1
    } else {
        must_count(ms, lo, hi - 1)
    }
}

/// Number of rows in `[lo, hi)` that are not must-show rows.
pub open spec fn other_count(ms: Set<usize>, lo: int, hi: int) -> nat
    decreases hi - lo,
{
    if hi <= lo {
        0
    } else if ms.contains((hi - 1) as usize) {
        other_count(ms, lo, hi - 1)
    } else {
        other_count(ms, lo, hi - 1) + 1
    }
}

/// Number of maximal runs of non-must-show rows in `[lo, hi)`.
pub open spec fn gap_count(ms: Set<usize>, lo: int, hi: int) -> nat
    decreases hi - lo,
{
    if hi <= lo {
        0
    } else if !ms.contains((hi - 1) as usize) && (hi - 1 == lo || ms.contains((hi - 2) as usize)) {
        gap_count(ms, lo, hi - 1) + 1
    } else {
        gap_count(ms, lo, hi - 1)
    }
}

/// Rows beyond the minimum (must-show rows plus one placeholder per gap) that fit.
pub open spec fn fold_extra(ms: Set<usize>, lo: int, hi: int, available: nat) -> nat {
    let needed = must_count(ms, lo, hi) + gap_count(ms, lo, hi);
    if available >= needed {
        (available - needed) as nat
    } else {
        0
    }
}

/// A row stays visible when it must be shown or is among the first `extra`
/// other rows from the top.
pub open spec fn row_shown(ms: Set<usize>, lo: int, i: int, extra: nat) -> bool {
    ms.contains(i as usize) || other_count(ms, lo, i) < extra
}

/// The plan for rows `[lo, hi)` together with the length of the hidden run
/// that is still open at `hi`.
pub open spec fn plan_upto(ms: Set<usize>, lo: int, hi: int, extra: nat) -> (Seq<FoldEntry>, nat)
    decreases hi - lo,
{
    if hi <= lo {
        (Seq::<FoldEntry>::empty(), 0)
    } else {
        let (p, h) = plan_upto(ms, lo, hi - 1, extra);
        if row_shown(ms, lo, hi - 1, extra) {
            let closed = if h > 0 {
                p.push(FoldEntry::Hidden(h as usize))
            } else {
                p
            };
            (closed.push(FoldEntry::Row((hi - 1) as usize)), 0)
        } else {
            (p, h + 1)
        }
    }
}

/// Every row of `[lo, hi)` shown as itself.
pub open spec fn all_rows(lo: int, hi: int) -> Seq<FoldEntry> {
    Seq::new((hi - lo) as nat, |k: int| FoldEntry::Row((lo + k) as usize))
}

/// The fold plan for rows `[scroll_offset, total_rows)` in `available` display rows.
pub open spec fn fold_spec(total_rows: nat, ms: Set<usize>, available: nat, scroll_offset: nat) -> Seq<
    FoldEntry,
> {
    if total_rows <= scroll_offset {
        Seq::<FoldEntry>::empty()
    } else if total_rows - scroll_offset <= available {
        all_rows(scroll_offset as int, total_rows as int)
    } else {
        let extra = fold_extra(ms, scroll_offset as int, total_rows as int, available);
        let (p, h) = plan_upto(ms, scroll_offset as int, total_rows as int, extra);
        if h > 0 {
            p.push(FoldEntry::Hidden(h as usize))
        } else {
            p
        }
    }
}

/// Compute a minimal fold plan given total row count, a set of "must show"
/// indices, and the available display height.
///
/// - If the rows from `scroll_offset` on fit in `available`: every row as `FoldEntry::Row`.
/// - Otherwise: keeps all `must_show` rows visible and collapses consecutive runs of
///   other rows into `FoldEntry::Hidden(count)` entries, filling any spare budget
///   with other rows from the top.
pub fn fold_to_height(
    total_rows: usize,
    must_show: &HashSet<usize>,
    available: usize,
    scroll_offset: usize,
) -> (r: Vec<FoldEntry>)
    ensures
        r@ == fold_spec(total_rows as nat, must_show@, available as nat, scroll_offset as nat),
{
    let ghost ms = must_show@;
    let ghost lo = scroll_offset as int;
    let count = if total_rows >= scroll_offset {
        total_rows - scroll_offset
    } else {
        0
    };
    if count <= available {
        let mut plan: Vec<FoldEntry> = Vec::new();
        let mut i = scroll_offset;
        while i < total_rows
            invariant
                scroll_offset <= i,
                total_rows >= scroll_offset ==> i <= total_rows,
                total_rows > scroll_offset ==> plan@ == all_rows(lo, total_rows as int).take(i - lo),
                total_rows <= scroll_offset ==> plan@.len() == 0,
                lo == scroll_offset,
            decreases total_rows - i,
        {
            plan.push(FoldEntry::Row(i));
            proof {
                assert(plan@ =~= all_rows(lo, total_rows as int).take(i + 1 - lo));
            }
            i += 1;
        }
        proof {
            if total_rows > scroll_offset {
                assert(all_rows(lo, total_rows as int).take(total_rows - lo) =~= all_rows(
                    lo,
                    total_rows as int,
                ));
            } else {
                assert(plan@ =~= Seq::<FoldEntry>::empty());
            }
        }
        return plan;
    }
    // Count must-show rows and gaps in the scroll range.
    let mut chain_in_range: usize = 0;
    let mut non_empty_gaps: usize = 0;
    let mut in_gap = false;
    let mut i = scroll_offset;
    while i < total_rows
        invariant
            scroll_offset <= i <= total_rows,
            lo == scroll_offset,
            ms == must_show@,
            chain_in_range == must_count(ms, lo, i as int),
            non_empty_gaps == gap_count(ms, lo, i as int),
            chain_in_range + non_empty_gaps <= i - lo,
            in_gap == (i > lo && !ms.contains((i - 1) as usize)),
        decreases total_rows - i,
    {
        if must_show.contains(&i) {
            chain_in_range += 1;
            in_gap = false;
        } else if !in_gap {
            non_empty_gaps += 1;
            in_gap = true;
        } else {
            in_gap = true;
        }
        i += 1;
    }
    let min_needed = chain_in_range + non_empty_gaps;
    let extra = if available >= min_needed {
        available - min_needed
    } else {
        0
    };
    let ghost ex = extra as nat;
    let mut plan: Vec<FoldEntry> = Vec::new();
    let mut hidden: usize = 0;
    let mut budget = extra;
    let mut i = scroll_offset;
    while i < total_rows
        invariant
            scroll_offset <= i <= total_rows,
            lo == scroll_offset,
            ms == must_show@,
            ex == extra,
            (plan@, hidden as nat) == plan_upto(ms, lo, i as int, ex),
            hidden <= i - lo,
            budget == if other_count(ms, lo, i as int) < ex {
                ex - other_count(ms, lo, i as int)
            } else {
                0
            },
        decreases total_rows - i,
    {
        if must_show.contains(&i) {
            if hidden > 0 {
                plan.push(FoldEntry::Hidden(hidden));
                hidden = 0;
            }
            plan.push(FoldEntry::Row(i));
        } else if budget > 0 {
            if hidden > 0 {
                plan.push(FoldEntry::Hidden(hidden));
                hidden = 0;
            }
            plan.push(FoldEntry::Row(i));
            budget -= 1;
        } else {
            hidden += 1;
        }
        i += 1;
    }
    if hidden > 0 {
        plan.push(FoldEntry::Hidden(hidden));
    }
    plan
}


/// Number of original rows an entry stands for.
pub open spec fn entry_rows(e: FoldEntry) -> nat {
    match e {
        FoldEntry::Row(_) => 1,
        FoldEntry::Hidden(n) => n as nat,
    }
}

/// Number of original rows a plan stands for.
pub open spec fn plan_rows(p: Seq<FoldEntry>) -> nat
    decreases p.len(),
{
    if p.len() == 0 {
        0
    } else {
        plan_rows(p.drop_last()) + entry_rows(p.last())
    }
}

proof fn lemma_plan_rows_push(p: Seq<FoldEntry>, e: FoldEntry)
    ensures
        plan_rows(p.push(e)) == plan_rows(p) + entry_rows(e),
{
    assert(p.push(e).drop_last() =~= p);
}

proof fn lemma_plan_upto(ms: Set<usize>, lo: int, hi: int, extra: nat)
    requires
        0 <= lo,
        lo <= hi,
        hi <= usize::MAX + 1,
    ensures
        plan_rows(plan_upto(ms, lo, hi, extra).0) + plan_upto(ms, lo, hi, extra).1 == hi - lo,
        plan_upto(ms, lo, hi, extra).1 <= hi - lo,
        forall|i: int|
            lo <= i < hi && #[trigger] row_shown(ms, lo, i, extra) ==> plan_upto(
                ms,
                lo,
                hi,
                extra,
            ).0.contains(FoldEntry::Row(i as usize)),
    decreases hi - lo,
{
    if hi > lo {
        lemma_plan_upto(ms, lo, hi - 1, extra);
        let (p, h) = plan_upto(ms, lo, hi - 1, extra);
        if row_shown(ms, lo, hi - 1, extra) {
            let closed = if h > 0 {
                p.push(FoldEntry::Hidden(h as usize))
            } else {
                p
            };
            lemma_plan_rows_push(p, FoldEntry::Hidden(h as usize));
            lemma_plan_rows_push(closed, FoldEntry::Row((hi - 1) as usize));
            let np = closed.push(FoldEntry::Row((hi - 1) as usize));
            assert forall|i: int| lo <= i < hi && #[trigger] row_shown(ms, lo, i, extra) implies np.contains(
                FoldEntry::Row(i as usize),
            ) by {
                if i < hi - 1 {
                    let k = choose|k: int| 0 <= k < p.len() && p[k] == FoldEntry::Row(i as usize);
                    assert(np[k] == p[k]);
                } else {
                    assert(np[np.len() - 1] == FoldEntry::Row(i as usize));
                }
            }
        }
    }
}

/// Law: every must-show row at or after the scroll offset stays visible in the fold plan.
pub proof fn law_fold_keeps_must_show(
    total_rows: nat,
    ms: Set<usize>,
    available: nat,
    scroll_offset: nat,
    i: nat,
)
    requires
        total_rows <= usize::MAX,
        scroll_offset <= i < total_rows,
        ms.contains(i as usize),
    ensures
        fold_spec(total_rows, ms, available, scroll_offset).contains(FoldEntry::Row(i as usize)),
{
    let plan = fold_spec(total_rows, ms, available, scroll_offset);
    if total_rows - scroll_offset <= available {
        assert(plan[i - scroll_offset] == FoldEntry::Row(i as usize));
    } else {
        let extra = fold_extra(ms, scroll_offset as int, total_rows as int, available);
        lemma_plan_upto(ms, scroll_offset as int, total_rows as int, extra);
        assert(row_shown(ms, scroll_offset as int, i as int, extra));
        let (p, h) = plan_upto(ms, scroll_offset as int, total_rows as int, extra);
        let k = choose|k: int| 0 <= k < p.len() && p[k] == FoldEntry::Row(i as usize);
        if h > 0 {
            assert(plan[k] == p[k]);
        }
    }
}

/// Law: a fold plan stands for exactly the rows from the scroll offset to the end,
/// each row either shown or counted in a hidden run.
pub proof fn law_fold_covers_rows(total_rows: nat, ms: Set<usize>, available: nat, scroll_offset: nat)
    requires
        total_rows <= usize::MAX,
    ensures
        plan_rows(fold_spec(total_rows, ms, available, scroll_offset)) == if total_rows
            > scroll_offset {
            total_rows - scroll_offset
        } else {
            0
        },
{
    let plan = fold_spec(total_rows, ms, available, scroll_offset);
    if total_rows <= scroll_offset {
    } else if total_rows - scroll_offset <= available {
        let lo = scroll_offset as int;
        assert forall|n: int| 0 <= n <= total_rows - lo implies plan_rows(
            #[trigger] all_rows(lo, total_rows as int).take(n),
        ) == n by {
            lemma_all_rows_prefix(lo, total_rows as int, n);
        }
        assert(all_rows(lo, total_rows as int).take(total_rows - lo) =~= all_rows(lo, total_rows as int));
    } else {
        let extra = fold_extra(ms, scroll_offset as int, total_rows as int, available);
        lemma_plan_upto(ms, scroll_offset as int, total_rows as int, extra);
        let (p, h) = plan_upto(ms, scroll_offset as int, total_rows as int, extra);
        lemma_plan_rows_push(p, FoldEntry::Hidden(h as usize));
    }
}

proof fn lemma_all_rows_prefix(lo: int, hi: int, n: int)
    requires
        0 <= n <= hi - lo,
    ensures
        plan_rows(all_rows(lo, hi).take(n)) == n,
    decreases n,
{
    if n > 0 {
        lemma_all_rows_prefix(lo, hi, n - 1);
        assert(all_rows(lo, hi).take(n).drop_last() =~= all_rows(lo, hi).take(n - 1));
    }
}

/// Law: a single shortened label is never longer than the larger of the
/// requested width and the label's compact form.
pub proof fn law_shorten_length(name: Seq<char>, max_len: nat)
    ensures
        shorten_spec(name, max_len).len() <= max_len || shorten_spec(name, max_len)
            == compact_spec(name),
{
}

/// A fold plan in which every hidden run hides at least one row and no two
/// hidden runs stand next to each other.
pub open spec fn single_runs(p: Seq<FoldEntry>) -> bool {
    &&& forall|i: int| 0 <= i < p.len() ==> (#[trigger] p[i] matches FoldEntry::Hidden(n) ==> n > 0)
    &&& forall|i: int| 0 <= i < p.len() - 1 ==> !(#[trigger] p[i] is Hidden && p[i + 1] is Hidden)
}

proof fn lemma_plan_shape(ms: Set<usize>, lo: int, hi: int, extra: nat)
    requires
        0 <= lo,
        lo <= hi,
        hi <= usize::MAX,
    ensures
        single_runs(plan_upto(ms, lo, hi, extra).0),
        plan_upto(ms, lo, hi, extra).0.len() > 0 ==> plan_upto(ms, lo, hi, extra).0.last() is Row,
        plan_upto(ms, lo, hi, extra).1 <= hi - lo,
    decreases hi - lo,
{
    if hi > lo {
        lemma_plan_shape(ms, lo, hi - 1, extra);
        let (p, h) = plan_upto(ms, lo, hi - 1, extra);
        if row_shown(ms, lo, hi - 1, extra) {
            let closed = if h > 0 {
                p.push(FoldEntry::Hidden(h as usize))
            } else {
                p
            };
            assert(single_runs(closed)) by {
                if h > 0 {
                    assert(closed[closed.len() - 1] == FoldEntry::Hidden(h as usize));
                    assert forall|i: int| 0 <= i < closed.len() - 1 implies !(#[trigger] closed[i] is Hidden
                        && closed[i + 1] is Hidden) by {
                        if i == closed.len() - 2 {
                            assert(closed[i] == p.last());
                        } else {
                            assert(closed[i] == p[i] && closed[i + 1] == p[i + 1]);
                        }
                    }
                    assert forall|i: int| 0 <= i < closed.len() implies (#[trigger] closed[i] matches FoldEntry::Hidden(
                        n,
                    ) ==> n > 0) by {
                        if i < p.len() {
                            assert(closed[i] == p[i]);
                        }
                    }
                }
            }
            let np = closed.push(FoldEntry::Row((hi - 1) as usize));
            assert forall|i: int| 0 <= i < np.len() - 1 implies !(#[trigger] np[i] is Hidden && np[i + 1] is Hidden) by {
                if i < closed.len() - 1 {
                    assert(np[i] == closed[i] && np[i + 1] == closed[i + 1]);
                }
            }
            assert forall|i: int| 0 <= i < np.len() implies (#[trigger] np[i] matches FoldEntry::Hidden(n) ==> n > 0) by {
                if i < closed.len() {
                    assert(np[i] == closed[i]);
                }
            }
        }
    }
}

/// Law: in a fold plan every hidden run hides at least one row, and two hidden
/// runs are never shown one after the other (the rows between them are shown).
pub proof fn law_fold_hides_in_single_runs(total_rows: nat, ms: Set<usize>, available: nat, scroll_offset: nat)
    requires
        total_rows <= usize::MAX,
    ensures
        single_runs(fold_spec(total_rows, ms, available, scroll_offset)),
{
    if total_rows > scroll_offset && total_rows - scroll_offset > available {
        let lo = scroll_offset as int;
        let extra = fold_extra(ms, lo, total_rows as int, available);
        lemma_plan_shape(ms, lo, total_rows as int, extra);
        let (p, h) = plan_upto(ms, lo, total_rows as int, extra);
        if h > 0 {
            let f = p.push(FoldEntry::Hidden(h as usize));
            assert forall|i: int| 0 <= i < f.len() - 1 implies !(#[trigger] f[i] is Hidden && f[i + 1] is Hidden) by {
                if i == f.len() - 2 {
                    assert(f[i] == p.last());
                } else {
                    assert(f[i] == p[i] && f[i + 1] == p[i + 1]);
                }
            }
            assert forall|i: int| 0 <= i < f.len() implies (#[trigger] f[i] matches FoldEntry::Hidden(n) ==> n > 0) by {
                if i < p.len() {
                    assert(f[i] == p[i]);
                }
            }
        }
    }
}

} // verus!
