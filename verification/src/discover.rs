//! Workspace discovery decisions: the root, `Polylith.toml`, and the workspace a
//! profile resolves to.
use vstd::prelude::*;

use std::path::PathBuf;

use crate::check::{component_deps, iface_view, join, join_spec, sorted_keys};
use crate::closure::{
    bounded, expanded, lemma_closure_is_rel_reach, produces, rel_reach, resolvable, step, transitive_closure,
};
use crate::corsett::string_views;
use crate::errors::WorkspaceError;
use crate::graph::{add_brick_deps, clone_names, contains_str, DepMap};
use crate::model::{
    brick_names, last_named, Brick, ExternalDepInfo, PolylithToml, Profile, ResolvedProfileWorkspace, VersioningPolicy,
    WorkspaceMap, WorkspacePackageMeta, WorkspacePathDep,
};
use crate::order::{insert_sorted_unique, lemma_sorted_unique, strictly_sorted};
use crate::strmap::StrMap;
use crate::text::{chars_of, lemma_occurs_self, lemma_occurs_within, occurs, owned, push_char, str_eq};

verus! {

/// Accepts an explicitly given workspace root `abs` (shown as `shown`) when it
/// holds a `Polylith.toml` or a `Cargo.toml`.
pub fn resolve_root(abs: PathBuf, shown: &str, has_polylith_toml: bool, has_cargo_toml: bool) -> (r: Result<
    PathBuf,
    WorkspaceError,
>)
    ensures
        has_polylith_toml || has_cargo_toml ==> r == Ok::<PathBuf, WorkspaceError>(abs),
        !has_polylith_toml && !has_cargo_toml ==> (r matches Err(WorkspaceError::Other(m)) && m@
            == "no Polylith.toml or Cargo.toml found at workspace root '"@ + shown@ + "'"@),
{
    if !has_polylith_toml && !has_cargo_toml {
        let mut m = owned("no Polylith.toml or Cargo.toml found at workspace root '");
        m.append(shown);
        m.append("'");
        return Err(WorkspaceError::Other(m));
    }
    Ok(abs)
}

/// The parsed `Polylith.toml`, or an error naming the root (shown as `shown`)
/// when there is none.
pub fn read_polylith_toml(parsed: Option<PolylithToml>, shown: &str) -> (r: Result<PolylithToml, WorkspaceError>)
    ensures
        parsed is Some ==> r == Ok::<PolylithToml, WorkspaceError>(parsed->0),
        parsed is None ==> (r matches Err(WorkspaceError::Other(m)) && m@ == "Polylith.toml not found at "@ + shown@),
{
    match parsed {
        Some(p) => Ok(p),
        None => {
            let mut m = owned("Polylith.toml not found at ");
            m.append(shown);
            Err(WorkspaceError::Other(m))
        },
    }
}

/// Reads a `[versioning] policy` value.
pub fn parse_versioning_policy(s: &str) -> (r: Result<VersioningPolicy, WorkspaceError>)
    ensures
        s@ == "relaxed"@ ==> r == Ok::<VersioningPolicy, WorkspaceError>(VersioningPolicy::Relaxed),
        s@ == "strict"@ ==> r == Ok::<VersioningPolicy, WorkspaceError>(VersioningPolicy::Strict),
        s@ != "relaxed"@ && s@ != "strict"@ ==> (r matches Err(WorkspaceError::Other(m)) && m@
            == "unknown versioning policy '"@ + s@ + "' in Polylith.toml (expected 'relaxed' or 'strict')"@),
{
    proof {
        reveal_strlit("relaxed");
        reveal_strlit("strict");
        assert("relaxed"@[0] != "strict"@[0]);
    }
    if str_eq(s, "relaxed") {
        Ok(VersioningPolicy::Relaxed)
    } else if str_eq(s, "strict") {
        Ok(VersioningPolicy::Strict)
    } else {
        let mut m = owned("unknown versioning policy '");
        m.append(s);
        m.append("' in Polylith.toml (expected 'relaxed' or 'strict')");
        Err(WorkspaceError::Other(m))
    }
}

/// `s` with every `\` turned into `/`.
pub open spec fn slashed(s: Seq<char>) -> Seq<char> {
    s.map_values(|c: char| if c == '\\' { '/' } else { c })
}

/// `s` with every `\` turned into `/`.
pub fn slash(s: &str) -> (r: String)
    ensures
        r@ == slashed(s@),
{
    let cs = chars_of(s);
    let mut out = String::new();
    let mut i: usize = 0;
    while i < cs.len()
        invariant
            i <= cs@.len(),
            cs@ == s@,
            out@ == slashed(s@).take(i as int),
        decreases cs@.len() - i,
    {
        let c = if cs[i] == '\\' {
            '/'
        } else {
            cs[i]
        };
        push_char(&mut out, c);
        proof {
            assert(slashed(s@).take(i + 1) =~= slashed(s@).take(i as int).push(c));
        }
        i += 1;
    }
    proof {
        assert(slashed(s@).take(cs@.len() as int) =~= slashed(s@));
    }
    out
}

/// Paths as the generated root manifest writes them, gathered by the caller:
/// each relative to the workspace root with `/` separators.
pub struct ProfilePaths {
    /// Per component: its path relative to the root, when it lies under the root.
    pub component_rel: Vec<Option<String>>,
    /// Per component: its member path (relative when possible).
    pub component_member: Vec<String>,
    /// Per base: its member path.
    pub base_member: Vec<String>,
    /// Per project: its member path.
    pub project_member: Vec<String>,
    /// Per interface key of the profile's implementations: the path the manifest writes.
    pub impl_paths: StrMap<String>,
    /// Per interface key of the root's path dependencies: the path the manifest writes.
    pub root_dep_paths: StrMap<String>,
}

/// The paths line up with the bricks, projects and dependency entries they describe.
pub open spec fn paths_fit(map: &WorkspaceMap, profile: &Profile, f: &ProfilePaths) -> bool {
    &&& f.component_rel@.len() == map.components@.len()
    &&& f.component_member@.len() == map.components@.len()
    &&& f.base_member@.len() == map.bases@.len()
    &&& f.project_member@.len() == map.projects@.len()
    &&& f.impl_paths@.dom() == profile.implementations@.dom()
    &&& f.root_dep_paths@.dom() == map.root_workspace_interface_deps@.dom()
}

/// The first component below `k` whose relative path is `rel`, or -1.
pub open spec fn first_at(crel: Seq<Option<String>>, rel: Seq<char>, k: int) -> int
    decreases k,
{
    if k <= 0 {
        -1
    } else if first_at(crel, rel, k - 1) >= 0 {
        first_at(crel, rel, k - 1)
    } else if crel[k - 1] matches Some(x) && x@ == rel {
        k - 1
    } else {
        -1
    }
}

/// The component the profile selects for interface key `k`, if its path is a component.
pub open spec fn profile_choice(map: &WorkspaceMap, profile: &Profile, f: &ProfilePaths, k: Seq<char>) -> Option<Seq<char>> {
    if profile.implementations@.contains_key(k) {
        let i = first_at(
            f.component_rel@,
            slashed(profile.implementations@[k]@),
            f.component_rel@.len() as int,
        );
        if i >= 0 {
            Some(map.components@[i].name@)
        } else {
            None
        }
    } else {
        None
    }
}

/// The default the root wiring gives interface key `k`: the component at its
/// path, or else its `package` alias.
pub open spec fn root_choice(map: &WorkspaceMap, f: &ProfilePaths, k: Seq<char>) -> Option<Seq<char>> {
    if map.root_workspace_interface_deps@.contains_key(k) {
        let d = map.root_workspace_interface_deps@[k];
        let i = first_at(f.component_rel@, slashed(d.path@), f.component_rel@.len() as int);
        if i >= 0 {
            Some(map.components@[i].name@)
        } else {
            match d.package {
                Some(p) => Some(p@),
                None => None,
            }
        }
    } else {
        None
    }
}

/// The implementation selected for interface key `k`: the profile's choice over the root's.
pub open spec fn selection(map: &WorkspaceMap, profile: &Profile, f: &ProfilePaths, k: Seq<char>) -> Option<Seq<char>> {
    if profile_choice(map, profile, f, k) is Some {
        profile_choice(map, profile, f, k)
    } else {
        root_choice(map, f, k)
    }
}

/// The component a dependency key stands for in the profile: its selection, or
/// the key itself when it names a component; none for bases and external crates.
pub open spec fn resolve_key(map: &WorkspaceMap, profile: &Profile, f: &ProfilePaths, d: Seq<char>) -> Option<Seq<char>> {
    if selection(map, profile, f, d) is Some {
        selection(map, profile, f, d)
    } else if brick_names(map.components@).contains(d) {
        Some(d)
    } else {
        None
    }
}

/// An option as a list of at most one name.
pub open spec fn opt_seq(o: Option<Seq<char>>) -> Seq<Seq<char>> {
    match o {
        Some(x) => seq![x],
        None => Seq::empty(),
    }
}

/// What the first `k` of `deps` resolve to, in order.
pub open spec fn resolved_keys(map: &WorkspaceMap, profile: &Profile, f: &ProfilePaths, deps: Seq<Seq<char>>, k: int) -> Seq<Seq<char>>
    decreases k,
{
    if k <= 0 {
        Seq::empty()
    } else {
        resolved_keys(map, profile, f, deps, k - 1) + opt_seq(resolve_key(map, profile, f, deps[k - 1]))
    }
}

/// What the dependency keys of the first `k` bases resolve to.
pub open spec fn profile_base_seeds(map: &WorkspaceMap, profile: &Profile, f: &ProfilePaths, k: int) -> Seq<Seq<char>>
    decreases k,
{
    if k <= 0 {
        Seq::empty()
    } else {
        let d = string_views(map.bases@[k - 1].deps@);
        profile_base_seeds(map, profile, f, k - 1) + resolved_keys(map, profile, f, d, d.len() as int)
    }
}

/// What the dependency keys of the first `k` projects resolve to.
pub open spec fn profile_project_seeds(map: &WorkspaceMap, profile: &Profile, f: &ProfilePaths, k: int) -> Seq<Seq<char>>
    decreases k,
{
    if k <= 0 {
        Seq::empty()
    } else {
        let d = string_views(map.projects@[k - 1].deps@);
        profile_project_seeds(map, profile, f, k - 1) + resolved_keys(map, profile, f, d, d.len() as int)
    }
}

/// One step of the profile's requirement: `b` is what one of the dependency keys of component `a` resolves to.
pub open spec fn requires_in(map: &WorkspaceMap, profile: &Profile, f: &ProfilePaths, a: Seq<char>, b: Seq<char>) -> bool {
    exists|k: int|
        0 <= k < component_deps(map, a).len() && #[trigger] opt_seq(resolve_key(map, profile, f, component_deps(map, a)[k])).contains(b)
}

/// The components the profile's workspace needs: everything required, directly
/// or not, by the bases and projects.
pub open spec fn included(map: &WorkspaceMap, profile: &Profile, f: &ProfilePaths) -> Set<Seq<char>> {
    let seeds = profile_base_seeds(map, profile, f, map.bases@.len() as int) + profile_project_seeds(
        map,
        profile,
        f,
        map.projects@.len() as int,
    );
    Set::new(|n: Seq<char>| rel_reach(|a: Seq<char>, b: Seq<char>| requires_in(map, profile, f, a, b), seeds.to_set(), n))
}

proof fn lemma_first_at_stable(crel: Seq<Option<String>>, rel: Seq<char>, c: int, k: int)
    requires
        0 <= c <= k,
        first_at(crel, rel, c) >= 0 || c == k,
    ensures
        first_at(crel, rel, k) == first_at(crel, rel, c),
    decreases k - c,
{
    if c < k {
        lemma_first_at_stable(crel, rel, c, k - 1);
    }
}

proof fn lemma_first_at_bounds(crel: Seq<Option<String>>, rel: Seq<char>, k: int)
    ensures
        -1 <= first_at(crel, rel, k) < if k > 0 { k } else { 0 },
    decreases k,
{
    if k > 0 {
        lemma_first_at_bounds(crel, rel, k - 1);
    }
}

/// The first component whose relative path is `rel`.
fn component_at(f: &ProfilePaths, rel: &str) -> (r: Option<usize>)
    ensures
        match r {
            Some(i) => i == first_at(f.component_rel@, rel@, f.component_rel@.len() as int) && i < f.component_rel@.len(),
            None => first_at(f.component_rel@, rel@, f.component_rel@.len() as int) == -1,
        },
{
    let mut c: usize = 0;
    while c < f.component_rel.len()
        invariant
            c <= f.component_rel@.len(),
            first_at(f.component_rel@, rel@, c as int) == -1,
        decreases f.component_rel@.len() - c,
    {
        let hit = match &f.component_rel[c] {
            Some(x) => str_eq(x.as_str(), rel),
            None => false,
        };
        if hit {
            proof {
                lemma_first_at_stable(f.component_rel@, rel@, c + 1, f.component_rel@.len() as int);
            }
            return Some(c);
        }
        c += 1;
    }
    None
}

/// The selected implementation of every interface key that has one.
pub open spec fn selections_ok(sel: Map<Seq<char>, String>, map: &WorkspaceMap, profile: &Profile, f: &ProfilePaths) -> bool {
    forall|k: Seq<char>|
        {
            &&& (#[trigger] sel.contains_key(k) <==> selection(map, profile, f, k) is Some)
            &&& (sel.contains_key(k) ==> selection(map, profile, f, k) == Some(sel[k]@))
        }
}

fn selections(map: &WorkspaceMap, profile: &Profile, f: &ProfilePaths) -> (r: StrMap<String>)
    requires
        f.component_rel@.len() == map.components@.len(),
    ensures
        selections_ok(r@, map, profile, f),
{
    let mut sel: StrMap<String> = StrMap::new();
    let rid = &map.root_workspace_interface_deps;
    let n = rid.len();
    let mut i: usize = 0;
    while i < n
        invariant
            i <= n,
            n == rid.key_seq().len(),
            *rid == map.root_workspace_interface_deps,
            rid.key_seq().no_duplicates(),
            rid@.dom() == rid.key_seq().to_set(),
            f.component_rel@.len() == map.components@.len(),
            forall|k: Seq<char>|
                {
                    &&& (#[trigger] sel@.contains_key(k) <==> (rid.key_seq().take(i as int).contains(k) && root_choice(map, f, k) is Some))
                    &&& (sel@.contains_key(k) ==> root_choice(map, f, k) == Some(sel@[k]@))
                },
        decreases n - i,
    {
        let key = rid.key_at(i);
        let dep = rid.value_at(i);
        let rel = slash(dep.path.as_str());
        let ghost before = sel@;
        proof {
            lemma_first_at_bounds(f.component_rel@, rel@, f.component_rel@.len() as int);
        }
        let ghost rc = root_choice(map, f, key@);
        proof {
            assert(rid@.contains_key(key@));
            assert(*dep == rid@[key@]);
        }
        match component_at(f, rel.as_str()) {
            Some(c) => {
                sel.insert(key.clone(), map.components[c].name.clone());
                proof {
                    assert(rel@ == slashed(rid@[key@].path@));
                    assert(first_at(f.component_rel@, slashed(rid@[key@].path@), f.component_rel@.len() as int) == c);
                    assert(map.root_workspace_interface_deps@.contains_key(key@));
                    assert(root_choice(map, f, key@) == Some(map.components@[c as int].name@));
                    assert(rc == Some(map.components@[c as int].name@));
                }
            },
            None => match &dep.package {
                Some(p) => {
                    sel.insert(key.clone(), p.clone());
                    proof {
                        assert(rc == Some(p@));
                    }
                },
                None => {
                    proof {
                        assert(rc is None);
                    }
                },
            },
        }
        proof {
            assert(rc is Some ==> sel@ == before.insert(key@, sel@[key@]) && Some(sel@[key@]@) == rc);
            assert(rc is None ==> sel@ == before);
            let t = rid.key_seq().take(i + 1);
            assert(t =~= rid.key_seq().take(i as int).push(key@));
            assert forall|k: Seq<char>| #[trigger] sel@.contains_key(k) <==> (t.contains(k) && root_choice(map, f, k) is Some) by {
                if k != key@ {
                    if t.contains(k) {
                        let w = choose|w: int| 0 <= w < t.len() && t[w] == k;
                        assert(rid.key_seq().take(i as int)[w] == k);
                    }
                    if rid.key_seq().take(i as int).contains(k) {
                        let w = choose|w: int| 0 <= w < i && rid.key_seq().take(i as int)[w] == k;
                        assert(t[w] == k);
                    }
                } else {
                    assert(t[i as int] == k);
                    assert(!rid.key_seq().take(i as int).contains(k)) by {
                        if rid.key_seq().take(i as int).contains(k) {
                            let w = choose|w: int| 0 <= w < i && rid.key_seq().take(i as int)[w] == k;
                            assert(rid.key_seq()[w] == rid.key_seq()[i as int]);
                        }
                    }
                    assert(rid.key_seq().to_set().contains(key@));
                }
            }
        }
        i += 1;
    }
    proof {
        assert(rid.key_seq().take(n as int) =~= rid.key_seq());
        assert forall|k: Seq<char>| #[trigger] sel@.contains_key(k) <==> root_choice(map, f, k) is Some by {
            if root_choice(map, f, k) is Some {
                assert(rid@.contains_key(k));
                assert(rid.key_seq().to_set().contains(k));
            }
        }
    }
    let imps = &profile.implementations;
    let m = imps.len();
    let mut j: usize = 0;
    while j < m
        invariant
            j <= m,
            m == imps.key_seq().len(),
            *imps == profile.implementations,
            imps.key_seq().no_duplicates(),
            imps@.dom() == imps.key_seq().to_set(),
            f.component_rel@.len() == map.components@.len(),
            forall|k: Seq<char>|
                {
                    &&& (#[trigger] sel@.contains_key(k) <==> ((imps.key_seq().take(j as int).contains(k) && profile_choice(map, profile, f, k) is Some) || root_choice(map, f, k) is Some))
                    &&& (sel@.contains_key(k) ==> Some(sel@[k]@) == if imps.key_seq().take(j as int).contains(k) && profile_choice(map, profile, f, k) is Some {
                        profile_choice(map, profile, f, k)
                    } else {
                        root_choice(map, f, k)
                    })
                },
        decreases m - j,
    {
        let key = imps.key_at(j);
        let path = imps.value_at(j);
        let rel = slash(path.as_str());
        let ghost before = sel@;
        let ghost pc = profile_choice(map, profile, f, key@);
        proof {
            assert(imps@.contains_key(key@));
            assert(*path == imps@[key@]);
        }
        match component_at(f, rel.as_str()) {
            Some(c) => {
                sel.insert(key.clone(), map.components[c].name.clone());
                proof {
                    assert(pc == Some(map.components@[c as int].name@));
                }
            },
            None => {
                proof {
                    assert(pc is None);
                }
            },
        }
        proof {
            assert(pc is Some ==> sel@ == before.insert(key@, sel@[key@]) && Some(sel@[key@]@) == pc);
            assert(pc is None ==> sel@ == before);
            assert(!imps.key_seq().take(j as int).contains(key@)) by {
                if imps.key_seq().take(j as int).contains(key@) {
                    let w = choose|w: int| 0 <= w < j && imps.key_seq().take(j as int)[w] == key@;
                    assert(imps.key_seq()[w] == imps.key_seq()[j as int]);
                }
            }
            let t = imps.key_seq().take(j + 1);
            assert(t =~= imps.key_seq().take(j as int).push(key@));
            assert(imps@.contains_key(key@));
            assert forall|k: Seq<char>| #[trigger] sel@.contains_key(k) implies Some(sel@[k]@) == if t.contains(k) && profile_choice(map, profile, f, k) is Some {
                profile_choice(map, profile, f, k)
            } else {
                root_choice(map, f, k)
            } by {
                if k != key@ {
                    if t.contains(k) {
                        let w = choose|w: int| 0 <= w < t.len() && t[w] == k;
                        assert(imps.key_seq().take(j as int)[w] == k);
                    }
                    if imps.key_seq().take(j as int).contains(k) {
                        let w = choose|w: int| 0 <= w < j && imps.key_seq().take(j as int)[w] == k;
                        assert(t[w] == k);
                    }
                } else {
                    assert(t[j as int] == k);
                }
            }
            assert forall|k: Seq<char>| #[trigger] sel@.contains_key(k) <==> ((t.contains(k) && profile_choice(map, profile, f, k) is Some) || root_choice(map, f, k) is Some) by {
                if k != key@ {
                    if t.contains(k) {
                        let w = choose|w: int| 0 <= w < t.len() && t[w] == k;
                        assert(imps.key_seq().take(j as int)[w] == k);
                    }
                    if imps.key_seq().take(j as int).contains(k) {
                        let w = choose|w: int| 0 <= w < j && imps.key_seq().take(j as int)[w] == k;
                        assert(t[w] == k);
                    }
                } else {
                    assert(t[j as int] == k);
                }
            }
        }
        j += 1;
    }
    proof {
        assert(imps.key_seq().take(m as int) =~= imps.key_seq());
        assert forall|k: Seq<char>| #[trigger] sel@.contains_key(k) implies selection(map, profile, f, k) == Some(sel@[k]@) by {
            if profile_choice(map, profile, f, k) is Some {
                assert(imps.key_seq().to_set().contains(k));
            }
        }
        assert forall|k: Seq<char>| #[trigger] sel@.contains_key(k) <==> selection(map, profile, f, k) is Some by {
            if profile_choice(map, profile, f, k) is Some {
                assert(imps.key_seq().to_set().contains(k));
            }
        }
    }
    sel
}

/// Whether `d` names a component.
fn component_named(map: &WorkspaceMap, d: &str) -> (b: bool)
    ensures
        b == brick_names(map.components@).contains(d@),
{
    let mut i: usize = 0;
    while i < map.components.len()
        invariant
            i <= map.components@.len(),
            forall|q: int| 0 <= q < i ==> brick_names(map.components@)[q] != d@,
        decreases map.components@.len() - i,
    {
        if str_eq(map.components[i].name.as_str(), d) {
            proof {
                assert(brick_names(map.components@)[i as int] == d@);
            }
            return true;
        }
        i += 1;
    }
    false
}

/// Every value of `m`, in key order.
fn values_of(m: &StrMap<String>) -> (r: Vec<String>)
    ensures
        forall|k: Seq<char>| #[trigger] m@.contains_key(k) ==> string_views(r@).contains(m@[k]@),
{
    let n = m.len();
    let mut out: Vec<String> = Vec::new();
    let mut i: usize = 0;
    while i < n
        invariant
            i <= n,
            n == m.key_seq().len(),
            m@.dom() == m.key_seq().to_set(),
            out@.len() == i,
            forall|q: int| 0 <= q < i ==> string_views(out@).contains(#[trigger] m@[m.key_seq()[q]]@),
        decreases n - i,
    {
        let v = m.value_at(i);
        let ghost before = out@;
        out.push(v.clone());
        proof {
            assert(string_views(out@) =~= string_views(before).push(v@));
            assert forall|q: int| 0 <= q < i + 1 implies string_views(out@).contains(#[trigger] m@[m.key_seq()[q]]@) by {
                if q < i {
                    assert(string_views(before).contains(m@[m.key_seq()[q]]@));
                    let w = choose|w: int| 0 <= w < string_views(before).len() && string_views(before)[w] == m@[m.key_seq()[q]]@;
                    assert(string_views(out@)[w] == m@[m.key_seq()[q]]@);
                } else {
                    assert(string_views(out@)[i as int] == v@);
                    assert(v@ == m@[m.key_seq()[q]]@);
                }
            }
        }
        i += 1;
    }
    proof {
        assert forall|k: Seq<char>| #[trigger] m@.contains_key(k) implies string_views(out@).contains(m@[k]@) by {
            assert(m.key_seq().to_set().contains(k));
            let q = choose|q: int| 0 <= q < m.key_seq().len() && m.key_seq()[q] == k;
            assert(string_views(out@).contains(m@[m.key_seq()[q]]@));
        }
    }
    out
}

/// Appends what `deps` resolve to under the selections `sel`.
fn push_resolved_keys(
    out: &mut Vec<String>,
    deps: &Vec<String>,
    sel: &StrMap<String>,
    map: &WorkspaceMap,
    profile: &Profile,
    f: &ProfilePaths,
)
    requires
        selections_ok(sel@, map, profile, f),
    ensures
        string_views(final(out)@) == string_views(old(out)@) + resolved_keys(map, profile, f, string_views(deps@), deps@.len() as int),
{
    let ghost start = string_views(out@);
    let mut i: usize = 0;
    proof {
        assert(start + resolved_keys(map, profile, f, string_views(deps@), 0) =~= start);
    }
    while i < deps.len()
        invariant
            i <= deps@.len(),
            selections_ok(sel@, map, profile, f),
            string_views(out@) == start + resolved_keys(map, profile, f, string_views(deps@), i as int),
        decreases deps@.len() - i,
    {
        let d = deps[i].as_str();
        let ghost before = string_views(out@);
        match sel.get(d) {
            Some(p) => {
                out.push(p.clone());
            },
            None => {
                if component_named(map, d) {
                    out.push(owned(d));
                }
            },
        }
        proof {
            assert(string_views(deps@)[i as int] == d@);
            assert(string_views(out@) =~= before + opt_seq(resolve_key(map, profile, f, d@)));
            assert(string_views(out@) =~= start + resolved_keys(map, profile, f, string_views(deps@), i + 1));
        }
        i += 1;
    }
}

/// The components the profile's workspace needs, each once.
fn included_components(map: &WorkspaceMap, profile: &Profile, f: &ProfilePaths, sel: &StrMap<String>) -> (r: Vec<String>)
    requires
        selections_ok(sel@, map, profile, f),
    ensures
        forall|n: Seq<char>| #[trigger] string_views(r@).contains(n) <==> included(map, profile, f).contains(n),
{
    let mut seeds: Vec<String> = Vec::new();
    let mut i: usize = 0;
    proof {
        assert(string_views(seeds@) =~= profile_base_seeds(map, profile, f, 0));
    }
    while i < map.bases.len()
        invariant
            i <= map.bases@.len(),
            selections_ok(sel@, map, profile, f),
            string_views(seeds@) == profile_base_seeds(map, profile, f, i as int),
        decreases map.bases@.len() - i,
    {
        push_resolved_keys(&mut seeds, &map.bases[i].deps, sel, map, profile, f);
        i += 1;
    }
    let ghost bs = string_views(seeds@);
    let mut j: usize = 0;
    proof {
        assert(string_views(seeds@) =~= bs + profile_project_seeds(map, profile, f, 0));
    }
    while j < map.projects.len()
        invariant
            j <= map.projects@.len(),
            selections_ok(sel@, map, profile, f),
            bs == profile_base_seeds(map, profile, f, map.bases@.len() as int),
            string_views(seeds@) == bs + profile_project_seeds(map, profile, f, j as int),
        decreases map.projects@.len() - j,
    {
        push_resolved_keys(&mut seeds, &map.projects[j].deps, sel, map, profile, f);
        proof {
            assert(string_views(seeds@) =~= bs + profile_project_seeds(map, profile, f, j + 1));
        }
        j += 1;
    }
    let ghost srcs = string_views(seeds@).to_set();
    let vals = values_of(sel);
    let mut g: DepMap = StrMap::new();
    add_brick_deps(&mut g, &map.components);
    let get_deps = |name: &str| -> (ds: Vec<String>)
        ensures
            string_views(ds@) == component_deps(map, name@),
        {
            match g.get(name) {
                Some(v) => clone_names(v),
                None => {
                    let e: Vec<String> = Vec::new();
                    proof {
                        assert(string_views(e@) =~= component_deps(map, name@));
                    }
                    e
                },
            }
        };
    let resolve = |d: &str| -> (rs: Vec<String>)
        requires
            selections_ok(sel@, map, profile, f),
        ensures
            string_views(rs@) == opt_seq(resolve_key(map, profile, f, d@)),
        {
            let mut v: Vec<String> = Vec::new();
            match sel.get(d) {
                Some(p) => {
                    v.push(p.clone());
                },
                None => {
                    if component_named(map, d) {
                        v.push(owned(d));
                    }
                },
            }
            proof {
                assert(string_views(v@) =~= opt_seq(resolve_key(map, profile, f, d@)));
            }
            v
        };
    let ghost rel = |a: Seq<char>, b: Seq<char>| requires_in(map, profile, f, a, b);
    proof {
        let names = brick_names(map.components@).to_set();
        brick_names(map.components@).lemma_cardinality_of_set();
        string_views(seeds@).lemma_cardinality_of_set();
        string_views(vals@).lemma_cardinality_of_set();
        let u = srcs.union(names).union(string_views(vals@).to_set());
        assert forall|a: Seq<char>, b: Seq<char>| #[trigger] step(get_deps, resolve, a, b) implies rel(a, b) by {
            let (ds, k, rs) = choose|ds: Vec<String>, k: int, rs: Vec<String>|
                #![trigger produces(get_deps, a, ds), produces(resolve, ds@[k]@, rs)]
                produces(get_deps, a, ds) && 0 <= k < ds@.len() && produces(resolve, ds@[k]@, rs) && string_views(
                    rs@,
                ).contains(b);
            let s1 = choose|s1: &str| s1@ == a && #[trigger] call_ensures(get_deps, (s1,), ds);
            let s2 = choose|s2: &str| s2@ == ds@[k]@ && #[trigger] call_ensures(resolve, (s2,), rs);
            assert(string_views(ds@)[k] == ds@[k]@);
            assert(opt_seq(resolve_key(map, profile, f, component_deps(map, a)[k])).contains(b));
        }
        assert forall|a: Seq<char>, b: Seq<char>| u.contains(a) && #[trigger] step(get_deps, resolve, a, b) implies u.contains(b) by {
            assert(rel(a, b));
            let k = choose|k: int| 0 <= k < component_deps(map, a).len() && #[trigger] opt_seq(resolve_key(map, profile, f, component_deps(map, a)[k])).contains(b);
            let d = component_deps(map, a)[k];
            assert(opt_seq(resolve_key(map, profile, f, d))[0] == b);
            if sel@.contains_key(d) {
                assert(string_views(vals@).contains(sel@[d]@));
            }
        }
        assert(srcs.subset_of(u));
        assert(srcs.finite());
        assert(u.finite());
        assert(crate::closure::step_closed(get_deps, resolve, u));
        assert(bounded(get_deps, resolve, srcs));
    }
    let r = transitive_closure(seeds, get_deps, resolve);
    proof {
        assert forall|a: Seq<char>, b: Seq<char>| #[trigger] step(get_deps, resolve, a, b) implies rel(a, b) by {
            let (ds, k, rs) = choose|ds: Vec<String>, k: int, rs: Vec<String>|
                #![trigger produces(get_deps, a, ds), produces(resolve, ds@[k]@, rs)]
                produces(get_deps, a, ds) && 0 <= k < ds@.len() && produces(resolve, ds@[k]@, rs) && string_views(
                    rs@,
                ).contains(b);
            let s1 = choose|s1: &str| s1@ == a && #[trigger] call_ensures(get_deps, (s1,), ds);
            let s2 = choose|s2: &str| s2@ == ds@[k]@ && #[trigger] call_ensures(resolve, (s2,), rs);
            assert(string_views(ds@)[k] == ds@[k]@);
            assert(opt_seq(resolve_key(map, profile, f, component_deps(map, a)[k])).contains(b));
        }
        assert forall|a: Seq<char>, b: Seq<char>| expanded(get_deps, resolve, a) && #[trigger] rel(a, b) implies step(get_deps, resolve, a, b) by {
            let ds = choose|ds: Vec<String>|
                #[trigger] produces(get_deps, a, ds) && forall|k: int| 0 <= k < ds@.len() ==> #[trigger] resolvable(resolve, ds@[k]@);
            let s1 = choose|s1: &str| s1@ == a && #[trigger] call_ensures(get_deps, (s1,), ds);
            let k = choose|k: int| 0 <= k < component_deps(map, a).len() && #[trigger] opt_seq(resolve_key(map, profile, f, component_deps(map, a)[k])).contains(b);
            assert(string_views(ds@)[k] == ds@[k]@);
            assert(resolvable(resolve, ds@[k]@));
            let rs = choose|rs: Vec<String>| #[trigger] produces(resolve, ds@[k]@, rs);
            let s2 = choose|s2: &str| s2@ == ds@[k]@ && #[trigger] call_ensures(resolve, (s2,), rs);
            assert(string_views(rs@) == opt_seq(resolve_key(map, profile, f, ds@[k]@)));
        }
        lemma_closure_is_rel_reach(get_deps, resolve, srcs, string_views(r@), rel);
    }
    r
}

/// The keys of `a` and `b` together, sorted, each once.
fn sorted_union_keys<A, B>(a: &StrMap<A>, b: &StrMap<B>) -> (r: Vec<String>)
    ensures
        string_views(r@) == sorted_keys(a@.dom().union(b@.dom())),
        string_views(r@).to_set() == a@.dom().union(b@.dom()),
{
    let n = a.len();
    let m = b.len();
    let mut out: Vec<String> = Vec::new();
    let mut i: usize = 0;
    proof {
        assert(string_views(out@).to_set() =~= a.key_seq().take(0).to_set());
    }
    while i < n
        invariant
            i <= n,
            n == a.key_seq().len(),
            strictly_sorted(string_views(out@)),
            string_views(out@).to_set() == a.key_seq().take(i as int).to_set(),
        decreases n - i,
    {
        let k = a.key_at(i);
        insert_sorted_unique(&mut out, k.as_str());
        proof {
            assert(a.key_seq().take(i + 1) =~= a.key_seq().take(i as int).push(k@));
            a.key_seq().take(i as int).lemma_push_to_set_commute(k@);
        }
        i += 1;
    }
    proof {
        assert(a.key_seq().take(n as int) =~= a.key_seq());
    }
    let ghost sa = string_views(out@).to_set();
    let mut j: usize = 0;
    proof {
        assert(sa.union(b.key_seq().take(0).to_set()) =~= sa);
    }
    while j < m
        invariant
            j <= m,
            m == b.key_seq().len(),
            strictly_sorted(string_views(out@)),
            string_views(out@).to_set() == sa.union(b.key_seq().take(j as int).to_set()),
        decreases m - j,
    {
        let k = b.key_at(j);
        insert_sorted_unique(&mut out, k.as_str());
        proof {
            assert(b.key_seq().take(j + 1) =~= b.key_seq().take(j as int).push(k@));
            b.key_seq().take(j as int).lemma_push_to_set_commute(k@);
            assert(sa.union(b.key_seq().take(j + 1).to_set()) =~= sa.union(b.key_seq().take(j as int).to_set()).insert(k@));
        }
        j += 1;
    }
    proof {
        assert(b.key_seq().take(m as int) =~= b.key_seq());
        assert(string_views(out@).to_set() =~= a@.dom().union(b@.dom()));
        lemma_sorted_unique(string_views(out@), sorted_keys(a@.dom().union(b@.dom())));
    }
    out
}

/// A `[workspace.dependencies]` path entry: `key = { path = "path" }`, with
/// `package = "pkg"` when an alias is given.
pub open spec fn path_line(key: Seq<char>, path: Seq<char>, pkg: Option<Seq<char>>) -> Seq<char> {
    match pkg {
        None => key + " = { path = \""@ + path + "\" }"@,
        Some(p) => key + " = { path = \""@ + path + "\", package = \""@ + p + "\" }"@,
    }
}

fn path_line_text(key: &str, path: &str, pkg: Option<&str>) -> (r: String)
    ensures
        r@ == path_line(key@, path@, match pkg {
            Some(p) => Some(p@),
            None => None,
        }),
{
    let mut r = owned(key);
    r.append(" = { path = \"");
    r.append(path);
    match pkg {
        None => {
            r.append("\" }");
        },
        Some(p) => {
            r.append("\", package = \"");
            r.append(p);
            r.append("\" }");
        },
    }
    r
}

/// The interface keys the profile's manifest wires: the profile's and the root's, sorted.
pub open spec fn iface_keys(map: &WorkspaceMap, profile: &Profile) -> Seq<Seq<char>> {
    sorted_keys(profile.implementations@.dom().union(map.root_workspace_interface_deps@.dom()))
}

/// The manifest line for interface key `k`: the profile's implementation, named
/// after the component at that path (or after the key when none lies there), or
/// else the root's entry as written.
pub open spec fn iface_line(map: &WorkspaceMap, profile: &Profile, f: &ProfilePaths, k: Seq<char>) -> Seq<char> {
    if profile.implementations@.contains_key(k) {
        let name = match profile_choice(map, profile, f, k) {
            Some(n) => n,
            None => k,
        };
        path_line(
            k,
            f.impl_paths@[k]@,
            if name == k {
                None
            } else {
                Some(name)
            },
        )
    } else {
        path_line(
            k,
            f.root_dep_paths@[k]@,
            match map.root_workspace_interface_deps@[k].package {
                Some(p) => Some(p@),
                None => None,
            },
        )
    }
}

/// The interface dependency lines of the profile's manifest, in key order.
pub open spec fn iface_lines(map: &WorkspaceMap, profile: &Profile, f: &ProfilePaths) -> Seq<Seq<char>> {
    iface_keys(map, profile).map_values(|k: Seq<char>| iface_line(map, profile, f, k))
}

/// Each feature in double quotes.
pub open spec fn quoted(fs: Seq<Seq<char>>) -> Seq<Seq<char>> {
    fs.map_values(|x: Seq<char>| "\""@ + x + "\""@)
}

/// The manifest line of a library dependency, if it has a version or features.
pub open spec fn lib_line(key: Seq<char>, info: ExternalDepInfo) -> Option<Seq<char>> {
    let fs = join_spec(quoted(string_views(info.features@)), ", "@);
    match info.version {
        Some(v) => if info.features@.len() == 0 {
            Some(key + " = \""@ + v@ + "\""@)
        } else {
            Some(key + " = { version = \""@ + v@ + "\", features = ["@ + fs + "] }"@)
        },
        None => if info.features@.len() == 0 {
            None
        } else {
            Some(key + " = { features = ["@ + fs + "] }"@)
        },
    }
}

/// Each part of a joined list stands in the joined text.
pub proof fn lemma_join_keeps_parts(parts: Seq<Seq<char>>, sep: Seq<char>, i: int)
    requires
        0 <= i < parts.len(),
    ensures
        occurs(parts[i], join_spec(parts, sep)),
    decreases parts.len(),
{
    if parts.len() == 1 {
        lemma_occurs_self(parts[0]);
    } else if i == parts.len() - 1 {
        lemma_occurs_self(parts[i]);
        lemma_occurs_within(parts[i], parts[i], join_spec(parts.drop_last(), sep) + sep, Seq::empty());
        assert(join_spec(parts.drop_last(), sep) + sep + parts[i] + Seq::<char>::empty() =~= join_spec(parts, sep));
    } else {
        lemma_join_keeps_parts(parts.drop_last(), sep, i);
        lemma_occurs_within(parts[i], join_spec(parts.drop_last(), sep), Seq::empty(), sep + parts.last());
        assert(Seq::<char>::empty() + join_spec(parts.drop_last(), sep) + (sep + parts.last()) =~= join_spec(parts, sep));
    }
}

/// Law: a library line keeps everything of its entry. There is a line exactly
/// when the entry has a version or features; it starts with the key; it carries
/// the version, quoted, when there is one; and when there are features it has a
/// `features = [..]` list in which every feature stands quoted.
pub proof fn law_library_line_keeps_entry(key: Seq<char>, info: ExternalDepInfo)
    ensures
        lib_line(key, info) is Some <==> (info.version is Some || info.features@.len() > 0),
        lib_line(key, info) matches Some(l) ==> {
            &&& l.len() >= key.len() && l.take(key.len() as int) == key
            &&& (info.version matches Some(v) ==> occurs("\""@ + v@ + "\""@, l))
            &&& (info.features@.len() > 0 ==> occurs("features = ["@, l))
            &&& forall|i: int| 0 <= i < info.features@.len() ==> occurs("\""@ + (#[trigger] info.features@[i])@ + "\""@, l)
        },
{
    reveal_strlit("\"");
    reveal_strlit(" = \"");
    reveal_strlit(" = { version = \"");
    reveal_strlit("\", features = [");
    reveal_strlit("] }");
    reveal_strlit(" = { features = [");
    reveal_strlit("features = [");
    reveal_strlit(" = { ");
    reveal_strlit(", ");
    reveal_strlit(" = ");
    reveal_strlit(" = { version = ");
    reveal_strlit(", features = [");
    reveal_strlit("\", ");
    let q = quoted(string_views(info.features@));
    let fs = join_spec(q, ", "@);
    match lib_line(key, info) {
        Some(l) => {
            assert(l.take(key.len() as int) =~= key);
            match info.version {
                Some(v) => {
                    let qv = "\""@ + v@ + "\""@;
                    if info.features@.len() == 0 {
                        assert(key + " = "@ + qv + Seq::<char>::empty() =~= l);
                    } else {
                        assert(key + " = { version = "@ + qv + (", features = ["@ + fs + "] }"@) =~= l);
                        assert((key + " = { version = \"" @ + v@ + "\", "@) + "features = ["@ + (fs + "] }"@) =~= l);
                    }
                },
                None => {
                    assert((key + " = { "@) + "features = ["@ + (fs + "] }"@) =~= l);
                },
            }
            assert forall|i: int| 0 <= i < info.features@.len() implies occurs(
                "\""@ + (#[trigger] info.features@[i])@ + "\""@,
                l,
            ) by {
                assert(q[i] == "\""@ + info.features@[i]@ + "\""@);
                lemma_join_keeps_parts(q, ", "@, i);
                match info.version {
                    Some(v) => {
                        lemma_occurs_within(q[i], fs, key + " = { version = \""@ + v@ + "\", features = ["@, "] }"@);
                    },
                    None => {
                        lemma_occurs_within(q[i], fs, key + " = { features = ["@, "] }"@);
                    },
                }
            }
        },
        None => {},
    }
}

/// The library keys the profile's manifest lists: the root's and the profile's, sorted.
pub open spec fn lib_keys(map: &WorkspaceMap, profile: &Profile) -> Seq<Seq<char>> {
    sorted_keys(map.root_workspace_deps@.dom().union(profile.libraries@.dom()))
}

/// The entry for library key `k`: the profile's override, else the root's.
pub open spec fn lib_info(map: &WorkspaceMap, profile: &Profile, k: Seq<char>) -> ExternalDepInfo {
    if profile.libraries@.contains_key(k) {
        profile.libraries@[k]
    } else {
        map.root_workspace_deps@[k]
    }
}

/// The library lines for the first `n` of `ks`.
pub open spec fn lib_lines_upto(map: &WorkspaceMap, profile: &Profile, ks: Seq<Seq<char>>, n: int) -> Seq<Seq<char>>
    decreases n,
{
    if n <= 0 {
        Seq::empty()
    } else {
        lib_lines_upto(map, profile, ks, n - 1) + opt_seq(lib_line(ks[n - 1], lib_info(map, profile, ks[n - 1])))
    }
}

/// The library dependency lines of the profile's manifest, in key order.
pub open spec fn lib_lines(map: &WorkspaceMap, profile: &Profile) -> Seq<Seq<char>> {
    lib_lines_upto(map, profile, lib_keys(map, profile), lib_keys(map, profile).len() as int)
}

/// The member paths of the first `k` components that the profile includes.
pub open spec fn comp_members(map: &WorkspaceMap, profile: &Profile, f: &ProfilePaths, k: int) -> Seq<Seq<char>>
    decreases k,
{
    if k <= 0 {
        Seq::empty()
    } else {
        comp_members(map, profile, f, k - 1) + if included(map, profile, f).contains(map.components@[k - 1].name@) {
            seq![f.component_member@[k - 1]@]
        } else {
            Seq::empty()
        }
    }
}

/// The members of the profile's workspace: the included components in workspace
/// order, then every base, then every project.
pub open spec fn profile_members(map: &WorkspaceMap, profile: &Profile, f: &ProfilePaths) -> Seq<Seq<char>> {
    comp_members(map, profile, f, map.components@.len() as int) + string_views(f.base_member@) + string_views(
        f.project_member@,
    )
}

/// A string option as characters.
pub open spec fn opt_chars(o: Option<String>) -> Option<Seq<char>> {
    match o {
        Some(s) => Some(s@),
        None => None,
    }
}

/// Package metadata as plain values.
pub open spec fn meta_view(m: WorkspacePackageMeta) -> (
    Option<Seq<char>>,
    Option<Seq<char>>,
    Option<Seq<Seq<char>>>,
    Option<Seq<char>>,
    Option<Seq<char>>,
) {
    (
        opt_chars(m.version),
        opt_chars(m.edition),
        match m.authors {
            Some(a) => Some(string_views(a@)),
            None => None,
        },
        opt_chars(m.license),
        opt_chars(m.repository),
    )
}

fn copy_opt(o: &Option<String>) -> (r: Option<String>)
    ensures
        r == *o,
{
    match o {
        Some(s) => Some(s.clone()),
        None => None,
    }
}

fn copy_meta(m: &Option<WorkspacePackageMeta>) -> (r: Option<WorkspacePackageMeta>)
    ensures
        m is None <==> r is None,
        m is Some ==> meta_view(r->0) == meta_view(m->0),
{
    match m {
        None => None,
        Some(x) => Some(
            WorkspacePackageMeta {
                version: copy_opt(&x.version),
                edition: copy_opt(&x.edition),
                authors: match &x.authors {
                    Some(a) => Some(clone_names(a)),
                    None => None,
                },
                license: copy_opt(&x.license),
                repository: copy_opt(&x.repository),
            },
        ),
    }
}

/// Appends every string of `xs` to `out`.
fn append_all(out: &mut Vec<String>, xs: &Vec<String>)
    ensures
        string_views(final(out)@) == string_views(old(out)@) + string_views(xs@),
{
    let ghost start = string_views(out@);
    let mut i: usize = 0;
    proof {
        assert(start + string_views(xs@).take(0) =~= start);
    }
    while i < xs.len()
        invariant
            i <= xs@.len(),
            string_views(out@) == start + string_views(xs@).take(i as int),
        decreases xs@.len() - i,
    {
        let ghost before = string_views(out@);
        let x = xs[i].clone();
        out.push(x);
        proof {
            assert(string_views(out@) =~= before.push(xs@[i as int]@));
            assert(string_views(xs@).take(i + 1) =~= string_views(xs@).take(i as int).push(xs@[i as int]@));
            assert(string_views(out@) =~= start + string_views(xs@).take(i + 1));
        }
        i += 1;
    }
    proof {
        assert(string_views(xs@).take(xs@.len() as int) =~= string_views(xs@));
    }
}

/// The manifest line for interface key `k`.
fn iface_line_text(map: &WorkspaceMap, profile: &Profile, f: &ProfilePaths, k: &str) -> (r: String)
    requires
        paths_fit(map, profile, f),
        profile.implementations@.contains_key(k@) || map.root_workspace_interface_deps@.contains_key(k@),
    ensures
        r@ == iface_line(map, profile, f, k@),
{
    match profile.implementations.get(k) {
        Some(p) => {
            let rel = slash(p.as_str());
            let name: String = match component_at(f, rel.as_str()) {
                Some(c) => map.components[c].name.clone(),
                None => owned(k),
            };
            proof {
                assert(name@ == match profile_choice(map, profile, f, k@) {
                    Some(n) => n,
                    None => k@,
                });
                assert(f.impl_paths@.dom().contains(k@));
            }
            match f.impl_paths.get(k) {
                Some(pp) => {
                    if str_eq(name.as_str(), k) {
                        path_line_text(k, pp.as_str(), None)
                    } else {
                        path_line_text(k, pp.as_str(), Some(name.as_str()))
                    }
                },
                None => {
                    proof {
                        assert(false);
                    }
                    String::new()
                },
            }
        },
        None => {
            proof {
                assert(f.root_dep_paths@.dom().contains(k@));
            }
            match (map.root_workspace_interface_deps.get(k), f.root_dep_paths.get(k)) {
                (Some(d), Some(pp)) => match &d.package {
                    Some(pk) => path_line_text(k, pp.as_str(), Some(pk.as_str())),
                    None => path_line_text(k, pp.as_str(), None),
                },
                _ => {
                    proof {
                        assert(false);
                    }
                    String::new()
                },
            }
        },
    }
}

/// Each feature in double quotes.
pub fn quote_all(fs: &Vec<String>) -> (r: Vec<String>)
    ensures
        string_views(r@) == quoted(string_views(fs@)),
{
    let mut out: Vec<String> = Vec::new();
    let mut i: usize = 0;
    while i < fs.len()
        invariant
            i <= fs@.len(),
            string_views(out@) == quoted(string_views(fs@)).take(i as int),
        decreases fs@.len() - i,
    {
        let mut q = owned("\"");
        q.append(fs[i].as_str());
        q.append("\"");
        let ghost before = string_views(out@);
        out.push(q);
        proof {
            assert(string_views(out@) =~= before.push(q@));
            assert(quoted(string_views(fs@))[i as int] == q@);
            assert(quoted(string_views(fs@)).take(i + 1) =~= quoted(string_views(fs@)).take(i as int).push(q@));
        }
        i += 1;
    }
    proof {
        assert(quoted(string_views(fs@)).take(fs@.len() as int) =~= quoted(string_views(fs@)));
    }
    out
}

/// The manifest line of a library dependency, if it has a version or features.
fn lib_line_text(key: &str, info: &ExternalDepInfo) -> (r: Option<String>)
    ensures
        opt_chars(r) == lib_line(key@, *info),
{
    let fs = join(&quote_all(&info.features), ", ");
    let empty = info.features.len() == 0;
    match &info.version {
        Some(v) => {
            let mut r = owned(key);
            if empty {
                r.append(" = \"");
                r.append(v.as_str());
                r.append("\"");
            } else {
                r.append(" = { version = \"");
                r.append(v.as_str());
                r.append("\", features = [");
                r.append(fs.as_str());
                r.append("] }");
            }
            Some(r)
        },
        None => {
            if empty {
                None
            } else {
                let mut r = owned(key);
                r.append(" = { features = [");
                r.append(fs.as_str());
                r.append("] }");
                Some(r)
            }
        },
    }
}

/// The entry for library key `k`: the profile's override, else the root's.
fn lib_info_of<'a>(map: &'a WorkspaceMap, profile: &'a Profile, k: &str) -> (r: &'a ExternalDepInfo)
    requires
        profile.libraries@.contains_key(k@) || map.root_workspace_deps@.contains_key(k@),
    ensures
        *r == lib_info(map, profile, k@),
{
    match profile.libraries.get(k) {
        Some(x) => x,
        None => match map.root_workspace_deps.get(k) {
            Some(x) => x,
            None => {
                proof {
                    assert(false);
                }
                map.root_workspace_deps.value_at(0)
            },
        },
    }
}

/// Computes what the profile's workspace manifest holds: the members (the
/// components the profile needs, then all bases and projects), the interface
/// dependency lines with the profile's implementations over the root's wiring,
/// the library lines with the profile's overrides over the root's entries, and
/// the root's shared package metadata.
pub fn resolve_profile_workspace(profile: &Profile, map: &WorkspaceMap, paths: &ProfilePaths) -> (r:
    ResolvedProfileWorkspace)
    requires
        paths_fit(map, profile, paths),
    ensures
        r.profile_name@ == profile.name@,
        string_views(r.members@) == profile_members(map, profile, paths),
        string_views(r.interface_dep_lines@) == iface_lines(map, profile, paths),
        string_views(r.library_dep_lines@) == lib_lines(map, profile),
        map.root_package_meta is None <==> r.workspace_package is None,
        map.root_package_meta is Some ==> meta_view(r.workspace_package->0) == meta_view(
            map.root_package_meta->0,
        ),
{
    let sel = selections(map, profile, paths);
    let inc = included_components(map, profile, paths, &sel);
    let mut members: Vec<String> = Vec::new();
    let mut i: usize = 0;
    while i < map.components.len()
        invariant
            i <= map.components@.len(),
            paths.component_member@.len() == map.components@.len(),
            forall|n: Seq<char>| #[trigger] string_views(inc@).contains(n) <==> included(map, profile, paths).contains(n),
            string_views(members@) == comp_members(map, profile, paths, i as int),
        decreases map.components@.len() - i,
    {
        let ghost before = string_views(members@);
        if contains_str(&inc, map.components[i].name.as_str()) {
            members.push(paths.component_member[i].clone());
        }
        proof {
            assert(string_views(members@) =~= comp_members(map, profile, paths, i + 1));
        }
        i += 1;
    }
    append_all(&mut members, &paths.base_member);
    append_all(&mut members, &paths.project_member);
    let ikeys = sorted_union_keys(&profile.implementations, &map.root_workspace_interface_deps);
    let mut ilines: Vec<String> = Vec::new();
    let mut q: usize = 0;
    while q < ikeys.len()
        invariant
            q <= ikeys@.len(),
            paths_fit(map, profile, paths),
            string_views(ikeys@) == iface_keys(map, profile),
            string_views(ikeys@).to_set() == profile.implementations@.dom().union(
                map.root_workspace_interface_deps@.dom(),
            ),
            string_views(ilines@) == iface_keys(map, profile).take(q as int).map_values(
                |k: Seq<char>| iface_line(map, profile, paths, k),
            ),
        decreases ikeys@.len() - q,
    {
        let k = ikeys[q].as_str();
        proof {
            assert(string_views(ikeys@)[q as int] == k@);
            assert(string_views(ikeys@).to_set().contains(k@));
        }
        let line = iface_line_text(map, profile, paths, k);
        let ghost before = string_views(ilines@);
        ilines.push(line);
        proof {
            let ks = iface_keys(map, profile);
            let g = |k: Seq<char>| iface_line(map, profile, paths, k);
            assert(string_views(ilines@) =~= before.push(line@));
            assert(ks.take(q + 1) =~= ks.take(q as int).push(k@));
            assert(ks.take(q + 1).map_values(g) =~= ks.take(q as int).map_values(g).push(g(k@)));
        }
        q += 1;
    }
    proof {
        assert(iface_keys(map, profile).take(ikeys@.len() as int) =~= iface_keys(map, profile));
    }
    let lkeys = sorted_union_keys(&map.root_workspace_deps, &profile.libraries);
    let mut llines: Vec<String> = Vec::new();
    let mut e: usize = 0;
    while e < lkeys.len()
        invariant
            e <= lkeys@.len(),
            string_views(lkeys@) == lib_keys(map, profile),
            string_views(lkeys@).to_set() == map.root_workspace_deps@.dom().union(profile.libraries@.dom()),
            string_views(llines@) == lib_lines_upto(map, profile, lib_keys(map, profile), e as int),
        decreases lkeys@.len() - e,
    {
        let k = lkeys[e].as_str();
        proof {
            assert(string_views(lkeys@)[e as int] == k@);
            assert(string_views(lkeys@).to_set().contains(k@));
        }
        let info = lib_info_of(map, profile, k);
        let ghost before = string_views(llines@);
        match lib_line_text(k, info) {
            Some(l) => {
                llines.push(l);
            },
            None => {},
        }
        proof {
            assert(string_views(llines@) =~= before + opt_seq(lib_line(k@, lib_info(map, profile, k@))));
        }
        e += 1;
    }
    ResolvedProfileWorkspace {
        profile_name: profile.name.clone(),
        members,
        interface_dep_lines: ilines,
        library_dep_lines: llines,
        workspace_package: copy_meta(&map.root_package_meta),
    }
}

// ---------------------------------------------------------------------------
// The root manifest made from a profile.

/// A member line of the `[workspace]` table.
pub open spec fn member_line(m: Seq<char>) -> Seq<char> {
    "    \""@ + m + "\""@
}

/// `key = "value"`, when there is a value.
pub open spec fn opt_line(key: Seq<char>, v: Option<Seq<char>>) -> Seq<Seq<char>> {
    match v {
        Some(x) => seq![key + " = \""@ + x + "\""@],
        None => Seq::<Seq<char>>::empty(),
    }
}

/// The `authors` line, when there are authors: a profile's manifest leaves an
/// empty list out.
pub open spec fn authors_line(a: Option<Seq<Seq<char>>>) -> Seq<Seq<char>> {
    match a {
        Some(xs) => if xs.len() > 0 {
            seq!["authors = ["@ + join_spec(quoted(xs), ", "@) + "]"@]
        } else {
            Seq::<Seq<char>>::empty()
        },
        None => Seq::<Seq<char>>::empty(),
    }
}

/// The `[workspace.package]` table, when there is metadata.
pub open spec fn package_section(meta: Option<crate::manifest::MetaView>) -> Seq<char> {
    match meta {
        Some(m) => "\n"@ + join_spec(
            seq!["[workspace.package]"@] + opt_line("version"@, m.0) + opt_line("edition"@, m.1) + authors_line(m.2)
                + opt_line("license"@, m.3) + opt_line("repository"@, m.4),
            "\n"@,
        ) + "\n"@,
        None => Seq::<char>::empty(),
    }
}

/// The `[workspace.dependencies]` table, when there are dependency lines.
pub open spec fn dependencies_section(lines: Seq<Seq<char>>) -> Seq<char> {
    if lines.len() == 0 {
        Seq::<char>::empty()
    } else {
        "\n[workspace.dependencies]\n"@ + join_spec(lines, "\n"@) + "\n"@
    }
}

/// The text of the root manifest made from a resolved profile: the header, the
/// profile it came from, the members, resolver 2, the package metadata, then
/// the interface and library dependency lines.
pub open spec fn profile_manifest_text(r: ResolvedProfileWorkspace) -> Seq<char> {
    "# GENERATED BY cargo-polylith -- DO NOT EDIT\n"@ + "# Source: profiles/"@ + r.profile_name@
        + ".profile\n\n[workspace]\nmembers = [\n"@ + join_spec(
        string_views(r.members@).map_values(|m: Seq<char>| member_line(m)),
        ",\n"@,
    ) + "\n]\nresolver = \"2\"\n"@ + package_section(crate::manifest::opt_meta_view(r.workspace_package))
        + dependencies_section(string_views(r.interface_dep_lines@) + string_views(r.library_dep_lines@))
}

fn push_opt_line(lines: &mut Vec<String>, key: &str, v: &Option<String>)
    ensures
        string_views(final(lines)@) == string_views(old(lines)@) + opt_line(key@, opt_chars(*v)),
{
    match v {
        Some(x) => {
            let mut l = owned(key);
            l.append(" = \"");
            l.append(x.as_str());
            l.append("\"");
            let ghost before = string_views(lines@);
            lines.push(l);
            proof {
                assert(string_views(lines@) =~= before + opt_line(key@, opt_chars(*v)));
            }
        },
        None => {
            proof {
                assert(string_views(lines@) =~= string_views(lines@) + opt_line(key@, opt_chars(*v)));
            }
        },
    }
}

/// The text of the root manifest made from a resolved profile (see
/// [`profile_manifest_text`]).
pub fn profile_workspace_manifest(r: &ResolvedProfileWorkspace) -> (s: String)
    ensures
        s@ == profile_manifest_text(*r),
{
    let mut member_lines: Vec<String> = Vec::new();
    let mut i: usize = 0;
    while i < r.members.len()
        invariant
            i <= r.members@.len(),
            string_views(member_lines@) == string_views(r.members@).map_values(|m: Seq<char>| member_line(m)).take(
                i as int,
            ),
        decreases r.members@.len() - i,
    {
        let mut l = owned("    \"");
        l.append(r.members[i].as_str());
        l.append("\"");
        let ghost before = string_views(member_lines@);
        member_lines.push(l);
        proof {
            assert(string_views(member_lines@) =~= before.push(l@));
            assert(string_views(r.members@).map_values(|m: Seq<char>| member_line(m)).take(i + 1) =~= string_views(
                r.members@,
            ).map_values(|m: Seq<char>| member_line(m)).take(i as int).push(l@));
        }
        i += 1;
    }
    proof {
        assert(string_views(r.members@).map_values(|m: Seq<char>| member_line(m)).take(r.members@.len() as int)
            =~= string_views(r.members@).map_values(|m: Seq<char>| member_line(m)));
    }
    let mut out = owned(crate::templates::managed_header());
    out.append("# Source: profiles/");
    out.append(r.profile_name.as_str());
    out.append(".profile\n\n[workspace]\nmembers = [\n");
    out.append(join(&member_lines, ",\n").as_str());
    out.append("\n]\nresolver = \"2\"\n");
    match &r.workspace_package {
        Some(m) => {
            let mut lines: Vec<String> = Vec::new();
            lines.push(owned("[workspace.package]"));
            proof {
                assert(string_views(lines@) =~= seq!["[workspace.package]"@]);
            }
            push_opt_line(&mut lines, "version", &m.version);
            push_opt_line(&mut lines, "edition", &m.edition);
            match &m.authors {
                Some(a) => {
                    if a.len() > 0 {
                        let mut l = owned("authors = [");
                        l.append(join(&quote_all(a), ", ").as_str());
                        l.append("]");
                        let ghost before = string_views(lines@);
                        lines.push(l);
                        proof {
                            assert(string_views(lines@) =~= before + authors_line(Some(string_views(a@))));
                        }
                    } else {
                        proof {
                            assert(string_views(lines@) =~= string_views(lines@) + authors_line(Some(string_views(a@))));
                        }
                    }
                },
                None => {
                    proof {
                        assert(string_views(lines@) =~= string_views(lines@) + authors_line(None));
                    }
                },
            }
            push_opt_line(&mut lines, "license", &m.license);
            push_opt_line(&mut lines, "repository", &m.repository);
            out.append("\n");
            out.append(join(&lines, "\n").as_str());
            out.append("\n");
        },
        None => {},
    }
    let mut dep_lines = clone_names(&r.interface_dep_lines);
    append_all(&mut dep_lines, &r.library_dep_lines);
    if dep_lines.len() > 0 {
        out.append("\n[workspace.dependencies]\n");
        out.append(join(&dep_lines, "\n").as_str());
        out.append("\n");
    }
    proof {
        assert(out@ =~= profile_manifest_text(*r));
    }
    out
}

} // verus!
