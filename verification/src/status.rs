//! The `status` report: what a workspace already does the polylith way, where it
//! diverges, and what to do next.
use vstd::prelude::*;

use crate::check::{contains_text, find_text, rust_name, rust_name_spec};
use crate::closure::closure_in;
use crate::corsett::string_views;
use crate::graph::{add_brick_deps, clone_names, contains_str, reachable, DepMap};
use crate::model::{brick_names, last_named, WorkspaceMap};
use crate::strmap::StrMap;
use crate::text::{decimal, decimal_spec, owned};

verus! {

/// The status report.
#[derive(Debug)]
pub struct StatusReport {
    pub confirmed: Vec<String>,
    pub divergences: Vec<Divergence>,
    pub suggestions: Vec<String>,
}

/// Something the workspace does differently, and what to do about it.
#[derive(Debug)]
pub struct Divergence {
    pub observation: String,
    pub suggestion: String,
}

/// What `run_status` reads from the file system, gathered by its caller.
pub struct StatusFacts {
    /// Sorted names of old-model profile directories (`profiles/<name>/Cargo.toml`).
    pub old_profile_dirs: Vec<String>,
    /// Per component: the contents of `src/lib.rs`, if it exists.
    pub component_lib_rs: Vec<Option<String>>,
    /// Per base: whether `src/lib.rs` exists.
    pub base_lib_rs: Vec<bool>,
    /// Per base: whether `src/main.rs` exists.
    pub base_main_rs: Vec<bool>,
}

/// A divergence as character sequences: (observation, suggestion).
pub open spec fn div_view(d: Divergence) -> (Seq<char>, Seq<char>) {
    (d.observation@, d.suggestion@)
}

/// The hints for old-model profile directories.
pub open spec fn old_model_hints(dirs: Seq<Seq<char>>) -> Seq<Seq<char>> {
    dirs.map_values(
        |n: Seq<char>|
            "old-model profile directory detected at profiles/"@ + n + "/\n    run: cargo polylith change-profile "@ + n,
    )
}

/// The names reachable from the dependencies of bases and projects through
/// components, keys standing for themselves.
pub open spec fn status_used(map: &WorkspaceMap, g: Map<Seq<char>, Vec<String>>) -> Set<Seq<char>> {
    Set::new(|n: Seq<char>| reachable(g, status_seeds(map).to_set(), n))
}

/// The dependency keys of all bases, then of all projects.
pub open spec fn status_seeds(map: &WorkspaceMap) -> Seq<Seq<char>> {
    deps_of_bases(map, map.bases@.len() as int) + deps_of_projects(map, map.projects@.len() as int)
}

/// The dependency keys of the first `k` bases.
pub open spec fn deps_of_bases(map: &WorkspaceMap, k: int) -> Seq<Seq<char>>
    decreases k,
{
    if k <= 0 {
        Seq::empty()
    } else {
        deps_of_bases(map, k - 1) + string_views(map.bases@[k - 1].deps@)
    }
}

/// The dependency keys of the first `k` projects.
pub open spec fn deps_of_projects(map: &WorkspaceMap, k: int) -> Seq<Seq<char>>
    decreases k,
{
    if k <= 0 {
        Seq::empty()
    } else {
        deps_of_projects(map, k - 1) + string_views(map.projects@[k - 1].deps@)
    }
}

/// `lib` holds a re-export of `rust` (`pub use <rust>::`) that is no wildcard.
pub open spec fn explicit_reexport(lib: Option<String>, rust: Seq<char>) -> bool {
    lib matches Some(t) && !contains_text(t@, "pub use "@ + rust + "::*"@) && contains_text(t@, "pub use "@ + rust + "::"@)
}

/// The number of the first `k` components with an explicit re-export.
pub open spec fn explicit_count(map: &WorkspaceMap, f: &StatusFacts, k: int) -> nat
    decreases k,
{
    if k <= 0 {
        0
    } else {
        explicit_count(map, f, k - 1) + if explicit_reexport(
            f.component_lib_rs@[k - 1],
            rust_name_spec(map.components@[k - 1].name@),
        ) {
            1nat
        } else {
            0nat
        }
    }
}

/// The component suggestions of the first `k` components.
pub open spec fn component_suggestions(map: &WorkspaceMap, f: &StatusFacts, used: Set<Seq<char>>, k: int) -> Seq<Seq<char>>
    decreases k,
{
    if k <= 0 {
        Seq::empty()
    } else {
        let n = map.components@[k - 1].name@;
        component_suggestions(map, f, used, k - 1) + (if f.component_lib_rs@[k - 1] is None {
            seq!["component '"@ + n + "': src/lib.rs is missing — add a lib.rs with re-exports"@]
        } else {
            Seq::empty()
        }) + if used.contains(n) {
            Seq::empty()
        } else {
            seq!["component '"@ + n + "' is not used by any base or project"@]
        }
    }
}

/// The wildcard divergences of the first `k` components.
pub open spec fn component_divergences(map: &WorkspaceMap, f: &StatusFacts, k: int) -> Seq<(Seq<char>, Seq<char>)>
    decreases k,
{
    if k <= 0 {
        Seq::empty()
    } else {
        let n = map.components@[k - 1].name@;
        let rust = rust_name_spec(n);
        component_divergences(map, f, k - 1) + if f.component_lib_rs@[k - 1] matches Some(t) && contains_text(
            t@,
            "pub use "@ + rust + "::*"@,
        ) {
            seq![
                ("component '"@ + n + "': lib.rs uses wildcard re-export"@, "consider explicit `pub use "@ + rust
                    + "::{Type, fn};` instead of `pub use "@ + rust + "::*;`"@),
            ]
        } else {
            Seq::empty()
        }
    }
}

/// The suggestions of the first `k` bases.
pub open spec fn base_suggestions(map: &WorkspaceMap, f: &StatusFacts, k: int) -> Seq<Seq<char>>
    decreases k,
{
    if k <= 0 {
        Seq::empty()
    } else {
        base_suggestions(map, f, k - 1) + if f.base_lib_rs@[k - 1] {
            Seq::empty()
        } else {
            seq![
                "base '"@ + map.bases@[k - 1].name@
                    + "': src/lib.rs is missing — add a lib.rs exposing a runtime API function"@,
            ]
        }
    }
}

/// The divergences of the first `k` bases.
pub open spec fn base_divergences(map: &WorkspaceMap, f: &StatusFacts, k: int) -> Seq<(Seq<char>, Seq<char>)>
    decreases k,
{
    if k <= 0 {
        Seq::empty()
    } else {
        base_divergences(map, f, k - 1) + if f.base_main_rs@[k - 1] {
            seq![
                ("base '"@ + map.bases@[k - 1].name@ + "': has src/main.rs"@,
                "move the executable entry point to a project; bases should only expose library functions like `run()`"@),
            ]
        } else {
            Seq::empty()
        }
    }
}

/// The suggestions of the first `k` projects.
pub open spec fn project_suggestions(map: &WorkspaceMap, k: int) -> Seq<Seq<char>>
    decreases k,
{
    if k <= 0 {
        Seq::empty()
    } else {
        let p = map.projects@[k - 1];
        project_suggestions(map, k - 1) + if crate::check::has_base_dep(map, p) {
            Seq::empty()
        } else {
            seq![
                "project '"@ + p.name@
                    + "' has no base dependency — polylith projects must include at least one base"@,
            ]
        }
    }
}

/// The workspace-level suggestions.
pub open spec fn workspace_suggestions(map: &WorkspaceMap) -> Seq<Seq<char>> {
    (if map.components@.len() == 0 {
        seq!["No components/ directory or no components found"@]
    } else {
        Seq::empty()
    }) + (if map.bases@.len() == 0 {
        seq!["No bases/ directory or no bases found"@]
    } else {
        Seq::empty()
    }) + if map.projects@.len() == 0 {
        seq!["No projects/ directory found\n    run: cargo polylith project new <name>"@]
    } else {
        Seq::empty()
    }
}

/// The confirmations.
pub open spec fn confirmations(map: &WorkspaceMap, f: &StatusFacts) -> Seq<Seq<char>> {
    let ex = explicit_count(map, f, map.components@.len() as int);
    (if map.components@.len() > 0 {
        seq!["components/ ("@ + decimal_spec(map.components@.len()) + " crates)"@]
    } else {
        Seq::empty()
    }) + (if map.bases@.len() > 0 {
        seq!["bases/ ("@ + decimal_spec(map.bases@.len()) + " crates)"@]
    } else {
        Seq::empty()
    }) + if ex > 0 {
        seq![decimal_spec(ex) + " component(s) use explicit re-exports"@]
    } else {
        Seq::empty()
    }
}

/// The facts line up with the bricks they describe.
pub open spec fn status_facts_fit(map: &WorkspaceMap, f: &StatusFacts) -> bool {
    &&& f.component_lib_rs@.len() == map.components@.len()
    &&& f.base_lib_rs@.len() == map.bases@.len()
    &&& f.base_main_rs@.len() == map.bases@.len()
}

fn push_str(v: &mut Vec<String>, s: String)
    ensures
        string_views(final(v)@) == string_views(old(v)@).push(s@),
{
    let ghost before = v@;
    v.push(s);
    proof {
        assert(string_views(v@) =~= string_views(before).push(s@));
    }
}

fn push_div(v: &mut Vec<Divergence>, observation: String, suggestion: String)
    ensures
        final(v)@.map_values(|d: Divergence| div_view(d)) == old(v)@.map_values(|d: Divergence| div_view(d)).push(
            (observation@, suggestion@),
        ),
{
    let ghost before = v@;
    v.push(Divergence { observation, suggestion });
    proof {
        assert(v@.map_values(|d: Divergence| div_view(d)) =~= before.map_values(|d: Divergence| div_view(d)).push(
            (v@[before.len() as int].observation@, v@[before.len() as int].suggestion@),
        ));
    }
}

/// The status report of `map`: counts of components and bases, components with
/// explicit re-exports; wildcard re-exports and bases with a `main.rs` as
/// divergences; and suggestions for old-model profile directories, missing
/// directories, missing `lib.rs` files, components no base or project reaches
/// (through components' dependencies, keys standing for themselves) and projects
/// without a base. `facts` holds what the report reads from the file system.
pub fn run_status(map: &WorkspaceMap, facts: &StatusFacts) -> (r: StatusReport)
    requires
        status_facts_fit(map, facts),
    ensures
        string_views(r.confirmed@) == confirmations(map, facts),
        r.divergences@.map_values(|d: Divergence| div_view(d)) == component_divergences(
            map,
            facts,
            map.components@.len() as int,
        ) + base_divergences(map, facts, map.bases@.len() as int),
        exists|g: Map<Seq<char>, Vec<String>>|
            #[trigger] crate::graph::graph_of(g, map.components@) && string_views(r.suggestions@) == old_model_hints(
                string_views(facts.old_profile_dirs@),
            ) + workspace_suggestions(map) + component_suggestions(
                map,
                facts,
                status_used(map, g),
                map.components@.len() as int,
            ) + base_suggestions(map, facts, map.bases@.len() as int) + project_suggestions(
                map,
                map.projects@.len() as int,
            ),
{
    let mut confirmed: Vec<String> = Vec::new();
    let mut divergences: Vec<Divergence> = Vec::new();
    let mut suggestions: Vec<String> = Vec::new();
    let ghost dirs = string_views(facts.old_profile_dirs@);
    let mut i: usize = 0;
    proof {
        assert(string_views(suggestions@) =~= old_model_hints(dirs.take(0)));
    }
    while i < facts.old_profile_dirs.len()
        invariant
            i <= facts.old_profile_dirs@.len(),
            dirs == string_views(facts.old_profile_dirs@),
            string_views(suggestions@) == old_model_hints(dirs.take(i as int)),
        decreases facts.old_profile_dirs@.len() - i,
    {
        let name = facts.old_profile_dirs[i].as_str();
        let mut m = owned("old-model profile directory detected at profiles/");
        m.append(name);
        m.append("/\n    run: cargo polylith change-profile ");
        m.append(name);
        push_str(&mut suggestions, m);
        proof {
            assert(dirs[i as int] == name@);
            assert(old_model_hints(dirs.take(i + 1)) =~= old_model_hints(dirs.take(i as int)).push(
                "old-model profile directory detected at profiles/"@ + name@ + "/\n    run: cargo polylith change-profile "@ + name@,
            ));
        }
        i += 1;
    }
    proof {
        assert(dirs.take(dirs.len() as int) =~= dirs);
    }
    let ghost hints = string_views(suggestions@);
    if map.components.len() > 0 {
        let n = decimal(map.components.len());
        let mut m = owned("components/ (");
        m.append(n.as_str());
        m.append(" crates)");
        push_str(&mut confirmed, m);
    } else {
        push_str(&mut suggestions, owned("No components/ directory or no components found"));
    }
    if map.bases.len() > 0 {
        let n = decimal(map.bases.len());
        let mut m = owned("bases/ (");
        m.append(n.as_str());
        m.append(" crates)");
        push_str(&mut confirmed, m);
    } else {
        push_str(&mut suggestions, owned("No bases/ directory or no bases found"));
    }
    if map.projects.len() == 0 {
        push_str(&mut suggestions, owned("No projects/ directory found\n    run: cargo polylith project new <name>"));
    }
    proof {
        assert(string_views(suggestions@) =~= hints + workspace_suggestions(map));
    }
    let ghost conf0 = string_views(confirmed@);

    // Components reachable from what bases and projects depend on.
    let mut g: DepMap = StrMap::new();
    add_brick_deps(&mut g, &map.components);
    let mut seeds: Vec<String> = Vec::new();
    let mut k: usize = 0;
    proof {
        assert(string_views(seeds@) =~= deps_of_bases(map, 0));
    }
    while k < map.bases.len()
        invariant
            k <= map.bases@.len(),
            string_views(seeds@) == deps_of_bases(map, k as int),
        decreases map.bases@.len() - k,
    {
        let ghost before = string_views(seeds@);
        let more = clone_names(&map.bases[k].deps);
        let mut more = more;
        seeds.append(&mut more);
        proof {
            assert(string_views(seeds@) =~= deps_of_bases(map, k + 1));
        }
        k += 1;
    }
    let ghost bseeds = string_views(seeds@);
    let mut k: usize = 0;
    proof {
        assert(string_views(seeds@) =~= bseeds + deps_of_projects(map, 0));
    }
    while k < map.projects.len()
        invariant
            k <= map.projects@.len(),
            bseeds == deps_of_bases(map, map.bases@.len() as int),
            string_views(seeds@) == bseeds + deps_of_projects(map, k as int),
        decreases map.projects@.len() - k,
    {
        let ghost before = seeds@;
        let more = clone_names(&map.projects[k].deps);
        let ghost mv = more@;
        let mut more = more;
        seeds.append(&mut more);
        proof {
            assert(seeds@ == before + mv);
            assert(string_views(seeds@) =~= string_views(before) + string_views(mv));
            assert(string_views(seeds@) =~= bseeds + deps_of_projects(map, k + 1));
        }
        k += 1;
    }
    let used = closure_in(&g, seeds);
    let ghost used_set = status_used(map, g@);
    proof {
        assert forall|n: Seq<char>| string_views(used@).contains(n) == used_set.contains(n) by {
        }
    }

    let ghost sug0 = string_views(suggestions@);
    let ghost div0 = divergences@.map_values(|d: Divergence| div_view(d));
    let mut explicit: usize = 0;
    let mut i: usize = 0;
    proof {
        assert(sug0 + component_suggestions(map, facts, used_set, 0) =~= sug0);
        assert(div0 =~= component_divergences(map, facts, 0));
    }
    while i < map.components.len()
        invariant
            i <= map.components@.len(),
            status_facts_fit(map, facts),
            forall|n: Seq<char>| string_views(used@).contains(n) == used_set.contains(n),
            explicit == explicit_count(map, facts, i as int),
            explicit <= i,
            string_views(suggestions@) == sug0 + component_suggestions(map, facts, used_set, i as int),
            divergences@.map_values(|d: Divergence| div_view(d)) == component_divergences(map, facts, i as int),
        decreases map.components@.len() - i,
    {
        let c = &map.components[i];
        let ghost s_before = string_views(suggestions@);
        let ghost d_before = divergences@.map_values(|d: Divergence| div_view(d));
        match &facts.component_lib_rs[i] {
            None => {
                let mut m = owned("component '");
                m.append(c.name.as_str());
                m.append("': src/lib.rs is missing — add a lib.rs with re-exports");
                push_str(&mut suggestions, m);
            },
            Some(content) => {
                let rn = rust_name(c.name.as_str());
                let mut wild = owned("pub use ");
                wild.append(rn.as_str());
                wild.append("::*");
                let mut any = owned("pub use ");
                any.append(rn.as_str());
                any.append("::");
                if find_text(content.as_str(), wild.as_str()) {
                    let mut obs = owned("component '");
                    obs.append(c.name.as_str());
                    obs.append("': lib.rs uses wildcard re-export");
                    let mut sug = owned("consider explicit `pub use ");
                    sug.append(rn.as_str());
                    sug.append("::{Type, fn};` instead of `pub use ");
                    sug.append(rn.as_str());
                    sug.append("::*;`");
                    push_div(&mut divergences, obs, sug);
                } else if find_text(content.as_str(), any.as_str()) {
                    explicit += 1;
                }
            },
        }
        if !contains_str(&used, c.name.as_str()) {
            let mut m = owned("component '");
            m.append(c.name.as_str());
            m.append("' is not used by any base or project");
            push_str(&mut suggestions, m);
        }
        proof {
            assert(string_views(suggestions@) =~= sug0 + component_suggestions(map, facts, used_set, i + 1));
            assert(divergences@.map_values(|d: Divergence| div_view(d)) =~= component_divergences(map, facts, i + 1));
        }
        i += 1;
    }
    if explicit > 0 {
        let n = decimal(explicit);
        let mut m = n;
        m.append(" component(s) use explicit re-exports");
        push_str(&mut confirmed, m);
    }
    proof {
        assert(string_views(confirmed@) =~= confirmations(map, facts));
    }

    let ghost sug1 = string_views(suggestions@);
    let ghost div1 = divergences@.map_values(|d: Divergence| div_view(d));
    let mut b: usize = 0;
    proof {
        assert(sug1 + base_suggestions(map, facts, 0) =~= sug1);
        assert(div1 + base_divergences(map, facts, 0) =~= div1);
    }
    while b < map.bases.len()
        invariant
            b <= map.bases@.len(),
            status_facts_fit(map, facts),
            string_views(suggestions@) == sug1 + base_suggestions(map, facts, b as int),
            divergences@.map_values(|d: Divergence| div_view(d)) == div1 + base_divergences(map, facts, b as int),
        decreases map.bases@.len() - b,
    {
        let base = &map.bases[b];
        if !facts.base_lib_rs[b] {
            let mut m = owned("base '");
            m.append(base.name.as_str());
            m.append("': src/lib.rs is missing — add a lib.rs exposing a runtime API function");
            push_str(&mut suggestions, m);
        }
        if facts.base_main_rs[b] {
            let mut obs = owned("base '");
            obs.append(base.name.as_str());
            obs.append("': has src/main.rs");
            push_div(
                &mut divergences,
                obs,
                owned("move the executable entry point to a project; bases should only expose library functions like `run()`"),
            );
        }
        proof {
            assert(string_views(suggestions@) =~= sug1 + base_suggestions(map, facts, b + 1));
            assert(divergences@.map_values(|d: Divergence| div_view(d)) =~= div1 + base_divergences(map, facts, b + 1));
        }
        b += 1;
    }

    let ghost sug2 = string_views(suggestions@);
    let mut j: usize = 0;
    proof {
        assert(sug2 + project_suggestions(map, 0) =~= sug2);
    }
    while j < map.projects.len()
        invariant
            j <= map.projects@.len(),
            string_views(suggestions@) == sug2 + project_suggestions(map, j as int),
        decreases map.projects@.len() - j,
    {
        let p = &map.projects[j];
        let mut found_base = false;
        let mut d: usize = 0;
        while d < p.deps.len() && !found_base
            invariant
                d <= p.deps@.len(),
                found_base ==> crate::check::has_base_dep(map, *p),
                !found_base ==> forall|q: int| 0 <= q < d ==> !brick_names(map.bases@).contains(#[trigger] p.deps@[q]@),
            decreases p.deps@.len() - d, (if found_base { 0int } else { 1int }),
        {
            let mut x: usize = 0;
            while x < map.bases.len() && !found_base
                invariant
                    x <= map.bases@.len(),
                    d < p.deps@.len(),
                    found_base ==> crate::check::has_base_dep(map, *p),
                    !found_base ==> forall|q: int| 0 <= q < x ==> brick_names(map.bases@)[q] != p.deps@[d as int]@,
                decreases map.bases@.len() - x, (if found_base { 0int } else { 1int }),
            {
                if crate::text::str_eq(map.bases[x].name.as_str(), p.deps[d].as_str()) {
                    proof {
                        assert(brick_names(map.bases@)[x as int] == p.deps@[d as int]@);
                        assert(brick_names(map.bases@).contains(p.deps@[d as int]@));
                    }
                    found_base = true;
                }
                x += 1;
            }
            proof {
                if !found_base {
                    assert(!brick_names(map.bases@).contains(p.deps@[d as int]@)) by {
                        if brick_names(map.bases@).contains(p.deps@[d as int]@) {
                            let w = choose|w: int| 0 <= w < brick_names(map.bases@).len() && brick_names(map.bases@)[w] == p.deps@[d as int]@;
                            assert(w < map.bases@.len());
                        }
                    }
                }
            }
            d += 1;
        }
        if !found_base {
            let mut m = owned("project '");
            m.append(p.name.as_str());
            m.append("' has no base dependency — polylith projects must include at least one base");
            push_str(&mut suggestions, m);
        }
        proof {
            assert(found_base == crate::check::has_base_dep(map, *p));
            assert(string_views(suggestions@) =~= sug2 + project_suggestions(map, j + 1));
        }
        j += 1;
    }
    proof {
        assert(crate::graph::graph_of(g@, map.components@));
    }
    StatusReport { confirmed, divergences, suggestions }
}

} // verus!
