//! Strict-mode version bumps: per-brick change severities and per-project
//! recommendations.
use vstd::prelude::*;

use crate::api_diff::{api_change, api_of_source, compare_pub_api, ApiDiff};
use crate::closure::closure_in;
use crate::corsett::string_views;
use crate::graph::{add_brick_deps, reachable, DepMap};
use crate::model::WorkspaceMap;
use crate::order::{insert_sorted_unique, strictly_sorted};
use crate::strmap::StrMap;
use crate::version::{bump_version_checked, can_bump, is_bump_of, semver_parse, semver_text, BumpLevel, SemVer};

verus! {

/// Change severity of a single brick, from least to most severe; the
/// declaration order is the order worst-wins aggregation uses.
#[derive(Debug, Clone, Copy, PartialEq, Eq, PartialOrd, Ord, Structural)]
pub enum ChangeSeverity {
    Unchanged,
    TransitivePatch,
    InternalsChanged,
    InterfaceChanged,
}

impl ChangeSeverity {
    /// The position of the severity in the order.
    pub open spec fn rank_spec(self) -> nat {
        match self {
            ChangeSeverity::Unchanged => 0,
            ChangeSeverity::TransitivePatch => 1,
            ChangeSeverity::InternalsChanged => 2,
            ChangeSeverity::InterfaceChanged => 3,
        }
    }

    /// The position of the severity in the order.
    pub fn rank(self) -> (r: u8)
        ensures
            r == self.rank_spec(),
    {
        match self {
            ChangeSeverity::Unchanged => 0,
            ChangeSeverity::TransitivePatch => 1,
            ChangeSeverity::InternalsChanged => 2,
            ChangeSeverity::InterfaceChanged => 3,
        }
    }

    /// The severity's name in reports.
    pub fn as_str(self) -> (s: &'static str)
        ensures
            s@ == match self {
                ChangeSeverity::Unchanged => "unchanged"@,
                ChangeSeverity::TransitivePatch => "transitive-patch"@,
                ChangeSeverity::InternalsChanged => "internals-changed"@,
                ChangeSeverity::InterfaceChanged => "interface-changed"@,
            },
    {
        match self {
            ChangeSeverity::Unchanged => "unchanged",
            ChangeSeverity::TransitivePatch => "transitive-patch",
            ChangeSeverity::InternalsChanged => "internals-changed",
            ChangeSeverity::InterfaceChanged => "interface-changed",
        }
    }

    /// The bump a severity calls for.
    pub open spec fn bump_level_spec(self) -> Option<BumpLevel> {
        match self {
            ChangeSeverity::Unchanged => None,
            ChangeSeverity::TransitivePatch => Some(BumpLevel::Patch),
            ChangeSeverity::InternalsChanged => Some(BumpLevel::Minor),
            ChangeSeverity::InterfaceChanged => Some(BumpLevel::Major),
        }
    }

    /// The bump level a severity calls for; `None` when no bump is needed.
    pub fn to_bump_level(self) -> (r: Option<BumpLevel>)
        ensures
            r == self.bump_level_spec(),
    {
        match self {
            ChangeSeverity::Unchanged => None,
            ChangeSeverity::TransitivePatch => Some(BumpLevel::Patch),
            ChangeSeverity::InternalsChanged => Some(BumpLevel::Minor),
            ChangeSeverity::InterfaceChanged => Some(BumpLevel::Major),
        }
    }
}

/// The rank of a bump: patch below minor below major, and no bump below all.
pub open spec fn bump_rank(b: Option<BumpLevel>) -> nat {
    match b {
        None => 0,
        Some(BumpLevel::Patch) => 1,
        Some(BumpLevel::Minor) => 2,
        Some(BumpLevel::Major) => 3,
    }
}

/// A more severe change never calls for a smaller bump, and every change but
/// `Unchanged` calls for one.
pub proof fn law_bump_follows_severity(a: ChangeSeverity, b: ChangeSeverity)
    ensures
        a.rank_spec() <= b.rank_spec() ==> bump_rank(a.bump_level_spec()) <= bump_rank(b.bump_level_spec()),
        (a.bump_level_spec() is None) <==> (a == ChangeSeverity::Unchanged),
{
}

/// Per-brick analysis result.
#[derive(Debug, Clone, Copy)]
pub struct BrickChangeReport {
    pub severity: ChangeSeverity,
}

/// Per-project aggregate recommendation.
#[derive(Debug, Clone)]
pub struct ProjectBumpRecommendation {
    pub project_name: String,
    pub current_version: String,
    pub recommended_level: Option<BumpLevel>,
    pub recommended_version: Option<String>,
    pub worst_severity: ChangeSeverity,
    pub changed_bricks: Vec<String>,
}

/// The severity recorded for `n`, `Unchanged` when there is none.
pub open spec fn severity_of(changes: Map<Seq<char>, BrickChangeReport>, n: Seq<char>) -> ChangeSeverity {
    if changes.contains_key(n) {
        changes[n].severity
    } else {
        ChangeSeverity::Unchanged
    }
}

/// `w` is the worst severity among the names in `names`: none is worse, and a
/// worse-than-unchanged `w` is one of them.
pub open spec fn is_worst(changes: Map<Seq<char>, BrickChangeReport>, names: Set<Seq<char>>, w: ChangeSeverity) -> bool {
    &&& forall|n: Seq<char>| #[trigger] names.contains(n) ==> severity_of(changes, n).rank_spec() <= w.rank_spec()
    &&& w != ChangeSeverity::Unchanged ==> exists|n: Seq<char>| #[trigger] names.contains(n) && severity_of(changes, n) == w
}

/// The version a project is at: what its manifest says, or `0.0.0`.
pub open spec fn current_or_default(v: Option<String>) -> Seq<char> {
    match v {
        Some(s) => s@,
        None => "0.0.0"@,
    }
}

/// The recommended next version text for `current` and `level`: none without a
/// level, or when the version does not parse or cannot grow.
pub open spec fn recommended_version_ok(current: Seq<char>, level: Option<BumpLevel>, r: Option<String>) -> bool {
    match level {
        None => r is None,
        Some(l) => match semver_parse(current) {
            Ok(t) => if can_bump(t, l) {
                r matches Some(s) && exists|v: SemVer| is_bump_of(v, t, l) && s@ == #[trigger] semver_text(v)
            } else {
                r is None
            },
            Err(_) => r is None,
        },
    }
}

/// The bump recommendation for one project: the worst change among the bricks
/// reachable from its dependencies, which of them changed, and the bumped version.
pub open spec fn recommendation_ok(
    g: Map<Seq<char>, Vec<String>>,
    changes: Map<Seq<char>, BrickChangeReport>,
    deps: Seq<Seq<char>>,
    name: Seq<char>,
    current: Option<String>,
    rec: ProjectBumpRecommendation,
) -> bool {
    let reach = Set::new(|n: Seq<char>| reachable(g, deps.to_set(), n));
    &&& rec.project_name@ == name
    &&& rec.current_version@ == current_or_default(current)
    &&& is_worst(changes, reach, rec.worst_severity)
    &&& strictly_sorted(string_views(rec.changed_bricks@))
    &&& forall|n: Seq<char>|
        #[trigger] string_views(rec.changed_bricks@).contains(n) <==> (reach.contains(n) && severity_of(changes, n)
            != ChangeSeverity::Unchanged)
    &&& rec.recommended_level == rec.worst_severity.bump_level_spec()
    &&& recommended_version_ok(rec.current_version@, rec.recommended_level, rec.recommended_version)
}

/// Per-project bump recommendations: for each project, the bricks reachable
/// from its dependencies (through the dependency lists of components and bases),
/// worst-wins over their recorded severities. `current_versions` holds each
/// project's version as its manifest gives it, if it does.
pub fn compute_project_recommendations(
    map: &WorkspaceMap,
    brick_changes: &StrMap<BrickChangeReport>,
    current_versions: &Vec<Option<String>>,
) -> (recs: Vec<ProjectBumpRecommendation>)
    requires
        current_versions@.len() == map.projects@.len(),
    ensures
        recs@.len() == map.projects@.len(),
        exists|g: Map<Seq<char>, Vec<String>>|
            #[trigger] crate::graph::bricks_graph(map.components@, map.bases@, g)
            && forall|j: int| 0 <= j < recs@.len() ==> recommendation_ok(
                g,
                brick_changes@,
                string_views(map.projects@[j].deps@),
                map.projects@[j].name@,
                current_versions@[j],
                #[trigger] recs@[j],
            ),
{
    let mut g: DepMap = StrMap::new();
    add_brick_deps(&mut g, &map.components);
    add_brick_deps(&mut g, &map.bases);
    proof {
        assert forall|n: Seq<char>| #[trigger] g@.contains_key(n) implies string_views(g@[n]@) == crate::graph::graph_deps(map.components@, map.bases@, n) by {
            crate::graph::lemma_last_named_bounds(map.components@, n);
            crate::graph::lemma_last_named_bounds(map.bases@, n);
        }
    }
    let mut recs: Vec<ProjectBumpRecommendation> = Vec::new();
    let mut j: usize = 0;
    while j < map.projects.len()
        invariant
            j <= map.projects@.len(),
            current_versions@.len() == map.projects@.len(),
            recs@.len() == j,
            forall|q: int| 0 <= q < j ==> recommendation_ok(
                g@,
                brick_changes@,
                string_views(map.projects@[q].deps@),
                map.projects@[q].name@,
                current_versions@[q],
                #[trigger] recs@[q],
            ),
        decreases map.projects@.len() - j,
    {
        let project = &map.projects[j];
        let current = match &current_versions[j] {
            Some(v) => v.clone(),
            None => crate::text::owned("0.0.0"),
        };
        let seeds = crate::graph::clone_names(&project.deps);
        let reached = closure_in(&g, seeds);
        let ghost reach = Set::new(|n: Seq<char>| reachable(g@, string_views(project.deps@).to_set(), n));
        let mut worst = ChangeSeverity::Unchanged;
        let mut changed: Vec<String> = Vec::new();
        let mut i: usize = 0;
        while i < reached.len()
            invariant
                i <= reached@.len(),
                forall|n: Seq<char>| #[trigger] string_views(reached@).contains(n) <==> reach.contains(n),
                string_views(reached@).no_duplicates(),
                strictly_sorted(string_views(changed@)),
                forall|n: Seq<char>|
                    #[trigger] string_views(changed@).contains(n) <==> (string_views(reached@).take(i as int).contains(n)
                        && severity_of(brick_changes@, n) != ChangeSeverity::Unchanged),
                forall|n: Seq<char>|
                    #[trigger] string_views(reached@).take(i as int).contains(n) ==> severity_of(brick_changes@, n).rank_spec()
                        <= worst.rank_spec(),
                worst != ChangeSeverity::Unchanged ==> exists|n: Seq<char>|
                    #[trigger] string_views(reached@).take(i as int).contains(n) && severity_of(brick_changes@, n) == worst,
            decreases reached@.len() - i,
        {
            let name = reached[i].as_str();
            let ghost prefix = string_views(reached@).take(i as int);
            proof {
                assert(string_views(reached@).take(i + 1) =~= prefix.push(name@));
                assert(string_views(reached@)[i as int] == name@);
            }
            let ghost ch_before = string_views(changed@);
            match brick_changes.get(name) {
                Some(report) => {
                    if report.severity.rank() > worst.rank() {
                        worst = report.severity;
                    }
                    if report.severity.rank() > 0 {
                        insert_sorted_unique(&mut changed, name);
                    }
                },
                None => {},
            }
            proof {
                assert(severity_of(brick_changes@, name@) != ChangeSeverity::Unchanged ==> string_views(changed@).to_set()
                    == ch_before.to_set().insert(name@));
                assert(severity_of(brick_changes@, name@) == ChangeSeverity::Unchanged ==> string_views(changed@)
                    == ch_before);
            }
            proof {
                let t = string_views(reached@).take(i + 1);
                assert forall|n: Seq<char>| #[trigger] string_views(changed@).contains(n) <==> (ch_before.contains(n) || (n == name@
                    && severity_of(brick_changes@, name@) != ChangeSeverity::Unchanged)) by {
                    assert(string_views(changed@).to_set().contains(n) == string_views(changed@).contains(n));
                    assert(ch_before.to_set().contains(n) == ch_before.contains(n));
                }
                assert forall|n: Seq<char>| #[trigger] t.contains(n) <==> (prefix.contains(n) || n == name@) by {
                    if prefix.contains(n) {
                        let w = choose|w: int| 0 <= w < prefix.len() && prefix[w] == n;
                        assert(t[w] == n);
                    }
                    if n == name@ {
                        assert(t[i as int] == n);
                    }
                    if t.contains(n) {
                        let w = choose|w: int| 0 <= w < t.len() && t[w] == n;
                        if w < i {
                            assert(prefix[w] == n);
                        }
                    }
                }
                if worst != ChangeSeverity::Unchanged {
                    if severity_of(brick_changes@, name@) == worst {
                        assert(t.contains(name@));
                    } else {
                        let w = choose|w: Seq<char>| #[trigger] prefix.contains(w) && severity_of(brick_changes@, w) == worst;
                        assert(t.contains(w));
                    }
                }
            }
            i += 1;
        }
        proof {
            assert(string_views(reached@).take(reached@.len() as int) =~= string_views(reached@));
        }
        let level = worst.to_bump_level();
        let version = match level {
            None => None,
            Some(l) => match bump_version_checked(current.as_str(), l) {
                Some(Ok(v)) => Some(v.to_string()),
                _ => None,
            },
        };
        let rec = ProjectBumpRecommendation {
            project_name: project.name.clone(),
            current_version: current,
            recommended_level: level,
            recommended_version: version,
            worst_severity: worst,
            changed_bricks: changed,
        };
        proof {
            assert forall|n: Seq<char>| #[trigger] reach.contains(n) implies severity_of(brick_changes@, n).rank_spec() <= worst.rank_spec() by {
                assert(string_views(reached@).contains(n));
                assert(string_views(reached@).take(reached@.len() as int).contains(n));
            }
            if worst != ChangeSeverity::Unchanged {
                let w = choose|w: Seq<char>| #[trigger] string_views(reached@).take(reached@.len() as int).contains(w) && severity_of(brick_changes@, w) == worst;
                assert(string_views(reached@).contains(w));
                assert(reach.contains(w));
            }
            assert(is_worst(brick_changes@, reach, worst));
            assert forall|n: Seq<char>|
                #[trigger] string_views(changed@).contains(n) <==> (reach.contains(n) && severity_of(brick_changes@, n)
                    != ChangeSeverity::Unchanged) by {
                assert(string_views(reached@).take(reached@.len() as int).contains(n) == string_views(reached@).contains(n));
            }
        }
        recs.push(rec);
        j += 1;
    }
    proof {
        assert(crate::graph::bricks_graph(map.components@, map.bases@, g@));
    }
    recs
}

/// The severity a brick's manifests alone decide: a brick missing at the tag is
/// new (an interface change); an unchanged version is unchanged; otherwise the
/// sources decide (`None`).
pub open spec fn manifest_severity(old_manifest: Option<Option<Seq<char>>>, new_version: Seq<char>) -> Option<ChangeSeverity> {
    match old_manifest {
        None => Some(ChangeSeverity::InterfaceChanged),
        Some(old_version) => if old_version == Some(new_version) {
            Some(ChangeSeverity::Unchanged)
        } else {
            None
        },
    }
}

/// The severity a brick's manifests decide (see [`manifest_severity`]):
/// `old_manifest` is `None` when the brick's manifest did not exist at the tag,
/// else the version it declared then; `new_version` is the version it declares now.
pub fn severity_from_manifests(old_manifest: &Option<Option<String>>, new_version: &str) -> (r: Option<ChangeSeverity>)
    ensures
        r == manifest_severity(
            match *old_manifest {
                Some(v) => Some(
                    match v {
                        Some(s) => Some(s@),
                        None => None,
                    },
                ),
                None => None,
            },
            new_version@,
        ),
{
    match old_manifest {
        None => Some(ChangeSeverity::InterfaceChanged),
        Some(old_version) => {
            let same = match old_version {
                Some(v) => crate::text::str_eq(v.as_str(), new_version),
                None => false,
            };
            if same {
                Some(ChangeSeverity::Unchanged)
            } else {
                None
            }
        },
    }
}

/// The severity when a brick's version moved, from its `src/lib.rs` at the tag
/// and now: a changed public API is an interface change; a changed text an
/// internal change; no change at all a transitive patch. A missing old file
/// counts as an interface change, a missing new one as an internal change.
pub open spec fn source_severity(old_lib: Option<Seq<char>>, new_lib: Option<Seq<char>>) -> ChangeSeverity {
    match (old_lib, new_lib) {
        (Some(o), Some(n)) => match api_change(api_of_source(o), api_of_source(n), o, n) {
            ApiDiff::InterfaceChanged => ChangeSeverity::InterfaceChanged,
            ApiDiff::InternalsOnly => ChangeSeverity::InternalsChanged,
            ApiDiff::Unchanged => ChangeSeverity::TransitivePatch,
        },
        (None, _) => ChangeSeverity::InterfaceChanged,
        (Some(_), None) => ChangeSeverity::InternalsChanged,
    }
}

/// The severity when a brick's version moved (see [`source_severity`]).
pub fn severity_from_sources(old_lib: Option<&str>, new_lib: Option<&str>) -> (r: ChangeSeverity)
    ensures
        r == source_severity(
            match old_lib {
                Some(s) => Some(s@),
                None => None,
            },
            match new_lib {
                Some(s) => Some(s@),
                None => None,
            },
        ),
{
    match (old_lib, new_lib) {
        (Some(o), Some(n)) => match compare_pub_api(o, n) {
            ApiDiff::InterfaceChanged => ChangeSeverity::InterfaceChanged,
            ApiDiff::InternalsOnly => ChangeSeverity::InternalsChanged,
            ApiDiff::Unchanged => ChangeSeverity::TransitivePatch,
        },
        (None, _) => ChangeSeverity::InterfaceChanged,
        (Some(_), None) => ChangeSeverity::InternalsChanged,
    }
}

} // verus!
