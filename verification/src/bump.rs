//! What `bump` does under each versioning policy, before it touches any file.
use vstd::prelude::*;

use crate::check::{join, join_spec};
use crate::corsett::string_views;
use crate::errors::WorkspaceError;
use crate::model::{PolylithToml, VersioningPolicy};
use crate::strict_bump::ProjectBumpRecommendation;
use crate::text::owned;
use crate::version::{
    bump_version_checked, can_bump, invalid_version_message, is_bump_of, parse_bump_level, semver_parse,
    semver_text, unknown_level_message, BumpLevel,
};

verus! {

/// Result returned from the bump command.
pub enum BumpResult {
    /// Relaxed mode: workspace version was bumped.
    Relaxed { old: String, new: String },
    /// Strict mode: per-project recommendations.
    Strict {
        recommendations: Vec<ProjectBumpRecommendation>,
        /// Set when no prior release tag was found.
        no_prior_tag: bool,
    },
}

/// What a bump is to do.
pub enum BumpPlan {
    /// Relaxed mode: move the workspace version from `old` to `new`.
    Relaxed { old: String, new: String },
    /// Strict mode: analyse the changes since the last tag with this prefix.
    Strict { tag_prefix: String },
}

pub open spec fn msg_no_polylith_toml() -> Seq<char> {
    "Polylith.toml not found — run `cargo polylith init` first"@
}

pub open spec fn msg_no_versioning() -> Seq<char> {
    "versioning not configured in Polylith.toml — add a [versioning] section with policy = \"relaxed\""@
}

pub open spec fn msg_level_required() -> Seq<char> {
    "bump level required in relaxed mode — run `cargo polylith bump <major|minor|patch>`"@
}

pub open spec fn msg_no_version() -> Seq<char> {
    "no workspace version set in Polylith.toml [versioning] section"@
}

/// The level a word names, if it names one.
pub open spec fn level_named(s: Seq<char>) -> Option<BumpLevel> {
    if s == "major"@ {
        Some(BumpLevel::Major)
    } else if s == "minor"@ {
        Some(BumpLevel::Minor)
    } else if s == "patch"@ {
        Some(BumpLevel::Patch)
    } else {
        None
    }
}

/// `r` is the failure with message `m`.
pub open spec fn fails_with(r: Option<Result<BumpPlan, String>>, m: Seq<char>) -> bool {
    r matches Some(Err(e)) && e@ == m
}

/// Decides what `bump` does, from `Polylith.toml` (when there is one) and the
/// level word given on the command line: strict mode analyses from the last tag
/// (prefix `v` by default); relaxed mode needs a level and a workspace version,
/// and bumps it. `None` when the component to increment is already the largest
/// `u64`.
pub fn plan_bump(polylith: &Option<PolylithToml>, level: Option<&str>) -> (r: Option<Result<BumpPlan, String>>)
    ensures
        match *polylith {
            None => fails_with(r, msg_no_polylith_toml()),
            Some(p) => match p.versioning_policy {
                None => fails_with(r, msg_no_versioning()),
                Some(VersioningPolicy::Strict) => r matches Some(Ok(BumpPlan::Strict { tag_prefix })) && tag_prefix@
                    == match p.tag_prefix {
                    Some(t) => t@,
                    None => "v"@,
                },
                Some(VersioningPolicy::Relaxed) => match level {
                    None => fails_with(r, msg_level_required()),
                    Some(l) => match p.workspace_version {
                        None => fails_with(r, msg_no_version()),
                        Some(v) => match level_named(l@) {
                            None => fails_with(r, unknown_level_message(l@)),
                            Some(lv) => match semver_parse(v@) {
                                Err(m) => fails_with(r, invalid_version_message(v@, m)),
                                Ok(t) => if can_bump(t, lv) {
                                    r matches Some(Ok(BumpPlan::Relaxed { old, new })) && old@ == v@ && exists|n|
                                        is_bump_of(n, t, lv) && new@ == semver_text(n)
                                } else {
                                    r is None
                                },
                            },
                        },
                    },
                },
            },
        },
{
    proof {
        reveal_strlit("major");
        reveal_strlit("minor");
        reveal_strlit("patch");
        assert("major"@[0] != "minor"@[0] || "major"@[1] != "minor"@[1]);
        assert("major"@[0] != "patch"@[0]);
        assert("minor"@[0] != "patch"@[0]);
    }
    let p = match polylith {
        None => {
            return Some(Err(owned("Polylith.toml not found — run `cargo polylith init` first")));
        },
        Some(p) => p,
    };
    match p.versioning_policy {
        None => Some(
            Err(
                owned(
                    "versioning not configured in Polylith.toml — add a [versioning] section with policy = \"relaxed\"",
                ),
            ),
        ),
        Some(VersioningPolicy::Strict) => {
            let tag_prefix = match &p.tag_prefix {
                Some(t) => t.clone(),
                None => owned("v"),
            };
            Some(Ok(BumpPlan::Strict { tag_prefix }))
        },
        Some(VersioningPolicy::Relaxed) => {
            let l = match level {
                None => {
                    return Some(
                        Err(
                            owned(
                                "bump level required in relaxed mode — run `cargo polylith bump <major|minor|patch>`",
                            ),
                        ),
                    );
                },
                Some(l) => l,
            };
            let current = match &p.workspace_version {
                None => {
                    return Some(Err(owned("no workspace version set in Polylith.toml [versioning] section")));
                },
                Some(v) => v,
            };
            let lv = match parse_bump_level(l) {
                Err(e) => {
                    return Some(Err(e));
                },
                Ok(lv) => lv,
            };
            match bump_version_checked(current.as_str(), lv) {
                None => None,
                Some(Err(WorkspaceError::Other(m))) => Some(Err(m)),
                Some(Err(_)) => {
                    proof {
                        assert(false);
                    }
                    None
                },
                Some(Ok(v)) => {
                    let new = v.to_string();
                    Some(Ok(BumpPlan::Relaxed { old: current.clone(), new }))
                },
            }
        },
    }
}

/// Why a bump is refused when files it would write have uncommitted changes.
pub fn dirty_refusal(dirty: &Vec<String>) -> (r: String)
    ensures
        r@ == "refusing to bump: uncommitted changes in "@ + join_spec(string_views(dirty@), ", "@)
            + " — commit or stash, or pass --allow-dirty"@,
{
    let mut r = owned("refusing to bump: uncommitted changes in ");
    let j = join(dirty, ", ");
    r.append(j.as_str());
    r.append(" — commit or stash, or pass --allow-dirty");
    r
}

} // verus!
