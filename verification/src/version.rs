//! Version bump levels and semantic-version arithmetic.
use vstd::prelude::*;

use crate::errors::WorkspaceError;
use crate::text::{chars_of, decimal_spec, decimal_u64, owned, str_eq, trim, trim_spec};

verus! {

/// Which component of a version a bump increments.
#[derive(Debug, Clone, Copy, PartialEq, Eq, Structural)]
pub enum BumpLevel {
    Major,
    Minor,
    Patch,
}

/// The message for a bump level that is none of the three.
pub open spec fn unknown_level_message(s: Seq<char>) -> Seq<char> {
    "unknown bump level '"@ + s + "' (expected 'major', 'minor', or 'patch')"@
}

/// Parses `"major"`, `"minor"` or `"patch"`.
pub fn parse_bump_level(s: &str) -> (r: Result<BumpLevel, String>)
    ensures
        s@ == "major"@ ==> r == Ok::<BumpLevel, String>(BumpLevel::Major),
        s@ == "minor"@ ==> r == Ok::<BumpLevel, String>(BumpLevel::Minor),
        s@ == "patch"@ ==> r == Ok::<BumpLevel, String>(BumpLevel::Patch),
        s@ != "major"@ && s@ != "minor"@ && s@ != "patch"@ ==> (r matches Err(e) && e@
            == unknown_level_message(s@)),
{
    proof {
        reveal_strlit("major");
        reveal_strlit("minor");
        reveal_strlit("patch");
        assert("major"@[0] != "minor"@[0] || "major"@[1] != "minor"@[1]);
        assert("major"@ != "minor"@);
        assert("major"@[0] != "patch"@[0]);
        assert("minor"@[0] != "patch"@[0]);
    }
    if str_eq(s, "major") {
        Ok(BumpLevel::Major)
    } else if str_eq(s, "minor") {
        Ok(BumpLevel::Minor)
    } else if str_eq(s, "patch") {
        Ok(BumpLevel::Patch)
    } else {
        let mut e = owned("unknown bump level '");
        e.append(s);
        e.append("' (expected 'major', 'minor', or 'patch')");
        Err(e)
    }
}

impl std::str::FromStr for BumpLevel {
    type Err = String;

    fn from_str(s: &str) -> (r: Result<Self, Self::Err>)
        ensures
            s@ == "major"@ ==> r == Ok::<BumpLevel, String>(BumpLevel::Major),
            s@ == "minor"@ ==> r == Ok::<BumpLevel, String>(BumpLevel::Minor),
            s@ == "patch"@ ==> r == Ok::<BumpLevel, String>(BumpLevel::Patch),
            s@ != "major"@ && s@ != "minor"@ && s@ != "patch"@ ==> (r matches Err(e) && e@
                == unknown_level_message(s@)),
    {
        parse_bump_level(s)
    }
}

/// A semantic version: numeric components, pre-release and build metadata
/// (each empty when absent).
#[derive(Debug, Clone, PartialEq, Eq)]
pub struct SemVer {
    pub major: u64,
    pub minor: u64,
    pub patch: u64,
    pub pre: String,
    pub build: String,
}

/// The `Version` that `semver::Version::parse` gives for `text`, as (major, minor,
/// patch, pre-release, build metadata), or its error message.
pub uninterp spec fn semver_parse(text: Seq<char>) -> Result<(u64, u64, u64, Seq<char>, Seq<char>), Seq<char>>;

/// `v` holds the parts `t`.
pub open spec fn has_parts(v: SemVer, t: (u64, u64, u64, Seq<char>, Seq<char>)) -> bool {
    v.major == t.0 && v.minor == t.1 && v.patch == t.2 && v.pre@ == t.3 && v.build@ == t.4
}

/// Parses a semantic version.
///
/// Wraps `semver::Version::parse`; the contract names its result (the version's
/// parts, or the error's `Display` text) without restating the grammar.
#[verifier::external_body]
fn parse_semver(text: &str) -> (r: Result<SemVer, String>)
    ensures
        match semver_parse(text@) {
            Ok(t) => r matches Ok(v) && has_parts(v, t),
            Err(m) => r matches Err(e) && e@ == m,
        },
{
    match semver::Version::parse(text) {
        Ok(v) => Ok(
            SemVer {
                major: v.major,
                minor: v.minor,
                patch: v.patch,
                pre: v.pre.as_str().to_string(),
                build: v.build.as_str().to_string(),
            },
        ),
        Err(e) => Err(e.to_string()),
    }
}

/// The text of a version: `major.minor.patch`, then `-pre` and `+build` when present.
pub open spec fn semver_text(v: SemVer) -> Seq<char> {
    decimal_spec(v.major as nat) + "."@ + decimal_spec(v.minor as nat) + "."@ + decimal_spec(
        v.patch as nat,
    ) + (if v.pre@.len() > 0 {
        "-"@ + v.pre@
    } else {
        Seq::empty()
    }) + (if v.build@.len() > 0 {
        "+"@ + v.build@
    } else {
        Seq::empty()
    })
}

impl SemVer {
    /// The version's text, as `semver::Version`'s `Display` writes it.
    pub fn to_string(&self) -> (s: String)
        ensures
            s@ == semver_text(*self),
    {
        let mut s = decimal_u64(self.major);
        s.append(".");
        let mi = decimal_u64(self.minor);
        s.append(mi.as_str());
        s.append(".");
        let pa = decimal_u64(self.patch);
        s.append(pa.as_str());
        if self.pre.as_str().is_empty() {
        } else {
            s.append("-");
            s.append(self.pre.as_str());
        }
        if self.build.as_str().is_empty() {
        } else {
            s.append("+");
            s.append(self.build.as_str());
        }
        s
    }
}

/// The component that `level` increments is below the largest `u64`.
pub open spec fn can_bump(t: (u64, u64, u64, Seq<char>, Seq<char>), level: BumpLevel) -> bool {
    match level {
        BumpLevel::Major => t.0 < u64::MAX,
        BumpLevel::Minor => t.1 < u64::MAX,
        BumpLevel::Patch => t.2 < u64::MAX,
    }
}

/// `v` after a `level` bump of the parts `t`: the component increments, the
/// lower ones reset to 0, the pre-release is dropped and the build metadata kept.
pub open spec fn is_bump_of(v: SemVer, t: (u64, u64, u64, Seq<char>, Seq<char>), level: BumpLevel) -> bool {
    &&& v.pre@.len() == 0
    &&& v.build@ == t.4
    &&& match level {
        BumpLevel::Major => v.major == t.0 + 1 && v.minor == 0 && v.patch == 0,
        BumpLevel::Minor => v.major == t.0 && v.minor == t.1 + 1 && v.patch == 0,
        BumpLevel::Patch => v.major == t.0 && v.minor == t.1 && v.patch == t.2 + 1,
    }
}

/// Law: a bump gives a release strictly later than the version it bumps: the
/// `(major, minor, patch)` triple grows in order (a pre-release is dropped).
pub proof fn law_bump_goes_forward(v: SemVer, t: (u64, u64, u64, Seq<char>, Seq<char>), level: BumpLevel)
    requires
        is_bump_of(v, t, level),
    ensures
        v.major > t.0 || (v.major == t.0 && v.minor > t.1) || (v.major == t.0 && v.minor == t.1 && v.patch > t.2),
        v.pre@.len() == 0,
{
}

/// The message for a version that does not parse.
pub open spec fn invalid_version_message(current: Seq<char>, err: Seq<char>) -> Seq<char> {
    "invalid version '"@ + current + "': "@ + err
}

/// Bumps `current` by `level`, dropping any pre-release; an unparsable version
/// is `WorkspaceError::Other` with the parser's message.
pub fn compute_bumped_version(current: &str, level: BumpLevel) -> (r: Result<SemVer, WorkspaceError>)
    requires
        semver_parse(current@) matches Ok(t) ==> can_bump(t, level),
    ensures
        match semver_parse(current@) {
            Ok(t) => r matches Ok(v) && is_bump_of(v, t, level),
            Err(m) => r matches Err(WorkspaceError::Other(e)) && e@ == invalid_version_message(current@, m),
        },
{
    match parse_semver(current) {
        Ok(v) => {
            let (major, minor, patch) = match level {
                BumpLevel::Major => (v.major + 1, 0, 0),
                BumpLevel::Minor => (v.major, v.minor + 1, 0),
                BumpLevel::Patch => (v.major, v.minor, v.patch + 1),
            };
            Ok(SemVer { major, minor, patch, pre: String::new(), build: v.build })
        },
        Err(e) => {
            let mut m = owned("invalid version '");
            m.append(current);
            m.append("': ");
            m.append(e.as_str());
            Err(WorkspaceError::Other(m))
        },
    }
}

/// [`compute_bumped_version`] when the component it increments has room: `None`
/// when `current` parses but that component is already the largest `u64`.
pub fn bump_version_checked(current: &str, level: BumpLevel) -> (r: Option<Result<SemVer, WorkspaceError>>)
    ensures
        match semver_parse(current@) {
            Ok(t) => if can_bump(t, level) {
                r matches Some(Ok(v)) && is_bump_of(v, t, level)
            } else {
                r is None
            },
            Err(m) => r matches Some(Err(WorkspaceError::Other(e))) && e@ == invalid_version_message(current@, m),
        },
{
    match parse_semver(current) {
        Ok(v) => {
            let room = match level {
                BumpLevel::Major => v.major < u64::MAX,
                BumpLevel::Minor => v.minor < u64::MAX,
                BumpLevel::Patch => v.patch < u64::MAX,
            };
            if room {
                Some(compute_bumped_version(current, level))
            } else {
                None
            }
        },
        Err(_) => Some(compute_bumped_version(current, level)),
    }
}

/// `t` without the leading `p`, when it starts with it.
pub open spec fn after_prefix(t: Seq<char>, p: Seq<char>) -> Seq<char> {
    if p.len() <= t.len() && t.take(p.len() as int) == p {
        t.skip(p.len() as int)
    } else {
        t
    }
}

/// A line of `git tag --list` output names a release: it is not blank and,
/// without the tag prefix, a semantic version.
pub open spec fn is_release_tag(line: Seq<char>, prefix: Seq<char>) -> bool {
    trim_spec(line).len() > 0 && semver_parse(after_prefix(trim_spec(line), prefix)) is Ok
}

fn strip_prefix_chars(t: &str, p: &str) -> (r: String)
    ensures
        r@ == after_prefix(t@, p@),
{
    let tc = chars_of(t);
    let pc = chars_of(p);
    if pc.len() > tc.len() {
        return owned(t);
    }
    let mut i: usize = 0;
    while i < pc.len()
        invariant
            i <= pc@.len() <= tc@.len(),
            tc@ == t@,
            pc@ == p@,
            forall|k: int| 0 <= k < i ==> tc@[k] == pc@[k],
        decreases pc@.len() - i,
    {
        if tc[i] != pc[i] {
            proof {
                assert(t@.take(p@.len() as int)[i as int] != p@[i as int]);
            }
            return owned(t);
        }
        i += 1;
    }
    proof {
        assert(t@.take(p@.len() as int) =~= p@);
    }
    let mut out = String::new();
    let mut k: usize = pc.len();
    while k < tc.len()
        invariant
            pc@.len() <= k <= tc@.len(),
            tc@ == t@,
            out@ == t@.subrange(pc@.len() as int, k as int),
        decreases tc@.len() - k,
    {
        crate::text::push_char(&mut out, tc[k]);
        proof {
            assert(t@.subrange(pc@.len() as int, k + 1) =~= t@.subrange(pc@.len() as int, k as int).push(tc@[k as int]));
        }
        k += 1;
    }
    proof {
        assert(out@ =~= t@.skip(p@.len() as int));
    }
    out
}

/// The latest release tag: the first line of `git tag --list` output (newest
/// first) that names a release (see [`is_release_tag`]), without surrounding
/// whitespace.
pub fn pick_release_tag(lines: &Vec<String>, prefix: &str) -> (r: Option<String>)
    ensures
        match r {
            Some(t) => exists|k: int|
                0 <= k < lines@.len() && is_release_tag(lines@[k]@, prefix@) && t@ == trim_spec(lines@[k]@)
                    && forall|j: int| 0 <= j < k ==> !is_release_tag(#[trigger] lines@[j]@, prefix@),
            None => forall|j: int| 0 <= j < lines@.len() ==> !is_release_tag(#[trigger] lines@[j]@, prefix@),
        },
{
    let mut i: usize = 0;
    while i < lines.len()
        invariant
            i <= lines@.len(),
            forall|j: int| 0 <= j < i ==> !is_release_tag(#[trigger] lines@[j]@, prefix@),
        decreases lines@.len() - i,
    {
        let tag = trim(lines[i].as_str());
        if !tag.as_str().is_empty() {
            let rest = strip_prefix_chars(tag.as_str(), prefix);
            match parse_semver(rest.as_str()) {
                Ok(_) => {
                    proof {
                        assert(is_release_tag(lines@[i as int]@, prefix@));
                    }
                    return Some(tag);
                },
                Err(_) => {},
            }
        }
        i += 1;
    }
    None
}

} // verus!
