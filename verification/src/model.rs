//! The workspace model: bricks, projects, profiles and the map that holds them.
use vstd::prelude::*;

use std::path::PathBuf;

use crate::strmap::StrMap;

verus! {

/// File-system paths are carried through the library unchanged.
#[verifier::external_type_specification]
#[verifier::external_body]
pub struct ExPathBuf(PathBuf);

/// `<PathBuf as Clone>::clone` gives back an equal path.
pub assume_specification[<PathBuf as Clone>::clone](p: &PathBuf) -> (r: PathBuf)
    ensures
        r == *p,
;

/// Versioning policy for the polylith workspace.
#[derive(Debug, Clone, Copy, PartialEq, Eq, Structural)]
pub enum VersioningPolicy {
    /// All brick versions equal the workspace version.
    Relaxed,
    /// Every brick owns its version in its own `Cargo.toml`.
    Strict,
}

/// Shared package metadata from root `Cargo.toml` `[package]`.
///
/// `authors` is `None` when the `authors` key was absent in the source, and
/// `Some(vec)` (possibly empty) when the key was explicitly present.
#[derive(Debug, Clone)]
pub struct WorkspacePackageMeta {
    pub version: Option<String>,
    pub edition: Option<String>,
    pub authors: Option<Vec<String>>,
    pub license: Option<String>,
    pub repository: Option<String>,
}

/// Feature and version info for a single external (non-path) dependency.
#[derive(Debug, Clone)]
pub struct ExternalDepInfo {
    /// Sorted list of enabled features.
    pub features: Vec<String>,
    /// Version string, if present (None for git deps, path deps, etc.).
    pub version: Option<String>,
    /// Raw TOML dep value as written in `[libraries]`.
    pub raw: Option<String>,
}

/// Contents of `Polylith.toml`, the polylith workspace root marker.
pub struct PolylithToml {
    pub schema_version: u32,
    pub libraries: StrMap<ExternalDepInfo>,
    /// Maps profile name to the relative path of its `.profile` file.
    pub profiles: StrMap<String>,
    /// `[versioning] policy`; `None` for a workspace without versioning.
    pub versioning_policy: Option<VersioningPolicy>,
    /// `[versioning] version`.
    pub workspace_version: Option<String>,
    /// `[versioning] tag_prefix`.
    pub tag_prefix: Option<String>,
}

/// The two kinds of brick.
#[derive(Debug, Clone, Copy, PartialEq, Eq, Structural)]
pub enum BrickKind {
    Component,
    Base,
}

/// A component or base crate.
#[derive(Debug)]
pub struct Brick {
    pub name: String,
    pub kind: BrickKind,
    pub path: PathBuf,
    pub deps: Vec<String>,
    pub manifest_path: PathBuf,
    /// Value of `[package.metadata.polylith] interface = "..."`, if present.
    pub interface: Option<String>,
    /// Dep keys that use a direct `path = "..."` dep (not `{ workspace = true }`).
    pub path_dep_keys: Vec<String>,
    /// Deps where `package = "X"` and X differs from the dep key: (dep key, package).
    pub hardwired_pkg_deps: Vec<(String, String)>,
}

/// A path dependency declared in `[workspace.dependencies]`, the interface wiring diagram.
#[derive(Debug, Clone)]
pub struct WorkspacePathDep {
    /// Path value as written in the Cargo.toml (relative to the workspace root).
    pub path: String,
    /// `package = "..."` alias, if present.
    pub package: Option<String>,
}

/// A deployable project under `projects/`.
pub struct Project {
    pub name: String,
    pub path: PathBuf,
    pub deps: Vec<String>,
    /// The project's Cargo.toml has its own `[workspace]` section.
    pub has_own_workspace: bool,
    /// The `name` of the first `[[bin]]` entry, if any.
    pub bin_name: Option<String>,
    /// Path dependencies without a `package` alias: (dep key, absolute path).
    pub dep_paths: Vec<(String, PathBuf)>,
    /// External deps with their features and version, by package name.
    pub external_deps: StrMap<ExternalDepInfo>,
    /// Deps where `package = "X"` and X differs from the dep key: (dep key, package).
    pub hardwired_pkg_deps: Vec<(String, String)>,
}

/// A named set of implementation selections applied workspace-wide.
pub struct Profile {
    /// Profile name, from the file name without `.profile`.
    pub name: String,
    /// Absolute path to the `.profile` file.
    pub path: PathBuf,
    /// Interface dep key to component path (relative to the workspace root).
    pub implementations: StrMap<String>,
    /// Dep key to feature/version overrides for library deps.
    pub libraries: StrMap<ExternalDepInfo>,
}

/// Everything known about a workspace.
pub struct WorkspaceMap {
    pub root: PathBuf,
    pub components: Vec<Brick>,
    pub bases: Vec<Brick>,
    pub projects: Vec<Project>,
    /// Raw member patterns from the root `[workspace] members = [...]`.
    pub root_members: Vec<String>,
    /// False when the root Cargo.toml lacks a `[workspace]` section.
    pub is_workspace: bool,
    /// External deps declared in root `[workspace.dependencies]`, by dep key.
    pub root_workspace_deps: StrMap<ExternalDepInfo>,
    /// Path deps declared in root `[workspace.dependencies]`, by interface name.
    pub root_workspace_interface_deps: StrMap<WorkspacePathDep>,
    /// Parsed `Polylith.toml`, if present.
    pub polylith_toml: Option<PolylithToml>,
    /// Package metadata from root `Cargo.toml` `[package]`, if present.
    pub root_package_meta: Option<WorkspacePackageMeta>,
    /// Component name to index into `components`.
    pub component_by_name: StrMap<usize>,
    /// Component interface name to index into `components`.
    pub component_by_interface: StrMap<usize>,
    /// Base name to index into `bases`.
    pub base_by_name: StrMap<usize>,
}

/// What migrating a root workspace to `Polylith.toml` carries over, gathered
/// before anything is written.
pub struct RootDemotionPlan {
    /// Workspace package metadata from `[workspace.package]` in the root `Cargo.toml`.
    pub workspace_package: Option<WorkspacePackageMeta>,
    /// External (non-path) library deps for the `[libraries]` of `Polylith.toml`,
    /// each with its `raw` text.
    pub libraries: StrMap<ExternalDepInfo>,
    /// Profile names found under `profiles/`, to their relative paths.
    pub profiles: StrMap<String>,
}

/// The fully resolved data needed to generate a profile workspace Cargo.toml.
pub struct ResolvedProfileWorkspace {
    /// Profile name (used for the output path and header comment).
    pub profile_name: String,
    /// Workspace members as paths relative to the workspace root.
    pub members: Vec<String>,
    /// Interface (path) dep lines for `[workspace.dependencies]`.
    pub interface_dep_lines: Vec<String>,
    /// Library dep lines for `[workspace.dependencies]`.
    pub library_dep_lines: Vec<String>,
    /// Shared package metadata from root `Cargo.toml` `[package]`, if present.
    pub workspace_package: Option<WorkspacePackageMeta>,
}

/// The name of a brick as characters.
pub open spec fn brick_names(bricks: Seq<Brick>) -> Seq<Seq<char>> {
    bricks.map_values(|b: Brick| b.name@)
}

/// The last position in `bricks` whose name is `n`.
pub open spec fn last_named(bricks: Seq<Brick>, n: Seq<char>) -> int
    decreases bricks.len(),
{
    if bricks.len() == 0 {
        -1
    } else if bricks.last().name@ == n {
        bricks.len() - 1
    } else {
        last_named(bricks.drop_last(), n)
    }
}

/// The last position in `bricks` whose interface is `n`.
pub open spec fn last_with_interface(bricks: Seq<Brick>, n: Seq<char>) -> int
    decreases bricks.len(),
{
    if bricks.len() == 0 {
        -1
    } else if bricks.last().interface matches Some(i) && i@ == n {
        bricks.len() - 1
    } else {
        last_with_interface(bricks.drop_last(), n)
    }
}

/// A name index maps every name that occurs to the last brick carrying it.
pub open spec fn name_index_of(idx: Map<Seq<char>, usize>, bricks: Seq<Brick>) -> bool {
    forall|n: Seq<char>|
        {
            &&& (idx.contains_key(n) <==> last_named(bricks, n) >= 0)
            &&& (idx.contains_key(n) ==> idx[n] == last_named(bricks, n))
        }
}

/// An interface index maps every interface that occurs to the last brick declaring it.
pub open spec fn interface_index_of(idx: Map<Seq<char>, usize>, bricks: Seq<Brick>) -> bool {
    forall|n: Seq<char>|
        {
            &&& (idx.contains_key(n) <==> last_with_interface(bricks, n) >= 0)
            &&& (idx.contains_key(n) ==> idx[n] == last_with_interface(bricks, n))
        }
}

proof fn lemma_last_named_bounds(bricks: Seq<Brick>, n: Seq<char>)
    ensures
        -1 <= last_named(bricks, n) < bricks.len(),
        last_named(bricks, n) >= 0 ==> bricks[last_named(bricks, n)].name@ == n,
    decreases bricks.len(),
{
    if bricks.len() > 0 {
        lemma_last_named_bounds(bricks.drop_last(), n);
    }
}

proof fn lemma_last_iface_bounds(bricks: Seq<Brick>, n: Seq<char>)
    ensures
        -1 <= last_with_interface(bricks, n) < bricks.len(),
        last_with_interface(bricks, n) >= 0 ==> (bricks[last_with_interface(bricks, n)].interface
            matches Some(i) && i@ == n),
    decreases bricks.len(),
{
    if bricks.len() > 0 {
        lemma_last_iface_bounds(bricks.drop_last(), n);
    }
}

/// Builds the name index of a brick list.
pub fn index_by_name(bricks: &Vec<Brick>) -> (r: StrMap<usize>)
    ensures
        name_index_of(r@, bricks@),
{
    let mut m: StrMap<usize> = StrMap::new();
    let mut i: usize = 0;
    while i < bricks.len()
        invariant
            i <= bricks.len(),
            name_index_of(m@, bricks@.take(i as int)),
        decreases bricks.len() - i,
    {
        let ghost before = m@;
        m.insert(bricks[i].name.clone(), i);
        proof {
            let t = bricks@.take(i + 1);
            assert(t.drop_last() =~= bricks@.take(i as int));
            assert(t.last() == bricks@[i as int]);
            assert forall|n: Seq<char>|
                {
                    &&& (m@.contains_key(n) <==> last_named(t, n) >= 0)
                    &&& (m@.contains_key(n) ==> m@[n] == last_named(t, n))
                } by {
                if n != bricks@[i as int].name@ {
                    assert(before.contains_key(n) <==> last_named(bricks@.take(i as int), n) >= 0);
                }
            }
        }
        i += 1;
    }
    proof {
        assert(bricks@.take(bricks.len() as int) =~= bricks@);
    }
    m
}

/// Builds the interface index of a brick list.
pub fn index_by_interface(bricks: &Vec<Brick>) -> (r: StrMap<usize>)
    ensures
        interface_index_of(r@, bricks@),
{
    let mut m: StrMap<usize> = StrMap::new();
    let mut i: usize = 0;
    while i < bricks.len()
        invariant
            i <= bricks.len(),
            interface_index_of(m@, bricks@.take(i as int)),
        decreases bricks.len() - i,
    {
        let ghost before = m@;
        match &bricks[i].interface {
            Some(iface) => {
                m.insert(iface.clone(), i);
            },
            None => {},
        }
        proof {
            let t = bricks@.take(i + 1);
            assert(t.drop_last() =~= bricks@.take(i as int));
            assert(t.last() == bricks@[i as int]);
            assert forall|n: Seq<char>|
                {
                    &&& (m@.contains_key(n) <==> last_with_interface(t, n) >= 0)
                    &&& (m@.contains_key(n) ==> m@[n] == last_with_interface(t, n))
                } by {
                if !(bricks@[i as int].interface matches Some(x) && x@ == n) {
                    assert(before.contains_key(n) <==> last_with_interface(bricks@.take(i as int), n)
                        >= 0);
                }
            }
        }
        i += 1;
    }
    proof {
        assert(bricks@.take(bricks.len() as int) =~= bricks@);
    }
    m
}

impl WorkspaceMap {
    /// The three indexes describe `components` and `bases`.
    pub open spec fn indexes_consistent(&self) -> bool {
        &&& name_index_of(self.component_by_name@, self.components@)
        &&& interface_index_of(self.component_by_interface@, self.components@)
        &&& name_index_of(self.base_by_name@, self.bases@)
    }

    /// Rebuilds the name and interface indexes from `components` and `bases`.
    pub fn rebuild_indexes(&mut self)
        ensures
            final(self).indexes_consistent(),
            final(self).components@ == old(self).components@,
            final(self).bases@ == old(self).bases@,
            final(self).projects@ == old(self).projects@,
    {
        self.component_by_name = index_by_name(&self.components);
        self.component_by_interface = index_by_interface(&self.components);
        self.base_by_name = index_by_name(&self.bases);
    }
}

/// What a dependency key found in a brick's `[dependencies]` stands for.
#[derive(Debug, PartialEq)]
pub enum DepKind<'a> {
    /// The dep key is a base name.
    Base(&'a str),
    /// The dep key resolves to this interface name.
    Interface(&'a str),
    /// Not a polylith brick: an external crate or unknown name.
    External,
}

/// The interface a component implements: its declared interface, or its name.
pub open spec fn interface_or_name(b: Brick) -> Seq<char> {
    match b.interface {
        Some(i) => i@,
        None => b.name@,
    }
}

/// Classify a single dependency key from a brick's `[dependencies]`.
///
/// Priority:
/// 1. Base name → `DepKind::Base`
/// 2. Component package name → `DepKind::Interface` (the component's declared
///    interface, or its package name when it declares none)
/// 3. Component interface name → `DepKind::Interface`
/// 4. Otherwise → `DepKind::External`
pub fn classify_dep<'a>(dep: &str, map: &'a WorkspaceMap) -> (r: DepKind<'a>)
    requires
        map.indexes_consistent(),
    ensures
        map.base_by_name@.contains_key(dep@) ==> (r matches DepKind::Base(s) && s@ == dep@),
        !map.base_by_name@.contains_key(dep@) && map.component_by_name@.contains_key(dep@) ==> (
        r matches DepKind::Interface(s) && s@ == interface_or_name(
            map.components@[last_named(map.components@, dep@)],
        )),
        !map.base_by_name@.contains_key(dep@) && !map.component_by_name@.contains_key(dep@)
            && map.component_by_interface@.contains_key(dep@) ==> (r matches DepKind::Interface(s)
            && s@ == dep@),
        !map.base_by_name@.contains_key(dep@) && !map.component_by_name@.contains_key(dep@)
            && !map.component_by_interface@.contains_key(dep@) ==> r is External,
{
    proof {
        lemma_last_named_bounds(map.bases@, dep@);
        lemma_last_named_bounds(map.components@, dep@);
        lemma_last_iface_bounds(map.components@, dep@);
    }
    if let Some(idx) = map.base_by_name.get(dep) {
        return DepKind::Base(map.bases[*idx].name.as_str());
    }
    if let Some(idx) = map.component_by_name.get(dep) {
        let comp = &map.components[*idx];
        let iface = match &comp.interface {
            Some(i) => i.as_str(),
            None => comp.name.as_str(),
        };
        return DepKind::Interface(iface);
    }
    if let Some(idx) = map.component_by_interface.get(dep) {
        match &map.components[*idx].interface {
            Some(i) => {
                return DepKind::Interface(i.as_str());
            },
            None => {
                proof {
                    assert(false);
                }
                return DepKind::External;
            },
        }
    }
    DepKind::External
}

} // verus!
