//! Structural checks of a polylith workspace.
use vstd::prelude::*;

use crate::corsett::string_views;
use crate::closure::{
    bounded, expanded, functional, lemma_closure_is_rel_reach, produces, rel_reach, resolvable, step, total,
    transitive_closure,
};
use crate::graph::{add_brick_deps, clone_names, contains_str, lemma_last_named_bounds, DepMap};
use crate::model::{
    brick_names, classify_dep, interface_or_name, last_named, Brick, BrickKind, DepKind, ExternalDepInfo, Profile,
    Project, VersioningPolicy, WorkspaceMap,
};
use crate::order::{insert_sorted_unique, lemma_sorted_unique, strictly_sorted};
use crate::strmap::StrMap;
use crate::text::{chars_of, decimal, decimal_spec, owned, push_char, str_eq};

verus! {

/// A single violation found during `check`.
#[derive(Debug, Clone)]
pub struct Violation {
    pub kind: ViolationKind,
}

/// What a violation is about.
#[derive(Debug, Clone, PartialEq, Eq)]
pub enum ViolationKind {
    /// A component is missing its `src/lib.rs`.
    MissingLibRs { brick: String },
    /// A component is missing its implementation file (`src/<name>.rs`).
    MissingImplFile { brick: String },
    /// A base is missing its `src/lib.rs`; bases must expose a runtime API as a library.
    BaseMissingLibRs { brick: String },
    /// A base has a `src/main.rs`; executable entry points belong in projects.
    BaseHasMainRs { brick: String },
    /// A component is not depended on by any base, project or profile.
    OrphanComponent { brick: String },
    /// A component's lib.rs uses a wildcard re-export (`pub use <name>::*`).
    WildcardReExport { brick: String, rust_name: String },
    /// A project has no dependency on any base.
    ProjectMissingBase { project: String },
    /// A brick is not listed in the root workspace members.
    NotInRootWorkspace { brick: String, kind_label: String, rel: String },
    /// Two or more components declare the same interface and none has the
    /// interface's name as its package name.
    AmbiguousInterface { interface: String, impls: Vec<String> },
    /// Two or more bricks share a package name.
    DuplicateName { name: String, paths: Vec<String> },
    /// A component declares no interface.
    MissingInterface { brick: String },
    /// A project's path dependency key differs from the target's package name.
    DepKeyMismatch { project: String, dep_key: String, expected_name: String, path: String },
    /// A project's external dependency lacks features the root workspace enables.
    ProjectFeatureDrift {
        project: String,
        dep: String,
        project_features: Vec<String>,
        workspace_features: Vec<String>,
    },
    /// A project's external dependency names another version than the root workspace.
    ProjectVersionDrift { project: String, dep: String, project_version: String, workspace_version: String },
    /// A project is not listed in the root workspace members.
    ProjectNotInRootWorkspace { project: String, rel: String },
    /// A project's Cargo.toml has its own `[workspace]` section.
    ProjectHasOwnWorkspace { project: String, rel: String },
    /// A profile's implementation path does not exist.
    ProfileImplPathNotFound { profile: String, interface: String, path: String },
    /// A profile's implementation path is not a known component.
    ProfileImplNotAComponent { profile: String, interface: String, path: String },
    /// A brick has a direct path dependency on another workspace member.
    HardwiredDep { brick: String, dep: String },
    /// A dependency hardwires an implementation with `package = "..."`.
    HardwiredImplDep { brick: String, dep: String, package: String },
    /// A brick does not use `version.workspace = true` in a relaxed-mode workspace.
    BrickNotUsingWorkspaceVersion { brick_name: String },
}

/// A violation with its texts as character sequences.
pub enum KindView {
    MissingLibRs { brick: Seq<char> },
    MissingImplFile { brick: Seq<char> },
    BaseMissingLibRs { brick: Seq<char> },
    BaseHasMainRs { brick: Seq<char> },
    OrphanComponent { brick: Seq<char> },
    WildcardReExport { brick: Seq<char>, rust_name: Seq<char> },
    ProjectMissingBase { project: Seq<char> },
    NotInRootWorkspace { brick: Seq<char>, kind_label: Seq<char>, rel: Seq<char> },
    AmbiguousInterface { interface: Seq<char>, impls: Seq<Seq<char>> },
    DuplicateName { name: Seq<char>, paths: Seq<Seq<char>> },
    MissingInterface { brick: Seq<char> },
    DepKeyMismatch { project: Seq<char>, dep_key: Seq<char>, expected_name: Seq<char>, path: Seq<char> },
    ProjectFeatureDrift {
        project: Seq<char>,
        dep: Seq<char>,
        project_features: Seq<Seq<char>>,
        workspace_features: Seq<Seq<char>>,
    },
    ProjectVersionDrift { project: Seq<char>, dep: Seq<char>, project_version: Seq<char>, workspace_version: Seq<char> },
    ProjectNotInRootWorkspace { project: Seq<char>, rel: Seq<char> },
    ProjectHasOwnWorkspace { project: Seq<char>, rel: Seq<char> },
    ProfileImplPathNotFound { profile: Seq<char>, interface: Seq<char>, path: Seq<char> },
    ProfileImplNotAComponent { profile: Seq<char>, interface: Seq<char>, path: Seq<char> },
    HardwiredDep { brick: Seq<char>, dep: Seq<char> },
    HardwiredImplDep { brick: Seq<char>, dep: Seq<char>, package: Seq<char> },
    BrickNotUsingWorkspaceVersion { brick_name: Seq<char> },
}

impl View for ViolationKind {
    type V = KindView;

    open spec fn view(&self) -> KindView {
        match self {
            ViolationKind::MissingLibRs { brick } => KindView::MissingLibRs { brick: brick@ },
            ViolationKind::MissingImplFile { brick } => KindView::MissingImplFile { brick: brick@ },
            ViolationKind::BaseMissingLibRs { brick } => KindView::BaseMissingLibRs { brick: brick@ },
            ViolationKind::BaseHasMainRs { brick } => KindView::BaseHasMainRs { brick: brick@ },
            ViolationKind::OrphanComponent { brick } => KindView::OrphanComponent { brick: brick@ },
            ViolationKind::WildcardReExport { brick, rust_name } => KindView::WildcardReExport {
                brick: brick@,
                rust_name: rust_name@,
            },
            ViolationKind::ProjectMissingBase { project } => KindView::ProjectMissingBase { project: project@ },
            ViolationKind::NotInRootWorkspace { brick, kind_label, rel } => KindView::NotInRootWorkspace {
                brick: brick@,
                kind_label: kind_label@,
                rel: rel@,
            },
            ViolationKind::AmbiguousInterface { interface, impls } => KindView::AmbiguousInterface {
                interface: interface@,
                impls: string_views(impls@),
            },
            ViolationKind::DuplicateName { name, paths } => KindView::DuplicateName {
                name: name@,
                paths: string_views(paths@),
            },
            ViolationKind::MissingInterface { brick } => KindView::MissingInterface { brick: brick@ },
            ViolationKind::DepKeyMismatch { project, dep_key, expected_name, path } => KindView::DepKeyMismatch {
                project: project@,
                dep_key: dep_key@,
                expected_name: expected_name@,
                path: path@,
            },
            ViolationKind::ProjectFeatureDrift { project, dep, project_features, workspace_features } =>
                KindView::ProjectFeatureDrift {
                project: project@,
                dep: dep@,
                project_features: string_views(project_features@),
                workspace_features: string_views(workspace_features@),
            },
            ViolationKind::ProjectVersionDrift { project, dep, project_version, workspace_version } =>
                KindView::ProjectVersionDrift {
                project: project@,
                dep: dep@,
                project_version: project_version@,
                workspace_version: workspace_version@,
            },
            ViolationKind::ProjectNotInRootWorkspace { project, rel } => KindView::ProjectNotInRootWorkspace {
                project: project@,
                rel: rel@,
            },
            ViolationKind::ProjectHasOwnWorkspace { project, rel } => KindView::ProjectHasOwnWorkspace {
                project: project@,
                rel: rel@,
            },
            ViolationKind::ProfileImplPathNotFound { profile, interface, path } => KindView::ProfileImplPathNotFound {
                profile: profile@,
                interface: interface@,
                path: path@,
            },
            ViolationKind::ProfileImplNotAComponent { profile, interface, path } =>
                KindView::ProfileImplNotAComponent { profile: profile@, interface: interface@, path: path@ },
            ViolationKind::HardwiredDep { brick, dep } => KindView::HardwiredDep { brick: brick@, dep: dep@ },
            ViolationKind::HardwiredImplDep { brick, dep, package } => KindView::HardwiredImplDep {
                brick: brick@,
                dep: dep@,
                package: package@,
            },
            ViolationKind::BrickNotUsingWorkspaceVersion { brick_name } =>
                KindView::BrickNotUsingWorkspaceVersion { brick_name: brick_name@ },
        }
    }
}

/// The kinds that are warnings (exit 0); the others are hard errors.
pub open spec fn is_warning_spec(k: KindView) -> bool {
    match k {
        KindView::OrphanComponent { .. } => true,
        KindView::WildcardReExport { .. } => true,
        KindView::BaseHasMainRs { .. } => true,
        KindView::ProjectMissingBase { .. } => true,
        KindView::NotInRootWorkspace { .. } => true,
        KindView::AmbiguousInterface { .. } => true,
        KindView::DuplicateName { .. } => true,
        KindView::MissingInterface { .. } => true,
        KindView::ProjectFeatureDrift { .. } => true,
        KindView::ProjectVersionDrift { .. } => true,
        KindView::HardwiredDep { .. } => true,
        KindView::BrickNotUsingWorkspaceVersion { .. } => true,
        KindView::ProfileImplPathNotFound { .. } => true,
        KindView::ProfileImplNotAComponent { .. } => true,
        _ => false,
    }
}

/// Returns `true` for violation kinds that are warnings (exit 0), `false` for hard errors.
pub fn is_warning_kind(k: &ViolationKind) -> (b: bool)
    ensures
        b == is_warning_spec(k@),
{
    match k {
        ViolationKind::OrphanComponent { .. } => true,
        ViolationKind::WildcardReExport { .. } => true,
        ViolationKind::BaseHasMainRs { .. } => true,
        ViolationKind::ProjectMissingBase { .. } => true,
        ViolationKind::NotInRootWorkspace { .. } => true,
        ViolationKind::AmbiguousInterface { .. } => true,
        ViolationKind::DuplicateName { .. } => true,
        ViolationKind::MissingInterface { .. } => true,
        ViolationKind::ProjectFeatureDrift { .. } => true,
        ViolationKind::ProjectVersionDrift { .. } => true,
        ViolationKind::ProjectNotInRootWorkspace { .. } => false,
        ViolationKind::ProjectHasOwnWorkspace { .. } => false,
        ViolationKind::MissingLibRs { .. } => false,
        ViolationKind::MissingImplFile { .. } => false,
        ViolationKind::BaseMissingLibRs { .. } => false,
        ViolationKind::DepKeyMismatch { .. } => false,
        ViolationKind::ProfileImplPathNotFound { .. } => true,
        ViolationKind::ProfileImplNotAComponent { .. } => true,
        ViolationKind::HardwiredDep { .. } => true,
        ViolationKind::HardwiredImplDep { .. } => false,
        ViolationKind::BrickNotUsingWorkspaceVersion { .. } => true,
    }
}

/// Law: the class of every violation kind is the documented one. Exactly the
/// structural errors fail the check: a component or base missing `src/lib.rs`, a
/// component missing `src/<name>.rs`, a project with its own `[workspace]` or
/// missing from the root workspace, a dependency key that differs from the
/// package name, and a hardwired dependency on an implementation. Every other
/// kind is a warning.
pub proof fn law_violation_classes(k: KindView)
    ensures
        !is_warning_spec(k) <==> (k is MissingLibRs || k is MissingImplFile || k is BaseMissingLibRs
            || k is ProjectHasOwnWorkspace || k is ProjectNotInRootWorkspace || k is DepKeyMismatch
            || k is HardwiredImplDep),
{
}

/// `parts` joined with `sep` between neighbours.
pub open spec fn join_spec(parts: Seq<Seq<char>>, sep: Seq<char>) -> Seq<char>
    decreases parts.len(),
{
    if parts.len() == 0 {
        Seq::empty()
    } else if parts.len() == 1 {
        parts[0]
    } else {
        join_spec(parts.drop_last(), sep) + sep + parts.last()
    }
}

/// `parts` joined with `sep` between neighbours, as `[String]::join` gives it.
pub fn join(parts: &Vec<String>, sep: &str) -> (r: String)
    ensures
        r@ == join_spec(string_views(parts@), sep@),
{
    let mut out = String::new();
    let mut i: usize = 0;
    while i < parts.len()
        invariant
            i <= parts@.len(),
            out@ == join_spec(string_views(parts@).take(i as int), sep@),
        decreases parts@.len() - i,
    {
        let ghost before = string_views(parts@).take(i as int);
        if i > 0 {
            out.append(sep);
        }
        out.append(parts[i].as_str());
        proof {
            let t = string_views(parts@).take(i + 1);
            assert(t.drop_last() =~= before);
            assert(t.last() == parts@[i as int]@);
            if i == 0 {
                assert(before.len() == 0);
                assert(join_spec(before, sep@) =~= Seq::<char>::empty());
                assert(out@ =~= t[0]);
            }
        }
        i += 1;
    }
    proof {
        assert(string_views(parts@).take(parts@.len() as int) =~= string_views(parts@));
    }
    out
}

/// What `format!("{:?}", names)` writes for a list of strings.
pub uninterp spec fn debug_list_text(names: Seq<Seq<char>>) -> Seq<char>;

/// Renders a list of strings with `Debug`, as `["a", "b"]`.
///
/// Wraps the standard library's `Debug` for a list of strings; the contract names
/// its output, whose quoting and escaping the standard library defines.
#[verifier::external_body]
fn debug_names(names: &Vec<String>) -> (s: String)
    ensures
        s@ == debug_list_text(string_views(names@)),
{
    format!("{:?}", names)
}

/// The members of `ws` that `have` lacks, in order.
pub open spec fn missing_from(ws: Seq<Seq<char>>, have: Seq<Seq<char>>) -> Seq<Seq<char>>
    decreases ws.len(),
{
    if ws.len() == 0 {
        Seq::empty()
    } else if have.contains(ws.last()) {
        missing_from(ws.drop_last(), have)
    } else {
        missing_from(ws.drop_last(), have).push(ws.last())
    }
}

/// The members of `ws` that `have` lacks, in order.
pub fn missing_features(ws: &Vec<String>, have: &Vec<String>) -> (r: Vec<String>)
    ensures
        string_views(r@) == missing_from(string_views(ws@), string_views(have@)),
{
    let mut out: Vec<String> = Vec::new();
    let mut i: usize = 0;
    while i < ws.len()
        invariant
            i <= ws@.len(),
            string_views(out@) == missing_from(string_views(ws@).take(i as int), string_views(have@)),
        decreases ws@.len() - i,
    {
        let ghost before = out@;
        proof {
            let t = string_views(ws@).take(i + 1);
            assert(t.drop_last() =~= string_views(ws@).take(i as int));
            assert(t.last() == ws@[i as int]@);
        }
        if !crate::graph::contains_str(have, ws[i].as_str()) {
            out.push(ws[i].clone());
            proof {
                assert(string_views(out@) =~= string_views(before).push(ws@[i as int]@));
            }
        }
        i += 1;
    }
    proof {
        assert(string_views(ws@).take(ws@.len() as int) =~= string_views(ws@));
    }
    out
}

/// The message `check` prints for a violation.
pub open spec fn message_spec(k: KindView) -> Seq<char> {
    match k {
        KindView::MissingLibRs { brick } => "component '"@ + brick + "': src/lib.rs is missing"@,
        KindView::MissingImplFile { brick } => "component '"@ + brick + "': src/"@ + brick + ".rs is missing"@,
        KindView::BaseMissingLibRs { brick } => "base '"@ + brick
            + "': src/lib.rs is missing — bases must expose a runtime API as a library function"@,
        KindView::BaseHasMainRs { brick } => "base '"@ + brick
            + "': src/main.rs should be in a project, not a base — bases expose library functions like `run()` that projects call"@,
        KindView::OrphanComponent { brick } => "component '"@ + brick + "' is not used by any base, project, or profile"@,
        KindView::WildcardReExport { brick, rust_name } => "component '"@ + brick
            + "': lib.rs uses wildcard re-export — consider explicit `pub use "@ + rust_name + "::{Type, fn};`"@,
        KindView::ProjectMissingBase { project } => "project '"@ + project
            + "' has no base dependency — polylith projects must include at least one base"@,
        KindView::NotInRootWorkspace { brick, kind_label, rel } => kind_label + " '"@ + brick
            + "' is not listed in root workspace members — add '"@ + rel + "' to [workspace] members in Cargo.toml"@,
        KindView::AmbiguousInterface { interface, impls } => "interface '"@ + interface + "' has "@ + decimal_spec(
            impls.len(),
        ) + " implementations ("@ + join_spec(impls, ", "@)
            + ") but none has the default package name — every consumer must explicitly declare which implementation to use (path + package = \"...\")"@,
        KindView::DuplicateName { name, paths } => "package name '"@ + name + "' is used by "@ + decimal_spec(
            paths.len(),
        ) + " bricks ("@ + join_spec(paths, ", "@)
            + ") — give each a distinct name and declare `[package.metadata.polylith] interface = \""@ + name
            + "\"` on both"@,
        KindView::MissingInterface { brick } => "component '"@ + brick
            + "' has no `[package.metadata.polylith] interface = \"...\"` declaration — add interface metadata or run `cargo polylith edit` to set it"@,
        KindView::DepKeyMismatch { project, dep_key, expected_name, path } => "project '"@ + project + "': dep key '"@
            + dep_key + "' does not match package name '"@ + expected_name + "' at "@ + path
            + " — use the correct package name as the dep key, or add `package = \""@ + expected_name
            + "\"` as an alias"@,
        KindView::ProjectFeatureDrift { project, dep, project_features, workspace_features } => "project '"@ + project
            + "': dep '"@ + dep + "' standalone build is missing workspace features "@ + debug_list_text(
            missing_from(workspace_features, project_features),
        ),
        KindView::ProjectVersionDrift { project, dep, project_version, workspace_version } => "project '"@ + project
            + "': dep '"@ + dep + "' version '"@ + project_version + "' differs from workspace version '"@
            + workspace_version + "' — standalone build may resolve a different version"@,
        KindView::ProjectNotInRootWorkspace { project, rel } => "project '"@ + project
            + "' is not listed in root workspace members — add '"@ + rel + "' to [workspace] members in Cargo.toml"@,
        KindView::ProjectHasOwnWorkspace { project, rel } => "project '"@ + project
            + "' has its own [workspace] section — remove it from "@ + rel
            + "/Cargo.toml and add the project to the root workspace members"@,
        KindView::ProfileImplPathNotFound { profile, interface, path } => "profile '"@ + profile
            + "': implementation path '"@ + path + "' for interface '"@ + interface + "' does not exist"@,
        KindView::ProfileImplNotAComponent { profile, interface, path } => "profile '"@ + profile + "': '"@ + path
            + "' for interface '"@ + interface + "' is not a known workspace component"@,
        KindView::HardwiredDep { brick, dep } => "'"@ + brick + "' has a direct path dep on '"@ + dep
            + "' — consider using `{ workspace = true }` and the profile wiring diagram"@,
        KindView::HardwiredImplDep { brick, dep, package } => "'"@ + brick + "': dep '"@ + dep + "' uses `package = \""@
            + package + "\"` — this hardwires a specific implementation instead of coding against the interface"@,
        KindView::BrickNotUsingWorkspaceVersion { brick_name } => "brick '"@ + brick_name
            + "' does not use `version.workspace = true` — in relaxed mode all brick versions should follow the workspace version"@,
    }
}

/// Builds a string from three parts.
fn cat3(a: &str, b: &str, c: &str) -> (r: String)
    ensures
        r@ == a@ + b@ + c@,
{
    let mut r = owned(a);
    r.append(b);
    r.append(c);
    r
}

/// Appends `b` then `c` to `r`.
fn add2(r: &mut String, b: &str, c: &str)
    ensures
        final(r)@ == old(r)@ + b@ + c@,
{
    r.append(b);
    r.append(c);
}

impl ViolationKind {
    /// The message `check` prints for this violation.
    pub fn to_string(&self) -> (s: String)
        ensures
            s@ == message_spec(self@),
    {
        match self {
            ViolationKind::MissingLibRs { brick } => cat3("component '", brick.as_str(), "': src/lib.rs is missing"),
            ViolationKind::MissingImplFile { brick } => {
                let mut r = cat3("component '", brick.as_str(), "': src/");
                add2(&mut r, brick.as_str(), ".rs is missing");
                r
            },
            ViolationKind::BaseMissingLibRs { brick } => cat3(
                "base '",
                brick.as_str(),
                "': src/lib.rs is missing — bases must expose a runtime API as a library function",
            ),
            ViolationKind::BaseHasMainRs { brick } => cat3(
                "base '",
                brick.as_str(),
                "': src/main.rs should be in a project, not a base — bases expose library functions like `run()` that projects call",
            ),
            ViolationKind::OrphanComponent { brick } => cat3(
                "component '",
                brick.as_str(),
                "' is not used by any base, project, or profile",
            ),
            ViolationKind::WildcardReExport { brick, rust_name } => {
                let mut r = cat3(
                    "component '",
                    brick.as_str(),
                    "': lib.rs uses wildcard re-export — consider explicit `pub use ",
                );
                add2(&mut r, rust_name.as_str(), "::{Type, fn};`");
                r
            },
            ViolationKind::ProjectMissingBase { project } => cat3(
                "project '",
                project.as_str(),
                "' has no base dependency — polylith projects must include at least one base",
            ),
            ViolationKind::NotInRootWorkspace { brick, kind_label, rel } => {
                let mut r = cat3(kind_label.as_str(), " '", brick.as_str());
                add2(&mut r, "' is not listed in root workspace members — add '", rel.as_str());
                r.append("' to [workspace] members in Cargo.toml");
                r
            },
            ViolationKind::AmbiguousInterface { interface, impls } => {
                let n = decimal(impls.len());
                let j = join(impls, ", ");
                let mut r = cat3("interface '", interface.as_str(), "' has ");
                add2(&mut r, n.as_str(), " implementations (");
                add2(
                    &mut r,
                    j.as_str(),
                    ") but none has the default package name — every consumer must explicitly declare which implementation to use (path + package = \"...\")",
                );
                r
            },
            ViolationKind::DuplicateName { name, paths } => {
                let n = decimal(paths.len());
                let j = join(paths, ", ");
                let mut r = cat3("package name '", name.as_str(), "' is used by ");
                add2(&mut r, n.as_str(), " bricks (");
                add2(
                    &mut r,
                    j.as_str(),
                    ") — give each a distinct name and declare `[package.metadata.polylith] interface = \"",
                );
                add2(&mut r, name.as_str(), "\"` on both");
                r
            },
            ViolationKind::MissingInterface { brick } => cat3(
                "component '",
                brick.as_str(),
                "' has no `[package.metadata.polylith] interface = \"...\"` declaration — add interface metadata or run `cargo polylith edit` to set it",
            ),
            ViolationKind::DepKeyMismatch { project, dep_key, expected_name, path } => {
                let mut r = cat3("project '", project.as_str(), "': dep key '");
                add2(&mut r, dep_key.as_str(), "' does not match package name '");
                add2(&mut r, expected_name.as_str(), "' at ");
                add2(
                    &mut r,
                    path.as_str(),
                    " — use the correct package name as the dep key, or add `package = \"",
                );
                add2(&mut r, expected_name.as_str(), "\"` as an alias");
                r
            },
            ViolationKind::ProjectFeatureDrift { project, dep, project_features, workspace_features } => {
                let missing = missing_features(workspace_features, project_features);
                let d = debug_names(&missing);
                let mut r = cat3("project '", project.as_str(), "': dep '");
                add2(&mut r, dep.as_str(), "' standalone build is missing workspace features ");
                r.append(d.as_str());
                r
            },
            ViolationKind::ProjectVersionDrift { project, dep, project_version, workspace_version } => {
                let mut r = cat3("project '", project.as_str(), "': dep '");
                add2(&mut r, dep.as_str(), "' version '");
                add2(&mut r, project_version.as_str(), "' differs from workspace version '");
                add2(
                    &mut r,
                    workspace_version.as_str(),
                    "' — standalone build may resolve a different version",
                );
                r
            },
            ViolationKind::ProjectNotInRootWorkspace { project, rel } => {
                let mut r = cat3(
                    "project '",
                    project.as_str(),
                    "' is not listed in root workspace members — add '",
                );
                add2(&mut r, rel.as_str(), "' to [workspace] members in Cargo.toml");
                r
            },
            ViolationKind::ProjectHasOwnWorkspace { project, rel } => {
                let mut r = cat3(
                    "project '",
                    project.as_str(),
                    "' has its own [workspace] section — remove it from ",
                );
                add2(
                    &mut r,
                    rel.as_str(),
                    "/Cargo.toml and add the project to the root workspace members",
                );
                r
            },
            ViolationKind::ProfileImplPathNotFound { profile, interface, path } => {
                let mut r = cat3("profile '", profile.as_str(), "': implementation path '");
                add2(&mut r, path.as_str(), "' for interface '");
                add2(&mut r, interface.as_str(), "' does not exist");
                r
            },
            ViolationKind::ProfileImplNotAComponent { profile, interface, path } => {
                let mut r = cat3("profile '", profile.as_str(), "': '");
                add2(&mut r, path.as_str(), "' for interface '");
                add2(&mut r, interface.as_str(), "' is not a known workspace component");
                r
            },
            ViolationKind::HardwiredDep { brick, dep } => {
                let mut r = cat3("'", brick.as_str(), "' has a direct path dep on '");
                add2(
                    &mut r,
                    dep.as_str(),
                    "' — consider using `{ workspace = true }` and the profile wiring diagram",
                );
                r
            },
            ViolationKind::HardwiredImplDep { brick, dep, package } => {
                let mut r = cat3("'", brick.as_str(), "': dep '");
                add2(&mut r, dep.as_str(), "' uses `package = \"");
                add2(
                    &mut r,
                    package.as_str(),
                    "\"` — this hardwires a specific implementation instead of coding against the interface",
                );
                r
            },
            ViolationKind::BrickNotUsingWorkspaceVersion { brick_name } => cat3(
                "brick '",
                brick_name.as_str(),
                "' does not use `version.workspace = true` — in relaxed mode all brick versions should follow the workspace version",
            ),
        }
    }
}

/// `pattern` (a root `[workspace] members` entry) covers `rel` (a path relative
/// to the root with `/` separators): `dir/*` covers every direct child of `dir`,
/// any other pattern only itself.
pub open spec fn member_covers_spec(pattern: Seq<char>, rel: Seq<char>) -> bool {
    if pattern.len() >= 2 && pattern[pattern.len() - 2] == '/' && pattern[pattern.len() - 1] == '*' {
        let prefix = pattern.take(pattern.len() - 1);
        rel.len() >= prefix.len() && rel.take(prefix.len() as int) == prefix && !rel.skip(prefix.len() as int).contains('/')
    } else {
        rel == pattern
    }
}

/// Whether `pattern` (a root workspace members entry) covers `rel_path` (a path
/// relative to the workspace root, using `/` separators): `"components/*"`
/// matches any direct child of `components/`, `"components/foo"` only itself.
pub fn member_covers(pattern: &str, rel_path: &str) -> (b: bool)
    ensures
        b == member_covers_spec(pattern@, rel_path@),
{
    let p = chars_of(pattern);
    let r = chars_of(rel_path);
    let n = p.len();
    if n >= 2 && p[n - 2] == '/' && p[n - 1] == '*' {
        let k = n - 1;
        if r.len() < k {
            return false;
        }
        let mut i: usize = 0;
        while i < k
            invariant
                i <= k,
                k == n - 1,
                n == p@.len(),
                k <= r@.len(),
                p@ == pattern@,
                r@ == rel_path@,
                r@.take(i as int) == p@.take(i as int),
            decreases k - i,
        {
            if r[i] != p[i] {
                proof {
                    assert(r@.take(k as int)[i as int] != p@.take(k as int)[i as int]);
                }
                return false;
            }
            proof {
                assert(r@.take(i + 1) =~= r@.take(i as int).push(r@[i as int]));
                assert(p@.take(i + 1) =~= p@.take(i as int).push(p@[i as int]));
            }
            i += 1;
        }
        let mut j: usize = k;
        while j < r.len()
            invariant
                k <= j <= r@.len(),
                r@ == rel_path@,
                p@ == pattern@,
                n == p@.len(),
                n >= 2,
                k == n - 1,
                p@[n - 2] == '/',
                p@[n - 1] == '*',
                forall|q: int| k <= q < j ==> r@[q] != '/',
            decreases r@.len() - j,
        {
            if r[j] == '/' {
                proof {
                    assert(r@.skip(k as int)[j - k] == '/');
                    assert(r@.skip(k as int).contains('/'));
                }
                return false;
            }
            j += 1;
        }
        proof {
            assert forall|q: int| 0 <= q < r@.skip(k as int).len() implies r@.skip(k as int)[q] != '/' by {
                assert(r@.skip(k as int)[q] == r@[q + k]);
            }
        }
        true
    } else {
        str_eq(rel_path, pattern)
    }
}

/// What the file system says about one implementation path of a profile.
#[derive(Debug, Clone, Copy, PartialEq, Eq, Structural)]
pub enum ImplPathStatus {
    /// No file or directory at the path.
    Missing,
    /// The path exists but is no workspace component.
    NotAComponent,
    /// The path is a workspace component.
    Component,
}

/// The violations of one profile entry (interface `iface`, path `path`).
pub open spec fn profile_entry_violations(profile: Seq<char>, iface: Seq<char>, path: Seq<char>, st: ImplPathStatus) -> Seq<KindView> {
    match st {
        ImplPathStatus::Missing => seq![KindView::ProfileImplPathNotFound { profile, interface: iface, path }],
        ImplPathStatus::NotAComponent => seq![KindView::ProfileImplNotAComponent { profile, interface: iface, path }],
        ImplPathStatus::Component => Seq::empty(),
    }
}

/// The violations of the first `k` entries of a profile.
pub open spec fn profile_violations(
    name: Seq<char>,
    keys: Seq<Seq<char>>,
    imps: Map<Seq<char>, String>,
    statuses: Seq<ImplPathStatus>,
    k: int,
) -> Seq<KindView>
    decreases k,
{
    if k <= 0 {
        Seq::empty()
    } else {
        profile_violations(name, keys, imps, statuses, k - 1) + profile_entry_violations(
            name,
            keys[k - 1],
            imps[keys[k - 1]]@,
            statuses[k - 1],
        )
    }
}

/// The kinds of a list of violations.
pub open spec fn kinds(v: Seq<Violation>) -> Seq<KindView> {
    v.map_values(|x: Violation| x.kind@)
}

/// Appends a violation.
fn emit(out: &mut Vec<Violation>, kind: ViolationKind)
    ensures
        kinds(final(out)@) == kinds(old(out)@).push(kind@),
{
    let ghost before = out@;
    out.push(Violation { kind });
    proof {
        assert(kinds(out@) =~= kinds(before).push(out@[before.len() as int].kind@));
    }
}

/// Validates a profile: an implementation path that does not exist, or that is
/// no known component, is a violation. `statuses` holds, for each entry of the
/// profile's implementations in order, what the file system says of its path.
pub fn check_profile(profile: &Profile, statuses: &Vec<ImplPathStatus>) -> (r: Vec<Violation>)
    requires
        statuses@.len() == profile.implementations.key_seq().len(),
    ensures
        kinds(r@) == profile_violations(
            profile.name@,
            profile.implementations.key_seq(),
            profile.implementations@,
            statuses@,
            statuses@.len() as int,
        ),
{
    let mut out: Vec<Violation> = Vec::new();
    let n = profile.implementations.len();
    let mut i: usize = 0;
    proof {
        assert(kinds(out@) =~= Seq::<KindView>::empty());
    }
    while i < n
        invariant
            i <= n,
            n == profile.implementations.key_seq().len(),
            statuses@.len() == n,
            profile.implementations@.dom() == profile.implementations.key_seq().to_set(),
            kinds(out@) == profile_violations(
                profile.name@,
                profile.implementations.key_seq(),
                profile.implementations@,
                statuses@,
                i as int,
            ),
        decreases n - i,
    {
        let key = profile.implementations.key_at(i);
        let path = profile.implementations.value_at(i);
        match statuses[i] {
            ImplPathStatus::Missing => {
                emit(
                    &mut out,
                    ViolationKind::ProfileImplPathNotFound {
                        profile: profile.name.clone(),
                        interface: key.clone(),
                        path: path.clone(),
                    },
                );
            },
            ImplPathStatus::NotAComponent => {
                emit(
                    &mut out,
                    ViolationKind::ProfileImplNotAComponent {
                        profile: profile.name.clone(),
                        interface: key.clone(),
                        path: path.clone(),
                    },
                );
            },
            ImplPathStatus::Component => {},
        }
        proof {
            assert(profile.implementations.key_seq().to_set().contains(profile.implementations.key_seq()[i as int]));
        }
        i += 1;
    }
    out
}

/// The interface a dependency key stands for, as [`classify_dep`] finds it: none
/// for a base or an unknown name.
pub open spec fn dep_interface(map: &WorkspaceMap, d: Seq<char>) -> Option<Seq<char>> {
    if map.base_by_name@.contains_key(d) {
        None
    } else if map.component_by_name@.contains_key(d) {
        Some(interface_or_name(map.components@[last_named(map.components@, d)]))
    } else if map.component_by_interface@.contains_key(d) {
        Some(d)
    } else {
        None
    }
}

/// The declared interface of a brick, as characters.
pub open spec fn iface_view(b: Brick) -> Option<Seq<char>> {
    match b.interface {
        Some(i) => Some(i@),
        None => None,
    }
}

/// The names of the first `k` components that are called `i` or implement `i`, in order.
pub open spec fn implementors(comps: Seq<Brick>, i: Seq<char>, k: int) -> Seq<Seq<char>>
    decreases k,
{
    if k <= 0 {
        Seq::empty()
    } else if comps[k - 1].name@ == i || iface_view(comps[k - 1]) == Some(i) {
        implementors(comps, i, k - 1).push(comps[k - 1].name@)
    } else {
        implementors(comps, i, k - 1)
    }
}

/// The component names a dependency key resolves to.
pub open spec fn resolve_spec(map: &WorkspaceMap, d: Seq<char>) -> Seq<Seq<char>> {
    match dep_interface(map, d) {
        Some(i) => implementors(map.components@, i, map.components@.len() as int),
        None => Seq::empty(),
    }
}

/// The dependency keys of the component named `a` (the last one of that name).
pub open spec fn component_deps(map: &WorkspaceMap, a: Seq<char>) -> Seq<Seq<char>> {
    if last_named(map.components@, a) >= 0 {
        string_views(map.components@[last_named(map.components@, a)].deps@)
    } else {
        Seq::empty()
    }
}

/// One step of the usage relation: `b` is a component that one of `a`'s
/// dependency keys resolves to.
pub open spec fn uses(map: &WorkspaceMap, a: Seq<char>, b: Seq<char>) -> bool {
    exists|k: int| 0 <= k < component_deps(map, a).len() && #[trigger] resolve_spec(map, component_deps(map, a)[k]).contains(b)
}

/// The names reachable from `seeds` along [`uses`].
pub open spec fn used_from(map: &WorkspaceMap, seeds: Seq<Seq<char>>) -> Set<Seq<char>> {
    Set::new(|n: Seq<char>| rel_reach(|a: Seq<char>, b: Seq<char>| uses(map, a, b), seeds.to_set(), n))
}

/// The component names a dependency key resolves to.
fn resolve_dep(dep: &str, map: &WorkspaceMap) -> (r: Vec<String>)
    requires
        map.indexes_consistent(),
    ensures
        string_views(r@) == resolve_spec(map, dep@),
{
    let mut out: Vec<String> = Vec::new();
    match classify_dep(dep, map) {
        DepKind::Interface(iface) => {
            let mut i: usize = 0;
            while i < map.components.len()
                invariant
                    i <= map.components@.len(),
                    dep_interface(map, dep@) == Some(iface@),
                    string_views(out@) == implementors(map.components@, iface@, i as int),
                decreases map.components@.len() - i,
            {
                let c = &map.components[i];
                let hit = str_eq(c.name.as_str(), iface) || match &c.interface {
                    Some(x) => str_eq(x.as_str(), iface),
                    None => false,
                };
                if hit {
                    let ghost before = out@;
                    out.push(c.name.clone());
                    proof {
                        assert(string_views(out@) =~= string_views(before).push(c.name@));
                    }
                }
                i += 1;
            }
        },
        _ => {
            proof {
                assert(string_views(out@) =~= Seq::<Seq<char>>::empty());
            }
        },
    }
    out
}

proof fn lemma_implementors_named(comps: Seq<Brick>, i: Seq<char>, k: int, n: Seq<char>)
    requires
        0 <= k <= comps.len(),
        implementors(comps, i, k).contains(n),
    ensures
        brick_names(comps).to_set().contains(n),
    decreases k,
{
    if k > 0 {
        if (comps[k - 1].name@ == i || iface_view(comps[k - 1]) == Some(i)) && n == comps[k - 1].name@ {
            assert(brick_names(comps)[k - 1] == n);
        } else if comps[k - 1].name@ == i || iface_view(comps[k - 1]) == Some(i) {
            assert(implementors(comps, i, k) == implementors(comps, i, k - 1).push(comps[k - 1].name@));
            let w = choose|w: int| 0 <= w < implementors(comps, i, k).len() && implementors(comps, i, k)[w] == n;
            assert(implementors(comps, i, k - 1)[w] == n);
            lemma_implementors_named(comps, i, k - 1, n);
        } else {
            lemma_implementors_named(comps, i, k - 1, n);
        }
    }
}

/// Every name reachable along [`uses`] from `seeds` (seeds included), each once:
/// [`transitive_closure`] with the components' dependency keys and
/// interface-resolving [`resolve_dep`].
pub fn used_components(map: &WorkspaceMap, seeds: Vec<String>) -> (r: Vec<String>)
    requires
        map.indexes_consistent(),
    ensures
        forall|n: Seq<char>| #[trigger] string_views(r@).contains(n) <==> used_from(map, string_views(seeds@)).contains(n),
{
    let ghost srcs = string_views(seeds@).to_set();
    let mut g: DepMap = StrMap::new();
    add_brick_deps(&mut g, &map.components);
    let get_deps = |name: &str| -> (ds: Vec<String>)
        ensures
            string_views(ds@) == component_deps(map, name@),
        {
            match g.get(name) {
                Some(v) => clone_names(v),
                None => {
                    let e: Vec<String> = Vec::new();
                    proof {
                        assert(string_views(e@) =~= component_deps(map, name@));
                    }
                    e
                },
            }
        };
    let resolve = |d: &str| -> (rs: Vec<String>)
        requires
            map.indexes_consistent(),
        ensures
            string_views(rs@) == resolve_spec(map, d@),
        { resolve_dep(d, map) };
    let ghost rel = |a: Seq<char>, b: Seq<char>| uses(map, a, b);
    proof {
        let names = brick_names(map.components@).to_set();
        brick_names(map.components@).lemma_cardinality_of_set();
        string_views(seeds@).lemma_cardinality_of_set();
        let u = srcs.union(names);
        assert forall|a: Seq<char>, b: Seq<char>| #[trigger] step(get_deps, resolve, a, b) implies rel(a, b) by {
            let (ds, k, rs) = choose|ds: Vec<String>, k: int, rs: Vec<String>|
                #![trigger produces(get_deps, a, ds), produces(resolve, ds@[k]@, rs)]
                produces(get_deps, a, ds) && 0 <= k < ds@.len() && produces(resolve, ds@[k]@, rs) && string_views(
                    rs@,
                ).contains(b);
            let s1 = choose|s1: &str| s1@ == a && #[trigger] call_ensures(get_deps, (s1,), ds);
            let s2 = choose|s2: &str| s2@ == ds@[k]@ && #[trigger] call_ensures(resolve, (s2,), rs);
            assert(string_views(ds@)[k] == ds@[k]@);
            assert(resolve_spec(map, component_deps(map, a)[k]).contains(b));
        }
        assert forall|a: Seq<char>, b: Seq<char>| u.contains(a) && #[trigger] step(get_deps, resolve, a, b) implies u.contains(b) by {
            assert(rel(a, b));
            let k = choose|k: int| 0 <= k < component_deps(map, a).len() && #[trigger] resolve_spec(map, component_deps(map, a)[k]).contains(b);
            let d = component_deps(map, a)[k];
            match dep_interface(map, d) {
                Some(i) => {
                    lemma_implementors_named(map.components@, i, map.components@.len() as int, b);
                },
                None => {},
            }
        }
        assert(srcs.subset_of(u));
        assert(srcs.finite());
        assert(names.finite());
        assert(u.finite());
        assert(crate::closure::step_closed(get_deps, resolve, u));
        assert(bounded(get_deps, resolve, srcs));
    }
    let r = transitive_closure(seeds, get_deps, resolve);
    proof {
        assert forall|a: Seq<char>, b: Seq<char>| #[trigger] step(get_deps, resolve, a, b) implies rel(a, b) by {
            let (ds, k, rs) = choose|ds: Vec<String>, k: int, rs: Vec<String>|
                #![trigger produces(get_deps, a, ds), produces(resolve, ds@[k]@, rs)]
                produces(get_deps, a, ds) && 0 <= k < ds@.len() && produces(resolve, ds@[k]@, rs) && string_views(
                    rs@,
                ).contains(b);
            let s1 = choose|s1: &str| s1@ == a && #[trigger] call_ensures(get_deps, (s1,), ds);
            let s2 = choose|s2: &str| s2@ == ds@[k]@ && #[trigger] call_ensures(resolve, (s2,), rs);
            assert(string_views(ds@)[k] == ds@[k]@);
            assert(resolve_spec(map, component_deps(map, a)[k]).contains(b));
        }
        assert forall|a: Seq<char>, b: Seq<char>| expanded(get_deps, resolve, a) && #[trigger] rel(a, b) implies step(get_deps, resolve, a, b) by {
            let ds = choose|ds: Vec<String>|
                #[trigger] produces(get_deps, a, ds) && forall|k: int| 0 <= k < ds@.len() ==> #[trigger] resolvable(resolve, ds@[k]@);
            let s1 = choose|s1: &str| s1@ == a && #[trigger] call_ensures(get_deps, (s1,), ds);
            let k = choose|k: int| 0 <= k < component_deps(map, a).len() && #[trigger] resolve_spec(map, component_deps(map, a)[k]).contains(b);
            assert(string_views(ds@)[k] == ds@[k]@);
            assert(resolvable(resolve, ds@[k]@));
            let rs = choose|rs: Vec<String>| #[trigger] produces(resolve, ds@[k]@, rs);
            let s2 = choose|s2: &str| s2@ == ds@[k]@ && #[trigger] call_ensures(resolve, (s2,), rs);
            assert(string_views(rs@) == resolve_spec(map, ds@[k]@));
        }
        lemma_closure_is_rel_reach(get_deps, resolve, srcs, string_views(r@), rel);
    }
    r
}

// ---------------------------------------------------------------------------
// Text helpers of the checks.

/// `n` with every `-` turned into `_`, as Rust names crates.
pub open spec fn rust_name_spec(n: Seq<char>) -> Seq<char> {
    n.map_values(|c: char| if c == '-' { '_' } else { c })
}

/// `n` with every `-` turned into `_`.
pub fn rust_name(n: &str) -> (r: String)
    ensures
        r@ == rust_name_spec(n@),
{
    let cs = chars_of(n);
    let mut out = String::new();
    let mut i: usize = 0;
    while i < cs.len()
        invariant
            i <= cs@.len(),
            cs@ == n@,
            out@ == rust_name_spec(n@).take(i as int),
        decreases cs@.len() - i,
    {
        let c = if cs[i] == '-' {
            '_'
        } else {
            cs[i]
        };
        push_char(&mut out, c);
        proof {
            assert(rust_name_spec(n@).take(i + 1) =~= rust_name_spec(n@).take(i as int).push(c));
        }
        i += 1;
    }
    proof {
        assert(rust_name_spec(n@).take(cs@.len() as int) =~= rust_name_spec(n@));
    }
    out
}

/// `needle` occurs in `hay`.
pub open spec fn contains_text(hay: Seq<char>, needle: Seq<char>) -> bool {
    exists|i: int| 0 <= i && i + needle.len() <= hay.len() && #[trigger] hay.subrange(i, i + needle.len()) == needle
}

/// Whether `needle` occurs in `hay`, as `str::contains` reports it.
pub fn find_text(hay: &str, needle: &str) -> (b: bool)
    ensures
        b == contains_text(hay@, needle@),
{
    let h = chars_of(hay);
    let n = chars_of(needle);
    if n.len() > h.len() {
        proof {
            assert forall|i: int| 0 <= i && i + needle@.len() <= hay@.len() implies #[trigger] hay@.subrange(i, i + needle@.len()) != needle@ by {
            }
        }
        return false;
    }
    if n.len() == 0 {
        proof {
            assert(hay@.subrange(0int, 0int + needle@.len()) =~= needle@);
        }
        return true;
    }
    let last = h.len() - n.len();
    let mut i: usize = 0;
    while i <= last
        invariant
            h@ == hay@,
            n@ == needle@,
            n@.len() >= 1,
            last == h@.len() - n@.len(),
            h@.len() <= usize::MAX,
            i <= last + 1,
            forall|q: int| 0 <= q < i ==> #[trigger] hay@.subrange(q, q + needle@.len()) != needle@,
        decreases last + 1 - i,
    {
        let mut j: usize = 0;
        while j < n.len() && h[i + j] == n[j]
            invariant
                h@ == hay@,
                n@ == needle@,
                n@.len() >= 1,
                last == h@.len() - n@.len(),
                h@.len() <= usize::MAX,
                i <= last,
                j <= n@.len(),
                forall|q: int| 0 <= q < j ==> h@[i + q] == n@[q],
            decreases n@.len() - j,
        {
            j += 1;
        }
        if j == n.len() {
            proof {
                assert(hay@.subrange(i as int, i + needle@.len()) =~= needle@);
            }
            return true;
        }
        proof {
            assert(hay@.subrange(i as int, i + needle@.len())[j as int] != needle@[j as int]);
        }
        i += 1;
    }
    false
}

// ---------------------------------------------------------------------------
// What the checks read from the file system.

/// What [`run_checks`] needs from the file system, gathered by its caller.
pub struct CheckFacts {
    /// Per component: the contents of `src/lib.rs`, if it exists.
    pub component_lib_rs: Vec<Option<String>>,
    /// Per component: whether `src/<name>.rs` exists.
    pub component_impl_file: Vec<bool>,
    /// Per base: whether `src/lib.rs` exists.
    pub base_lib_rs: Vec<bool>,
    /// Per base: whether `src/main.rs` exists.
    pub base_main_rs: Vec<bool>,
    /// Per component, then per base: the path relative to the root with `/`
    /// separators, empty when it is not under the root.
    pub brick_rel: Vec<String>,
    /// Per component, then per base: the path relative to the root as shown in
    /// duplicate-name reports, `?` when it has none.
    pub brick_display: Vec<String>,
    /// Per project: the path relative to the root with `/` separators.
    pub project_rel: Vec<String>,
    /// Per project: whether its manifest marks it a test project
    /// (`[package.metadata.polylith] test-project = true`), which needs no base.
    pub project_test_marker: Vec<bool>,
    /// Per project, per path dependency: the package name in the manifest at that
    /// path, if there is a readable one.
    pub dep_path_packages: Vec<Vec<Option<String>>>,
    /// Per project, per path dependency: the path as shown in reports.
    pub dep_path_display: Vec<Vec<String>>,
    /// Per component: its canonical path.
    pub component_canonical: Vec<String>,
    /// Per profile, per implementation entry in order: the canonical path of the entry.
    pub profile_impl_canonical: Vec<Vec<String>>,
    /// Per component, then per base: whether its manifest sets
    /// `version.workspace = true`; `None` when the manifest cannot be read.
    pub brick_uses_workspace_version: Vec<Option<bool>>,
}

/// The facts line up with the bricks, projects and profiles they describe.
pub open spec fn facts_fit(map: &WorkspaceMap, profiles: Seq<Profile>, f: &CheckFacts) -> bool {
    let nc = map.components@.len();
    let nb = map.bases@.len();
    let np = map.projects@.len();
    &&& f.component_lib_rs@.len() == nc
    &&& f.component_impl_file@.len() == nc
    &&& f.base_lib_rs@.len() == nb
    &&& f.base_main_rs@.len() == nb
    &&& f.brick_rel@.len() == nc + nb
    &&& f.brick_display@.len() == nc + nb
    &&& f.project_rel@.len() == np
    &&& f.project_test_marker@.len() == np
    &&& f.dep_path_packages@.len() == np
    &&& f.dep_path_display@.len() == np
    &&& forall|j: int| 0 <= j < np ==> (#[trigger] f.dep_path_packages@[j])@.len() == map.projects@[j].dep_paths@.len()
        && f.dep_path_display@[j]@.len() == map.projects@[j].dep_paths@.len()
    &&& f.component_canonical@.len() == nc
    &&& f.profile_impl_canonical@.len() == profiles.len()
    &&& f.brick_uses_workspace_version@.len() == nc + nb
}

// ---------------------------------------------------------------------------
// Which components are used.

/// The component names the first `k` dependency keys resolve to, in order.
pub open spec fn resolved_list(map: &WorkspaceMap, deps: Seq<Seq<char>>, k: int) -> Seq<Seq<char>>
    decreases k,
{
    if k <= 0 {
        Seq::empty()
    } else {
        resolved_list(map, deps, k - 1) + resolve_spec(map, deps[k - 1])
    }
}

/// What the dependency keys of the first `k` bases resolve to.
pub open spec fn base_seeds(map: &WorkspaceMap, k: int) -> Seq<Seq<char>>
    decreases k,
{
    if k <= 0 {
        Seq::empty()
    } else {
        let d = string_views(map.bases@[k - 1].deps@);
        base_seeds(map, k - 1) + resolved_list(map, d, d.len() as int)
    }
}

/// What the dependency keys of the first `k` projects resolve to.
pub open spec fn project_seeds(map: &WorkspaceMap, k: int) -> Seq<Seq<char>>
    decreases k,
{
    if k <= 0 {
        Seq::empty()
    } else {
        let d = string_views(map.projects@[k - 1].deps@);
        project_seeds(map, k - 1) + resolved_list(map, d, d.len() as int)
    }
}

/// The first position below `k` where `canon` holds `x`, or -1.
pub open spec fn first_match(canon: Seq<Seq<char>>, x: Seq<char>, k: int) -> int
    decreases k,
{
    if k <= 0 {
        -1
    } else if first_match(canon, x, k - 1) >= 0 {
        first_match(canon, x, k - 1)
    } else if canon[k - 1] == x {
        k - 1
    } else {
        -1
    }
}

/// The components the first `k` of `paths` select (by canonical path).
pub open spec fn selected_components(comps: Seq<Brick>, canon: Seq<Seq<char>>, paths: Seq<Seq<char>>, k: int) -> Seq<Seq<char>>
    decreases k,
{
    if k <= 0 {
        Seq::empty()
    } else {
        let i = first_match(canon, paths[k - 1], canon.len() as int);
        selected_components(comps, canon, paths, k - 1) + if i >= 0 {
            seq![comps[i].name@]
        } else {
            Seq::empty()
        }
    }
}

/// The components the implementation entries of the first `k` profiles select.
pub open spec fn profile_seeds(map: &WorkspaceMap, f: &CheckFacts, k: int) -> Seq<Seq<char>>
    decreases k,
{
    if k <= 0 {
        Seq::empty()
    } else {
        let paths = string_views(f.profile_impl_canonical@[k - 1]@);
        profile_seeds(map, f, k - 1) + selected_components(
            map.components@,
            string_views(f.component_canonical@),
            paths,
            paths.len() as int,
        )
    }
}

/// The components depended on: reachable from what bases and projects depend
/// on, or from what a profile selects.
pub open spec fn depended_on(map: &WorkspaceMap, f: &CheckFacts) -> Set<Seq<char>> {
    used_from(map, base_seeds(map, map.bases@.len() as int) + project_seeds(map, map.projects@.len() as int)).union(
        used_from(map, profile_seeds(map, f, f.profile_impl_canonical@.len() as int)),
    )
}

/// Appends what `deps` resolve to.
fn push_resolved(out: &mut Vec<String>, map: &WorkspaceMap, deps: &Vec<String>)
    requires
        map.indexes_consistent(),
    ensures
        string_views(final(out)@) == string_views(old(out)@) + resolved_list(map, string_views(deps@), deps@.len() as int),
{
    let ghost start = string_views(out@);
    let mut i: usize = 0;
    proof {
        assert(start + resolved_list(map, string_views(deps@), 0) =~= start);
    }
    while i < deps.len()
        invariant
            i <= deps@.len(),
            map.indexes_consistent(),
            string_views(out@) == start + resolved_list(map, string_views(deps@), i as int),
        decreases deps@.len() - i,
    {
        let rs = resolve_dep(deps[i].as_str(), map);
        let ghost mid = string_views(out@);
        let mut k: usize = 0;
        proof {
            assert(string_views(rs@).take(0) =~= Seq::<Seq<char>>::empty());
            assert(mid + string_views(rs@).take(0) =~= mid);
        }
        while k < rs.len()
            invariant
                k <= rs@.len(),
                string_views(out@) == mid + string_views(rs@).take(k as int),
            decreases rs@.len() - k,
        {
            let ghost before = out@;
            out.push(rs[k].clone());
            proof {
                assert(string_views(out@) =~= string_views(before).push(rs@[k as int]@));
                assert(string_views(rs@).take(k + 1) =~= string_views(rs@).take(k as int).push(rs@[k as int]@));
                assert(string_views(out@) =~= mid + string_views(rs@).take(k + 1));
            }
            k += 1;
        }
        proof {
            assert(string_views(rs@).take(rs@.len() as int) =~= string_views(rs@));
            assert(string_views(deps@)[i as int] == deps@[i as int]@);
            assert(string_views(out@) =~= start + resolved_list(map, string_views(deps@), i + 1));
        }
        i += 1;
    }
}

/// The components the profiles' implementation entries select.
fn profile_seed_names(map: &WorkspaceMap, f: &CheckFacts) -> (r: Vec<String>)
    requires
        f.component_canonical@.len() == map.components@.len(),
    ensures
        string_views(r@) == profile_seeds(map, f, f.profile_impl_canonical@.len() as int),
{
    let mut out: Vec<String> = Vec::new();
    let mut a: usize = 0;
    proof {
        assert(string_views(out@) =~= Seq::<Seq<char>>::empty());
    }
    while a < f.profile_impl_canonical.len()
        invariant
            a <= f.profile_impl_canonical@.len(),
            f.component_canonical@.len() == map.components@.len(),
            string_views(out@) == profile_seeds(map, f, a as int),
        decreases f.profile_impl_canonical@.len() - a,
    {
        let paths = &f.profile_impl_canonical[a];
        let ghost mid = string_views(out@);
        let ghost canon = string_views(f.component_canonical@);
        let mut b: usize = 0;
        proof {
            assert(mid + selected_components(map.components@, canon, string_views(paths@), 0) =~= mid);
        }
        while b < paths.len()
            invariant
                b <= paths@.len(),
                f.component_canonical@.len() == map.components@.len(),
                canon == string_views(f.component_canonical@),
                string_views(out@) == mid + selected_components(map.components@, canon, string_views(paths@), b as int),
            decreases paths@.len() - b,
        {
            let mut c: usize = 0;
            let mut found: Option<usize> = None;
            while c < f.component_canonical.len() && found.is_none()
                invariant
                    c <= f.component_canonical@.len(),
                    canon == string_views(f.component_canonical@),
                    b < paths@.len(),
                    match found {
                        Some(x) => x == first_match(canon, paths@[b as int]@, c as int) && x < c,
                        None => first_match(canon, paths@[b as int]@, c as int) == -1,
                    },
                decreases f.component_canonical@.len() - c, (if found.is_none() { 1int } else { 0int }),
            {
                if str_eq(f.component_canonical[c].as_str(), paths[b].as_str()) {
                    proof {
                        assert(canon[c as int] == paths@[b as int]@);
                    }
                    found = Some(c);
                } else {
                    proof {
                        assert(canon[c as int] != paths@[b as int]@);
                    }
                }
                c += 1;
            }
            proof {
                lemma_first_match_stable(canon, paths@[b as int]@, c as int, canon.len() as int);
                assert(string_views(paths@)[b as int] == paths@[b as int]@);
            }
            let ghost before = string_views(out@);
            match found {
                Some(x) => {
                    out.push(map.components[x].name.clone());
                    proof {
                        assert(string_views(out@) =~= before.push(map.components@[x as int].name@));
                    }
                },
                None => {},
            }
            proof {
                assert(string_views(out@) =~= mid + selected_components(
                    map.components@,
                    canon,
                    string_views(paths@),
                    b + 1,
                ));
            }
            b += 1;
        }
        proof {
            assert(string_views(out@) =~= profile_seeds(map, f, a + 1));
        }
        a += 1;
    }
    out
}

proof fn lemma_first_match_stable(canon: Seq<Seq<char>>, x: Seq<char>, c: int, k: int)
    requires
        0 <= c <= k,
        first_match(canon, x, c) >= 0 || c == k,
    ensures
        first_match(canon, x, k) == first_match(canon, x, c),
    decreases k - c,
{
    if c < k {
        lemma_first_match_stable(canon, x, c, k - 1);
    }
}

// ---------------------------------------------------------------------------
// The sections of `run_checks`, in the order it reports them.

/// Components first, then bases.
pub open spec fn all_bricks(map: &WorkspaceMap) -> Seq<Brick> {
    map.components@ + map.bases@
}

/// The violations of one component: a missing lib.rs (and implementation file),
/// or a wildcard re-export in it; and not being depended on.
pub open spec fn component_items(c: Brick, lib: Option<String>, impl_file: bool, used: bool) -> Seq<KindView> {
    (match lib {
        None => seq![KindView::MissingLibRs { brick: c.name@ }] + if impl_file {
            Seq::empty()
        } else {
            seq![KindView::MissingImplFile { brick: c.name@ }]
        },
        Some(t) => if contains_text(t@, "pub use "@ + rust_name_spec(c.name@) + "::*"@) {
            seq![KindView::WildcardReExport { brick: c.name@, rust_name: rust_name_spec(c.name@) }]
        } else {
            Seq::empty()
        },
    }) + if used {
        Seq::empty()
    } else {
        seq![KindView::OrphanComponent { brick: c.name@ }]
    }
}

/// The component checks of the first `k` components.
pub open spec fn sec_components(map: &WorkspaceMap, f: &CheckFacts, used: Set<Seq<char>>, k: int) -> Seq<KindView>
    decreases k,
{
    if k <= 0 {
        Seq::empty()
    } else {
        let c = map.components@[k - 1];
        sec_components(map, f, used, k - 1) + component_items(
            c,
            f.component_lib_rs@[k - 1],
            f.component_impl_file@[k - 1],
            used.contains(c.name@),
        )
    }
}

/// `p` lists a base among its dependencies.
pub open spec fn has_base_dep(map: &WorkspaceMap, p: Project) -> bool {
    exists|k: int| 0 <= k < p.deps@.len() && brick_names(map.bases@).contains(#[trigger] p.deps@[k]@)
}

/// Projects without a base dependency, among the first `k`; a project marked as a
/// test project needs none.
pub open spec fn sec_missing_base(map: &WorkspaceMap, f: &CheckFacts, k: int) -> Seq<KindView>
    decreases k,
{
    if k <= 0 {
        Seq::empty()
    } else {
        let p = map.projects@[k - 1];
        sec_missing_base(map, f, k - 1) + if has_base_dep(map, p) || f.project_test_marker@[k - 1] {
            Seq::empty()
        } else {
            seq![KindView::ProjectMissingBase { project: p.name@ }]
        }
    }
}

/// Projects with their own `[workspace]`, among the first `k`.
pub open spec fn sec_own_workspace(map: &WorkspaceMap, f: &CheckFacts, k: int) -> Seq<KindView>
    decreases k,
{
    if k <= 0 {
        Seq::empty()
    } else {
        let p = map.projects@[k - 1];
        sec_own_workspace(map, f, k - 1) + if p.has_own_workspace {
            seq![KindView::ProjectHasOwnWorkspace { project: p.name@, rel: f.project_rel@[k - 1]@ }]
        } else {
            Seq::empty()
        }
    }
}

/// Path dependencies of `p` whose key differs from the package found at the
/// path, among the first `e`.
pub open spec fn dep_mismatch_items(p: Project, pkgs: Seq<Option<String>>, disp: Seq<String>, e: int) -> Seq<KindView>
    decreases e,
{
    if e <= 0 {
        Seq::empty()
    } else {
        let key = p.dep_paths@[e - 1].0@;
        dep_mismatch_items(p, pkgs, disp, e - 1) + match pkgs[e - 1] {
            Some(n) => if key != n@ {
                seq![KindView::DepKeyMismatch { project: p.name@, dep_key: key, expected_name: n@, path: disp[e - 1]@ }]
            } else {
                Seq::empty()
            },
            None => Seq::empty(),
        }
    }
}

/// Dependency key mismatches of the first `k` projects.
pub open spec fn sec_dep_mismatch(map: &WorkspaceMap, f: &CheckFacts, k: int) -> Seq<KindView>
    decreases k,
{
    if k <= 0 {
        Seq::empty()
    } else {
        let p = map.projects@[k - 1];
        sec_dep_mismatch(map, f, k - 1) + dep_mismatch_items(
            p,
            f.dep_path_packages@[k - 1]@,
            f.dep_path_display@[k - 1]@,
            p.dep_paths@.len() as int,
        )
    }
}

fn sec_components_run(map: &WorkspaceMap, f: &CheckFacts, used1: &Vec<String>, used2: &Vec<String>, out: &mut Vec<Violation>)
    requires
        f.component_lib_rs@.len() == map.components@.len(),
        f.component_impl_file@.len() == map.components@.len(),
    ensures
        kinds(final(out)@) == kinds(old(out)@) + sec_components(
            map,
            f,
            string_views(used1@).to_set().union(string_views(used2@).to_set()),
            map.components@.len() as int,
        ),
{
    let ghost used = string_views(used1@).to_set().union(string_views(used2@).to_set());
    let ghost start = kinds(out@);
    let mut i: usize = 0;
    proof {
        assert(start + sec_components(map, f, used, 0) =~= start);
    }
    while i < map.components.len()
        invariant
            i <= map.components@.len(),
            f.component_lib_rs@.len() == map.components@.len(),
            f.component_impl_file@.len() == map.components@.len(),
            used == string_views(used1@).to_set().union(string_views(used2@).to_set()),
            kinds(out@) == start + sec_components(map, f, used, i as int),
        decreases map.components@.len() - i,
    {
        let c = &map.components[i];
        let ghost mid = kinds(out@);
        match &f.component_lib_rs[i] {
            None => {
                emit(out, ViolationKind::MissingLibRs { brick: c.name.clone() });
                if !f.component_impl_file[i] {
                    emit(out, ViolationKind::MissingImplFile { brick: c.name.clone() });
                }
            },
            Some(content) => {
                let rn = rust_name(c.name.as_str());
                let w = cat3("pub use ", rn.as_str(), "::*");
                if find_text(content.as_str(), w.as_str()) {
                    emit(out, ViolationKind::WildcardReExport { brick: c.name.clone(), rust_name: rn });
                }
            },
        }
        let ghost mid2 = kinds(out@);
        let is_used = contains_str(used1, c.name.as_str()) || contains_str(used2, c.name.as_str());
        if !is_used {
            emit(out, ViolationKind::OrphanComponent { brick: c.name.clone() });
        }
        proof {
            assert(is_used == used.contains(c.name@));
            let items = component_items(*c, f.component_lib_rs@[i as int], f.component_impl_file@[i as int], used.contains(c.name@));
            assert(kinds(out@) =~= mid + items);
            assert(kinds(out@) =~= start + sec_components(map, f, used, i + 1));
        }
        i += 1;
    }
}

fn sec_missing_base_run(map: &WorkspaceMap, f: &CheckFacts, out: &mut Vec<Violation>)
    requires
        f.project_test_marker@.len() == map.projects@.len(),
    ensures
        kinds(final(out)@) == kinds(old(out)@) + sec_missing_base(map, f, map.projects@.len() as int),
{
    let ghost start = kinds(out@);
    let mut j: usize = 0;
    proof {
        assert(start + sec_missing_base(map, f, 0) =~= start);
    }
    while j < map.projects.len()
        invariant
            j <= map.projects@.len(),
            f.project_test_marker@.len() == map.projects@.len(),
            kinds(out@) == start + sec_missing_base(map, f, j as int),
        decreases map.projects@.len() - j,
    {
        let p = &map.projects[j];
        let mut found_base = false;
        let mut d: usize = 0;
        while d < p.deps.len() && !found_base
            invariant
                d <= p.deps@.len(),
                found_base ==> has_base_dep(map, *p),
                !found_base ==> forall|q: int| 0 <= q < d ==> !brick_names(map.bases@).contains(#[trigger] p.deps@[q]@),
            decreases p.deps@.len() - d, (if found_base { 0int } else { 1int }),
        {
            let mut b: usize = 0;
            while b < map.bases.len() && !found_base
                invariant
                    b <= map.bases@.len(),
                    d < p.deps@.len(),
                    found_base ==> has_base_dep(map, *p),
                    !found_base ==> forall|q: int| 0 <= q < b ==> brick_names(map.bases@)[q] != p.deps@[d as int]@,
                decreases map.bases@.len() - b, (if found_base { 0int } else { 1int }),
            {
                if str_eq(map.bases[b].name.as_str(), p.deps[d].as_str()) {
                    proof {
                        assert(brick_names(map.bases@)[b as int] == p.deps@[d as int]@);
                        assert(brick_names(map.bases@).contains(p.deps@[d as int]@));
                    }
                    found_base = true;
                }
                b += 1;
            }
            proof {
                if !found_base {
                    assert(!brick_names(map.bases@).contains(p.deps@[d as int]@)) by {
                        if brick_names(map.bases@).contains(p.deps@[d as int]@) {
                            let w = choose|w: int| 0 <= w < brick_names(map.bases@).len() && brick_names(map.bases@)[w] == p.deps@[d as int]@;
                            assert(w < map.bases@.len());
                        }
                    }
                }
            }
            d += 1;
        }
        let ghost mid = kinds(out@);
        if !found_base && !f.project_test_marker[j] {
            emit(out, ViolationKind::ProjectMissingBase { project: p.name.clone() });
        }
        proof {
            assert(found_base == has_base_dep(map, *p));
            assert(kinds(out@) =~= start + sec_missing_base(map, f, j + 1));
        }
        j += 1;
    }
}

fn sec_own_workspace_run(map: &WorkspaceMap, f: &CheckFacts, out: &mut Vec<Violation>)
    requires
        f.project_rel@.len() == map.projects@.len(),
    ensures
        kinds(final(out)@) == kinds(old(out)@) + sec_own_workspace(map, f, map.projects@.len() as int),
{
    let ghost start = kinds(out@);
    let mut j: usize = 0;
    proof {
        assert(start + sec_own_workspace(map, f, 0) =~= start);
    }
    while j < map.projects.len()
        invariant
            j <= map.projects@.len(),
            f.project_rel@.len() == map.projects@.len(),
            kinds(out@) == start + sec_own_workspace(map, f, j as int),
        decreases map.projects@.len() - j,
    {
        let p = &map.projects[j];
        if p.has_own_workspace {
            emit(out, ViolationKind::ProjectHasOwnWorkspace { project: p.name.clone(), rel: f.project_rel[j].clone() });
        }
        proof {
            assert(kinds(out@) =~= start + sec_own_workspace(map, f, j + 1));
        }
        j += 1;
    }
}

fn sec_dep_mismatch_run(map: &WorkspaceMap, f: &CheckFacts, out: &mut Vec<Violation>)
    requires
        f.dep_path_packages@.len() == map.projects@.len(),
        f.dep_path_display@.len() == map.projects@.len(),
        forall|j: int| 0 <= j < map.projects@.len() ==> (#[trigger] f.dep_path_packages@[j])@.len() == map.projects@[j].dep_paths@.len()
            && f.dep_path_display@[j]@.len() == map.projects@[j].dep_paths@.len(),
    ensures
        kinds(final(out)@) == kinds(old(out)@) + sec_dep_mismatch(map, f, map.projects@.len() as int),
{
    let ghost start = kinds(out@);
    let mut j: usize = 0;
    proof {
        assert(start + sec_dep_mismatch(map, f, 0) =~= start);
    }
    while j < map.projects.len()
        invariant
            j <= map.projects@.len(),
            f.dep_path_packages@.len() == map.projects@.len(),
            f.dep_path_display@.len() == map.projects@.len(),
            forall|q: int| 0 <= q < map.projects@.len() ==> (#[trigger] f.dep_path_packages@[q])@.len() == map.projects@[q].dep_paths@.len()
                && f.dep_path_display@[q]@.len() == map.projects@[q].dep_paths@.len(),
            kinds(out@) == start + sec_dep_mismatch(map, f, j as int),
        decreases map.projects@.len() - j,
    {
        let p = &map.projects[j];
        let pkgs = &f.dep_path_packages[j];
        let disp = &f.dep_path_display[j];
        let ghost mid = kinds(out@);
        let mut e: usize = 0;
        proof {
            assert(f.dep_path_packages@[j as int]@.len() == p.dep_paths@.len());
            assert(mid + dep_mismatch_items(*p, pkgs@, disp@, 0) =~= mid);
        }
        while e < p.dep_paths.len()
            invariant
                e <= p.dep_paths@.len(),
                pkgs@.len() == p.dep_paths@.len(),
                disp@.len() == p.dep_paths@.len(),
                kinds(out@) == mid + dep_mismatch_items(*p, pkgs@, disp@, e as int),
            decreases p.dep_paths@.len() - e,
        {
            let key = &p.dep_paths[e].0;
            match &pkgs[e] {
                Some(n) => {
                    if !str_eq(key.as_str(), n.as_str()) {
                        emit(
                            out,
                            ViolationKind::DepKeyMismatch {
                                project: p.name.clone(),
                                dep_key: key.clone(),
                                expected_name: n.clone(),
                                path: disp[e].clone(),
                            },
                        );
                    }
                },
                None => {},
            }
            proof {
                assert(kinds(out@) =~= mid + dep_mismatch_items(*p, pkgs@, disp@, e + 1));
            }
            e += 1;
        }
        proof {
            assert(kinds(out@) =~= start + sec_dep_mismatch(map, f, j + 1));
        }
        j += 1;
    }
}

/// The distinct members of the first `k` of `names`, in order of first appearance.
pub open spec fn first_names(names: Seq<Seq<char>>, k: int) -> Seq<Seq<char>>
    decreases k,
{
    if k <= 0 {
        Seq::empty()
    } else if first_names(names, k - 1).contains(names[k - 1]) {
        first_names(names, k - 1)
    } else {
        first_names(names, k - 1).push(names[k - 1])
    }
}

/// The display paths of the first `k` bricks named `n`, in order.
pub open spec fn paths_named(bs: Seq<Brick>, disp: Seq<String>, n: Seq<char>, k: int) -> Seq<Seq<char>>
    decreases k,
{
    if k <= 0 {
        Seq::empty()
    } else if bs[k - 1].name@ == n {
        paths_named(bs, disp, n, k - 1).push(disp[k - 1]@)
    } else {
        paths_named(bs, disp, n, k - 1)
    }
}

/// Names shared by several bricks, for the first `k` distinct names `dn`.
pub open spec fn sec_duplicates(map: &WorkspaceMap, f: &CheckFacts, dn: Seq<Seq<char>>, k: int) -> Seq<KindView>
    decreases k,
{
    if k <= 0 {
        Seq::empty()
    } else {
        let all = all_bricks(map);
        let ps = paths_named(all, f.brick_display@, dn[k - 1], all.len() as int);
        sec_duplicates(map, f, dn, k - 1) + if ps.len() > 1 {
            seq![KindView::DuplicateName { name: dn[k - 1], paths: ps }]
        } else {
            Seq::empty()
        }
    }
}

/// Components without an interface, among the first `k`.
pub open spec fn sec_missing_interface(map: &WorkspaceMap, k: int) -> Seq<KindView>
    decreases k,
{
    if k <= 0 {
        Seq::empty()
    } else {
        let c = map.components@[k - 1];
        sec_missing_interface(map, k - 1) + if c.interface is None {
            seq![KindView::MissingInterface { brick: c.name@ }]
        } else {
            Seq::empty()
        }
    }
}

/// The interfaces declared by the first `k` components, in order.
pub open spec fn iface_list(comps: Seq<Brick>, k: int) -> Seq<Seq<char>>
    decreases k,
{
    if k <= 0 {
        Seq::empty()
    } else {
        match comps[k - 1].interface {
            Some(i) => iface_list(comps, k - 1).push(i@),
            None => iface_list(comps, k - 1),
        }
    }
}

/// The names of the first `k` components that declare interface `i`.
pub open spec fn declaring(comps: Seq<Brick>, i: Seq<char>, k: int) -> Seq<Seq<char>>
    decreases k,
{
    if k <= 0 {
        Seq::empty()
    } else if iface_view(comps[k - 1]) == Some(i) {
        declaring(comps, i, k - 1).push(comps[k - 1].name@)
    } else {
        declaring(comps, i, k - 1)
    }
}

/// Interfaces with several implementations and no default, for the first `k`
/// distinct interfaces `di`.
pub open spec fn sec_ambiguous(map: &WorkspaceMap, di: Seq<Seq<char>>, k: int) -> Seq<KindView>
    decreases k,
{
    if k <= 0 {
        Seq::empty()
    } else {
        let im = declaring(map.components@, di[k - 1], map.components@.len() as int);
        sec_ambiguous(map, di, k - 1) + if im.len() > 1 && !im.contains(di[k - 1]) {
            seq![KindView::AmbiguousInterface { interface: di[k - 1], impls: im }]
        } else {
            Seq::empty()
        }
    }
}

/// Some root member pattern covers `rel`.
pub open spec fn covered(members: Seq<String>, rel: Seq<char>) -> bool {
    exists|m: int| 0 <= m < members.len() && member_covers_spec(#[trigger] members[m]@, rel)
}

/// How reports name a brick kind.
pub open spec fn kind_label(k: BrickKind) -> Seq<char> {
    match k {
        BrickKind::Component => "component"@,
        BrickKind::Base => "base"@,
    }
}

/// Bricks outside the root members, among the first `k` (components, then bases).
pub open spec fn sec_bricks_not_in_root(map: &WorkspaceMap, f: &CheckFacts, k: int) -> Seq<KindView>
    decreases k,
{
    if k <= 0 {
        Seq::empty()
    } else {
        let b = all_bricks(map)[k - 1];
        let rel = f.brick_rel@[k - 1]@;
        sec_bricks_not_in_root(map, f, k - 1) + if covered(map.root_members@, rel) {
            Seq::empty()
        } else {
            seq![KindView::NotInRootWorkspace { brick: b.name@, kind_label: kind_label(b.kind), rel }]
        }
    }
}

/// Projects outside the root members, among the first `k`.
pub open spec fn sec_projects_not_in_root(map: &WorkspaceMap, f: &CheckFacts, k: int) -> Seq<KindView>
    decreases k,
{
    if k <= 0 {
        Seq::empty()
    } else {
        let p = map.projects@[k - 1];
        let rel = f.project_rel@[k - 1]@;
        sec_projects_not_in_root(map, f, k - 1) + if covered(map.root_members@, rel) {
            Seq::empty()
        } else {
            seq![KindView::ProjectNotInRootWorkspace { project: p.name@, rel }]
        }
    }
}

/// The base checks of the first `k` bases.
pub open spec fn sec_bases(map: &WorkspaceMap, f: &CheckFacts, k: int) -> Seq<KindView>
    decreases k,
{
    if k <= 0 {
        Seq::empty()
    } else {
        let b = map.bases@[k - 1];
        sec_bases(map, f, k - 1) + (if f.base_lib_rs@[k - 1] {
            Seq::empty()
        } else {
            seq![KindView::BaseMissingLibRs { brick: b.name@ }]
        }) + if f.base_main_rs@[k - 1] {
            seq![KindView::BaseHasMainRs { brick: b.name@ }]
        } else {
            Seq::empty()
        }
    }
}

/// The brick at position `i` of components-then-bases.
fn brick_at(map: &WorkspaceMap, i: usize) -> (b: &Brick)
    requires
        i < map.components@.len() + map.bases@.len(),
    ensures
        *b == all_bricks(map)[i as int],
{
    if i < map.components.len() {
        &map.components[i]
    } else {
        &map.bases[i - map.components.len()]
    }
}

/// The distinct names of components then bases, in order of first appearance.
fn distinct_brick_names(map: &WorkspaceMap) -> (r: Vec<String>)
    requires
        map.components@.len() + map.bases@.len() <= usize::MAX,
    ensures
        string_views(r@) == first_names(brick_names(all_bricks(map)), all_bricks(map).len() as int),
{
    let n = map.components.len() + map.bases.len();
    let ghost names = brick_names(all_bricks(map));
    let mut out: Vec<String> = Vec::new();
    let mut i: usize = 0;
    proof {
        assert(string_views(out@) =~= first_names(names, 0));
    }
    while i < n
        invariant
            i <= n,
            n == all_bricks(map).len(),
            names == brick_names(all_bricks(map)),
            string_views(out@) == first_names(names, i as int),
        decreases n - i,
    {
        let b = brick_at(map, i);
        proof {
            assert(names[i as int] == b.name@);
        }
        if !contains_str(&out, b.name.as_str()) {
            let ghost before = out@;
            out.push(b.name.clone());
            proof {
                assert(string_views(out@) =~= string_views(before).push(b.name@));
            }
        }
        i += 1;
    }
    out
}

fn sec_duplicates_run(map: &WorkspaceMap, f: &CheckFacts, out: &mut Vec<Violation>)
    requires
        map.components@.len() + map.bases@.len() <= usize::MAX,
        f.brick_display@.len() == map.components@.len() + map.bases@.len(),
    ensures
        ({
            let dn = first_names(brick_names(all_bricks(map)), all_bricks(map).len() as int);
            kinds(final(out)@) == kinds(old(out)@) + sec_duplicates(map, f, dn, dn.len() as int)
        }),
{
    let names = distinct_brick_names(map);
    let ghost dn = string_views(names@);
    let ghost start = kinds(out@);
    let n = map.components.len() + map.bases.len();
    let mut k: usize = 0;
    proof {
        assert(start + sec_duplicates(map, f, dn, 0) =~= start);
    }
    while k < names.len()
        invariant
            k <= names@.len(),
            n == all_bricks(map).len(),
            f.brick_display@.len() == n,
            dn == string_views(names@),
            kinds(out@) == start + sec_duplicates(map, f, dn, k as int),
        decreases names@.len() - k,
    {
        let name = names[k].as_str();
        let mut paths: Vec<String> = Vec::new();
        let mut i: usize = 0;
        proof {
            assert(dn[k as int] == name@);
            assert(string_views(paths@) =~= paths_named(all_bricks(map), f.brick_display@, name@, 0));
        }
        while i < n
            invariant
                i <= n,
                n == all_bricks(map).len(),
                f.brick_display@.len() == n,
                string_views(paths@) == paths_named(all_bricks(map), f.brick_display@, name@, i as int),
            decreases n - i,
        {
            let b = brick_at(map, i);
            if str_eq(b.name.as_str(), name) {
                let ghost before = paths@;
                paths.push(f.brick_display[i].clone());
                proof {
                    assert(string_views(paths@) =~= string_views(before).push(f.brick_display@[i as int]@));
                }
            }
            i += 1;
        }
        if paths.len() > 1 {
            emit(out, ViolationKind::DuplicateName { name: names[k].clone(), paths });
        }
        proof {
            assert(kinds(out@) =~= start + sec_duplicates(map, f, dn, k + 1));
        }
        k += 1;
    }
}

fn sec_missing_interface_run(map: &WorkspaceMap, out: &mut Vec<Violation>)
    ensures
        kinds(final(out)@) == kinds(old(out)@) + sec_missing_interface(map, map.components@.len() as int),
{
    let ghost start = kinds(out@);
    let mut i: usize = 0;
    proof {
        assert(start + sec_missing_interface(map, 0) =~= start);
    }
    while i < map.components.len()
        invariant
            i <= map.components@.len(),
            kinds(out@) == start + sec_missing_interface(map, i as int),
        decreases map.components@.len() - i,
    {
        let c = &map.components[i];
        if c.interface.is_none() {
            emit(out, ViolationKind::MissingInterface { brick: c.name.clone() });
        }
        proof {
            assert(kinds(out@) =~= start + sec_missing_interface(map, i + 1));
        }
        i += 1;
    }
}

fn sec_ambiguous_run(map: &WorkspaceMap, out: &mut Vec<Violation>)
    ensures
        ({
            let il = iface_list(map.components@, map.components@.len() as int);
            let di = first_names(il, il.len() as int);
            kinds(final(out)@) == kinds(old(out)@) + sec_ambiguous(map, di, di.len() as int)
        }),
{
    let ghost il = iface_list(map.components@, map.components@.len() as int);
    let mut ifaces: Vec<String> = Vec::new();
    let mut i: usize = 0;
    proof {
        assert(string_views(ifaces@) =~= iface_list(map.components@, 0));
    }
    while i < map.components.len()
        invariant
            i <= map.components@.len(),
            string_views(ifaces@) == iface_list(map.components@, i as int),
        decreases map.components@.len() - i,
    {
        match &map.components[i].interface {
            Some(x) => {
                let ghost before = ifaces@;
                ifaces.push(x.clone());
                proof {
                    assert(string_views(ifaces@) =~= string_views(before).push(x@));
                }
            },
            None => {},
        }
        i += 1;
    }
    let mut distinct: Vec<String> = Vec::new();
    let mut i: usize = 0;
    proof {
        assert(string_views(distinct@) =~= first_names(il, 0));
    }
    while i < ifaces.len()
        invariant
            i <= ifaces@.len(),
            il == string_views(ifaces@),
            string_views(distinct@) == first_names(il, i as int),
        decreases ifaces@.len() - i,
    {
        proof {
            assert(il[i as int] == ifaces@[i as int]@);
        }
        if !contains_str(&distinct, ifaces[i].as_str()) {
            let ghost before = distinct@;
            distinct.push(ifaces[i].clone());
            proof {
                assert(string_views(distinct@) =~= string_views(before).push(ifaces@[i as int]@));
            }
        }
        i += 1;
    }
    let ghost di = string_views(distinct@);
    let ghost start = kinds(out@);
    let mut k: usize = 0;
    proof {
        assert(start + sec_ambiguous(map, di, 0) =~= start);
    }
    while k < distinct.len()
        invariant
            k <= distinct@.len(),
            di == string_views(distinct@),
            kinds(out@) == start + sec_ambiguous(map, di, k as int),
        decreases distinct@.len() - k,
    {
        let iface = distinct[k].as_str();
        let mut impls: Vec<String> = Vec::new();
        let mut c: usize = 0;
        proof {
            assert(di[k as int] == iface@);
            assert(string_views(impls@) =~= declaring(map.components@, iface@, 0));
        }
        while c < map.components.len()
            invariant
                c <= map.components@.len(),
                string_views(impls@) == declaring(map.components@, iface@, c as int),
            decreases map.components@.len() - c,
        {
            let comp = &map.components[c];
            let decl = match &comp.interface {
                Some(x) => str_eq(x.as_str(), iface),
                None => false,
            };
            if decl {
                let ghost before = impls@;
                impls.push(comp.name.clone());
                proof {
                    assert(string_views(impls@) =~= string_views(before).push(comp.name@));
                }
            }
            c += 1;
        }
        if impls.len() > 1 && !contains_str(&impls, iface) {
            emit(out, ViolationKind::AmbiguousInterface { interface: distinct[k].clone(), impls });
        }
        proof {
            assert(kinds(out@) =~= start + sec_ambiguous(map, di, k + 1));
        }
        k += 1;
    }
}

/// Whether some pattern of `members` covers `rel`.
fn any_covers(members: &Vec<String>, rel: &str) -> (b: bool)
    ensures
        b == covered(members@, rel@),
{
    let mut m: usize = 0;
    while m < members.len()
        invariant
            m <= members@.len(),
            forall|q: int| 0 <= q < m ==> !member_covers_spec(#[trigger] members@[q]@, rel@),
        decreases members@.len() - m,
    {
        if member_covers(members[m].as_str(), rel) {
            return true;
        }
        m += 1;
    }
    false
}

fn sec_not_in_root_run(map: &WorkspaceMap, f: &CheckFacts, out: &mut Vec<Violation>)
    requires
        map.components@.len() + map.bases@.len() <= usize::MAX,
        f.brick_rel@.len() == map.components@.len() + map.bases@.len(),
        f.project_rel@.len() == map.projects@.len(),
    ensures
        kinds(final(out)@) == kinds(old(out)@) + if map.root_members@.len() == 0 {
            Seq::<KindView>::empty()
        } else {
            sec_bricks_not_in_root(map, f, all_bricks(map).len() as int)
        } + if map.root_members@.len() == 0 {
            Seq::<KindView>::empty()
        } else {
            sec_projects_not_in_root(map, f, map.projects@.len() as int)
        },
{
    let ghost start = kinds(out@);
    if map.root_members.len() == 0 {
        proof {
            assert(start + Seq::<KindView>::empty() + Seq::<KindView>::empty() =~= start);
        }
        return;
    }
    let n = map.components.len() + map.bases.len();
    let mut i: usize = 0;
    proof {
        assert(start + sec_bricks_not_in_root(map, f, 0) =~= start);
    }
    while i < n
        invariant
            i <= n,
            n == all_bricks(map).len(),
            f.brick_rel@.len() == n,
            kinds(out@) == start + sec_bricks_not_in_root(map, f, i as int),
        decreases n - i,
    {
        let b = brick_at(map, i);
        let rel = f.brick_rel[i].as_str();
        if !any_covers(&map.root_members, rel) {
            let label = match b.kind {
                BrickKind::Component => owned("component"),
                BrickKind::Base => owned("base"),
            };
            emit(out, ViolationKind::NotInRootWorkspace { brick: b.name.clone(), kind_label: label, rel: f.brick_rel[i].clone() });
        }
        proof {
            assert(kinds(out@) =~= start + sec_bricks_not_in_root(map, f, i + 1));
        }
        i += 1;
    }
    let ghost mid = kinds(out@);
    let mut j: usize = 0;
    proof {
        assert(mid + sec_projects_not_in_root(map, f, 0) =~= mid);
    }
    while j < map.projects.len()
        invariant
            j <= map.projects@.len(),
            f.project_rel@.len() == map.projects@.len(),
            kinds(out@) == mid + sec_projects_not_in_root(map, f, j as int),
        decreases map.projects@.len() - j,
    {
        let p = &map.projects[j];
        if !any_covers(&map.root_members, f.project_rel[j].as_str()) {
            emit(out, ViolationKind::ProjectNotInRootWorkspace { project: p.name.clone(), rel: f.project_rel[j].clone() });
        }
        proof {
            assert(kinds(out@) =~= mid + sec_projects_not_in_root(map, f, j + 1));
        }
        j += 1;
    }
}

fn sec_bases_run(map: &WorkspaceMap, f: &CheckFacts, out: &mut Vec<Violation>)
    requires
        f.base_lib_rs@.len() == map.bases@.len(),
        f.base_main_rs@.len() == map.bases@.len(),
    ensures
        kinds(final(out)@) == kinds(old(out)@) + sec_bases(map, f, map.bases@.len() as int),
{
    let ghost start = kinds(out@);
    let mut i: usize = 0;
    proof {
        assert(start + sec_bases(map, f, 0) =~= start);
    }
    while i < map.bases.len()
        invariant
            i <= map.bases@.len(),
            f.base_lib_rs@.len() == map.bases@.len(),
            f.base_main_rs@.len() == map.bases@.len(),
            kinds(out@) == start + sec_bases(map, f, i as int),
        decreases map.bases@.len() - i,
    {
        let b = &map.bases[i];
        if !f.base_lib_rs[i] {
            emit(out, ViolationKind::BaseMissingLibRs { brick: b.name.clone() });
        }
        if f.base_main_rs[i] {
            emit(out, ViolationKind::BaseHasMainRs { brick: b.name.clone() });
        }
        proof {
            assert(kinds(out@) =~= start + sec_bases(map, f, i + 1));
        }
        i += 1;
    }
}

/// The drift of one external dependency of a project against the root workspace's entry.
pub open spec fn drift_pair(project: Seq<char>, dep: Seq<char>, info: ExternalDepInfo, ws: Option<ExternalDepInfo>) -> Seq<KindView> {
    match ws {
        None => Seq::empty(),
        Some(w) => (if missing_from(string_views(w.features@), string_views(info.features@)).len() > 0 {
            seq![
                KindView::ProjectFeatureDrift {
                    project,
                    dep,
                    project_features: string_views(info.features@),
                    workspace_features: string_views(w.features@),
                },
            ]
        } else {
            Seq::empty()
        }) + match (info.version, w.version) {
            (Some(pv), Some(wv)) => if pv@ != wv@ {
                seq![KindView::ProjectVersionDrift { project, dep, project_version: pv@, workspace_version: wv@ }]
            } else {
                Seq::empty()
            },
            _ => Seq::empty(),
        },
    }
}

/// The drift of the first `e` of a project's external dependencies `ks`.
pub open spec fn drift_items(
    project: Seq<char>,
    deps: Map<Seq<char>, ExternalDepInfo>,
    ws: Map<Seq<char>, ExternalDepInfo>,
    ks: Seq<Seq<char>>,
    e: int,
) -> Seq<KindView>
    decreases e,
{
    if e <= 0 {
        Seq::empty()
    } else {
        let k = ks[e - 1];
        drift_items(project, deps, ws, ks, e - 1) + drift_pair(
            project,
            k,
            deps[k],
            if ws.contains_key(k) {
                Some(ws[k])
            } else {
                None
            },
        )
    }
}

/// The keys of a map in sorted order.
pub open spec fn sorted_keys(dom: Set<Seq<char>>) -> Seq<Seq<char>> {
    choose|ks: Seq<Seq<char>>| strictly_sorted(ks) && #[trigger] ks.to_set() == dom
}

/// Standalone-build drift of the first `k` projects, each project's external
/// dependencies in key order.
pub open spec fn sec_drift(map: &WorkspaceMap, k: int) -> Seq<KindView>
    decreases k,
{
    if k <= 0 {
        Seq::empty()
    } else {
        let p = map.projects@[k - 1];
        let ks = sorted_keys(p.external_deps@.dom());
        sec_drift(map, k - 1) + drift_items(p.name@, p.external_deps@, map.root_workspace_deps@, ks, ks.len() as int)
    }
}

/// `key` names a brick or an interface.
pub open spec fn is_member_name(map: &WorkspaceMap, key: Seq<char>) -> bool {
    brick_names(all_bricks(map)).contains(key) || iface_list(map.components@, map.components@.len() as int).contains(key)
}

/// Direct path dependencies of brick `b` on members, among its first `e`.
pub open spec fn hardwired_items(map: &WorkspaceMap, b: Brick, e: int) -> Seq<KindView>
    decreases e,
{
    if e <= 0 {
        Seq::empty()
    } else {
        let key = b.path_dep_keys@[e - 1]@;
        hardwired_items(map, b, e - 1) + if is_member_name(map, key) {
            seq![KindView::HardwiredDep { brick: b.name@, dep: key }]
        } else {
            Seq::empty()
        }
    }
}

/// Hardwired path dependencies of the first `k` bricks.
pub open spec fn sec_hardwired(map: &WorkspaceMap, k: int) -> Seq<KindView>
    decreases k,
{
    if k <= 0 {
        Seq::empty()
    } else {
        let b = all_bricks(map)[k - 1];
        sec_hardwired(map, k - 1) + hardwired_items(map, b, b.path_dep_keys@.len() as int)
    }
}

/// `package = "..."` renames in `pairs` (of the brick or project `owner`) that
/// select a brick, among the first `e`.
pub open spec fn impl_dep_items(map: &WorkspaceMap, owner: Seq<char>, pairs: Seq<(String, String)>, e: int) -> Seq<KindView>
    decreases e,
{
    if e <= 0 {
        Seq::empty()
    } else {
        let (key, pkg) = pairs[e - 1];
        impl_dep_items(map, owner, pairs, e - 1) + if brick_names(all_bricks(map)).contains(pkg@) {
            seq![KindView::HardwiredImplDep { brick: owner, dep: key@, package: pkg@ }]
        } else {
            Seq::empty()
        }
    }
}

/// Hardwired implementation dependencies of the first `k` bricks.
pub open spec fn sec_impl_deps_bricks(map: &WorkspaceMap, k: int) -> Seq<KindView>
    decreases k,
{
    if k <= 0 {
        Seq::empty()
    } else {
        let b = all_bricks(map)[k - 1];
        sec_impl_deps_bricks(map, k - 1) + impl_dep_items(map, b.name@, b.hardwired_pkg_deps@, b.hardwired_pkg_deps@.len() as int)
    }
}

/// Hardwired implementation dependencies of the first `k` projects.
pub open spec fn sec_impl_deps_projects(map: &WorkspaceMap, k: int) -> Seq<KindView>
    decreases k,
{
    if k <= 0 {
        Seq::empty()
    } else {
        let p = map.projects@[k - 1];
        sec_impl_deps_projects(map, k - 1) + impl_dep_items(map, p.name@, p.hardwired_pkg_deps@, p.hardwired_pkg_deps@.len() as int)
    }
}

/// The workspace follows the relaxed versioning policy.
pub open spec fn is_relaxed(map: &WorkspaceMap) -> bool {
    map.polylith_toml matches Some(pt) && pt.versioning_policy == Some(VersioningPolicy::Relaxed)
}

/// Bricks not on the workspace version, among the first `k`.
pub open spec fn sec_version(map: &WorkspaceMap, f: &CheckFacts, k: int) -> Seq<KindView>
    decreases k,
{
    if k <= 0 {
        Seq::empty()
    } else {
        sec_version(map, f, k - 1) + if f.brick_uses_workspace_version@[k - 1] == Some(false) {
            seq![KindView::BrickNotUsingWorkspaceVersion { brick_name: all_bricks(map)[k - 1].name@ }]
        } else {
            Seq::empty()
        }
    }
}

/// The keys of `m` in sorted order.
pub fn sorted_key_list<V>(m: &StrMap<V>) -> (r: Vec<String>)
    ensures
        string_views(r@) == sorted_keys(m@.dom()),
        string_views(r@).to_set() == m@.dom(),
{
    let n = m.len();
    let mut out: Vec<String> = Vec::new();
    let mut i: usize = 0;
    proof {
        assert(string_views(out@).to_set() =~= m.key_seq().take(0).to_set());
    }
    while i < n
        invariant
            i <= n,
            n == m.key_seq().len(),
            strictly_sorted(string_views(out@)),
            string_views(out@).to_set() == m.key_seq().take(i as int).to_set(),
        decreases n - i,
    {
        let k = m.key_at(i);
        insert_sorted_unique(&mut out, k.as_str());
        proof {
            assert(m.key_seq().take(i + 1) =~= m.key_seq().take(i as int).push(k@));
            m.key_seq().take(i as int).lemma_push_to_set_commute(k@);
        }
        i += 1;
    }
    proof {
        assert(m.key_seq().take(n as int) =~= m.key_seq());
        let ks = sorted_keys(m@.dom());
        assert(strictly_sorted(string_views(out@)) && string_views(out@).to_set() == m@.dom());
        lemma_sorted_unique(string_views(out@), ks);
    }
    out
}

fn sec_drift_run(map: &WorkspaceMap, out: &mut Vec<Violation>)
    ensures
        kinds(final(out)@) == kinds(old(out)@) + sec_drift(map, map.projects@.len() as int),
{
    let ghost start = kinds(out@);
    let mut j: usize = 0;
    proof {
        assert(start + sec_drift(map, 0) =~= start);
    }
    while j < map.projects.len()
        invariant
            j <= map.projects@.len(),
            kinds(out@) == start + sec_drift(map, j as int),
        decreases map.projects@.len() - j,
    {
        let p = &map.projects[j];
        let keys = sorted_key_list(&p.external_deps);
        let ghost ks = string_views(keys@);
        let ghost mid = kinds(out@);
        let mut e: usize = 0;
        proof {
            assert(mid + drift_items(p.name@, p.external_deps@, map.root_workspace_deps@, ks, 0) =~= mid);
        }
        while e < keys.len()
            invariant
                e <= keys@.len(),
                ks == string_views(keys@),
                ks.to_set() == p.external_deps@.dom(),
                kinds(out@) == mid + drift_items(p.name@, p.external_deps@, map.root_workspace_deps@, ks, e as int),
            decreases keys@.len() - e,
        {
            let dep = keys[e].as_str();
            proof {
                assert(ks[e as int] == dep@);
                assert(ks.to_set().contains(dep@));
            }
            let info = p.external_deps.get(dep).unwrap();
            let ghost mid2 = kinds(out@);
            match map.root_workspace_deps.get(dep) {
                Some(ws) => {
                    let missing = missing_features(&ws.features, &info.features);
                    if missing.len() > 0 {
                        emit(
                            out,
                            ViolationKind::ProjectFeatureDrift {
                                project: p.name.clone(),
                                dep: keys[e].clone(),
                                project_features: clone_names(&info.features),
                                workspace_features: clone_names(&ws.features),
                            },
                        );
                    }
                    match (&info.version, &ws.version) {
                        (Some(pv), Some(wv)) => {
                            if !str_eq(pv.as_str(), wv.as_str()) {
                                emit(
                                    out,
                                    ViolationKind::ProjectVersionDrift {
                                        project: p.name.clone(),
                                        dep: keys[e].clone(),
                                        project_version: pv.clone(),
                                        workspace_version: wv.clone(),
                                    },
                                );
                            }
                        },
                        _ => {},
                    }
                },
                None => {},
            }
            proof {
                assert(kinds(out@) =~= mid + drift_items(p.name@, p.external_deps@, map.root_workspace_deps@, ks, e + 1));
            }
            e += 1;
        }
        proof {
            assert(kinds(out@) =~= start + sec_drift(map, j + 1));
        }
        j += 1;
    }
}

/// Whether `key` names a brick or an interface.
fn member_name(map: &WorkspaceMap, key: &str) -> (b: bool)
    requires
        map.components@.len() + map.bases@.len() <= usize::MAX,
    ensures
        b == is_member_name(map, key@),
{
    let n = map.components.len() + map.bases.len();
    let mut i: usize = 0;
    while i < n
        invariant
            i <= n,
            n == all_bricks(map).len(),
            forall|q: int| 0 <= q < i ==> brick_names(all_bricks(map))[q] != key@,
        decreases n - i,
    {
        let b = brick_at(map, i);
        if str_eq(b.name.as_str(), key) {
            proof {
                assert(brick_names(all_bricks(map))[i as int] == key@);
            }
            return true;
        }
        i += 1;
    }
    let mut c: usize = 0;
    while c < map.components.len()
        invariant
            c <= map.components@.len(),
            !brick_names(all_bricks(map)).contains(key@),
            !iface_list(map.components@, c as int).contains(key@),
        decreases map.components@.len() - c,
    {
        match &map.components[c].interface {
            Some(x) => {
                if str_eq(x.as_str(), key) {
                    proof {
                        lemma_iface_list_has(map.components@, c as int, map.components@.len() as int);
                    }
                    return true;
                }
                proof {
                    assert(iface_list(map.components@, c + 1) == iface_list(map.components@, c as int).push(x@));
                }
            },
            None => {},
        }
        c += 1;
    }
    false
}

proof fn lemma_iface_list_has(comps: Seq<Brick>, c: int, k: int)
    requires
        0 <= c < k <= comps.len(),
        comps[c].interface is Some,
    ensures
        iface_list(comps, k).contains(comps[c].interface->0@),
    decreases k,
{
    if k == c + 1 {
        assert(iface_list(comps, k)[iface_list(comps, c).len() as int] == comps[c].interface->0@);
    } else {
        lemma_iface_list_has(comps, c, k - 1);
        let prev = iface_list(comps, k - 1);
        let w = choose|w: int| 0 <= w < prev.len() && #[trigger] prev[w] == comps[c].interface->0@;
        match comps[k - 1].interface {
            Some(i) => {
                assert(iface_list(comps, k)[w] == comps[c].interface->0@);
            },
            None => {},
        }
    }
}

/// Whether `name` is the name of a brick.
fn brick_name_known(map: &WorkspaceMap, name: &str) -> (b: bool)
    requires
        map.components@.len() + map.bases@.len() <= usize::MAX,
    ensures
        b == brick_names(all_bricks(map)).contains(name@),
{
    let n = map.components.len() + map.bases.len();
    let mut i: usize = 0;
    while i < n
        invariant
            i <= n,
            n == all_bricks(map).len(),
            forall|q: int| 0 <= q < i ==> brick_names(all_bricks(map))[q] != name@,
        decreases n - i,
    {
        let b = brick_at(map, i);
        if str_eq(b.name.as_str(), name) {
            proof {
                assert(brick_names(all_bricks(map))[i as int] == name@);
            }
            return true;
        }
        i += 1;
    }
    false
}

fn impl_deps_run(map: &WorkspaceMap, owner: &String, pairs: &Vec<(String, String)>, out: &mut Vec<Violation>)
    requires
        map.components@.len() + map.bases@.len() <= usize::MAX,
    ensures
        kinds(final(out)@) == kinds(old(out)@) + impl_dep_items(map, owner@, pairs@, pairs@.len() as int),
{
    let ghost start = kinds(out@);
    let mut e: usize = 0;
    proof {
        assert(start + impl_dep_items(map, owner@, pairs@, 0) =~= start);
    }
    while e < pairs.len()
        invariant
            e <= pairs@.len(),
            map.components@.len() + map.bases@.len() <= usize::MAX,
            kinds(out@) == start + impl_dep_items(map, owner@, pairs@, e as int),
        decreases pairs@.len() - e,
    {
        let (key, pkg) = &pairs[e];
        if brick_name_known(map, pkg.as_str()) {
            emit(out, ViolationKind::HardwiredImplDep { brick: owner.clone(), dep: key.clone(), package: pkg.clone() });
        }
        proof {
            assert(kinds(out@) =~= start + impl_dep_items(map, owner@, pairs@, e + 1));
        }
        e += 1;
    }
}

fn sec_hardwired_run(map: &WorkspaceMap, out: &mut Vec<Violation>)
    requires
        map.components@.len() + map.bases@.len() <= usize::MAX,
    ensures
        kinds(final(out)@) == kinds(old(out)@) + sec_hardwired(map, all_bricks(map).len() as int) + sec_impl_deps_bricks(
            map,
            all_bricks(map).len() as int,
        ) + sec_impl_deps_projects(map, map.projects@.len() as int),
{
    let ghost start = kinds(out@);
    let n = map.components.len() + map.bases.len();
    let mut i: usize = 0;
    proof {
        assert(start + sec_hardwired(map, 0) =~= start);
    }
    while i < n
        invariant
            i <= n,
            n == all_bricks(map).len(),
            kinds(out@) == start + sec_hardwired(map, i as int),
        decreases n - i,
    {
        let b = brick_at(map, i);
        let ghost mid = kinds(out@);
        let mut e: usize = 0;
        proof {
            assert(mid + hardwired_items(map, *b, 0) =~= mid);
        }
        while e < b.path_dep_keys.len()
            invariant
                e <= b.path_dep_keys@.len(),
                n == all_bricks(map).len(),
                kinds(out@) == mid + hardwired_items(map, *b, e as int),
            decreases b.path_dep_keys@.len() - e,
        {
            let key = &b.path_dep_keys[e];
            if member_name(map, key.as_str()) {
                emit(out, ViolationKind::HardwiredDep { brick: b.name.clone(), dep: key.clone() });
            }
            proof {
                assert(kinds(out@) =~= mid + hardwired_items(map, *b, e + 1));
            }
            e += 1;
        }
        proof {
            assert(kinds(out@) =~= start + sec_hardwired(map, i + 1));
        }
        i += 1;
    }
    let ghost s2 = kinds(out@);
    let mut i: usize = 0;
    proof {
        assert(s2 + sec_impl_deps_bricks(map, 0) =~= s2);
    }
    while i < n
        invariant
            i <= n,
            n == all_bricks(map).len(),
            kinds(out@) == s2 + sec_impl_deps_bricks(map, i as int),
        decreases n - i,
    {
        let b = brick_at(map, i);
        impl_deps_run(map, &b.name, &b.hardwired_pkg_deps, out);
        proof {
            assert(kinds(out@) =~= s2 + sec_impl_deps_bricks(map, i + 1));
        }
        i += 1;
    }
    let ghost s3 = kinds(out@);
    let mut j: usize = 0;
    proof {
        assert(s3 + sec_impl_deps_projects(map, 0) =~= s3);
    }
    while j < map.projects.len()
        invariant
            j <= map.projects@.len(),
            n == all_bricks(map).len(),
            kinds(out@) == s3 + sec_impl_deps_projects(map, j as int),
        decreases map.projects@.len() - j,
    {
        let p = &map.projects[j];
        impl_deps_run(map, &p.name, &p.hardwired_pkg_deps, out);
        proof {
            assert(kinds(out@) =~= s3 + sec_impl_deps_projects(map, j + 1));
        }
        j += 1;
    }
    proof {
        assert(kinds(out@) =~= start + sec_hardwired(map, all_bricks(map).len() as int) + sec_impl_deps_bricks(
            map,
            all_bricks(map).len() as int,
        ) + sec_impl_deps_projects(map, map.projects@.len() as int));
    }
}

fn sec_version_run(map: &WorkspaceMap, f: &CheckFacts, out: &mut Vec<Violation>)
    requires
        map.components@.len() + map.bases@.len() <= usize::MAX,
        f.brick_uses_workspace_version@.len() == map.components@.len() + map.bases@.len(),
    ensures
        kinds(final(out)@) == kinds(old(out)@) + if is_relaxed(map) {
            sec_version(map, f, all_bricks(map).len() as int)
        } else {
            Seq::<KindView>::empty()
        },
{
    let ghost start = kinds(out@);
    let relaxed = match &map.polylith_toml {
        Some(pt) => match pt.versioning_policy {
            Some(VersioningPolicy::Relaxed) => true,
            _ => false,
        },
        None => false,
    };
    if !relaxed {
        proof {
            assert(start + Seq::<KindView>::empty() =~= start);
        }
        return;
    }
    let n = map.components.len() + map.bases.len();
    let mut i: usize = 0;
    proof {
        assert(start + sec_version(map, f, 0) =~= start);
    }
    while i < n
        invariant
            i <= n,
            n == all_bricks(map).len(),
            f.brick_uses_workspace_version@.len() == n,
            kinds(out@) == start + sec_version(map, f, i as int),
        decreases n - i,
    {
        let b = brick_at(map, i);
        match f.brick_uses_workspace_version[i] {
            Some(false) => {
                emit(out, ViolationKind::BrickNotUsingWorkspaceVersion { brick_name: b.name.clone() });
            },
            _ => {},
        }
        proof {
            assert(kinds(out@) =~= start + sec_version(map, f, i + 1));
        }
        i += 1;
    }
}

/// Everything `run_checks` reports, in order.
pub open spec fn check_report(map: &WorkspaceMap, f: &CheckFacts) -> Seq<KindView> {
    let nc = map.components@.len() as int;
    let np = map.projects@.len() as int;
    let nall = all_bricks(map).len() as int;
    let dn = first_names(brick_names(all_bricks(map)), nall);
    let il = iface_list(map.components@, nc);
    let di = first_names(il, il.len() as int);
    let members_listed = map.root_members@.len() > 0;
    sec_components(map, f, depended_on(map, f), nc) + sec_missing_base(map, f, np) + sec_own_workspace(map, f, np)
        + sec_dep_mismatch(map, f, np) + sec_duplicates(map, f, dn, dn.len() as int) + sec_missing_interface(map, nc)
        + sec_ambiguous(map, di, di.len() as int) + (if members_listed {
        sec_bricks_not_in_root(map, f, nall)
    } else {
        Seq::empty()
    }) + (if members_listed {
        sec_projects_not_in_root(map, f, np)
    } else {
        Seq::empty()
    }) + sec_bases(map, f, map.bases@.len() as int) + sec_drift(map, np) + sec_hardwired(map, nall)
        + sec_impl_deps_bricks(map, nall) + sec_impl_deps_projects(map, np) + if is_relaxed(map) {
        sec_version(map, f, nall)
    } else {
        Seq::empty()
    }
}

/// Runs all structural checks against `map` and returns the violations found,
/// section by section: component layout and usage, projects without a base,
/// projects with their own workspace, dependency key mismatches, duplicate
/// names, missing interfaces, ambiguous interfaces, workspace membership, base
/// layout, standalone dependency drift, hardwired dependencies, and (in relaxed
/// mode) bricks off the workspace version.
///
/// A component counts as used when it is reachable from what bases and projects
/// depend on, or from a component that a profile in `profiles` selects. `facts`
/// holds what the checks read from the file system.
pub fn run_checks(map: &WorkspaceMap, profiles: &Vec<Profile>, facts: &CheckFacts) -> (r: Vec<Violation>)
    requires
        map.indexes_consistent(),
        facts_fit(map, profiles@, facts),
        map.components@.len() + map.bases@.len() <= usize::MAX,
    ensures
        kinds(r@) == check_report(map, facts),
{
    let mut seeds: Vec<String> = Vec::new();
    let mut i: usize = 0;
    proof {
        assert(string_views(seeds@) =~= base_seeds(map, 0));
    }
    while i < map.bases.len()
        invariant
            i <= map.bases@.len(),
            map.indexes_consistent(),
            string_views(seeds@) == base_seeds(map, i as int),
        decreases map.bases@.len() - i,
    {
        push_resolved(&mut seeds, map, &map.bases[i].deps);
        i += 1;
    }
    let ghost bs = string_views(seeds@);
    let mut j: usize = 0;
    proof {
        assert(string_views(seeds@) =~= bs + project_seeds(map, 0));
    }
    while j < map.projects.len()
        invariant
            j <= map.projects@.len(),
            map.indexes_consistent(),
            bs == base_seeds(map, map.bases@.len() as int),
            string_views(seeds@) == bs + project_seeds(map, j as int),
        decreases map.projects@.len() - j,
    {
        let ghost before = string_views(seeds@);
        push_resolved(&mut seeds, map, &map.projects[j].deps);
        proof {
            assert(string_views(seeds@) =~= bs + project_seeds(map, j + 1));
        }
        j += 1;
    }
    let ghost all_seeds = string_views(seeds@);
    let used1 = used_components(map, seeds);
    let pseeds = profile_seed_names(map, facts);
    let ghost ps = string_views(pseeds@);
    let used2 = used_components(map, pseeds);
    proof {
        assert(string_views(used1@).to_set().union(string_views(used2@).to_set()) =~= depended_on(map, facts));
    }
    let mut out: Vec<Violation> = Vec::new();
    proof {
        assert(kinds(out@) =~= Seq::<KindView>::empty());
    }
    sec_components_run(map, facts, &used1, &used2, &mut out);
    sec_missing_base_run(map, facts, &mut out);
    sec_own_workspace_run(map, facts, &mut out);
    sec_dep_mismatch_run(map, facts, &mut out);
    sec_duplicates_run(map, facts, &mut out);
    sec_missing_interface_run(map, &mut out);
    sec_ambiguous_run(map, &mut out);
    sec_not_in_root_run(map, facts, &mut out);
    sec_bases_run(map, facts, &mut out);
    sec_drift_run(map, &mut out);
    sec_hardwired_run(map, &mut out);
    sec_version_run(map, facts, &mut out);
    proof {
        assert(kinds(out@) =~= check_report(map, facts));
    }
    out
}

} // verus!
