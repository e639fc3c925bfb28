//! Decisions of the MCP tool server: which tool a call names, whether it may
//! run, the arguments it needs, what it answers, and the dependency report the
//! read tools and the `deps` command share.
use vstd::prelude::*;

use crate::corsett::string_views;
use crate::discover::opt_chars;
use crate::graph::contains_str;
use crate::model::{classify_dep, interface_or_name, last_named, Brick, DepKind, WorkspaceMap};
use crate::strmap::StrMap;
use crate::text::{owned, str_eq};

verus! {

/// The arguments of a tool call, as plain values: its string arguments and its
/// boolean arguments, by name.
pub struct ToolArgs {
    pub strings: StrMap<String>,
    pub flags: StrMap<bool>,
}

/// A tool call the server accepts, with its arguments.
pub enum ToolCall {
    Info,
    Deps { filter: Option<String> },
    Check,
    Status,
    ProfileList,
    ComponentNew { name: String, interface: String },
    BaseNew { name: String },
    ProjectNew { name: String },
    ComponentUpdate { name: String, interface: String },
    ProfileNew { name: String },
    ProfileAdd { profile: String, interface: String, implementation: String },
    BaseUpdate { name: String, test_base: bool },
    Bump { level: Option<String>, dry_run: bool },
    MigratePackageMeta,
}

/// A JSON-RPC error answer: its code and message.
pub struct ToolError {
    pub code: i32,
    pub message: String,
}

/// The string argument `key`, if given.
pub open spec fn str_arg(args: ToolArgs, key: Seq<char>) -> Option<Seq<char>> {
    if args.strings@.contains_key(key) {
        Some(args.strings@[key]@)
    } else {
        None
    }
}

/// The string argument `key`, if given and not empty.
pub open spec fn required_arg(args: ToolArgs, key: Seq<char>) -> Option<Seq<char>> {
    match str_arg(args, key) {
        Some(s) => if s.len() > 0 {
            Some(s)
        } else {
            None
        },
        None => None,
    }
}

/// The message for a missing required argument.
pub open spec fn missing_text(key: Seq<char>) -> Seq<char> {
    "missing required parameter: "@ + key
}

/// The message when a write tool is called on a read-only server.
pub open spec fn write_disabled_text() -> Seq<char> {
    "write tools disabled — restart the MCP server with --write to enable scaffolding"@
}

/// The tools that change the workspace.
pub open spec fn is_write_tool(name: Seq<char>) -> bool {
    ||| name == "polylith_component_new"@
    ||| name == "polylith_base_new"@
    ||| name == "polylith_project_new"@
    ||| name == "polylith_component_update"@
    ||| name == "polylith_profile_new"@
    ||| name == "polylith_profile_add"@
    ||| name == "polylith_base_update"@
    ||| name == "polylith_bump"@
    ||| name == "polylith_migrate_package_meta"@
}

/// `r` is an error with this code and message.
pub open spec fn err_is(r: Result<ToolCall, ToolError>, code: int, msg: Seq<char>) -> bool {
    r matches Err(e) && e.code == code && e.message@ == msg
}

/// What a call of tool `name` with `args` comes to: the call to run, or the error
/// to answer. Read tools always run; write tools need `write` and their required
/// arguments, checked in order; any other name is unknown.
pub open spec fn planned(name: Seq<char>, args: ToolArgs, write: bool, r: Result<ToolCall, ToolError>) -> bool {
    if name == "polylith_info"@ {
        r matches Ok(ToolCall::Info)
    } else if name == "polylith_deps"@ {
        r matches Ok(ToolCall::Deps { filter }) && opt_chars(filter) == str_arg(args, "component"@)
    } else if name == "polylith_check"@ {
        r matches Ok(ToolCall::Check)
    } else if name == "polylith_status"@ {
        r matches Ok(ToolCall::Status)
    } else if name == "polylith_profile_list"@ {
        r matches Ok(ToolCall::ProfileList)
    } else if is_write_tool(name) && !write {
        err_is(r, -32601, write_disabled_text())
    } else if name == "polylith_component_new"@ {
        match required_arg(args, "name"@) {
            None => err_is(r, -32602, missing_text("name"@)),
            Some(n) => r matches Ok(ToolCall::ComponentNew { name, interface }) && name@ == n && interface@
                == match str_arg(args, "interface"@) {
                Some(i) => i,
                None => n,
            },
        }
    } else if name == "polylith_base_new"@ {
        match required_arg(args, "name"@) {
            None => err_is(r, -32602, missing_text("name"@)),
            Some(n) => r matches Ok(ToolCall::BaseNew { name }) && name@ == n,
        }
    } else if name == "polylith_project_new"@ {
        match required_arg(args, "name"@) {
            None => err_is(r, -32602, missing_text("name"@)),
            Some(n) => r matches Ok(ToolCall::ProjectNew { name }) && name@ == n,
        }
    } else if name == "polylith_component_update"@ {
        match (required_arg(args, "name"@), required_arg(args, "interface"@)) {
            (None, _) => err_is(r, -32602, missing_text("name"@)),
            (Some(_), None) => err_is(r, -32602, missing_text("interface"@)),
            (Some(n), Some(i)) => r matches Ok(ToolCall::ComponentUpdate { name, interface }) && name@ == n
                && interface@ == i,
        }
    } else if name == "polylith_profile_new"@ {
        match required_arg(args, "name"@) {
            None => err_is(r, -32602, missing_text("name"@)),
            Some(n) => r matches Ok(ToolCall::ProfileNew { name }) && name@ == n,
        }
    } else if name == "polylith_profile_add"@ {
        match (
            required_arg(args, "profile"@),
            required_arg(args, "interface"@),
            required_arg(args, "implementation"@),
        ) {
            (None, _, _) => err_is(r, -32602, missing_text("profile"@)),
            (Some(_), None, _) => err_is(r, -32602, missing_text("interface"@)),
            (Some(_), Some(_), None) => err_is(r, -32602, missing_text("implementation"@)),
            (Some(p), Some(i), Some(m)) => r matches Ok(ToolCall::ProfileAdd { profile, interface, implementation })
                && profile@ == p && interface@ == i && implementation@ == m,
        }
    } else if name == "polylith_base_update"@ {
        match required_arg(args, "name"@) {
            None => err_is(r, -32602, missing_text("name"@)),
            Some(n) => r matches Ok(ToolCall::BaseUpdate { name, test_base }) && name@ == n && test_base == (
            args.flags@.contains_key("test_base"@) && args.flags@["test_base"@]),
        }
    } else if name == "polylith_bump"@ {
        r matches Ok(ToolCall::Bump { level, dry_run }) && opt_chars(level) == str_arg(args, "level"@) && dry_run == (
        args.flags@.contains_key("dry_run"@) && args.flags@["dry_run"@])
    } else if name == "polylith_migrate_package_meta"@ {
        r matches Ok(ToolCall::MigratePackageMeta)
    } else {
        err_is(r, -32601, "unknown tool: "@ + name)
    }
}

/// The string argument `key`, if given.
fn arg(args: &ToolArgs, key: &str) -> (r: Option<String>)
    ensures
        opt_chars(r) == str_arg(*args, key@),
{
    match args.strings.get(key) {
        Some(s) => Some(s.clone()),
        None => None,
    }
}

/// The required argument `key`, or the error for its absence.
fn need(args: &ToolArgs, key: &str) -> (r: Result<String, ToolError>)
    ensures
        match required_arg(*args, key@) {
            Some(v) => r matches Ok(s) && s@ == v,
            None => r matches Err(e) && e.code == -32602 && e.message@ == missing_text(key@),
        },
{
    match args.strings.get(key) {
        Some(s) => {
            if !s.as_str().is_empty() {
                return Ok(s.clone());
            }
        },
        None => {},
    }
    let mut m = owned("missing required parameter: ");
    m.append(key);
    Err(ToolError { code: -32602, message: m })
}

fn write_tool(name: &str) -> (b: bool)
    ensures
        b == is_write_tool(name@),
{
    str_eq(name, "polylith_component_new") || str_eq(name, "polylith_base_new") || str_eq(name, "polylith_project_new")
        || str_eq(name, "polylith_component_update") || str_eq(name, "polylith_profile_new") || str_eq(
        name,
        "polylith_profile_add",
    ) || str_eq(name, "polylith_base_update") || str_eq(name, "polylith_bump") || str_eq(
        name,
        "polylith_migrate_package_meta",
    )
}

/// Decides what a call of tool `name` with `args` does on a server that allows
/// writes when `write` (see [`planned`]).
pub fn plan_tool_call(name: &str, args: &ToolArgs, write: bool) -> (r: Result<ToolCall, ToolError>)
    ensures
        planned(name@, *args, write, r),
{
    if str_eq(name, "polylith_info") {
        Ok(ToolCall::Info)
    } else if str_eq(name, "polylith_deps") {
        Ok(ToolCall::Deps { filter: arg(args, "component") })
    } else if str_eq(name, "polylith_check") {
        Ok(ToolCall::Check)
    } else if str_eq(name, "polylith_status") {
        Ok(ToolCall::Status)
    } else if str_eq(name, "polylith_profile_list") {
        Ok(ToolCall::ProfileList)
    } else if write_tool(name) && !write {
        Err(
            ToolError {
                code: -32601,
                message: owned(
                    "write tools disabled — restart the MCP server with --write to enable scaffolding",
                ),
            },
        )
    } else if str_eq(name, "polylith_component_new") {
        let n = need(args, "name")?;
        let interface = match arg(args, "interface") {
            Some(i) => i,
            None => n.clone(),
        };
        Ok(ToolCall::ComponentNew { name: n, interface })
    } else if str_eq(name, "polylith_base_new") {
        let n = need(args, "name")?;
        Ok(ToolCall::BaseNew { name: n })
    } else if str_eq(name, "polylith_project_new") {
        let n = need(args, "name")?;
        Ok(ToolCall::ProjectNew { name: n })
    } else if str_eq(name, "polylith_component_update") {
        let n = need(args, "name")?;
        let i = need(args, "interface")?;
        Ok(ToolCall::ComponentUpdate { name: n, interface: i })
    } else if str_eq(name, "polylith_profile_new") {
        let n = need(args, "name")?;
        Ok(ToolCall::ProfileNew { name: n })
    } else if str_eq(name, "polylith_profile_add") {
        let p = need(args, "profile")?;
        let i = need(args, "interface")?;
        let m = need(args, "implementation")?;
        Ok(ToolCall::ProfileAdd { profile: p, interface: i, implementation: m })
    } else if str_eq(name, "polylith_base_update") {
        let n = need(args, "name")?;
        let test_base = match args.flags.get("test_base") {
            Some(b) => *b,
            None => false,
        };
        Ok(ToolCall::BaseUpdate { name: n, test_base })
    } else if str_eq(name, "polylith_bump") {
        let dry_run = match args.flags.get("dry_run") {
            Some(b) => *b,
            None => false,
        };
        Ok(ToolCall::Bump { level: arg(args, "level"), dry_run })
    } else if str_eq(name, "polylith_migrate_package_meta") {
        Ok(ToolCall::MigratePackageMeta)
    } else {
        let mut m = owned("unknown tool: ");
        m.append(name);
        Err(ToolError { code: -32601, message: m })
    }
}

/// What a write tool answers once its work is done; read tools and the
/// metadata migration answer with their own output.
pub open spec fn done_text(c: ToolCall) -> Seq<char> {
    match c {
        ToolCall::ComponentNew { name, interface } => "created component '"@ + name@ + "' with interface '"@
            + interface@ + "'"@,
        ToolCall::BaseNew { name } => "created base '"@ + name@ + "'"@,
        ToolCall::ProjectNew { name } => "created project '"@ + name@ + "'"@,
        ToolCall::ComponentUpdate { name, interface } => "updated component '"@ + name@ + "' interface to '"@
            + interface@ + "'"@,
        ToolCall::ProfileNew { name } => "created profile '"@ + name@ + "'"@,
        ToolCall::ProfileAdd { profile, interface, implementation } => "updated profile '"@ + profile@ + "': "@
            + interface@ + " → "@ + implementation@,
        ToolCall::BaseUpdate { name, test_base } => "updated base '"@ + name@ + "': test-base = "@ + if test_base {
            "true"@
        } else {
            "false"@
        },
        _ => Seq::empty(),
    }
}

fn quoted_in(head: &str, name: &str, tail: &str) -> (r: String)
    ensures
        r@ == head@ + name@ + tail@,
{
    let mut r = owned(head);
    r.append(name);
    r.append(tail);
    r
}

/// What a write tool answers once its work is done (see [`done_text`]).
pub fn done_message(c: &ToolCall) -> (r: String)
    ensures
        r@ == done_text(*c),
{
    match c {
        ToolCall::ComponentNew { name, interface } => {
            let mut r = quoted_in("created component '", name.as_str(), "' with interface '");
            r.append(interface.as_str());
            r.append("'");
            r
        },
        ToolCall::BaseNew { name } => quoted_in("created base '", name.as_str(), "'"),
        ToolCall::ProjectNew { name } => quoted_in("created project '", name.as_str(), "'"),
        ToolCall::ComponentUpdate { name, interface } => {
            let mut r = quoted_in("updated component '", name.as_str(), "' interface to '");
            r.append(interface.as_str());
            r.append("'");
            r
        },
        ToolCall::ProfileNew { name } => quoted_in("created profile '", name.as_str(), "'"),
        ToolCall::ProfileAdd { profile, interface, implementation } => {
            let mut r = quoted_in("updated profile '", profile.as_str(), "': ");
            r.append(interface.as_str());
            r.append(" → ");
            r.append(implementation.as_str());
            r
        },
        ToolCall::BaseUpdate { name, test_base } => {
            let mut r = quoted_in("updated base '", name.as_str(), "': test-base = ");
            if *test_base {
                r.append("true");
            } else {
                r.append("false");
            }
            r
        },
        _ => String::new(),
    }
}

/// The first brick named `name`, if any.
pub fn find_named(bricks: &Vec<Brick>, name: &str) -> (r: Option<usize>)
    ensures
        match r {
            Some(i) => i < bricks@.len() && bricks@[i as int].name@ == name@ && forall|k: int|
                0 <= k < i ==> bricks@[k].name@ != name@,
            None => forall|k: int| 0 <= k < bricks@.len() ==> bricks@[k].name@ != name@,
        },
{
    let mut i: usize = 0;
    while i < bricks.len()
        invariant
            i <= bricks@.len(),
            forall|k: int| 0 <= k < i ==> bricks@[k].name@ != name@,
        decreases bricks@.len() - i,
    {
        if str_eq(bricks[i].name.as_str(), name) {
            return Some(i);
        }
        i += 1;
    }
    None
}

/// The error message for a brick that is not in the workspace: `kind` is
/// `component` or `base`.
pub fn not_found_message(kind: &str, name: &str) -> (r: String)
    ensures
        r@ == kind@ + " '"@ + name@ + "' not found in workspace"@,
{
    let mut r = owned(kind);
    r.append(" '");
    r.append(name);
    r.append("' not found in workspace");
    r
}

/// The error message for a JSON-RPC method the server does not know.
pub fn method_not_found_message(method: &str) -> (r: String)
    ensures
        r@ == "method not found: "@ + method@,
{
    let mut r = owned("method not found: ");
    r.append(method);
    r
}

/// One row of the dependency report: a base or project, and its dependencies on
/// bases and on components (by interface).
pub struct DepsEntry {
    pub name: String,
    pub base_deps: Vec<String>,
    pub component_deps: Vec<String>,
}

/// How a dependency key reads: `(true, base)`, `(false, interface)`, or nothing
/// for an external crate (see [`classify_dep`]).
pub open spec fn dep_class(map: &WorkspaceMap, d: Seq<char>) -> Option<(bool, Seq<char>)> {
    if map.base_by_name@.contains_key(d) {
        Some((true, d))
    } else if map.component_by_name@.contains_key(d) {
        Some((false, interface_or_name(map.components@[last_named(map.components@, d)])))
    } else if map.component_by_interface@.contains_key(d) {
        Some((false, d))
    } else {
        None
    }
}

/// The dependencies among `deps` that read as bases (`is_base`) or as
/// components, each by the name it reads as, in order.
pub open spec fn deps_of_kind(map: &WorkspaceMap, deps: Seq<Seq<char>>, is_base: bool) -> Seq<Seq<char>>
    decreases deps.len(),
{
    if deps.len() == 0 {
        Seq::empty()
    } else {
        let prev = deps_of_kind(map, deps.drop_last(), is_base);
        match dep_class(map, deps.last()) {
            Some((b, n)) => if b == is_base {
                prev.push(n)
            } else {
                prev
            },
            None => prev,
        }
    }
}

/// `e` reports `name` with dependencies `deps`.
pub open spec fn entry_reports(map: &WorkspaceMap, e: DepsEntry, name: Seq<char>, deps: Seq<Seq<char>>) -> bool {
    &&& e.name@ == name
    &&& string_views(e.base_deps@) == deps_of_kind(map, deps, true)
    &&& string_views(e.component_deps@) == deps_of_kind(map, deps, false)
}

/// Whether dependencies `deps` pass the filter: no filter, or one of them is it.
pub open spec fn passes(filter: Option<Seq<char>>, deps: Seq<Seq<char>>) -> bool {
    match filter {
        None => true,
        Some(f) => deps.contains(f),
    }
}

/// The positions among the first `k` bases that pass the filter.
pub open spec fn bases_shown(map: &WorkspaceMap, filter: Option<Seq<char>>, k: int) -> Seq<int>
    decreases k,
{
    if k <= 0 {
        Seq::empty()
    } else if passes(filter, string_views(map.bases@[k - 1].deps@)) {
        bases_shown(map, filter, k - 1).push(k - 1)
    } else {
        bases_shown(map, filter, k - 1)
    }
}

/// The positions among the first `k` projects that pass the filter.
pub open spec fn projects_shown(map: &WorkspaceMap, filter: Option<Seq<char>>, k: int) -> Seq<int>
    decreases k,
{
    if k <= 0 {
        Seq::empty()
    } else if passes(filter, string_views(map.projects@[k - 1].deps@)) {
        projects_shown(map, filter, k - 1).push(k - 1)
    } else {
        projects_shown(map, filter, k - 1)
    }
}

/// The report entry for dependencies `deps` of `name`.
fn deps_entry(map: &WorkspaceMap, name: &String, deps: &Vec<String>) -> (e: DepsEntry)
    requires
        map.indexes_consistent(),
    ensures
        entry_reports(map, e, name@, string_views(deps@)),
{
    let mut base_deps: Vec<String> = Vec::new();
    let mut component_deps: Vec<String> = Vec::new();
    let mut i: usize = 0;
    while i < deps.len()
        invariant
            i <= deps@.len(),
            map.indexes_consistent(),
            string_views(base_deps@) == deps_of_kind(map, string_views(deps@).take(i as int), true),
            string_views(component_deps@) == deps_of_kind(map, string_views(deps@).take(i as int), false),
        decreases deps@.len() - i,
    {
        let d = deps[i].as_str();
        let ghost t = string_views(deps@).take(i + 1);
        proof {
            assert(t.drop_last() =~= string_views(deps@).take(i as int));
            assert(t.last() == d@);
        }
        let ghost (b0, c0) = (string_views(base_deps@), string_views(component_deps@));
        match classify_dep(d, map) {
            DepKind::Base(n) => {
                base_deps.push(owned(n));
                proof {
                    assert(string_views(base_deps@) =~= b0.push(n@));
                }
            },
            DepKind::Interface(n) => {
                component_deps.push(owned(n));
                proof {
                    assert(string_views(component_deps@) =~= c0.push(n@));
                }
            },
            DepKind::External => {},
        }
        i += 1;
    }
    proof {
        assert(string_views(deps@).take(deps@.len() as int) =~= string_views(deps@));
    }
    DepsEntry { name: name.clone(), base_deps, component_deps }
}

/// The dependency report: each base, then each project, that passes the filter
/// (no filter, or it depends on `filter` by that key), with its dependencies on
/// bases and on components.
pub fn deps_report(map: &WorkspaceMap, filter: Option<&str>) -> (r: (Vec<DepsEntry>, Vec<DepsEntry>))
    requires
        map.indexes_consistent(),
    ensures
        ({
            let f = match filter {
                Some(x) => Some(x@),
                None => None,
            };
            let bs = bases_shown(map, f, map.bases@.len() as int);
            let ps = projects_shown(map, f, map.projects@.len() as int);
            &&& r.0@.len() == bs.len()
            &&& forall|j: int| 0 <= j < bs.len() ==> entry_reports(map, #[trigger] r.0@[j], map.bases@[bs[j]].name@, string_views(map.bases@[bs[j]].deps@))
            &&& r.1@.len() == ps.len()
            &&& forall|j: int| 0 <= j < ps.len() ==> entry_reports(map, #[trigger] r.1@[j], map.projects@[ps[j]].name@, string_views(map.projects@[ps[j]].deps@))
        }),
{
    let ghost f = match filter {
        Some(x) => Some(x@),
        None => None,
    };
    let mut bases: Vec<DepsEntry> = Vec::new();
    let mut i: usize = 0;
    while i < map.bases.len()
        invariant
            i <= map.bases@.len(),
            map.indexes_consistent(),
            f == match filter {
                Some(x) => Some(x@),
                None => None,
            },
            bases@.len() == bases_shown(map, f, i as int).len(),
            forall|j: int| 0 <= j < bases@.len() ==> entry_reports(map, #[trigger] bases@[j], map.bases@[bases_shown(map, f, i as int)[j]].name@, string_views(map.bases@[bases_shown(map, f, i as int)[j]].deps@)),
        decreases map.bases@.len() - i,
    {
        let b = &map.bases[i];
        let show = match filter {
            Some(x) => contains_str(&b.deps, x),
            None => true,
        };
        if show {
            let e = deps_entry(map, &b.name, &b.deps);
            bases.push(e);
        }
        proof {
            let s0 = bases_shown(map, f, i as int);
            let s1 = bases_shown(map, f, i + 1);
            assert forall|j: int| 0 <= j < bases@.len() implies entry_reports(map, #[trigger] bases@[j], map.bases@[s1[j]].name@, string_views(map.bases@[s1[j]].deps@)) by {
                if j < s0.len() {
                    assert(s1[j] == s0[j]);
                }
            }
        }
        i += 1;
    }
    let mut projects: Vec<DepsEntry> = Vec::new();
    let mut k: usize = 0;
    while k < map.projects.len()
        invariant
            k <= map.projects@.len(),
            map.indexes_consistent(),
            f == match filter {
                Some(x) => Some(x@),
                None => None,
            },
            projects@.len() == projects_shown(map, f, k as int).len(),
            forall|j: int| 0 <= j < projects@.len() ==> entry_reports(map, #[trigger] projects@[j], map.projects@[projects_shown(map, f, k as int)[j]].name@, string_views(map.projects@[projects_shown(map, f, k as int)[j]].deps@)),
        decreases map.projects@.len() - k,
    {
        let p = &map.projects[k];
        let show = match filter {
            Some(x) => contains_str(&p.deps, x),
            None => true,
        };
        if show {
            let e = deps_entry(map, &p.name, &p.deps);
            projects.push(e);
        }
        proof {
            let s0 = projects_shown(map, f, k as int);
            let s1 = projects_shown(map, f, k + 1);
            assert forall|j: int| 0 <= j < projects@.len() implies entry_reports(map, #[trigger] projects@[j], map.projects@[s1[j]].name@, string_views(map.projects@[s1[j]].deps@)) by {
                if j < s0.len() {
                    assert(s1[j] == s0[j]);
                }
            }
        }
        k += 1;
    }
    (bases, projects)
}

/// How a coding assistant starts the MCP server: through `devenv shell` when
/// the workspace has a `devenv.nix`, else directly.
pub open spec fn server_command(devenv: bool) -> (Seq<char>, Seq<char>) {
    if devenv {
        ("devenv"@, "[\"shell\", \"--\", \"cargo-polylith\", \"polylith\", \"mcp\", \"serve\"]"@)
    } else {
        ("cargo-polylith"@, "[\"polylith\", \"mcp\", \"serve\"]"@)
    }
}

/// The hint printed after writing the skill file: where to register the MCP
/// server (`.mcp.json`, unless that is a managed symlink) and the entry to add.
pub open spec fn mcp_hint_text(devenv: bool, managed: bool) -> Seq<char> {
    let (command, args) = server_command(devenv);
    let where_ = if managed {
        "note: .mcp.json is a managed symlink — add the cargo-polylith server via your devenv.nix or equivalent config:"@
    } else {
        "add the MCP server to .mcp.json:"@
    };
    "\n"@ + where_ + "\n  \"cargo-polylith\": {\n    \"command\": \""@ + command + "\",\n    \"args\": "@ + args
        + ",\n    \"type\": \"stdio\"\n  }"@
}

/// The hint printed after writing the skill file (see [`mcp_hint_text`]).
pub fn mcp_hint(devenv: bool, managed: bool) -> (r: String)
    ensures
        r@ == mcp_hint_text(devenv, managed),
{
    let (command, args) = if devenv {
        ("devenv", "[\"shell\", \"--\", \"cargo-polylith\", \"polylith\", \"mcp\", \"serve\"]")
    } else {
        ("cargo-polylith", "[\"polylith\", \"mcp\", \"serve\"]")
    };
    let mut r = owned("\n");
    if managed {
        r.append(
            "note: .mcp.json is a managed symlink — add the cargo-polylith server via your devenv.nix or equivalent config:",
        );
    } else {
        r.append("add the MCP server to .mcp.json:");
    }
    r.append("\n  \"cargo-polylith\": {\n    \"command\": \"");
    r.append(command);
    r.append("\",\n    \"args\": ");
    r.append(args);
    r.append(",\n    \"type\": \"stdio\"\n  }");
    r
}

// ---------------------------------------------------------------------------
// The tools the server lists.

/// A parameter of a tool: its name, whether it is a boolean (else a string),
/// whether it is required, and its description.
pub struct ToolParam {
    pub name: &'static str,
    pub flag: bool,
    pub required: bool,
    pub description: &'static str,
}

/// A tool the server lists: its name, description and parameters.
pub struct ToolInfo {
    pub name: &'static str,
    pub description: &'static str,
    pub params: Vec<ToolParam>,
}

/// A parameter as plain values.
pub type ParamView = (Seq<char>, bool, bool, Seq<char>);

/// A tool as plain values.
pub type ToolView = (Seq<char>, Seq<char>, Seq<ParamView>);

pub open spec fn param_view(p: ToolParam) -> ParamView {
    (p.name@, p.flag, p.required, p.description@)
}

pub open spec fn tool_view(t: ToolInfo) -> ToolView {
    (t.name@, t.description@, t.params@.map_values(|p: ToolParam| param_view(p)))
}

/// The tools that read the workspace.
pub open spec fn read_tools() -> Seq<ToolView> {
    seq![
        ("polylith_info"@, "Return workspace info: all components, bases, and projects with their deps"@, Seq::<ParamView>::empty()),
        ("polylith_deps"@, "Return the dependency graph between bases, projects, and components"@, seq![("component"@, false, false, "Filter to show only bases/projects that depend on this component"@)]),
        ("polylith_check"@, "Check workspace structure for polylith violations"@, Seq::<ParamView>::empty()),
        ("polylith_status"@, "Show a lenient audit of workspace structure (divergences and suggestions)"@, Seq::<ParamView>::empty()),
        ("polylith_profile_list"@, "List all polylith profiles and their implementation selections"@, Seq::<ParamView>::empty()),
    ]
}

/// The tools that change the workspace.
pub open spec fn write_tools() -> Seq<ToolView> {
    seq![
        ("polylith_component_new"@, "Create a new component under components/<name>/"@, seq![("name"@, false, true, "Component name (snake_case)"@), ("interface"@, false, false, "Interface group name (defaults to component name)"@)]),
        ("polylith_base_new"@, "Create a new base under bases/<name>/"@, seq![("name"@, false, true, "Base name (snake_case)"@)]),
        ("polylith_project_new"@, "Create a new project workspace under projects/<name>/"@, seq![("name"@, false, true, "Project name"@)]),
        ("polylith_component_update"@, "Set or update the interface annotation on an existing component"@, seq![("name"@, false, true, "Component name"@), ("interface"@, false, true, "Interface group name"@)]),
        ("polylith_profile_new"@, "Create a new empty profile file at profiles/<name>.profile"@, seq![("name"@, false, true, "Profile name (without .profile extension)"@)]),
        ("polylith_profile_add"@, "Add or update an implementation selection in a profile"@, seq![("profile"@, false, true, "Profile name (without .profile extension)"@), ("interface"@, false, true, "Interface dep key"@), ("implementation"@, false, true, "Path to the implementation component (relative to workspace root)"@)]),
        ("polylith_base_update"@, "Update metadata on an existing base (e.g. set test-base flag)"@, seq![("name"@, false, true, "Base name"@), ("test_base"@, true, false, "Set to true to mark this as a test-base"@)]),
        ("polylith_bump"@, "Bump the workspace version in Polylith.toml (level required in relaxed mode, auto-detected in strict mode)"@, seq![("level"@, false, false, "Bump level: major, minor, or patch"@), ("dry_run"@, true, false, "Report the new version without writing it"@)]),
        ("polylith_migrate_package_meta"@, "Migrate [workspace.package] metadata from Polylith.toml to root Cargo.toml [package]"@, Seq::<ParamView>::empty()),
    ]
}

/// The tools listed by a server that allows writes when `write`.
pub open spec fn listed_tools(write: bool) -> Seq<ToolView> {
    if write {
        read_tools() + write_tools()
    } else {
        read_tools()
    }
}

/// The tools listed by a server that allows writes when `write` (see [`listed_tools`]).
pub fn tool_catalog(write: bool) -> (r: Vec<ToolInfo>)
    ensures
        r@.map_values(|t: ToolInfo| tool_view(t)) == listed_tools(write),
{
    let mut out: Vec<ToolInfo> = Vec::new();
    out.push(ToolInfo {
        name: "polylith_info",
        description: "Return workspace info: all components, bases, and projects with their deps",
        params: Vec::new(),
    });
    out.push(ToolInfo {
        name: "polylith_deps",
        description: "Return the dependency graph between bases, projects, and components",
        params: vec![
            ToolParam {
                name: "component",
                flag: false,
                required: false,
                description: "Filter to show only bases/projects that depend on this component",
            },
        ],
    });
    out.push(ToolInfo {
        name: "polylith_check",
        description: "Check workspace structure for polylith violations",
        params: Vec::new(),
    });
    out.push(ToolInfo {
        name: "polylith_status",
        description: "Show a lenient audit of workspace structure (divergences and suggestions)",
        params: Vec::new(),
    });
    out.push(ToolInfo {
        name: "polylith_profile_list",
        description: "List all polylith profiles and their implementation selections",
        params: Vec::new(),
    });
    if write {
        out.push(ToolInfo {
            name: "polylith_component_new",
            description: "Create a new component under components/<name>/",
            params: vec![
                ToolParam {
                    name: "name",
                    flag: false,
                    required: true,
                    description: "Component name (snake_case)",
                },
                ToolParam {
                    name: "interface",
                    flag: false,
                    required: false,
                    description: "Interface group name (defaults to component name)",
                },
            ],
        });
        out.push(ToolInfo {
            name: "polylith_base_new",
            description: "Create a new base under bases/<name>/",
            params: vec![
                ToolParam {
                    name: "name",
                    flag: false,
                    required: true,
                    description: "Base name (snake_case)",
                },
            ],
        });
        out.push(ToolInfo {
            name: "polylith_project_new",
            description: "Create a new project workspace under projects/<name>/",
            params: vec![
                ToolParam {
                    name: "name",
                    flag: false,
                    required: true,
                    description: "Project name",
                },
            ],
        });
        out.push(ToolInfo {
            name: "polylith_component_update",
            description: "Set or update the interface annotation on an existing component",
            params: vec![
                ToolParam {
                    name: "name",
                    flag: false,
                    required: true,
                    description: "Component name",
                },
                ToolParam {
                    name: "interface",
                    flag: false,
                    required: true,
                    description: "Interface group name",
                },
            ],
        });
        out.push(ToolInfo {
            name: "polylith_profile_new",
            description: "Create a new empty profile file at profiles/<name>.profile",
            params: vec![
                ToolParam {
                    name: "name",
                    flag: false,
                    required: true,
                    description: "Profile name (without .profile extension)",
                },
            ],
        });
        out.push(ToolInfo {
            name: "polylith_profile_add",
            description: "Add or update an implementation selection in a profile",
            params: vec![
                ToolParam {
                    name: "profile",
                    flag: false,
                    required: true,
                    description: "Profile name (without .profile extension)",
                },
                ToolParam {
                    name: "interface",
                    flag: false,
                    required: true,
                    description: "Interface dep key",
                },
                ToolParam {
                    name: "implementation",
                    flag: false,
                    required: true,
                    description: "Path to the implementation component (relative to workspace root)",
                },
            ],
        });
        out.push(ToolInfo {
            name: "polylith_base_update",
            description: "Update metadata on an existing base (e.g. set test-base flag)",
            params: vec![
                ToolParam {
                    name: "name",
                    flag: false,
                    required: true,
                    description: "Base name",
                },
                ToolParam {
                    name: "test_base",
                    flag: true,
                    required: false,
                    description: "Set to true to mark this as a test-base",
                },
            ],
        });
        out.push(ToolInfo {
            name: "polylith_bump",
            description: "Bump the workspace version in Polylith.toml (level required in relaxed mode, auto-detected in strict mode)",
            params: vec![
                ToolParam {
                    name: "level",
                    flag: false,
                    required: false,
                    description: "Bump level: major, minor, or patch",
                },
                ToolParam {
                    name: "dry_run",
                    flag: true,
                    required: false,
                    description: "Report the new version without writing it",
                },
            ],
        });
        out.push(ToolInfo {
            name: "polylith_migrate_package_meta",
            description: "Migrate [workspace.package] metadata from Polylith.toml to root Cargo.toml [package]",
            params: Vec::new(),
        });
    }
    proof {
        assert(out@.map_values(|t: ToolInfo| tool_view(t)) =~~= listed_tools(write));
    }
    out
}

/// The names of the tools a server that allows writes lists, by position.
proof fn lemma_listed_names()
    ensures
        listed_tools(true).len() == 14,
        listed_tools(false).len() == 5,
        listed_tools(true)[0].0 == "polylith_info"@,
        listed_tools(true)[1].0 == "polylith_deps"@,
        listed_tools(true)[2].0 == "polylith_check"@,
        listed_tools(true)[3].0 == "polylith_status"@,
        listed_tools(true)[4].0 == "polylith_profile_list"@,
        listed_tools(true)[5].0 == "polylith_component_new"@,
        listed_tools(true)[6].0 == "polylith_base_new"@,
        listed_tools(true)[7].0 == "polylith_project_new"@,
        listed_tools(true)[8].0 == "polylith_component_update"@,
        listed_tools(true)[9].0 == "polylith_profile_new"@,
        listed_tools(true)[10].0 == "polylith_profile_add"@,
        listed_tools(true)[11].0 == "polylith_base_update"@,
        listed_tools(true)[12].0 == "polylith_bump"@,
        listed_tools(true)[13].0 == "polylith_migrate_package_meta"@,
        forall|k: int| 0 <= k < 5 ==> #[trigger] listed_tools(false)[k] == listed_tools(true)[k],
{
}

/// Every tool the server lists is one it serves: calling it never answers
/// that the tool is unknown or that writes are disabled.
pub proof fn law_listed_tools_are_served(k: int, args: ToolArgs, write: bool, r: Result<ToolCall, ToolError>)
    requires
        0 <= k < listed_tools(write).len(),
        planned(listed_tools(write)[k].0, args, write, r),
    ensures
        !(r matches Err(e) && e.code == -32601),
{
    reveal_strlit("polylith_info");
    reveal_strlit("polylith_deps");
    reveal_strlit("polylith_check");
    reveal_strlit("polylith_status");
    reveal_strlit("polylith_profile_list");
    reveal_strlit("polylith_component_new");
    reveal_strlit("polylith_base_new");
    reveal_strlit("polylith_project_new");
    reveal_strlit("polylith_component_update");
    reveal_strlit("polylith_profile_new");
    reveal_strlit("polylith_profile_add");
    reveal_strlit("polylith_base_update");
    reveal_strlit("polylith_bump");
    reveal_strlit("polylith_migrate_package_meta");
}

/// A listed tool, called with a non-empty value for every parameter it lists
/// as required, is accepted.
pub proof fn law_listed_tools_accept_their_required_params(
    k: int,
    args: ToolArgs,
    write: bool,
    r: Result<ToolCall, ToolError>,
)
    requires
        0 <= k < listed_tools(write).len(),
        forall|j: int|
            0 <= j < listed_tools(write)[k].2.len() && (#[trigger] listed_tools(write)[k].2[j]).2 ==> required_arg(
                args,
                listed_tools(write)[k].2[j].0,
            ) is Some,
        planned(listed_tools(write)[k].0, args, write, r),
    ensures
        r is Ok,
{
    reveal_strlit("polylith_info");
    reveal_strlit("polylith_deps");
    reveal_strlit("polylith_check");
    reveal_strlit("polylith_status");
    reveal_strlit("polylith_profile_list");
    reveal_strlit("polylith_component_new");
    reveal_strlit("polylith_base_new");
    reveal_strlit("polylith_project_new");
    reveal_strlit("polylith_component_update");
    reveal_strlit("polylith_profile_new");
    reveal_strlit("polylith_profile_add");
    reveal_strlit("polylith_base_update");
    reveal_strlit("polylith_bump");
    reveal_strlit("polylith_migrate_package_meta");
    let t = listed_tools(write)[k];
    let ps = t.2;
    if ps.len() > 0 {
        assert(ps[0].2 ==> required_arg(args, ps[0].0) is Some);
    }
    if ps.len() > 1 {
        assert(ps[1].2 ==> required_arg(args, ps[1].0) is Some);
    }
    if ps.len() > 2 {
        assert(ps[2].2 ==> required_arg(args, ps[2].0) is Some);
    }
    if k >= 5 {
        assert(write);
        let w = write_tools();
        assert(t == w[k - 5]);
        if k == 5 {
            assert(t.0 == "polylith_component_new"@ && ps[0].0 == "name"@ && ps[0].2);
            assert(r is Ok);
        } else if k == 6 {
            assert(t.0 == "polylith_base_new"@ && ps[0].0 == "name"@ && ps[0].2);
            assert(r is Ok);
        } else if k == 7 {
            assert(t.0 == "polylith_project_new"@ && ps[0].0 == "name"@ && ps[0].2);
            assert(r is Ok);
        } else if k == 8 {
            assert(t.0 == "polylith_component_update"@ && ps[0].0 == "name"@ && ps[0].2 && ps[1].0 == "interface"@
                && ps[1].2);
            assert(r is Ok);
        } else if k == 9 {
            assert("polylith_profile_new"@[12] != "polylith_project_new"@[12]);
            assert("polylith_profile_new"@[17] != "polylith_profile_list"@[17]);
            assert(t.0 == "polylith_profile_new"@ && ps[0].0 == "name"@ && ps[0].2);
            assert(r is Ok);
        } else if k == 10 {
            assert("polylith_profile_add"@[12] != "polylith_project_new"@[12]);
            assert("polylith_profile_add"@[17] != "polylith_profile_new"@[17]);
            assert(t.0 == "polylith_profile_add"@ && ps[0].0 == "profile"@ && ps[0].2 && ps[1].0 == "interface"@
                && ps[1].2 && ps[2].0 == "implementation"@ && ps[2].2);
            assert(r is Ok);
        } else if k == 11 {
            assert("polylith_base_update"@[9] != "polylith_project_new"@[9]);
            assert("polylith_base_update"@[9] != "polylith_profile_new"@[9]);
            assert("polylith_base_update"@[9] != "polylith_profile_add"@[9]);
            assert("polylith_base_update"@[14] != "polylith_base_new"@[14]);
            assert(t.0 == "polylith_base_update"@ && ps[0].0 == "name"@ && ps[0].2);
            assert(r is Ok);
        } else if k == 12 {
            assert("polylith_bump"@[9] != "polylith_info"@[9]);
            assert("polylith_bump"@[9] != "polylith_deps"@[9]);
            assert("polylith_bump"@[9] != "polylith_check"@[9]);
            assert("polylith_bump"@[9] != "polylith_status"@[9]);
            assert("polylith_bump"@[9] != "polylith_profile_list"@[9]);
            assert("polylith_bump"@[9] != "polylith_component_new"@[9]);
            assert("polylith_bump"@[9] != "polylith_project_new"@[9]);
            assert("polylith_bump"@[9] != "polylith_component_update"@[9]);
            assert("polylith_bump"@[9] != "polylith_profile_new"@[9]);
            assert("polylith_bump"@[9] != "polylith_profile_add"@[9]);
            assert("polylith_bump"@[10] != "polylith_base_new"@[10]);
            assert("polylith_bump"@[10] != "polylith_base_update"@[10]);
            assert(t.0 == "polylith_bump"@);
            assert(r is Ok);
        } else {
            assert(t.0 == "polylith_migrate_package_meta"@);
            assert(r is Ok);
        }
    } else {
        assert(t == read_tools()[k]);
        assert(r is Ok);
    }
}

/// A name the server would never list is answered as an unknown tool.
#[verifier::rlimit(40)]
pub proof fn law_unlisted_tools_are_unknown(name: Seq<char>, args: ToolArgs, write: bool, r: Result<ToolCall, ToolError>)
    requires
        forall|k: int| 0 <= k < listed_tools(true).len() ==> (#[trigger] listed_tools(true)[k]).0 != name,
        planned(name, args, write, r),
    ensures
        err_is(r, -32601, "unknown tool: "@ + name),
{
    lemma_listed_names();
    assert(listed_tools(true)[0].0 != name);
    assert(listed_tools(true)[1].0 != name);
    assert(listed_tools(true)[2].0 != name);
    assert(listed_tools(true)[3].0 != name);
    assert(listed_tools(true)[4].0 != name);
    assert(listed_tools(true)[5].0 != name);
    assert(listed_tools(true)[6].0 != name);
    assert(listed_tools(true)[7].0 != name);
    assert(listed_tools(true)[8].0 != name);
    assert(listed_tools(true)[9].0 != name);
    assert(listed_tools(true)[10].0 != name);
    assert(listed_tools(true)[11].0 != name);
    assert(listed_tools(true)[12].0 != name);
    assert(listed_tools(true)[13].0 != name);
    assert(!is_write_tool(name));
}

} // verus!
