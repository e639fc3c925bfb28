use std::path::PathBuf;

use cargo_polylith::mcp::{
    deps_report, done_message, find_named, mcp_hint, method_not_found_message, not_found_message, plan_tool_call, tool_catalog,
    ToolArgs, ToolCall,
};
use cargo_polylith::model::{Brick, BrickKind, Project, WorkspaceMap};
use cargo_polylith::strmap::StrMap;

fn args(strings: &[(&str, &str)], flags: &[(&str, bool)]) -> ToolArgs {
    let mut s = StrMap::new();
    for (k, v) in strings {
        s.insert(k.to_string(), v.to_string());
    }
    let mut f = StrMap::new();
    for (k, v) in flags {
        f.insert(k.to_string(), *v);
    }
    ToolArgs { strings: s, flags: f }
}

#[test]
fn tools_call_unknown_tool_returns_error_not_success() {
    match plan_tool_call("nonexistent_tool", &args(&[], &[]), false) {
        Err(e) => {
            assert_eq!(e.code, -32601);
            assert_eq!(e.message, "unknown tool: nonexistent_tool");
        }
        Ok(_) => panic!("unknown tool must be an error"),
    }
}

#[test]
fn tools_call_write_tool_without_write_flag_returns_error() {
    match plan_tool_call("polylith_component_new", &args(&[("name", "my_comp")], &[]), false) {
        Err(e) => {
            assert_eq!(e.code, -32601);
            assert!(e.message.starts_with("write tools disabled"));
        }
        Ok(_) => panic!("write tool without --write must be an error"),
    }
}

#[test]
fn read_tools_run_without_write() {
    assert!(matches!(plan_tool_call("polylith_check", &args(&[], &[]), false), Ok(ToolCall::Check)));
    match plan_tool_call("polylith_deps", &args(&[("component", "log")], &[]), false) {
        Ok(ToolCall::Deps { filter }) => assert_eq!(filter.as_deref(), Some("log")),
        _ => panic!("expected deps"),
    }
}

#[test]
fn component_new_defaults_its_interface_to_its_name() {
    match plan_tool_call("polylith_component_new", &args(&[("name", "store")], &[]), true) {
        Ok(c) => {
            assert!(matches!(&c, ToolCall::ComponentNew { name, interface } if name == "store" && interface == "store"));
            assert_eq!(done_message(&c), "created component 'store' with interface 'store'");
        }
        Err(_) => panic!("expected a call"),
    }
}

#[test]
fn required_arguments_are_checked_in_order() {
    match plan_tool_call("polylith_profile_add", &args(&[("profile", "dev"), ("interface", "")], &[]), true) {
        Err(e) => {
            assert_eq!(e.code, -32602);
            assert_eq!(e.message, "missing required parameter: interface");
        }
        Ok(_) => panic!("expected an error"),
    }
    match plan_tool_call("polylith_base_new", &args(&[], &[]), true) {
        Err(e) => assert_eq!(e.message, "missing required parameter: name"),
        Ok(_) => panic!("expected an error"),
    }
}

#[test]
fn base_update_reads_the_test_base_flag() {
    match plan_tool_call("polylith_base_update", &args(&[("name", "cli")], &[("test_base", true)]), true) {
        Ok(c) => assert_eq!(done_message(&c), "updated base 'cli': test-base = true"),
        Err(_) => panic!("expected a call"),
    }
    match plan_tool_call("polylith_base_update", &args(&[("name", "cli")], &[]), true) {
        Ok(c) => assert_eq!(done_message(&c), "updated base 'cli': test-base = false"),
        Err(_) => panic!("expected a call"),
    }
}

#[test]
fn profile_add_message_shows_the_selection() {
    let a = args(&[("profile", "dev"), ("interface", "store"), ("implementation", "components/store_mem")], &[]);
    match plan_tool_call("polylith_profile_add", &a, true) {
        Ok(c) => assert_eq!(done_message(&c), "updated profile 'dev': store → components/store_mem"),
        Err(_) => panic!("expected a call"),
    }
}

#[test]
fn small_messages() {
    assert_eq!(method_not_found_message("foo"), "method not found: foo");
    assert_eq!(not_found_message("component", "x"), "component 'x' not found in workspace");
}

fn brick(name: &str, kind: BrickKind, deps: &[&str], iface: Option<&str>) -> Brick {
    Brick {
        name: name.to_string(),
        kind,
        path: PathBuf::from(format!("/ws/x/{name}")),
        deps: deps.iter().map(|d| d.to_string()).collect(),
        manifest_path: PathBuf::from(format!("/ws/x/{name}/Cargo.toml")),
        interface: iface.map(|s| s.to_string()),
        path_dep_keys: vec![],
        hardwired_pkg_deps: vec![],
    }
}

#[test]
fn deps_report_classifies_and_filters() {
    let mut map = WorkspaceMap {
        root: PathBuf::from("/ws"),
        components: vec![
            brick("store_mem", BrickKind::Component, &[], Some("store")),
            brick("log", BrickKind::Component, &[], None),
        ],
        bases: vec![
            brick("api", BrickKind::Base, &["store_mem", "serde", "log"], None),
            brick("cli", BrickKind::Base, &["api"], None),
        ],
        projects: vec![Project {
            name: "app".to_string(),
            path: PathBuf::from("/ws/projects/app"),
            deps: vec!["cli".to_string(), "store".to_string()],
            has_own_workspace: false,
            bin_name: None,
            dep_paths: vec![],
            external_deps: StrMap::new(),
            hardwired_pkg_deps: vec![],
        }],
        root_members: vec![],
        is_workspace: true,
        root_workspace_deps: StrMap::new(),
        root_workspace_interface_deps: StrMap::new(),
        polylith_toml: None,
        root_package_meta: None,
        component_by_name: StrMap::new(),
        component_by_interface: StrMap::new(),
        base_by_name: StrMap::new(),
    };
    map.rebuild_indexes();
    let (bases, projects) = deps_report(&map, None);
    assert_eq!(bases.len(), 2);
    assert_eq!(bases[0].name, "api");
    assert_eq!(bases[0].base_deps, Vec::<String>::new());
    assert_eq!(bases[0].component_deps, vec!["store", "log"]);
    assert_eq!(bases[1].base_deps, vec!["api"]);
    assert_eq!(projects[0].base_deps, vec!["cli"]);
    assert_eq!(projects[0].component_deps, vec!["store"]);
    let (bases, projects) = deps_report(&map, Some("log"));
    assert_eq!(bases.len(), 1);
    assert_eq!(bases[0].name, "api");
    assert!(projects.is_empty());
    assert_eq!(find_named(&map.bases, "cli"), Some(1));
    assert_eq!(find_named(&map.bases, "nope"), None);
}

#[test]
fn mcp_hint_names_the_server_command() {
    assert_eq!(
        mcp_hint(false, false),
        "\nadd the MCP server to .mcp.json:\n  \"cargo-polylith\": {\n    \"command\": \"cargo-polylith\",\n    \"args\": [\"polylith\", \"mcp\", \"serve\"],\n    \"type\": \"stdio\"\n  }"
    );
    let h = mcp_hint(true, true);
    assert!(h.starts_with("\nnote: .mcp.json is a managed symlink"));
    assert!(h.contains("\"command\": \"devenv\""));
    assert!(h.contains("[\"shell\", \"--\", \"cargo-polylith\", \"polylith\", \"mcp\", \"serve\"]"));
}

#[test]
fn tool_catalog_lists_read_tools_without_write() {
    let names: Vec<&str> = tool_catalog(false).iter().map(|t| t.name).collect();
    assert_eq!(names, vec!["polylith_info", "polylith_deps", "polylith_check", "polylith_status", "polylith_profile_list"]);
}

#[test]
fn tool_catalog_lists_write_tools_with_their_required_params() {
    let catalog = tool_catalog(true);
    assert_eq!(catalog.len(), 14);
    let add = catalog.iter().find(|t| t.name == "polylith_profile_add").unwrap();
    let required: Vec<&str> = add.params.iter().filter(|p| p.required).map(|p| p.name).collect();
    assert_eq!(required, vec!["profile", "interface", "implementation"]);
    let base_update = catalog.iter().find(|t| t.name == "polylith_base_update").unwrap();
    let flag = base_update.params.iter().find(|p| p.name == "test_base").unwrap();
    assert!(flag.flag && !flag.required);
}

#[test]
fn every_listed_tool_is_served() {
    for t in tool_catalog(true) {
        let mut strings: Vec<(&str, &str)> = Vec::new();
        for p in &t.params {
            if p.required {
                strings.push((p.name, "x"));
            }
        }
        let r = plan_tool_call(t.name, &args(&strings, &[]), true);
        assert!(r.is_ok(), "{} was not served", t.name);
    }
}

#[test]
fn jsonrpc_error_invalid_params_code() {
    let e = plan_tool_call("polylith_base_new", &args(&[], &[]), true).err().unwrap();
    assert_eq!(e.code, -32602);
}

#[test]
fn jsonrpc_error_method_not_found_code() {
    let e = plan_tool_call("foo", &args(&[], &[]), true).err().unwrap();
    assert_eq!(e.code, -32601);
    assert_eq!(e.message, "unknown tool: foo");
}

#[test]
fn bump_tool_is_listed_and_planned_with_writes() {
    let names: Vec<&str> = tool_catalog(true).iter().map(|t| t.name).collect();
    assert!(names.contains(&"polylith_bump"));
    match plan_tool_call("polylith_bump", &args(&[("level", "minor")], &[("dry_run", true)]), true) {
        Ok(ToolCall::Bump { level, dry_run }) => {
            assert_eq!(level.as_deref(), Some("minor"));
            assert!(dry_run);
        }
        _ => panic!("polylith_bump was not planned"),
    }
    let e = plan_tool_call("polylith_bump", &args(&[], &[]), false).err().unwrap();
    assert_eq!(e.code, -32601);
}
