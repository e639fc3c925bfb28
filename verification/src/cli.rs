//! The command line, as plain values: what `cargo polylith` is asked to do.
use vstd::prelude::*;

use std::path::PathBuf;

use crate::text::owned;

verus! {

/// `cargo <command>`.
pub struct Cargo {
    pub cmd: CargoCommand,
}

/// The cargo subcommands this tool provides.
pub enum CargoCommand {
    /// Polylith architecture tools for Cargo workspaces
    Polylith(PolylithArgs),
}

/// `cargo polylith [--workspace-root PATH] <command>`.
pub struct PolylithArgs {
    /// Override the workspace root (defaults to walking up from the current directory)
    pub workspace_root: Option<PathBuf>,
    pub command: PolylithCommand,
}

/// The commands of `cargo polylith`.
pub enum PolylithCommand {
    /// Initialise a Cargo workspace as a polylith monorepo
    Init,
    /// Manage components
    Component { action: ComponentAction },
    /// Manage bases
    Base { action: BaseAction },
    /// Manage projects
    Project { action: ProjectAction },
    /// Show the dependency graph between bases and components; `component`
    /// shows only bases that depend on it
    Deps { component: Option<String>, json: bool },
    /// Show workspace info: components, bases, and projects
    Info { json: bool },
    /// Check workspace structure for violations, and the named profile if given
    Check { json: bool, profile: Option<String> },
    /// Show a lenient audit of workspace structure (always exits 0)
    Status { json: bool },
    /// Interactively compose projects
    Edit,
    /// Generate integration files for a coding assistant
    Generate { action: GenerateAction },
    /// MCP protocol server
    Mcp { action: McpAction },
    /// Manage polylith profiles (named sets of implementation selections)
    Profile { action: ProfileAction },
    /// Bump the workspace version: major, minor, or patch
    Bump { level: String },
    /// Run a cargo command against a generated profile workspace
    Cargo { profile: Option<String>, args: Vec<String> },
}

/// `generate` subcommands.
pub enum GenerateAction {
    /// Write the polylith skill file for a coding assistant
    Skill,
}

/// `mcp` subcommands.
pub enum McpAction {
    /// Start the MCP server (JSON-RPC 2.0 over stdin/stdout); `write` enables
    /// the scaffolding tools
    Serve { write: bool },
}

/// `profile` subcommands.
pub enum ProfileAction {
    /// Create a new empty profile
    New { name: String },
    /// List all profiles and their implementation selections
    List { json: bool },
    /// Generate a profile workspace Cargo.toml and, unless `no_build`, build it
    Build { name: String, no_build: bool },
    /// Add or update an implementation selection in a profile: `implementation`
    /// is the component's path relative to the workspace root
    Add { interface: String, implementation: String, profile: String },
    /// Migrate root workspace members into a dev profile
    Migrate { force: bool },
}

/// `component` subcommands.
pub enum ComponentAction {
    /// Create a new component; the interface defaults to the crate name
    New { name: String, interface: Option<String> },
    /// Set or update the interface annotation on an existing component
    Update { name: String, interface: Option<String> },
}

/// `base` subcommands.
pub enum BaseAction {
    /// Create a new base
    New { name: String },
    /// Update metadata on an existing base
    Update { name: String, test_base: bool },
}

/// `project` subcommands.
pub enum ProjectAction {
    /// Create a new project
    New { name: String },
}

/// The profile `cargo polylith cargo` activates: the one named, else `dev`.
pub fn cargo_profile_name(profile: &Option<String>) -> (r: String)
    ensures
        r@ == match profile {
            Some(p) => p@,
            None => "dev"@,
        },
{
    match profile {
        Some(p) => p.clone(),
        None => owned("dev"),
    }
}

} // verus!
