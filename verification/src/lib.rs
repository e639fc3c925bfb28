use vstd::prelude::*;

pub mod api_diff;
pub mod bump;
pub mod check;
pub mod cli;
pub mod closure;
pub mod corsett;
pub mod discover;
pub mod edit;
pub mod errors;
pub mod graph;
pub mod manifest;
pub mod mcp;
pub mod model;
pub mod order;
pub mod scaffold;
pub mod status;
pub mod strict_bump;
pub mod strmap;
pub mod templates;
pub mod tui;
pub mod text;
pub mod validate;
pub mod version;

verus! {
} // verus!
