//! Verified core of the CodeFactory desktop command layer.
use vstd::prelude::*;

pub mod admission;
pub mod backup;
pub mod browser;
pub mod chat_progress;
pub mod control_plane;
pub mod detail;
pub mod errors;
pub mod evidence;
pub mod evolution;
pub mod files;
pub mod forge;
pub mod git;
pub mod git_remote;
pub mod hooks;
pub mod interjections;
pub mod json;
pub mod learning;
pub mod lifecycle;
pub mod mcp;
pub mod memory;
pub mod mining;
pub mod objective;
pub mod order;
pub mod phases;
pub mod postmortem;
pub mod redact;
pub mod requests;
pub mod route;
pub mod settings;
pub mod text;
pub mod timing;
pub mod usage;

verus! {

} // verus!
