//! Project memory: a per-repository markdown file of facts the agent is
//! told in every session.
use vstd::prelude::*;
use crate::learning::{join_path, join_path_str};

verus! {

broadcast use vstd::string::group_string_axioms;

/// A project's memory file and what it holds.
#[derive(Debug)]
pub struct ProjectMemory {
    pub path: String,
    pub content: String,
    pub exists: bool,
}

/// `<cwd>/.codefactory/memory.md`.
pub open spec fn memory_path_spec(cwd: Seq<char>) -> Seq<char> {
    join_path(join_path(cwd, ".codefactory"@), "memory.md"@)
}

/// Where a project's memory file lives.
pub fn memory_path(cwd: &str) -> (r: String)
    ensures
        r@ == memory_path_spec(cwd@),
{
    let dir = join_path_str(cwd, ".codefactory");
    join_path_str(dir.as_str(), "memory.md")
}

/// The memory of a project whose file is missing: empty.
pub fn missing_memory(cwd: &str) -> (m: ProjectMemory)
    ensures
        m.path@ == memory_path_spec(cwd@),
        m.content@ == Seq::<char>::empty(),
        !m.exists,
{
    ProjectMemory { path: memory_path(cwd), content: String::new(), exists: false }
}

} // verus!
