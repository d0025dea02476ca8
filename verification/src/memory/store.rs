//! Long-term memories of a room, kept in one JSON file per room.
use std::sync::Arc;

use vstd::prelude::*;
use vstd::string::StringExecFns;

use crate::memory::map::MemoryMap;
use crate::paths::{is_absolute, join_path, joined, lemma_suffixed_paths_distinct};

verus! {

/// One long-term memory.
#[derive(Debug)]
pub struct Memory {
    pub summary: String,
}

/// The name of a room's memory file.
pub open spec fn memory_file_name(room_id: Seq<char>) -> Seq<char> {
    room_id + "_memories.json"@
}

/// Where the memories of each room are kept.
pub struct MemoryStore {
    base_dir: String,
}

impl MemoryStore {
    pub closed spec fn spec_base_dir(&self) -> Seq<char> {
        self.base_dir@
    }

    pub fn new(base_dir: String) -> (s: Self)
        ensures
            s.spec_base_dir() == base_dir@,
    {
        MemoryStore { base_dir }
    }

    /// The name of the memory file of `room_id`.
    pub fn file_name(room_id: &str) -> (r: String)
        ensures
            r@ == memory_file_name(room_id@),
    {
        String::from_str(room_id).concat("_memories.json")
    }

    /// The memory file of `room_id` under the base directory.
    pub fn path(&self, room_id: &str) -> (p: String)
        ensures
            p@ == joined(self.spec_base_dir(), memory_file_name(room_id@)),
    {
        let name = Self::file_name(room_id);
        join_path(self.base_dir.as_str(), name.as_str())
    }
}

/// Rooms are isolated: distinct rooms with relative ids have distinct memory
/// files, and distinct paths under one base directory.
pub proof fn lemma_rooms_are_isolated(base_dir: Seq<char>, a: Seq<char>, b: Seq<char>)
    requires
        a != b,
        !is_absolute(a),
        !is_absolute(b),
    ensures
        memory_file_name(a) != memory_file_name(b),
        joined(base_dir, memory_file_name(a)) != joined(base_dir, memory_file_name(b)),
{
    reveal_strlit("_memories.json");
    lemma_suffixed_paths_distinct(base_dir, a, b, "_memories.json"@);
}

/// The arguments of the `remember` tool.
pub struct RememberArgs {
    pub key: String,
    pub summary: String,
}

/// The tool that saves a long-term memory of the current room.
pub struct Remember {
    pub store: Arc<MemoryStore>,
}

impl Remember {
    /// What the tool answers once `key` is saved.
    pub fn confirmation(key: &str) -> (r: String)
        ensures
            r@ == "已记住："@ + key@,
    {
        String::from_str("已记住：").concat(key)
    }
}

/// The arguments of the `forget` tool.
pub struct ForgetArgs {
    pub key: String,
}

/// The tool that deletes a long-term memory of the current room.
pub struct Forget {
    pub store: Arc<MemoryStore>,
}

impl Forget {
    /// What the tool answers once `key` is deleted.
    pub fn confirmation(key: &str) -> (r: String)
        ensures
            r@ == "已删除："@ + key@,
    {
        String::from_str("已删除：").concat(key)
    }
}

} // verus!
