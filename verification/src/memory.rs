//! Conversation memory: files of conversation records, and long-term memories.
use vstd::prelude::*;
use vstd::string::StringExecFns;

use crate::memory::file::conversation_file_name;
use crate::paths::{join_path, joined};

pub mod file;
pub mod jsonl;
pub mod map;
pub mod remembering;
pub mod store;

verus! {

/// Where the history of each conversation is kept, one file of JSON lines per
/// conversation that new records are appended to.
pub struct FileMemory {
    base_dir: String,
}

impl FileMemory {
    pub closed spec fn spec_base_dir(&self) -> Seq<char> {
        self.base_dir@
    }

    pub fn new(base_dir: String) -> (m: Self)
        ensures
            m.spec_base_dir() == base_dir@,
    {
        FileMemory { base_dir }
    }

    /// The history file of `conversation_id` under the base directory.
    pub fn path(&self, conversation_id: &str) -> (p: String)
        ensures
            p@ == joined(self.spec_base_dir(), conversation_file_name(conversation_id@)),
    {
        let name = String::from_str(conversation_id).concat(".jsonl");
        join_path(self.base_dir.as_str(), name.as_str())
    }
}

} // verus!
