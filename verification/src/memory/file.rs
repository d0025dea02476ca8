//! Conversation history kept as one file of JSON lines per conversation,
//! rewritten whole on each change.
use vstd::prelude::*;
use vstd::string::StringExecFns;

use crate::paths::{is_absolute, join_path, joined, lemma_suffixed_paths_distinct};

verus! {

/// The name of a conversation's history file.
pub open spec fn conversation_file_name(conversation_id: Seq<char>) -> Seq<char> {
    conversation_id + ".jsonl"@
}

/// Where the history of each conversation is kept.
pub struct FileMemory {
    base_dir: String,
}

impl FileMemory {
    pub closed spec fn spec_base_dir(&self) -> Seq<char> {
        self.base_dir@
    }

    pub fn new(base_dir: String) -> (m: Self)
        ensures
            m.spec_base_dir() == base_dir@,
    {
        FileMemory { base_dir }
    }

    /// The history file of `conversation_id` under the base directory.
    pub fn path(&self, conversation_id: &str) -> (p: String)
        ensures
            p@ == joined(self.spec_base_dir(), conversation_file_name(conversation_id@)),
    {
        let name = String::from_str(conversation_id).concat(".jsonl");
        join_path(self.base_dir.as_str(), name.as_str())
    }
}

/// Conversations are isolated: distinct conversations with relative ids have
/// distinct history files, and distinct paths under one base directory.
pub proof fn lemma_conversations_are_isolated(base_dir: Seq<char>, a: Seq<char>, b: Seq<char>)
    requires
        a != b,
        !is_absolute(a),
        !is_absolute(b),
    ensures
        conversation_file_name(a) != conversation_file_name(b),
        joined(base_dir, conversation_file_name(a)) != joined(base_dir, conversation_file_name(b)),
{
    reveal_strlit(".jsonl");
    lemma_suffixed_paths_distinct(base_dir, a, b, ".jsonl"@);
}

} // verus!
