//! A plain-value model of a chat message, and what history policies read of one.
use vstd::prelude::*;
use vstd::string::StringExecFns;

verus! {

/// What a conversation-history policy reads of a history item: whether the
/// item is a user turn whose first content block is a tool result.
pub trait ConversationItem: Sized {
    spec fn opens_with_tool_result(&self) -> bool;

    fn is_tool_result(&self) -> (r: bool)
        ensures
            r == self.opens_with_tool_result(),
    ;
}

/// One content block of a user turn.
#[derive(Debug)]
pub enum UserContent {
    Text(String),
    ToolResult { id: String, content: String },
}

/// A chat message: a system instruction, a user turn made of content blocks,
/// or an assistant reply.
#[derive(Debug)]
#[allow(inconsistent_fields)]
pub enum Message {
    System { content: String },
    User { content: Vec<UserContent> },
    Assistant { content: String },
}

/// The plain value of a user content block.
pub enum UserBlock {
    Text(Seq<char>),
    ToolResult(Seq<char>, Seq<char>),
}

impl UserContent {
    pub open spec fn block(&self) -> UserBlock {
        match self {
            UserContent::Text(t) => UserBlock::Text(t@),
            UserContent::ToolResult { id, content } => UserBlock::ToolResult(id@, content@),
        }
    }
}

impl Message {
    /// The content blocks of a user turn (empty for other messages).
    pub open spec fn user_blocks(&self) -> Seq<UserBlock> {
        match self {
            Message::User { content } => content@.map_values(|c: UserContent| c.block()),
            _ => Seq::empty(),
        }
    }

    /// A user turn holding one text block.
    pub fn user(text: &str) -> (m: Message)
        ensures
            m.user_blocks() == seq![UserBlock::Text(text@)],
    {
        let mut content: Vec<UserContent> = Vec::new();
        content.push(UserContent::Text(String::from_str(text)));
        Message::User { content }
    }

    /// A user turn holding one tool result block.
    pub fn tool_result(id: &str, content: &str) -> (m: Message)
        ensures
            m.user_blocks() == seq![UserBlock::ToolResult(id@, content@)],
    {
        let mut blocks: Vec<UserContent> = Vec::new();
        blocks.push(
            UserContent::ToolResult { id: String::from_str(id), content: String::from_str(content) },
        );
        Message::User { content: blocks }
    }

    /// A system message.
    pub fn system(content: &str) -> (m: Message)
        ensures
            m is System && m->System_content@ == content@,
    {
        Message::System { content: String::from_str(content) }
    }

    /// An assistant reply.
    pub fn assistant(text: &str) -> (m: Message)
        ensures
            m is Assistant && m->Assistant_content@ == text@,
    {
        Message::Assistant { content: String::from_str(text) }
    }
}

impl ConversationItem for Message {
    open spec fn opens_with_tool_result(&self) -> bool {
        &&& self matches Message::User { content }
        &&& content@.len() > 0
        &&& content@[0] is ToolResult
    }

    fn is_tool_result(&self) -> (r: bool) {
        match self {
            Message::User { content } => {
                if content.len() > 0 {
                    match &content[0] {
                        UserContent::ToolResult { .. } => true,
                        UserContent::Text(_) => false,
                    }
                } else {
                    false
                }
            },
            _ => false,
        }
    }
}

/// A user turn is a tool-result turn exactly when its first content block is
/// a tool result, whatever blocks follow; no other message is one.
pub proof fn lemma_tool_result_turn(m: Message)
    ensures
        m.opens_with_tool_result() <==> (m is User && m->User_content@.len() > 0
            && m->User_content@[0] is ToolResult),
{
}

} // verus!
