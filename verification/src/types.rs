//! Messages, tool calls, stream chunks and usage.

use vstd::prelude::*;

use crate::json::Json;
use crate::text::clone_opt;

verus! {

#[derive(Debug, Clone, Copy, PartialEq, Eq, Structural)]
pub enum Role {
    System,
    User,
    Assistant,
    Tool,
}

/// A call of a tool that the model asked for; the arguments are JSON text.
#[derive(Debug, PartialEq, Eq)]
pub struct ToolCall {
    pub id: String,
    pub name: String,
    pub arguments: String,
}

/// What a tool call holds.
pub struct ToolCallView {
    pub id: Seq<char>,
    pub name: Seq<char>,
    pub arguments: Seq<char>,
}

impl View for ToolCall {
    type V = ToolCallView;

    open spec fn view(&self) -> ToolCallView {
        ToolCallView { id: self.id@, name: self.name@, arguments: self.arguments@ }
    }
}

impl Clone for ToolCall {
    fn clone(&self) -> (r: Self)
        ensures
            r == *self,
    {
        ToolCall { id: self.id.clone(), name: self.name.clone(), arguments: self.arguments.clone() }
    }
}

pub open spec fn call_views(v: Seq<ToolCall>) -> Seq<ToolCallView> {
    Seq::new(v.len(), |i: int| v[i]@)
}

pub fn clone_calls(v: &Vec<ToolCall>) -> (r: Vec<ToolCall>)
    ensures
        r@ == v@,
{
    let mut out: Vec<ToolCall> = Vec::new();
    let mut i: usize = 0;
    while i < v.len()
        invariant
            i <= v.len(),
            out@ == v@.take(i as int),
        decreases v.len() - i,
    {
        out.push(v[i].clone());
        i += 1;
        assert(out@ =~= v@.take(i as int));
    }
    assert(out@ =~= v@);
    out
}

/// One message of a conversation.
#[derive(Debug, PartialEq, Eq)]
pub struct Message {
    pub role: Role,
    pub content: String,
    pub tool_calls: Option<Vec<ToolCall>>,
    pub tool_call_id: Option<String>,
}

/// What a message holds.
pub struct MessageView {
    pub role: Role,
    pub content: Seq<char>,
    pub tool_calls: Option<Seq<ToolCallView>>,
    pub tool_call_id: Option<Seq<char>>,
}

/// The text of an optional string.
pub open spec fn opt_view(s: Option<String>) -> Option<Seq<char>> {
    match s {
        Some(x) => Some(x@),
        None => None,
    }
}

impl View for Message {
    type V = MessageView;

    open spec fn view(&self) -> MessageView {
        MessageView {
            role: self.role,
            content: self.content@,
            tool_calls: match self.tool_calls {
                Some(c) => Some(call_views(c@)),
                None => None,
            },
            tool_call_id: opt_view(self.tool_call_id),
        }
    }
}

pub open spec fn msg_views(v: Seq<Message>) -> Seq<MessageView> {
    Seq::new(v.len(), |i: int| v[i]@)
}

/// A message with a text and nothing else.
pub open spec fn plain_view(role: Role, content: Seq<char>) -> MessageView {
    MessageView { role, content, tool_calls: None, tool_call_id: None }
}

impl Message {
    /// A message with a text and nothing else.
    pub fn plain(role: Role, content: &str) -> (r: Message)
        ensures
            r@ == plain_view(role, content@),
    {
        Message { role, content: content.to_string(), tool_calls: None, tool_call_id: None }
    }
}

impl Clone for Message {
    fn clone(&self) -> (r: Self)
        ensures
            r@ == self@,
            r.role == self.role,
            r.content == self.content,
            r.tool_call_id == self.tool_call_id,
            r.tool_calls is Some == self.tool_calls is Some,
            r.tool_calls is Some ==> r.tool_calls->Some_0@ == self.tool_calls->Some_0@,
    {
        let tool_calls: Option<Vec<ToolCall>> = match &self.tool_calls {
            Some(c) => Some(clone_calls(c)),
            None => None,
        };
        Message {
            role: self.role,
            content: self.content.clone(),
            tool_calls,
            tool_call_id: clone_opt(&self.tool_call_id),
        }
    }
}

pub fn clone_messages(v: &Vec<Message>) -> (r: Vec<Message>)
    ensures
        msg_views(r@) == msg_views(v@),
{
    let mut out: Vec<Message> = Vec::new();
    let mut i: usize = 0;
    while i < v.len()
        invariant
            i <= v.len(),
            msg_views(out@) == msg_views(v@.take(i as int)),
        decreases v.len() - i,
    {
        let ghost before = out@;
        out.push(v[i].clone());
        i += 1;
        assert(msg_views(out@) =~= msg_views(before).push(v@[i - 1]@));
        assert(msg_views(v@.take(i as int)) =~= msg_views(v@.take(i - 1)).push(v@[i - 1]@));
    }
    assert(v@.take(i as int) =~= v@);
    out
}

/// A tool as it is offered to the model.
#[derive(Debug)]
pub struct ToolSchema {
    pub name: String,
    pub description: String,
    pub parameters: Json,
}

/// One piece of a model's streamed answer.
#[derive(Debug, PartialEq, Eq)]
pub enum StreamChunk {
    Delta(String),
    Reasoning(String),
    ToolCallDelta { index: usize, id: Option<String>, name: Option<String>, arguments_delta: String },
    Usage { input_tokens: u64, output_tokens: u64, cached_tokens: u64 },
    Done,
}

/// What a piece of an answer holds.
pub enum ChunkView {
    Delta(Seq<char>),
    Reasoning(Seq<char>),
    ToolCallDelta {
        index: usize,
        id: Option<Seq<char>>,
        name: Option<Seq<char>>,
        arguments_delta: Seq<char>,
    },
    Usage { input_tokens: u64, output_tokens: u64, cached_tokens: u64 },
    Done,
}

impl View for StreamChunk {
    type V = ChunkView;

    open spec fn view(&self) -> ChunkView {
        match *self {
            StreamChunk::Delta(s) => ChunkView::Delta(s@),
            StreamChunk::Reasoning(s) => ChunkView::Reasoning(s@),
            StreamChunk::ToolCallDelta { index, id, name, arguments_delta } => ChunkView::ToolCallDelta {
                index,
                id: opt_view(id),
                name: opt_view(name),
                arguments_delta: arguments_delta@,
            },
            StreamChunk::Usage { input_tokens, output_tokens, cached_tokens } => ChunkView::Usage {
                input_tokens,
                output_tokens,
                cached_tokens,
            },
            StreamChunk::Done => ChunkView::Done,
        }
    }
}

pub open spec fn chunk_views(v: Seq<StreamChunk>) -> Seq<ChunkView> {
    Seq::new(v.len(), |i: int| v[i]@)
}

/// Tokens and calls of a session so far.
#[derive(Debug, Clone, Copy, PartialEq, Eq, Structural)]
pub struct UsageStats {
    pub input_tokens: u64,
    pub output_tokens: u64,
    pub cached_tokens: u64,
    pub llm_calls: u64,
}

impl Default for UsageStats {
    fn default() -> (r: Self)
        ensures
            r == (UsageStats { input_tokens: 0, output_tokens: 0, cached_tokens: 0, llm_calls: 0 }),
    {
        UsageStats { input_tokens: 0, output_tokens: 0, cached_tokens: 0, llm_calls: 0 }
    }
}

} // verus!
