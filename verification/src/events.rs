//! What an agent tells while it runs.

use vstd::prelude::*;

use crate::types::UsageStats;

verus! {

/// An event of a run.
#[derive(Debug, Clone, PartialEq, Eq)]
pub enum AgentEvent {
    AgentStart,
    /// More of the answer.
    MessageUpdate(String),
    /// More of the reasoning; it is shown and not kept.
    Thinking(String),
    ToolCall { name: String, arguments: String },
    ToolResult { name: String, output: String },
    /// The user spoke in between.
    Steered(String),
    Done { final_text: String },
    UsageUpdate(UsageStats),
    Error(String),
    /// The agent grew.
    Evolved(String),
}

/// What an event holds.
pub enum AgentEventView {
    AgentStart,
    MessageUpdate(Seq<char>),
    Thinking(Seq<char>),
    ToolCall { name: Seq<char>, arguments: Seq<char> },
    ToolResult { name: Seq<char>, output: Seq<char> },
    Steered(Seq<char>),
    Done { final_text: Seq<char> },
    UsageUpdate(UsageStats),
    Error(Seq<char>),
    Evolved(Seq<char>),
}

impl View for AgentEvent {
    type V = AgentEventView;

    open spec fn view(&self) -> AgentEventView {
        match *self {
            AgentEvent::AgentStart => AgentEventView::AgentStart,
            AgentEvent::MessageUpdate(s) => AgentEventView::MessageUpdate(s@),
            AgentEvent::Thinking(s) => AgentEventView::Thinking(s@),
            AgentEvent::ToolCall { name, arguments } => AgentEventView::ToolCall {
                name: name@,
                arguments: arguments@,
            },
            AgentEvent::ToolResult { name, output } => AgentEventView::ToolResult {
                name: name@,
                output: output@,
            },
            AgentEvent::Steered(s) => AgentEventView::Steered(s@),
            AgentEvent::Done { final_text } => AgentEventView::Done { final_text: final_text@ },
            AgentEvent::UsageUpdate(u) => AgentEventView::UsageUpdate(u),
            AgentEvent::Error(s) => AgentEventView::Error(s@),
            AgentEvent::Evolved(s) => AgentEventView::Evolved(s@),
        }
    }
}

pub open spec fn opt_agent_event(e: Option<AgentEvent>) -> Option<AgentEventView> {
    match e {
        Some(x) => Some(x@),
        None => None,
    }
}

} // verus!
