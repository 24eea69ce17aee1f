//! Events the agent loop publishes, for a UI or any other observer.
use vstd::prelude::*;
use crate::messages::{Message, MessageView, ToolResult, ToolResultView, view_messages};

verus! {

/// Events published by the prompt loop, in the order they happen.
#[derive(Clone, Debug)]
pub enum AgentEvent {
    /// The agent begins processing a prompt.
    AgentStart,
    /// The agent finished all processing.
    AgentEnd {
        /// All messages produced during this prompt.
        messages: Vec<Message>,
    },
    /// A new turn begins (one model call and any tool executions).
    TurnStart,
    /// A turn completed.
    TurnEnd {
        /// The assistant message produced by the turn.
        message: Message,
        /// Results of the tool calls the turn made.
        tool_results: Vec<ToolResult>,
    },
    /// A message was added (user or tool result).
    MessageStart {
        /// The message that was added.
        message: Message,
    },
    /// A message is complete.
    MessageEnd {
        /// The completed message.
        message: Message,
    },
    /// Token statistics for one completed model generation.
    GenerationStats {
        /// Tokens generated in the response.
        tokens_generated: u32,
        /// Tokens in the formatted prompt.
        prompt_tokens: u32,
    },
    /// A tool execution started.
    ToolExecStart {
        /// Id of the tool call being executed.
        tool_call_id: String,
        /// Name of the tool being executed.
        tool_name: String,
        /// Arguments passed to the tool, as JSON text.
        args: String,
    },
    /// A tool execution completed.
    ToolExecEnd {
        /// Id of the completed tool call.
        tool_call_id: String,
        /// Name of the completed tool.
        tool_name: String,
        /// The tool's result.
        result: ToolResult,
    },
    /// A tool call was refused by the approval hook and never executed.
    ToolDenied {
        /// Id of the denied tool call.
        tool_call_id: String,
        /// Name of the denied tool.
        tool_name: String,
        /// Why the call was refused.
        reason: String,
    },
    /// Context budget after formatting.
    ContextBudget {
        /// Tokens used by the prepared prompt.
        used_tokens: u32,
        /// Maximum context tokens available.
        max_tokens: u32,
        /// Number of messages kept in the prompt.
        messages_in_context: u32,
        /// Number of messages pruned to fit.
        messages_pruned: u32,
    },
    /// Non-fatal warning.
    Warning {
        /// Human-readable warning text.
        message: String,
    },
    /// Fatal error that stopped processing.
    Error {
        /// Human-readable error text.
        message: String,
    },
}

/// The mathematical content of an [`AgentEvent`].
pub enum EventView {
    AgentStart,
    AgentEnd(Seq<MessageView>),
    TurnStart,
    TurnEnd(MessageView, Seq<ToolResultView>),
    MessageStart(MessageView),
    MessageEnd(MessageView),
    GenerationStats(u32, u32),
    ToolExecStart(Seq<char>, Seq<char>, Seq<char>),
    ToolExecEnd(Seq<char>, Seq<char>, ToolResultView),
    ToolDenied(Seq<char>, Seq<char>, Seq<char>),
    ContextBudget(u32, u32, u32, u32),
    Warning(Seq<char>),
    Error(Seq<char>),
}

/// The views of a sequence of tool results.
pub open spec fn view_results(rs: Seq<ToolResult>) -> Seq<ToolResultView> {
    rs.map_values(|r: ToolResult| r@)
}

impl View for AgentEvent {
    type V = EventView;

    open spec fn view(&self) -> EventView {
        match self {
            AgentEvent::AgentStart => EventView::AgentStart,
            AgentEvent::AgentEnd { messages } => EventView::AgentEnd(view_messages(messages@)),
            AgentEvent::TurnStart => EventView::TurnStart,
            AgentEvent::TurnEnd { message, tool_results } => EventView::TurnEnd(
                message@,
                view_results(tool_results@),
            ),
            AgentEvent::MessageStart { message } => EventView::MessageStart(message@),
            AgentEvent::MessageEnd { message } => EventView::MessageEnd(message@),
            AgentEvent::GenerationStats { tokens_generated, prompt_tokens } => EventView::GenerationStats(
                *tokens_generated,
                *prompt_tokens,
            ),
            AgentEvent::ToolExecStart { tool_call_id, tool_name, args } => EventView::ToolExecStart(
                tool_call_id@,
                tool_name@,
                args@,
            ),
            AgentEvent::ToolExecEnd { tool_call_id, tool_name, result } => EventView::ToolExecEnd(
                tool_call_id@,
                tool_name@,
                result@,
            ),
            AgentEvent::ToolDenied { tool_call_id, tool_name, reason } => EventView::ToolDenied(
                tool_call_id@,
                tool_name@,
                reason@,
            ),
            AgentEvent::ContextBudget { used_tokens, max_tokens, messages_in_context, messages_pruned } =>
                EventView::ContextBudget(*used_tokens, *max_tokens, *messages_in_context, *messages_pruned),
            AgentEvent::Warning { message } => EventView::Warning(message@),
            AgentEvent::Error { message } => EventView::Error(message@),
        }
    }
}

/// The views of a sequence of events.
pub open spec fn view_events(es: Seq<AgentEvent>) -> Seq<EventView> {
    es.map_values(|e: AgentEvent| e@)
}

} // verus!
