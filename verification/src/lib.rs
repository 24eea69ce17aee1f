//! An agent harness for local LLM inference: conversation state, context
//! budgeting, chat templates, tool-call parsing, and the decisions of the
//! prompt loop, with the model runtime left to the caller.
pub mod agent;
pub mod backend;
pub mod backends;
pub mod context;
pub mod error;
pub mod events;
pub mod json;
pub mod messages;
pub mod plan_laws;
pub mod template;
pub mod text;
pub mod tools;

pub use agent::{Agent, AgentConfig, ApprovalDecision};
pub use backends::{OpenAiConfig, OpenAiEndpoint};
pub use context::{plan_prune, prepare_context, ContextConfig, PreparedContext, PrunePlan, PruneStrategy};
pub use error::{CoreError, CoreResult};
pub use events::AgentEvent;
pub use messages::{Message, Role, ToolCall, ToolResult};
pub use template::{
    detect_template, template_from_name, AlpacaTemplate, BuiltinTemplate, ChatMLTemplate, ChatTemplate,
    CommandRTemplate, DeepSeekTemplate, GemmaTemplate, Llama2Template, Llama3Template, MistralTemplate,
    Phi3Template, VicunaTemplate,
};
pub use tools::{parse_tool_calls, ParsedToolCall, ToolSchema};
