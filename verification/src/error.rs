//! The crate's error type and its human-readable rendering.
use vstd::prelude::*;

verus! {

/// Errors from the agent harness.
#[derive(Debug)]
pub enum CoreError {
    /// The LLM backend failed, or a reachable endpoint answered with an error.
    Backend(String),
    /// The backend endpoint could not be reached: no response arrived.
    BackendUnreachable(String),
    /// Context preparation failed (e.g. the prompt cannot fit the budget).
    Context(String),
    /// A tool failed to execute or no tool matched the requested name.
    Tool(String),
    /// Agent-level logic error (e.g. an empty prompt).
    Agent(String),
    /// Generation was cancelled via the abort flag.
    Aborted,
}

/// The mathematical content of a [`CoreError`]: its variant and message.
pub enum ErrorView {
    Backend(Seq<char>),
    BackendUnreachable(Seq<char>),
    Context(Seq<char>),
    Tool(Seq<char>),
    Agent(Seq<char>),
    Aborted,
}

impl View for CoreError {
    type V = ErrorView;

    open spec fn view(&self) -> ErrorView {
        match self {
            CoreError::Backend(m) => ErrorView::Backend(m@),
            CoreError::BackendUnreachable(m) => ErrorView::BackendUnreachable(m@),
            CoreError::Context(m) => ErrorView::Context(m@),
            CoreError::Tool(m) => ErrorView::Tool(m@),
            CoreError::Agent(m) => ErrorView::Agent(m@),
            CoreError::Aborted => ErrorView::Aborted,
        }
    }
}

/// The text an error displays as: a variant prefix followed by its message.
pub open spec fn error_text(e: ErrorView) -> Seq<char> {
    match e {
        ErrorView::Backend(m) => "Backend error: "@ + m,
        ErrorView::BackendUnreachable(m) => "Backend unreachable: "@ + m,
        ErrorView::Context(m) => "Context error: "@ + m,
        ErrorView::Tool(m) => "Tool error: "@ + m,
        ErrorView::Agent(m) => "Agent error: "@ + m,
        ErrorView::Aborted => "Aborted"@,
    }
}

impl CoreError {
    /// The error's display text, e.g. `"Backend error: No model loaded"`.
    pub fn to_string(&self) -> (s: String)
        ensures
            s@ == error_text(self@),
    {
        match self {
            CoreError::Backend(m) => prefixed("Backend error: ", m),
            CoreError::BackendUnreachable(m) => prefixed("Backend unreachable: ", m),
            CoreError::Context(m) => prefixed("Context error: ", m),
            CoreError::Tool(m) => prefixed("Tool error: ", m),
            CoreError::Agent(m) => prefixed("Agent error: ", m),
            CoreError::Aborted => String::from_str("Aborted"),
        }
    }
}

fn prefixed(prefix: &str, m: &String) -> (s: String)
    ensures
        s@ == prefix@ + m@,
{
    let mut s = String::from_str(prefix);
    s.append(m.as_str());
    s
}

/// Convenience alias for a `Result` whose error is [`CoreError`].
pub type CoreResult<T> = Result<T, CoreError>;

} // verus!
