//! Conversation data: roles, messages, and tool call / result records.
use vstd::prelude::*;

verus! {

/// Role in a conversation.
#[derive(Clone, Copy, Debug, PartialEq, Eq, Structural)]
pub enum Role {
    /// System / developer instruction that frames the conversation.
    System,
    /// A message from the end user.
    User,
    /// A message from the model.
    Assistant,
    /// An assistant turn that requested one or more tool calls.
    ToolCall,
    /// The result of executing a tool, fed back to the model.
    ToolResult,
}

/// A tool invocation requested by the assistant.
#[derive(Debug, PartialEq)]
pub struct ToolCall {
    /// Unique id linking this call to its [`ToolResult`].
    pub id: String,
    /// Name of the tool to invoke.
    pub name: String,
    /// Arguments to pass to the tool, as JSON text.
    pub arguments: String,
}

/// Result of executing a tool.
#[derive(Debug, PartialEq)]
pub struct ToolResult {
    /// Id of the [`ToolCall`] this result answers.
    pub tool_call_id: String,
    /// Name of the tool that produced this result.
    pub tool_name: String,
    /// The tool's output (or the error message when `is_error`).
    pub content: String,
    /// Whether the tool failed.
    pub is_error: bool,
}

/// A single message in the conversation.
#[derive(Debug, PartialEq)]
pub struct Message {
    /// Stable identifier for the message (used to address pins and tool results).
    pub id: String,
    /// Who produced the message.
    pub role: Role,
    /// The message text.
    pub content: String,
    /// Creation time as a Unix timestamp in milliseconds.
    pub timestamp: i64,
    /// Tool calls made by the assistant (only when role = Assistant).
    pub tool_calls: Vec<ToolCall>,
    /// Tool execution result (only when role = ToolResult).
    pub tool_result: Option<ToolResult>,
    /// Token count for this message (populated after tokenization).
    pub token_count: Option<u32>,
    /// Whether this message is pinned. Pinned messages always survive context
    /// pruning, regardless of the token budget or prune strategy.
    pub pinned: bool,
}

/// The mathematical content of a [`ToolCall`].
pub struct ToolCallView {
    pub id: Seq<char>,
    pub name: Seq<char>,
    pub arguments: Seq<char>,
}

/// The mathematical content of a [`ToolResult`].
pub struct ToolResultView {
    pub tool_call_id: Seq<char>,
    pub tool_name: Seq<char>,
    pub content: Seq<char>,
    pub is_error: bool,
}

/// The mathematical content of a [`Message`].
pub struct MessageView {
    pub id: Seq<char>,
    pub role: Role,
    pub content: Seq<char>,
    pub timestamp: i64,
    pub tool_calls: Seq<ToolCallView>,
    pub tool_result: Option<ToolResultView>,
    pub token_count: Option<u32>,
    pub pinned: bool,
}

impl View for ToolCall {
    type V = ToolCallView;

    open spec fn view(&self) -> ToolCallView {
        ToolCallView { id: self.id@, name: self.name@, arguments: self.arguments@ }
    }
}

impl View for ToolResult {
    type V = ToolResultView;

    open spec fn view(&self) -> ToolResultView {
        ToolResultView {
            tool_call_id: self.tool_call_id@,
            tool_name: self.tool_name@,
            content: self.content@,
            is_error: self.is_error,
        }
    }
}

/// The views of a sequence of tool calls.
pub open spec fn view_calls(calls: Seq<ToolCall>) -> Seq<ToolCallView> {
    calls.map_values(|c: ToolCall| c@)
}

/// The views of a sequence of messages.
pub open spec fn view_messages(msgs: Seq<Message>) -> Seq<MessageView> {
    msgs.map_values(|m: Message| m@)
}

impl View for Message {
    type V = MessageView;

    open spec fn view(&self) -> MessageView {
        MessageView {
            id: self.id@,
            role: self.role,
            content: self.content@,
            timestamp: self.timestamp,
            tool_calls: view_calls(self.tool_calls@),
            tool_result: match self.tool_result {
                Some(r) => Some(r@),
                None => None,
            },
            token_count: self.token_count,
            pinned: self.pinned,
        }
    }
}

impl Clone for ToolCall {
    fn clone(&self) -> (r: Self)
        ensures
            r@ == self@,
    {
        ToolCall { id: self.id.clone(), name: self.name.clone(), arguments: self.arguments.clone() }
    }
}

impl Clone for ToolResult {
    fn clone(&self) -> (r: Self)
        ensures
            r@ == self@,
    {
        ToolResult {
            tool_call_id: self.tool_call_id.clone(),
            tool_name: self.tool_name.clone(),
            content: self.content.clone(),
            is_error: self.is_error,
        }
    }
}

/// A copy of `calls`, element by element.
pub fn clone_calls(calls: &Vec<ToolCall>) -> (r: Vec<ToolCall>)
    ensures
        view_calls(r@) == view_calls(calls@),
{
    let mut r: Vec<ToolCall> = Vec::new();
    let mut i: usize = 0;
    while i < calls.len()
        invariant
            i <= calls@.len(),
            view_calls(r@) == view_calls(calls@.take(i as int)),
        decreases calls@.len() - i,
    {
        let c = calls[i].clone();
        proof {
            assert(calls@.take(i + 1) =~= calls@.take(i as int).push(calls@[i as int]));
            assert(view_calls(r@.push(c)) =~= view_calls(r@).push(c@));
            assert(view_calls(calls@.take(i + 1)) =~= view_calls(calls@.take(i as int)).push(
                calls@[i as int]@,
            ));
        }
        r.push(c);
        i += 1;
    }
    proof {
        assert(calls@.take(i as int) =~= calls@);
    }
    r
}

impl Clone for Message {
    fn clone(&self) -> (r: Self)
        ensures
            r@ == self@,
    {
        Message {
            id: self.id.clone(),
            role: self.role,
            content: self.content.clone(),
            timestamp: self.timestamp,
            tool_calls: clone_calls(&self.tool_calls),
            tool_result: match &self.tool_result {
                Some(t) => Some(t.clone()),
                None => None,
            },
            token_count: self.token_count,
            pinned: self.pinned,
        }
    }
}

/// The system clock's type, carried through opaquely.
#[verifier::external_type_specification]
#[verifier::external_body]
pub struct ExSystemTime(std::time::SystemTime);

/// `SystemTime::now`: the system clock's current reading. Nothing is stated
/// of it: it depends on the clock.
#[verifier::external_body]
fn clock_now() -> std::time::SystemTime {
    std::time::SystemTime::now()
}

/// `SystemTime::duration_since(UNIX_EPOCH)`: how long after the Unix epoch
/// the reading `t` is, or `None` where the call fails because `t` is earlier.
/// Nothing is stated of which case comes or of the duration: both depend on
/// the clock's reading, which Verus sees only as an opaque value.
#[verifier::external_body]
fn since_epoch(t: &std::time::SystemTime) -> Option<std::time::Duration> {
    match t.duration_since(std::time::UNIX_EPOCH) {
        Ok(d) => Some(d),
        Err(_) => None,
    }
}

/// `Duration::as_millis`: the whole milliseconds in `d`. Nothing is stated of
/// the value: `Duration` is opaque here, and the value only ever becomes a
/// message's timestamp, of which no contract speaks.
#[verifier::external_body]
fn whole_millis(d: &std::time::Duration) -> u128 {
    d.as_millis()
}

/// The current wall-clock time in milliseconds since the Unix epoch; `0` when
/// the clock reads a time before the epoch, and `i64::MAX` for a time too far
/// ahead to count in an `i64`.
fn now_millis() -> i64 {
    let t = clock_now();
    match since_epoch(&t) {
        Some(d) => {
            let ms = whole_millis(&d);
            if ms <= i64::MAX as u128 {
                ms as i64
            } else {
                i64::MAX
            }
        },
        None => 0,
    }
}

/// `m` is a freshly built message with this id, role and content: no tool
/// calls, no tool result, no token count, not pinned.
pub open spec fn is_fresh(m: MessageView, id: Seq<char>, role: Role, content: Seq<char>) -> bool {
    &&& m.id == id
    &&& m.role == role
    &&& m.content == content
    &&& m.tool_calls.len() == 0
    &&& m.tool_result is None
    &&& m.token_count is None
    &&& !m.pinned
}

impl Message {
    fn fresh(id: &str, role: Role, content: &str) -> (m: Self)
        ensures
            is_fresh(m@, id@, role, content@),
    {
        let m = Message {
            id: String::from_str(id),
            role,
            content: String::from_str(content),
            timestamp: now_millis(),
            tool_calls: Vec::new(),
            tool_result: None,
            token_count: None,
            pinned: false,
        };
        proof {
            assert(view_calls(m.tool_calls@) =~= Seq::<ToolCallView>::empty());
        }
        m
    }

    /// Build a system message.
    pub fn system(id: &str, content: &str) -> (m: Self)
        ensures
            is_fresh(m@, id@, Role::System, content@),
    {
        Self::fresh(id, Role::System, content)
    }

    /// Build a user message.
    pub fn user(id: &str, content: &str) -> (m: Self)
        ensures
            is_fresh(m@, id@, Role::User, content@),
    {
        Self::fresh(id, Role::User, content)
    }

    /// Build an assistant message.
    pub fn assistant(id: &str, content: &str) -> (m: Self)
        ensures
            is_fresh(m@, id@, Role::Assistant, content@),
    {
        Self::fresh(id, Role::Assistant, content)
    }

    /// Build a tool-result message, linking it back to the assistant's
    /// [`ToolCall`] via `tool_call_id`. The message content and the result's
    /// content are the same text.
    pub fn tool_result(
        id: &str,
        tool_call_id: &str,
        tool_name: &str,
        content: &str,
        is_error: bool,
    ) -> (m: Self)
        ensures
            m@.id == id@,
            m@.role == Role::ToolResult,
            m@.content == content@,
            m@.tool_calls.len() == 0,
            m@.tool_result == Some(
                ToolResultView {
                    tool_call_id: tool_call_id@,
                    tool_name: tool_name@,
                    content: content@,
                    is_error,
                },
            ),
            m@.token_count is None,
            !m@.pinned,
    {
        let mut m = Self::fresh(id, Role::ToolResult, content);
        m.tool_result = Some(
            ToolResult {
                tool_call_id: String::from_str(tool_call_id),
                tool_name: String::from_str(tool_name),
                content: String::from_str(content),
                is_error,
            },
        );
        m
    }

    /// Mark this message as pinned (survives context pruning). Builder-style.
    pub fn pinned(self) -> (m: Self)
        ensures
            m@ == (MessageView { pinned: true, ..self@ }),
    {
        let mut m = self;
        m.pinned = true;
        m
    }
}

} // verus!
