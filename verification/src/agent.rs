//! The agent: conversation state, and the decisions of the prompt loop.
//!
//! A prompt alternates between work only the caller can do (running the model,
//! asking an approval hook, executing a tool) and decisions about what comes
//! next. The decisions live here as a state machine over [`Agent`] and a
//! per-prompt [`Run`]: each transition takes the outcome of the last piece of
//! outside work, updates the conversation, returns the events to publish, and
//! names the next [`Step`].
use vstd::prelude::*;
use crate::context::{
    ContextConfig, PruneCounts, PruneStrategy, PreparedContext, available_tokens, observed,
    prepare_context, prepared_matches, spec_plan,
};
use crate::error::{CoreError, ErrorView, error_text};
use crate::events::{AgentEvent, EventView, view_events, view_results};
use crate::messages::{
    Message, MessageView, Role, ToolCall, ToolCallView, ToolResult, ToolResultView, is_fresh,
    view_calls, view_messages,
};
use crate::template::{BuiltinTemplate, ChatTemplate};
use crate::text::{decimal, decimal_string, parse_u64, parse_u64_str, starts_with, strip_prefix_str};
use crate::tools::{ToolSchema, ToolSchemaView, view_schemas};

verus! {

broadcast use vstd::string::group_string_axioms;

/// Agent configuration.
pub struct AgentConfig {
    /// System prompt prepended to every formatted conversation.
    pub system_prompt: String,
    /// Context-window management settings.
    pub context_config: ContextConfig,
    /// Maximum model/tool round-trips in a single prompt before the agent
    /// stops and emits a warning. Guards against tool loops that never produce
    /// a final answer.
    pub max_tool_iterations: usize,
}

impl Default for AgentConfig {
    fn default() -> (c: Self)
        ensures
            c.system_prompt@ == "You are a helpful assistant."@,
            c.context_config.max_context_tokens == 4096,
            c.context_config.max_response_tokens == 2048,
            c.context_config.prune_strategy == PruneStrategy::SlidingWindow,
            c.max_tool_iterations == 8,
    {
        AgentConfig {
            system_prompt: String::from_str("You are a helpful assistant."),
            context_config: ContextConfig::default(),
            max_tool_iterations: 8,
        }
    }
}

impl Clone for AgentConfig {
    fn clone(&self) -> (c: Self)
        ensures
            c.system_prompt@ == self.system_prompt@,
            c.context_config == self.context_config,
            c.max_tool_iterations == self.max_tool_iterations,
    {
        AgentConfig {
            system_prompt: self.system_prompt.clone(),
            context_config: self.context_config,
            max_tool_iterations: self.max_tool_iterations,
        }
    }
}

/// The agent: the conversation, its configuration, the tools it may offer the
/// model, the chat template, and the counter that mints message ids.
pub struct Agent<T = BuiltinTemplate> {
    config: AgentConfig,
    messages: Vec<Message>,
    tools: Vec<ToolSchema>,
    template: T,
    msg_counter: u64,
}

/// The mathematical content of an [`Agent`].
pub struct AgentView<T = BuiltinTemplate> {
    pub system_prompt: Seq<char>,
    pub context_config: ContextConfig,
    pub max_tool_iterations: usize,
    pub messages: Seq<MessageView>,
    pub tools: Seq<ToolSchemaView>,
    pub template: T,
    /// The number in the last id minted (`msg-N`), or a larger restored one.
    pub counter: u64,
}

impl<T: ChatTemplate> View for Agent<T> {
    type V = AgentView<T>;

    closed spec fn view(&self) -> AgentView<T> {
        AgentView {
            system_prompt: self.config.system_prompt@,
            context_config: self.config.context_config,
            max_tool_iterations: self.config.max_tool_iterations,
            messages: view_messages(self.messages@),
            tools: view_schemas(self.tools@),
            template: self.template,
            counter: self.msg_counter,
        }
    }
}

/// A new agent's state: the configuration and template, and nothing else.
pub open spec fn fresh_agent<T: ChatTemplate>(config: AgentConfig, template: T) -> AgentView<T> {
    AgentView {
        system_prompt: config.system_prompt@,
        context_config: config.context_config,
        max_tool_iterations: config.max_tool_iterations,
        messages: seq![],
        tools: seq![],
        template,
        counter: 0,
    }
}

/// The id minted for the `n`th message: `msg-N`.
pub open spec fn msg_id(n: nat) -> Seq<char> {
    "msg-"@ + decimal(n)
}

/// The number in an id of the form `msg-N`, when it has that form and `N`
/// parses as a `u64`.
pub open spec fn restored_number(id: Seq<char>) -> Option<u64> {
    if starts_with(id, "msg-"@) {
        parse_u64(id.subrange(4, id.len() as int))
    } else {
        None
    }
}

/// The largest `msg-N` number among the messages, or 0 when there is none.
pub open spec fn max_restored(ms: Seq<MessageView>) -> u64
    decreases ms.len(),
{
    if ms.len() == 0 {
        0
    } else {
        let rest = max_restored(ms.drop_last());
        match restored_number(ms.last().id) {
            Some(k) => if k > rest { k } else { rest },
            None => rest,
        }
    }
}

/// The position of the first message satisfying `pred`, or -1.
pub open spec fn first_where(ms: Seq<MessageView>, pred: spec_fn(MessageView) -> bool) -> int
    decreases ms.len(),
{
    if ms.len() == 0 {
        -1
    } else {
        let k = first_where(ms.drop_last(), pred);
        if k >= 0 {
            k
        } else if pred(ms.last()) {
            ms.len() - 1
        } else {
            -1
        }
    }
}

/// The position of the first message with this id, or -1.
pub open spec fn index_of_id(ms: Seq<MessageView>, id: Seq<char>) -> int {
    first_where(ms, |m: MessageView| m.id == id)
}

proof fn lemma_first_where_bounds(ms: Seq<MessageView>, pred: spec_fn(MessageView) -> bool)
    ensures
        -1 <= first_where(ms, pred) < ms.len(),
        first_where(ms, pred) >= 0 ==> pred(ms[first_where(ms, pred)]),
        first_where(ms, pred) >= 0 ==> forall|i: int| 0 <= i < first_where(ms, pred) ==> !pred(#[trigger] ms[i]),
        first_where(ms, pred) == -1 ==> forall|i: int| 0 <= i < ms.len() ==> !pred(#[trigger] ms[i]),
    decreases ms.len(),
{
    if ms.len() > 0 {
        lemma_first_where_bounds(ms.drop_last(), pred);
        assert forall|i: int| 0 <= i < ms.len() - 1 implies ms[i] == ms.drop_last()[i] by {}
    }
}

proof fn lemma_first_where_prefix(ms: Seq<MessageView>, pred: spec_fn(MessageView) -> bool, j: int)
    requires
        0 <= j <= ms.len(),
        first_where(ms.take(j), pred) >= 0,
    ensures
        first_where(ms, pred) == first_where(ms.take(j), pred),
    decreases ms.len() - j,
{
    if j < ms.len() {
        assert(ms.drop_last().take(j) =~= ms.take(j));
        lemma_first_where_prefix(ms.drop_last(), pred, j);
    } else {
        assert(ms.take(j) =~= ms);
    }
}

impl Agent<BuiltinTemplate> {
    /// Create an agent with the given config and the ChatML template.
    pub fn new(config: AgentConfig) -> (a: Self)
        ensures
            a@ == fresh_agent(config, BuiltinTemplate::ChatML),
    {
        Self::with_template(config, BuiltinTemplate::ChatML)
    }
}

impl<T: ChatTemplate> Agent<T> {
    /// Create an agent with an explicit chat template: one of the built-in
    /// templates or any other implementation of [`ChatTemplate`].
    pub fn with_template(config: AgentConfig, template: T) -> (a: Self)
        ensures
            a@ == fresh_agent(config, template),
    {
        let a = Agent {
            config,
            messages: Vec::new(),
            tools: Vec::new(),
            template,
            msg_counter: 0,
        };
        proof {
            assert(view_messages(a.messages@) =~= Seq::<MessageView>::empty());
            assert(view_schemas(a.tools@) =~= Seq::<ToolSchemaView>::empty());
        }
        a
    }

    /// The current conversation messages, in order.
    pub fn messages(&self) -> (r: &[Message])
        ensures
            view_messages(r@) == self@.messages,
    {
        self.messages.as_slice()
    }

    /// The agent's current configuration.
    pub fn config(&self) -> (r: &AgentConfig)
        ensures
            r.system_prompt@ == self@.system_prompt,
            r.context_config == self@.context_config,
            r.max_tool_iterations == self@.max_tool_iterations,
    {
        &self.config
    }

    /// The number in the last message id minted (`msg-N`), or a larger
    /// restored one; the next id is one more. No id can be minted once it
    /// reaches `u64::MAX`.
    pub fn message_counter(&self) -> (n: u64)
        ensures
            n == self@.counter,
    {
        self.msg_counter
    }

    /// Whether a prompt begins with a summarize-and-compress pass (the
    /// `Summarize` strategy is selected).
    pub fn summarizes(&self) -> (b: bool)
        ensures
            b == (self@.context_config.prune_strategy == PruneStrategy::Summarize),
    {
        match self.config.context_config.prune_strategy {
            PruneStrategy::Summarize => true,
            PruneStrategy::SlidingWindow => false,
        }
    }

    /// The chat template currently in use.
    pub fn template(&self) -> (r: &T)
        ensures
            *r == self@.template,
    {
        &self.template
    }

    /// The schemas of the tools the agent offers the model.
    pub fn tools(&self) -> (r: &[ToolSchema])
        ensures
            view_schemas(r@) == self@.tools,
    {
        self.tools.as_slice()
    }

    /// Replace the system prompt used for subsequent prompts.
    pub fn set_system_prompt(&mut self, prompt: &str)
        ensures
            final(self)@ == (AgentView { system_prompt: prompt@, ..old(self)@ }),
    {
        self.config.system_prompt = String::from_str(prompt);
    }

    /// Replace the context-management configuration.
    pub fn set_context_config(&mut self, config: ContextConfig)
        ensures
            final(self)@ == (AgentView { context_config: config, ..old(self)@ }),
    {
        self.config.context_config = config;
    }

    /// Select the strategy used when the conversation overflows the budget.
    pub fn set_prune_strategy(&mut self, strategy: PruneStrategy)
        ensures
            final(self)@ == (AgentView {
                context_config: ContextConfig { prune_strategy: strategy, ..old(self)@.context_config },
                ..old(self)@
            }),
    {
        self.config.context_config.prune_strategy = strategy;
    }

    /// Swap the chat template at run time (e.g. after detecting the model family).
    pub fn set_template(&mut self, template: T)
        ensures
            final(self)@ == (AgentView { template, ..old(self)@ }),
    {
        self.template = template;
    }

    /// Register the schemas of the tools the agent may invoke during a prompt.
    pub fn set_tools(&mut self, tools: Vec<ToolSchema>)
        ensures
            final(self)@ == (AgentView { tools: view_schemas(tools@), ..old(self)@ }),
    {
        self.tools = tools;
    }

    /// Clear the conversation history.
    pub fn clear(&mut self)
        ensures
            final(self)@ == (AgentView { messages: seq![], ..old(self)@ }),
    {
        self.messages.clear();
        proof {
            assert(view_messages(self.messages@) =~= Seq::<MessageView>::empty());
        }
    }

    /// Pin or unpin a message by id. Pinned messages always survive context
    /// pruning. Returns whether a message with that id was found; only the
    /// first such message changes.
    pub fn set_pinned(&mut self, message_id: &str, pinned: bool) -> (found: bool)
        ensures
            found == (index_of_id(old(self)@.messages, message_id@) >= 0),
            found ==> final(self)@ == (AgentView {
                messages: old(self)@.messages.update(
                    index_of_id(old(self)@.messages, message_id@),
                    MessageView { pinned, ..old(self)@.messages[index_of_id(old(self)@.messages, message_id@)] },
                ),
                ..old(self)@
            }),
            !found ==> final(self)@ == old(self)@,
    {
        let ghost mv = old(self)@.messages;
        let ghost pred = |m: MessageView| m.id == message_id@;
        proof {
            lemma_first_where_bounds(mv, pred);
        }
        let mut i: usize = 0;
        while i < self.messages.len()
            invariant
                i <= self.messages@.len(),
                self@ == old(self)@,
                mv == self@.messages,
                pred == (|m: MessageView| m.id == message_id@),
                first_where(mv.take(i as int), pred) == -1,
            decreases self.messages@.len() - i,
        {
            proof {
                assert(mv.take(i + 1).drop_last() =~= mv.take(i as int));
            }
            if crate::tools::same_text(self.messages[i].id.as_str(), message_id) {
                proof {
                    assert(first_where(mv.take(i + 1), pred) == i);
                    lemma_first_where_prefix(mv, pred, i + 1);
                }
                self.messages[i].pinned = pinned;
                proof {
                    assert(view_messages(self.messages@) =~= mv.update(
                        i as int,
                        MessageView { pinned, ..mv[i as int] },
                    ));
                }
                return true;
            }
            proof {
                assert(first_where(mv.take(i + 1), pred) == -1);
            }
            i += 1;
        }
        proof {
            assert(mv.take(i as int) =~= mv);
        }
        false
    }

    /// Replace the entire conversation (e.g. when restoring a saved session).
    ///
    /// Advances the id counter past any restored `msg-N` ids so newly minted
    /// ids don't collide with restored ones.
    pub fn replace_messages(&mut self, messages: Vec<Message>)
        ensures
            final(self)@ == (AgentView {
                messages: view_messages(messages@),
                counter: if max_restored(view_messages(messages@)) > old(self)@.counter {
                    max_restored(view_messages(messages@))
                } else {
                    old(self)@.counter
                },
                ..old(self)@
            }),
    {
        let ghost mv = view_messages(messages@);
        let mut max_loaded: u64 = 0;
        let mut i: usize = 0;
        while i < messages.len()
            invariant
                i <= messages@.len(),
                mv == view_messages(messages@),
                max_loaded == max_restored(mv.take(i as int)),
            decreases messages@.len() - i,
        {
            proof {
                assert(mv.take(i + 1).drop_last() =~= mv.take(i as int));
                assert(mv.take(i + 1).last() == messages@[i as int]@);
            }
            match strip_prefix_str(messages[i].id.as_str(), "msg-") {
                Some(rest) => {
                    proof {
                        reveal_strlit("msg-");
                    }
                    match parse_u64_str(rest.as_str()) {
                        Some(k) => {
                            if k > max_loaded {
                                max_loaded = k;
                            }
                        },
                        None => {},
                    }
                },
                None => {},
            }
            i += 1;
        }
        proof {
            assert(mv.take(i as int) =~= mv);
        }
        if max_loaded > self.msg_counter {
            self.msg_counter = max_loaded;
        }
        self.messages = messages;
    }

    /// Mint the next message id, `msg-N`.
    fn next_id(&mut self) -> (id: String)
        requires
            old(self)@.counter < u64::MAX,
        ensures
            final(self)@ == (AgentView { counter: (old(self)@.counter + 1) as u64, ..old(self)@ }),
            id@ == msg_id(final(self)@.counter as nat),
    {
        self.msg_counter = self.msg_counter + 1;
        let digits = decimal_string(self.msg_counter);
        let mut id = String::from_str("msg-");
        id.append(digits.as_str());
        id
    }
}


// --- The prompt loop ---------------------------------------------------------

/// What the model produced in one completed generation.
pub struct Generated {
    /// The full generated text.
    pub text: String,
    /// Number of tokens generated in the response.
    pub tokens_generated: u32,
    /// Number of tokens in the prompt that was fed in.
    pub prompt_tokens: u32,
}

/// An approval hook's verdict on one tool call.
pub enum ApprovalDecision {
    /// Run the call.
    Approve,
    /// Skip the call; the reason is fed back to the model as an error result.
    Deny {
        /// Why the call was refused.
        reason: String,
    },
}

/// The next piece of work the caller owes the loop.
pub enum Step {
    /// Start the next turn: call [`Agent::next_turn`].
    NextTurn,
    /// Run the model on this context, then call [`Agent::generation_done`].
    Generate(PreparedContext),
    /// Ask the approval hook about this call (approve when there is none),
    /// then call [`Agent::review_done`].
    Review(ToolCall),
    /// Execute this call with the tool of that name, then call
    /// [`Agent::tool_done`].
    Execute(ToolCall),
    /// The turn's tools are done: report whether an abort was requested to
    /// [`Run::abort_checked`].
    CheckAbort,
    /// The prompt is over.
    Finished,
}

/// The state of one prompt: which iteration it is in, the messages it has
/// produced, and the tool calls of the current turn still to be worked through.
pub struct Run {
    iteration: usize,
    new_messages: Vec<Message>,
    turn: Option<Message>,
    next_call: usize,
    tool_results: Vec<ToolResult>,
}

/// The mathematical content of a [`Run`].
pub struct RunView {
    /// Model generations started so far in this prompt.
    pub iteration: usize,
    /// Messages produced this prompt (assistant turns and tool results).
    pub new_messages: Seq<MessageView>,
    /// The assistant message whose tool calls are being worked through.
    pub turn: Option<MessageView>,
    /// The index of the next of those calls.
    pub next_call: usize,
    /// Results of the calls already worked through.
    pub tool_results: Seq<ToolResultView>,
}

impl View for Run {
    type V = RunView;

    closed spec fn view(&self) -> RunView {
        RunView {
            iteration: self.iteration,
            new_messages: view_messages(self.new_messages@),
            turn: match self.turn {
                Some(m) => Some(m@),
                None => None,
            },
            next_call: self.next_call,
            tool_results: view_results(self.tool_results@),
        }
    }
}

/// A run that has just begun.
pub open spec fn started_run() -> RunView {
    RunView { iteration: 0, new_messages: seq![], turn: None, next_call: 0, tool_results: seq![] }
}

/// The tool call the run is waiting on, if any.
pub open spec fn pending_call(r: RunView) -> Option<ToolCallView> {
    match r.turn {
        Some(m) => if r.next_call < m.tool_calls.len() {
            Some(m.tool_calls[r.next_call as int])
        } else {
            None
        },
        None => None,
    }
}

/// The warning given when the iteration budget runs out.
pub open spec fn stopped_text(max: usize) -> Seq<char> {
    "Stopped after "@ + decimal(max as nat) + " tool iterations without a final answer"@
}

/// The calls parsed out of an assistant message, with ids `<message id>-call-<k>`
/// numbered from 1.
pub open spec fn numbered_calls(message_id: Seq<char>, parsed: Seq<crate::tools::ParsedCallView>) -> Seq<
    ToolCallView,
> {
    Seq::new(
        parsed.len(),
        |i: int|
            ToolCallView {
                id: message_id + "-call-"@ + decimal((i + 1) as nat),
                name: parsed[i].name,
                arguments: parsed[i].arguments,
            },
    )
}

/// The calls an assistant reply makes: those parsed from its text, and none
/// when no tools are registered.
pub open spec fn reply_calls(tools: Seq<ToolSchemaView>, message_id: Seq<char>, text: Seq<char>) -> Seq<
    ToolCallView,
> {
    if tools.len() > 0 {
        numbered_calls(message_id, crate::tools::tool_calls_in(text))
    } else {
        seq![]
    }
}

/// `m` is an assistant message with this id, text and calls.
pub open spec fn is_reply(m: MessageView, id: Seq<char>, content: Seq<char>, calls: Seq<ToolCallView>) -> bool {
    &&& m.id == id
    &&& m.role == Role::Assistant
    &&& m.content == content
    &&& m.tool_calls == calls
    &&& m.tool_result is None
    &&& m.token_count is None
    &&& !m.pinned
}

/// `m` is a tool-result message with this id carrying this result.
pub open spec fn is_result_message(m: MessageView, id: Seq<char>, res: ToolResultView) -> bool {
    &&& m.id == id
    &&& m.role == Role::ToolResult
    &&& m.content == res.content
    &&& m.tool_calls.len() == 0
    &&& m.tool_result == Some(res)
    &&& m.token_count is None
    &&& !m.pinned
}

/// Whether a tool of this name is registered.
pub open spec fn registered(tools: Seq<ToolSchemaView>, name: Seq<char>) -> bool {
    exists|i: int| 0 <= i < tools.len() && #[trigger] tools[i].name == name
}

/// The agent after minting one id and appending `m`.
pub open spec fn appended<T: ChatTemplate>(a: AgentView<T>, m: MessageView) -> AgentView<T> {
    AgentView { counter: (a.counter + 1) as u64, messages: a.messages.push(m), ..a }
}

/// A turn that failed with error `e`: on the first iteration the prompt's user
/// message is taken back, the error is reported, and the prompt ends with no
/// messages.
pub open spec fn failed<T: ChatTemplate>(
    a: AgentView<T>,
    ru: RunView,
    e: ErrorView,
    before: Seq<EventView>,
    a2: AgentView<T>,
    ru2: RunView,
    events: Seq<EventView>,
    step: Step,
) -> bool {
    &&& a2 == (if ru.iteration == 0 && a.messages.len() > 0 {
        AgentView { messages: a.messages.drop_last(), ..a }
    } else {
        a
    })
    &&& ru2 == ru
    &&& events == before + seq![EventView::Error(error_text(e)), EventView::AgentEnd(seq![])]
    &&& step is Finished
}

/// A generation that was aborted: an empty assistant reply is recorded under
/// a fresh id, and the prompt ends with it, reporting no error.
pub open spec fn aborted_reply<T: ChatTemplate>(
    a: AgentView<T>,
    ru: RunView,
    a2: AgentView<T>,
    ru2: RunView,
    events: Seq<EventView>,
    step: Step,
) -> bool {
    let m = a2.messages.last();
    let news = ru.new_messages.push(m);
    &&& a2 == appended(a, m)
    &&& is_fresh(m, msg_id(a2.counter as nat), Role::Assistant, seq![])
    &&& ru2 == (RunView { new_messages: news, ..ru })
    &&& events == seq![EventView::MessageEnd(m), EventView::TurnEnd(m, seq![]), EventView::AgentEnd(news)]
    &&& step is Finished
}

/// A tool call of the current turn was settled with this result: the result
/// message is appended under a fresh id and reported, and the run moves on to
/// the next call, or closes the turn after the last.
pub open spec fn recorded<T: ChatTemplate>(
    a: AgentView<T>,
    ru: RunView,
    turn: MessageView,
    res: ToolResultView,
    before: Seq<EventView>,
    a2: AgentView<T>,
    ru2: RunView,
    events: Seq<EventView>,
    step: Step,
) -> bool {
    let m = a2.messages.last();
    let k = ru.next_call + 1;
    let results = ru.tool_results.push(res);
    let moved = RunView {
        new_messages: ru.new_messages.push(m),
        next_call: k as usize,
        tool_results: results,
        ..ru
    };
    &&& a2 == appended(a, m)
    &&& is_result_message(m, msg_id(a2.counter as nat), res)
    &&& ru2 == moved
    &&& k < turn.tool_calls.len() ==> {
        &&& events == before + seq![EventView::MessageStart(m), EventView::MessageEnd(m)]
        &&& step matches Step::Review(c) && c@ == turn.tool_calls[k]
    }
    &&& k >= turn.tool_calls.len() ==> {
        &&& events == before + seq![
            EventView::MessageStart(m),
            EventView::MessageEnd(m),
            EventView::TurnEnd(turn, results),
        ]
        &&& step is CheckAbort
    }
}

/// A copy of `v`, element by element.
fn copy_messages(v: &Vec<Message>) -> (r: Vec<Message>)
    ensures
        view_messages(r@) == view_messages(v@),
{
    let mut r: Vec<Message> = Vec::new();
    let mut i: usize = 0;
    while i < v.len()
        invariant
            i <= v@.len(),
            view_messages(r@) == view_messages(v@.take(i as int)),
        decreases v@.len() - i,
    {
        let m = v[i].clone();
        proof {
            assert(view_messages(r@.push(m)) =~= view_messages(r@).push(m@));
            assert(view_messages(v@.take(i + 1)) =~= view_messages(v@.take(i as int)).push(v@[i as int]@));
        }
        r.push(m);
        i += 1;
    }
    proof {
        assert(v@.take(i as int) =~= v@);
    }
    r
}

/// A copy of `v`, element by element.
fn copy_results(v: &Vec<ToolResult>) -> (r: Vec<ToolResult>)
    ensures
        view_results(r@) == view_results(v@),
{
    let mut r: Vec<ToolResult> = Vec::new();
    let mut i: usize = 0;
    while i < v.len()
        invariant
            i <= v@.len(),
            view_results(r@) == view_results(v@.take(i as int)),
        decreases v@.len() - i,
    {
        let x = v[i].clone();
        proof {
            assert(view_results(r@.push(x)) =~= view_results(r@).push(x@));
            assert(view_results(v@.take(i + 1)) =~= view_results(v@.take(i as int)).push(v@[i as int]@));
        }
        r.push(x);
        i += 1;
    }
    proof {
        assert(v@.take(i as int) =~= v@);
    }
    r
}

impl Run {
    /// The tool call this run is waiting on, if any.
    pub fn pending(&self) -> (r: Option<ToolCall>)
        ensures
            match pending_call(self@) {
                Some(c) => r matches Some(x) && x@ == c,
                None => r is None,
            },
    {
        match &self.turn {
            Some(m) => if self.next_call < m.tool_calls.len() {
                Some(m.tool_calls[self.next_call].clone())
            } else {
                None
            },
            None => None,
        }
    }

    /// The turn's tools are done. An abort requested meanwhile ends the prompt
    /// with the messages produced so far; otherwise the loop goes on to the
    /// next turn.
    pub fn abort_checked(&mut self, aborted: bool) -> (r: (Vec<AgentEvent>, Step))
        ensures
            aborted ==> {
                &&& final(self)@ == old(self)@
                &&& view_events(r.0@) == seq![EventView::AgentEnd(old(self)@.new_messages)]
                &&& r.1 is Finished
            },
            !aborted ==> {
                &&& final(self)@ == (RunView {
                    iteration: if old(self)@.iteration < usize::MAX {
                        (old(self)@.iteration + 1) as usize
                    } else {
                        old(self)@.iteration
                    },
                    turn: None,
                    next_call: 0,
                    tool_results: seq![],
                    ..old(self)@
                })
                &&& r.0@.len() == 0
                &&& r.1 is NextTurn
            },
    {
        if aborted {
            let end = AgentEvent::AgentEnd { messages: copy_messages(&self.new_messages) };
            let events = vec![end];
            proof {
                assert(view_events(events@) =~= seq![end@]);
            }
            return (events, Step::Finished);
        }
        if self.iteration < usize::MAX {
            self.iteration = self.iteration + 1;
        }
        self.turn = None;
        self.next_call = 0;
        self.tool_results = Vec::new();
        proof {
            assert(view_results(self.tool_results@) =~= Seq::<ToolResultView>::empty());
        }
        (Vec::new(), Step::NextTurn)
    }
}


/// The events of a completed generation: its statistics, the end of the
/// reply, and, for a final answer (no tool calls), the end of the turn and of
/// the prompt.
pub open spec fn reply_events(stats: EventView, m: MessageView, news: Seq<MessageView>, final_answer: bool) -> Seq<
    EventView,
> {
    if final_answer {
        seq![stats, EventView::MessageEnd(m), EventView::TurnEnd(m, seq![]), EventView::AgentEnd(news)]
    } else {
        seq![stats, EventView::MessageEnd(m)]
    }
}

/// The text a tool outcome contributes to its result: the output, or the
/// error's display text.
pub open spec fn outcome_text(outcome: Result<String, CoreError>) -> Seq<char> {
    match outcome {
        Ok(out) => out@,
        Err(e) => error_text(e@),
    }
}

/// The result a settled call records.
pub open spec fn result_of(call: ToolCallView, content: Seq<char>, is_error: bool) -> ToolResultView {
    ToolResultView { tool_call_id: call.id, tool_name: call.name, content, is_error }
}

/// The error text for a call naming no registered tool.
pub open spec fn unknown_tool_text(name: Seq<char>) -> Seq<char> {
    error_text(ErrorView::Tool("unknown tool: "@ + name))
}

impl<T: ChatTemplate> Agent<T> {
    /// Whether a tool of this name is registered.
    fn has_tool(&self, name: &str) -> (b: bool)
        ensures
            b == registered(self@.tools, name@),
    {
        let mut i: usize = 0;
        while i < self.tools.len()
            invariant
                i <= self.tools@.len(),
                forall|j: int| 0 <= j < i ==> self@.tools[j].name != name@,
            decreases self.tools@.len() - i,
        {
            if crate::tools::same_text(self.tools[i].name.as_str(), name) {
                proof {
                    assert(self@.tools[i as int].name == name@);
                }
                return true;
            }
            i += 1;
        }
        false
    }

    /// End the prompt on error `e`, after the events in `before`.
    fn fail_turn(&mut self, run: &Run, e: &CoreError, before: Vec<AgentEvent>) -> (r: (Vec<AgentEvent>, Step))
        ensures
            failed(old(self)@, run@, e@, view_events(before@), final(self)@, run@, view_events(r.0@), r.1),
    {
        // On the first turn, take back the prompt's user message so a retry
        // starts clean; later turns already carry tool context.
        if run.iteration == 0 {
            let ghost a = self@;
            let _ = self.messages.pop();
            proof {
                if a.messages.len() > 0 {
                    assert(view_messages(self.messages@) =~= a.messages.drop_last());
                }
            }
        }
        let mut events = before;
        let ghost head = view_events(events@);
        events.push(AgentEvent::Error { message: e.to_string() });
        events.push(AgentEvent::AgentEnd { messages: Vec::new() });
        proof {
            assert(view_messages(Seq::<Message>::empty()) =~= Seq::<MessageView>::empty());
            assert(view_events(events@) =~= head + seq![
                EventView::Error(error_text(e@)),
                EventView::AgentEnd(seq![]),
            ]);
        }
        (events, Step::Finished)
    }

    /// Settle the pending call with result `res`, after the events in `before`.
    fn record_result(&mut self, run: &mut Run, res: ToolResult, before: Vec<AgentEvent>) -> (r: (
        Vec<AgentEvent>,
        Step,
    ))
        requires
            old(self)@.counter < u64::MAX,
            pending_call(old(run)@) is Some,
        ensures
            recorded(
                old(self)@,
                old(run)@,
                old(run)@.turn->Some_0,
                res@,
                view_events(before@),
                final(self)@,
                final(run)@,
                view_events(r.0@),
                r.1,
            ),
    {
        let ghost a = self@;
        let ghost ru = run@;
        let turn = match &run.turn {
            Some(t) => t.clone(),
            None => {
                proof {
                    assert(false);
                }
                return (before, Step::Finished);
            },
        };
        let ghost tv = turn@;
        let ncalls = turn.tool_calls.len();
        proof {
            assert(tv == ru.turn->Some_0);
            assert(tv.tool_calls.len() == ncalls);
            assert(run.next_call < ncalls);
        }
        let id = self.next_id();
        let m = Message::tool_result(
            id.as_str(),
            res.tool_call_id.as_str(),
            res.tool_name.as_str(),
            res.content.as_str(),
            res.is_error,
        );
        let ghost mm = m@;
        self.messages.push(m.clone());
        run.new_messages.push(m.clone());
        run.tool_results.push(res);
        run.next_call = run.next_call + 1;
        let mut events = before;
        let ghost head = view_events(events@);
        events.push(AgentEvent::MessageStart { message: m.clone() });
        events.push(AgentEvent::MessageEnd { message: m });
        proof {
            assert(view_messages(self.messages@) =~= a.messages.push(mm));
            assert(view_messages(run.new_messages@) =~= ru.new_messages.push(mm));
            assert(view_results(run.tool_results@) =~= ru.tool_results.push(res@));
            assert(view_events(events@) =~= head + seq![EventView::MessageStart(mm), EventView::MessageEnd(mm)]);
        }
        if run.next_call < ncalls {
            let next = turn.tool_calls[run.next_call].clone();
            proof {
                assert(next@ == tv.tool_calls[run.next_call as int]);
            }
            (events, Step::Review(next))
        } else {
            let ghost before_end = view_events(events@);
            let results = copy_results(&run.tool_results);
            events.push(AgentEvent::TurnEnd { message: turn, tool_results: results });
            proof {
                assert(view_events(events@) =~= before_end.push(
                    EventView::TurnEnd(tv, view_results(run.tool_results@)),
                ));
                assert(view_events(events@) =~= head + seq![
                    EventView::MessageStart(mm),
                    EventView::MessageEnd(mm),
                    EventView::TurnEnd(tv, ru.tool_results.push(res@)),
                ]);
            }
            (events, Step::CheckAbort)
        }
    }

    /// Begin a prompt: add the trimmed text as a user message. An empty
    /// message is refused.
    pub fn begin_prompt(&mut self, text: &str) -> (r: Result<(Run, Vec<AgentEvent>), CoreError>)
        requires
            crate::text::trim(text@).len() > 0 ==> old(self)@.counter < u64::MAX,
        ensures
            crate::text::trim(text@).len() == 0 ==> {
                &&& final(self)@ == old(self)@
                &&& r matches Err(e) && e@ == ErrorView::Agent("Empty message"@)
            },
            crate::text::trim(text@).len() > 0 ==> (r matches Ok((run, events)) && {
                let u = final(self)@.messages.last();
                &&& final(self)@ == appended(old(self)@, u)
                &&& is_fresh(u, msg_id(final(self)@.counter as nat), Role::User, crate::text::trim(text@))
                &&& run@ == started_run()
                &&& view_events(events@) == seq![
                    EventView::AgentStart,
                    EventView::MessageStart(u),
                    EventView::MessageEnd(u),
                ]
            }),
    {
        let text = crate::text::trim_str(text);
        if text.as_str().unicode_len() == 0 {
            return Err(CoreError::Agent(String::from_str("Empty message")));
        }
        let ghost a = self@;
        let id = self.next_id();
        let user = Message::user(id.as_str(), text.as_str());
        let ghost u = user@;
        self.messages.push(user.clone());
        let events = vec![
            AgentEvent::AgentStart,
            AgentEvent::MessageStart { message: user.clone() },
            AgentEvent::MessageEnd { message: user },
        ];
        let run = Run {
            iteration: 0,
            new_messages: Vec::new(),
            turn: None,
            next_call: 0,
            tool_results: Vec::new(),
        };
        proof {
            assert(view_messages(self.messages@) =~= a.messages.push(u));
            assert(view_messages(run.new_messages@) =~= Seq::<MessageView>::empty());
            assert(view_results(run.tool_results@) =~= Seq::<ToolResultView>::empty());
            assert(view_events(events@) =~= seq![
                EventView::AgentStart,
                EventView::MessageStart(u),
                EventView::MessageEnd(u),
            ]);
        }
        Ok((run, events))
    }
}


/// What a turn does with its prepared context: report the budget and hand the
/// context out for generation, or end the prompt on the context's error.
pub open spec fn turn_prepared<T: ChatTemplate>(
    a: AgentView<T>,
    ru: RunView,
    prepared: Result<PreparedContext, CoreError>,
    a2: AgentView<T>,
    events: Seq<EventView>,
    step: Step,
) -> bool {
    match prepared {
        Err(e) => failed(a, ru, e@, seq![EventView::TurnStart], a2, ru, events, step),
        Ok(p) => {
            &&& a2 == a
            &&& events == seq![
                EventView::TurnStart,
                EventView::ContextBudget(
                    p.token_count,
                    a.context_config.max_context_tokens,
                    p.messages_included,
                    p.messages_pruned,
                ),
            ]
            &&& step == Step::Generate(p)
        },
    }
}

/// The calls parsed from a reply, numbered under the reply's id.
fn number_calls(message_id: &str, parsed: Vec<crate::tools::ParsedToolCall>) -> (r: Vec<ToolCall>)
    ensures
        view_calls(r@) == numbered_calls(message_id@, crate::tools::view_parsed(parsed@)),
{
    let ghost pv = crate::tools::view_parsed(parsed@);
    let mut r: Vec<ToolCall> = Vec::new();
    let mut i: usize = 0;
    while i < parsed.len()
        invariant
            i <= parsed@.len(),
            pv == crate::tools::view_parsed(parsed@),
            view_calls(r@) == numbered_calls(message_id@, pv).take(i as int),
        decreases parsed@.len() - i,
    {
        let mut id = String::from_str(message_id);
        id.append("-call-");
        let k = decimal_string((i + 1) as u64);
        id.append(k.as_str());
        let call = ToolCall { id, name: parsed[i].name.clone(), arguments: parsed[i].arguments.clone() };
        proof {
            assert(call@ == numbered_calls(message_id@, pv)[i as int]);
            assert(view_calls(r@.push(call)) =~= view_calls(r@).push(call@));
            assert(numbered_calls(message_id@, pv).take(i + 1) =~= numbered_calls(message_id@, pv).take(
                i as int,
            ).push(call@));
        }
        r.push(call);
        i += 1;
    }
    proof {
        assert(numbered_calls(message_id@, pv).take(i as int) =~= numbered_calls(message_id@, pv));
    }
    r
}

impl<T: ChatTemplate> Agent<T> {
    /// Start the next turn of a prompt.
    ///
    /// When the run has used up `max_tool_iterations` the prompt stops with a
    /// warning. Otherwise the turn starts: an unready backend, or a
    /// conversation that cannot fit the context budget, ends the prompt with
    /// an error; else the context is prepared (with `token_counter`, the
    /// backend's count) and handed out for generation.
    pub fn next_turn<F: Fn(&str) -> u32>(&mut self, run: &mut Run, ready: bool, token_counter: &F) -> (r: (
        Vec<AgentEvent>,
        Step,
    ))
        requires
            old(self)@.messages.len() <= u32::MAX,
            forall|s: &str| token_counter.requires((s,)),
        ensures
            final(run)@ == old(run)@,
            old(run)@.iteration >= old(self)@.max_tool_iterations ==> {
                &&& final(self)@ == old(self)@
                &&& view_events(r.0@) == seq![
                    EventView::Warning(stopped_text(old(self)@.max_tool_iterations)),
                    EventView::AgentEnd(old(run)@.new_messages),
                ]
                &&& r.1 is Finished
            },
            old(run)@.iteration < old(self)@.max_tool_iterations && !ready ==> failed(
                old(self)@,
                old(run)@,
                ErrorView::Backend("No model loaded"@),
                seq![EventView::TurnStart],
                final(self)@,
                final(run)@,
                view_events(r.0@),
                r.1,
            ),
            old(run)@.iteration < old(self)@.max_tool_iterations && ready ==> exists|
                c: PruneCounts,
                n: u32,
                p: Result<PreparedContext, CoreError>,
            |
                #[trigger] observed(
                    *token_counter,
                    old(self)@.template,
                    old(self)@.system_prompt,
                    old(self)@.messages,
                    old(self)@.tools,
                    available_tokens(old(self)@.context_config),
                    c,
                ) && #[trigger] prepared_matches(
                    *token_counter,
                    old(self)@.template,
                    old(self)@.system_prompt,
                    old(self)@.messages,
                    old(self)@.tools,
                    spec_plan::<T>(old(self)@.context_config, old(self)@.messages, c),
                    n,
                    p,
                ) && turn_prepared(old(self)@, old(run)@, p, final(self)@, view_events(r.0@), r.1),
    {
        if run.iteration >= self.config.max_tool_iterations {
            // Exhausted the iteration budget without a tool-free answer.
            let mut text = String::from_str("Stopped after ");
            let count = decimal_string(self.config.max_tool_iterations as u64);
            text.append(count.as_str());
            text.append(" tool iterations without a final answer");
            let events = vec![
                AgentEvent::Warning { message: text },
                AgentEvent::AgentEnd { messages: copy_messages(&run.new_messages) },
            ];
            proof {
                assert(view_events(events@) =~= seq![
                    EventView::Warning(stopped_text(self@.max_tool_iterations)),
                    EventView::AgentEnd(run@.new_messages),
                ]);
            }
            return (events, Step::Finished);
        }
        let start = vec![AgentEvent::TurnStart];
        proof {
            assert(view_events(start@) =~= seq![EventView::TurnStart]);
        }
        if !ready {
            let e = CoreError::Backend(String::from_str("No model loaded"));
            return self.fail_turn(run, &e, start);
        }
        let prepared = prepare_context(
            &self.template,
            self.config.system_prompt.as_str(),
            self.messages.as_slice(),
            self.tools.as_slice(),
            &self.config.context_config,
            token_counter,
        );
        let ghost pr = prepared;
        let ghost a = self@;
        let ghost ru = run@;
        let ghost f = *token_counter;
        let ghost (c, n) = choose|c: PruneCounts, n: u32|
            #[trigger] observed(f, a.template, a.system_prompt, a.messages, a.tools, available_tokens(a.context_config), c)
                && #[trigger] prepared_matches(
                f,
                a.template,
                a.system_prompt,
                a.messages,
                a.tools,
                spec_plan::<T>(a.context_config, a.messages, c),
                n,
                pr,
            );
        proof {
            assert(observed(f, a.template, a.system_prompt, a.messages, a.tools, available_tokens(a.context_config), c));
            assert(prepared_matches(
                f,
                a.template,
                a.system_prompt,
                a.messages,
                a.tools,
                spec_plan::<T>(a.context_config, a.messages, c),
                n,
                pr,
            ));
        }
        match prepared {
            Err(e) => {
                let r = self.fail_turn(run, &e, start);
                proof {
                    assert(turn_prepared(a, ru, pr, self@, view_events(r.0@), r.1));
                }
                r
            },
            Ok(p) => {
                let budget = AgentEvent::ContextBudget {
                    used_tokens: p.token_count,
                    max_tokens: self.config.context_config.max_context_tokens,
                    messages_in_context: p.messages_included,
                    messages_pruned: p.messages_pruned,
                };
                let events = vec![AgentEvent::TurnStart, budget];
                proof {
                    assert(view_events(events@) =~= seq![
                        EventView::TurnStart,
                        EventView::ContextBudget(
                            p.token_count,
                            a.context_config.max_context_tokens,
                            p.messages_included,
                            p.messages_pruned,
                        ),
                    ]);
                }
                let step = Step::Generate(p);
                proof {
                    assert(turn_prepared(a, ru, pr, self@, view_events(events@), step));
                }
                (events, step)
            },
        }
    }

    /// Take the outcome of a generation.
    ///
    /// An abort records an empty assistant reply and ends the prompt. An error
    /// ends the prompt (taking back the user message on the first turn). A
    /// completed generation is recorded as the assistant's reply, with the
    /// tool calls parsed from it when tools are registered; a reply without
    /// calls ends the prompt, one with calls moves on to the first call.
    pub fn generation_done(&mut self, run: &mut Run, outcome: Result<Generated, CoreError>) -> (r: (
        Vec<AgentEvent>,
        Step,
    ))
        requires
            old(self)@.counter < u64::MAX,
        ensures
            match outcome {
                Err(CoreError::Aborted) => aborted_reply(
                    old(self)@,
                    old(run)@,
                    final(self)@,
                    final(run)@,
                    view_events(r.0@),
                    r.1,
                ),
                Err(e) => failed(
                    old(self)@,
                    old(run)@,
                    e@,
                    seq![],
                    final(self)@,
                    final(run)@,
                    view_events(r.0@),
                    r.1,
                ),
                Ok(g) => {
                    let m = final(self)@.messages.last();
                    let news = old(run)@.new_messages.push(m);
                    let calls = reply_calls(old(self)@.tools, msg_id(final(self)@.counter as nat), g.text@);
                    let stats = EventView::GenerationStats(g.tokens_generated, g.prompt_tokens);
                    &&& final(self)@ == appended(old(self)@, m)
                    &&& is_reply(m, msg_id(final(self)@.counter as nat), g.text@, calls)
                    &&& view_events(r.0@) == reply_events(stats, m, news, calls.len() == 0)
                    &&& calls.len() == 0 ==> {
                        &&& final(run)@ == (RunView { new_messages: news, ..old(run)@ })
                        &&& r.1 is Finished
                    }
                    &&& calls.len() > 0 ==> {
                        &&& final(run)@ == (RunView {
                            new_messages: news,
                            turn: Some(m),
                            next_call: 0,
                            tool_results: seq![],
                            ..old(run)@
                        })
                        &&& r.1 matches Step::Review(c) && c@ == calls[0]
                    }
                },
            },
    {
        let ghost a = self@;
        let ghost ru = run@;
        match outcome {
            Err(e) => {
                if let CoreError::Aborted = e {
                    // Aborted mid-generation: record an empty assistant turn so
                    // the conversation stays well-formed, then stop.
                    let id = self.next_id();
                    let reply = Message::assistant(id.as_str(), "");
                    let ghost m = reply@;
                    proof {
                        reveal_strlit("");
                        assert(m.content =~= Seq::<char>::empty());
                    }
                    self.messages.push(reply.clone());
                    run.new_messages.push(reply.clone());
                    let events = vec![
                        AgentEvent::MessageEnd { message: reply.clone() },
                        AgentEvent::TurnEnd { message: reply, tool_results: Vec::new() },
                        AgentEvent::AgentEnd { messages: copy_messages(&run.new_messages) },
                    ];
                    proof {
                        assert(view_messages(self.messages@) =~= a.messages.push(m));
                        assert(view_messages(run.new_messages@) =~= ru.new_messages.push(m));
                        assert(view_results(Seq::<ToolResult>::empty()) =~= Seq::<ToolResultView>::empty());
                        assert(view_events(events@) =~= seq![
                            EventView::MessageEnd(m),
                            EventView::TurnEnd(m, seq![]),
                            EventView::AgentEnd(ru.new_messages.push(m)),
                        ]);
                    }
                    (events, Step::Finished)
                } else {
                    self.fail_turn(run, &e, Vec::new())
                }
            },
            Ok(g) => {
                let id = self.next_id();
                let calls = if self.tools.len() > 0 {
                    number_calls(id.as_str(), crate::tools::parse_tool_calls(g.text.as_str()))
                } else {
                    Vec::new()
                };
                let ghost cv = view_calls(calls@);
                proof {
                    if a.tools.len() == 0 {
                        assert(cv =~= Seq::<ToolCallView>::empty());
                    }
                    assert(cv == reply_calls(a.tools, id@, g.text@));
                }
                let mut reply = Message::assistant(id.as_str(), g.text.as_str());
                reply.tool_calls = calls;
                let ghost m = reply@;
                self.messages.push(reply.clone());
                run.new_messages.push(reply.clone());
                proof {
                    assert(view_messages(self.messages@) =~= a.messages.push(m));
                    assert(view_messages(run.new_messages@) =~= ru.new_messages.push(m));
                }
                let stats = AgentEvent::GenerationStats {
                    tokens_generated: g.tokens_generated,
                    prompt_tokens: g.prompt_tokens,
                };
                if reply.tool_calls.len() == 0 {
                    let events = vec![
                        stats,
                        AgentEvent::MessageEnd { message: reply.clone() },
                        AgentEvent::TurnEnd { message: reply, tool_results: Vec::new() },
                        AgentEvent::AgentEnd { messages: copy_messages(&run.new_messages) },
                    ];
                    proof {
                        assert(view_results(Seq::<ToolResult>::empty()) =~= Seq::<ToolResultView>::empty());
                        assert(view_events(events@) =~= seq![
                            EventView::GenerationStats(g.tokens_generated, g.prompt_tokens),
                            EventView::MessageEnd(m),
                            EventView::TurnEnd(m, seq![]),
                            EventView::AgentEnd(ru.new_messages.push(m)),
                        ]);
                    }
                    (events, Step::Finished)
                } else {
                    let first = reply.tool_calls[0].clone();
                    let events = vec![stats, AgentEvent::MessageEnd { message: reply.clone() }];
                    run.turn = Some(reply);
                    run.next_call = 0;
                    run.tool_results = Vec::new();
                    proof {
                        assert(view_results(run.tool_results@) =~= Seq::<ToolResultView>::empty());
                        assert(view_events(events@) =~= seq![
                            EventView::GenerationStats(g.tokens_generated, g.prompt_tokens),
                            EventView::MessageEnd(m),
                        ]);
                    }
                    (events, Step::Review(first))
                }
            },
        }
    }

    /// Take the approval hook's verdict on the pending call.
    ///
    /// An approved call to a registered tool is handed out for execution; an
    /// approved call to an unknown tool fails with an error result; a denied
    /// call is never executed, and its reason is recorded as an error result
    /// the model will see.
    pub fn review_done(&mut self, run: &mut Run, decision: ApprovalDecision) -> (r: (Vec<AgentEvent>, Step))
        requires
            old(self)@.counter < u64::MAX,
        ensures
            pending_call(old(run)@) is None ==> {
                &&& final(self)@ == old(self)@
                &&& final(run)@ == old(run)@
                &&& r.0@.len() == 0
                &&& r.1 is CheckAbort
            },
            pending_call(old(run)@) matches Some(call) ==> ((decision is Approve && exists|i: int|
                0 <= i < old(self)@.tools.len() && #[trigger] old(self)@.tools[i].name == call.name) ==> {
                &&& final(self)@ == old(self)@
                &&& final(run)@ == old(run)@
                &&& view_events(r.0@) == seq![EventView::ToolExecStart(call.id, call.name, call.arguments)]
                &&& r.1 matches Step::Execute(x) && x@ == call
            }),
            pending_call(old(run)@) matches Some(call) ==> match decision {
                ApprovalDecision::Approve => if registered(old(self)@.tools, call.name) {
                    &&& final(self)@ == old(self)@
                    &&& final(run)@ == old(run)@
                    &&& view_events(r.0@) == seq![EventView::ToolExecStart(call.id, call.name, call.arguments)]
                    &&& r.1 matches Step::Execute(x) && x@ == call
                } else {
                    let res = result_of(call, unknown_tool_text(call.name), true);
                    recorded(
                        old(self)@,
                        old(run)@,
                        old(run)@.turn->Some_0,
                        res,
                        seq![
                            EventView::ToolExecStart(call.id, call.name, call.arguments),
                            EventView::ToolExecEnd(call.id, call.name, res),
                        ],
                        final(self)@,
                        final(run)@,
                        view_events(r.0@),
                        r.1,
                    )
                },
                ApprovalDecision::Deny { reason } => recorded(
                    old(self)@,
                    old(run)@,
                    old(run)@.turn->Some_0,
                    result_of(call, reason@, true),
                    seq![EventView::ToolDenied(call.id, call.name, reason@)],
                    final(self)@,
                    final(run)@,
                    view_events(r.0@),
                    r.1,
                ),
            },
    {
        let call = match run.pending() {
            Some(c) => c,
            None => {
                return (Vec::new(), Step::CheckAbort);
            },
        };
        proof {
            law_every_registered_tool_is_found(self@.tools, call@.name);
        }
        match decision {
            ApprovalDecision::Approve => {
                let start = AgentEvent::ToolExecStart {
                    tool_call_id: call.id.clone(),
                    tool_name: call.name.clone(),
                    args: call.arguments.clone(),
                };
                if self.has_tool(call.name.as_str()) {
                    let events = vec![start];
                    proof {
                        assert(view_events(events@) =~= seq![start@]);
                    }
                    return (events, Step::Execute(call));
                }
                let mut what = String::from_str("unknown tool: ");
                what.append(call.name.as_str());
                let err = CoreError::Tool(what);
                let res = ToolResult {
                    tool_call_id: call.id.clone(),
                    tool_name: call.name.clone(),
                    content: err.to_string(),
                    is_error: true,
                };
                let end = AgentEvent::ToolExecEnd {
                    tool_call_id: call.id.clone(),
                    tool_name: call.name.clone(),
                    result: res.clone(),
                };
                let before = vec![start, end];
                proof {
                    assert(view_events(before@) =~= seq![
                        EventView::ToolExecStart(call@.id, call@.name, call@.arguments),
                        EventView::ToolExecEnd(call@.id, call@.name, res@),
                    ]);
                }
                self.record_result(run, res, before)
            },
            ApprovalDecision::Deny { reason } => {
                let denied = AgentEvent::ToolDenied {
                    tool_call_id: call.id.clone(),
                    tool_name: call.name.clone(),
                    reason: reason.clone(),
                };
                let res = ToolResult {
                    tool_call_id: call.id.clone(),
                    tool_name: call.name.clone(),
                    content: reason,
                    is_error: true,
                };
                let before = vec![denied];
                proof {
                    assert(view_events(before@) =~= seq![EventView::ToolDenied(call@.id, call@.name, res@.content)]);
                }
                self.record_result(run, res, before)
            },
        }
    }

    /// Take the outcome of executing the pending call: its output, or the
    /// error it failed with (recorded as an error result).
    pub fn tool_done(&mut self, run: &mut Run, outcome: Result<String, CoreError>) -> (r: (
        Vec<AgentEvent>,
        Step,
    ))
        requires
            old(self)@.counter < u64::MAX,
        ensures
            pending_call(old(run)@) is None ==> {
                &&& final(self)@ == old(self)@
                &&& final(run)@ == old(run)@
                &&& r.0@.len() == 0
                &&& r.1 is CheckAbort
            },
            pending_call(old(run)@) matches Some(call) ==> {
                let res = result_of(call, outcome_text(outcome), outcome is Err);
                recorded(
                    old(self)@,
                    old(run)@,
                    old(run)@.turn->Some_0,
                    res,
                    seq![EventView::ToolExecEnd(call.id, call.name, res)],
                    final(self)@,
                    final(run)@,
                    view_events(r.0@),
                    r.1,
                )
            },
    {
        let call = match run.pending() {
            Some(c) => c,
            None => {
                return (Vec::new(), Step::CheckAbort);
            },
        };
        let is_error = outcome.is_err();
        let content = match outcome {
            Ok(out) => out,
            Err(e) => e.to_string(),
        };
        let res = ToolResult {
            tool_call_id: call.id.clone(),
            tool_name: call.name.clone(),
            content,
            is_error,
        };
        let end = AgentEvent::ToolExecEnd {
            tool_call_id: call.id.clone(),
            tool_name: call.name.clone(),
            result: res.clone(),
        };
        let before = vec![end];
        proof {
            assert(view_events(before@) =~= seq![EventView::ToolExecEnd(call@.id, call@.name, res@)]);
        }
        self.record_result(run, res, before)
    }
}


// --- Summarize and compress --------------------------------------------------

/// The text that opens an agent-written conversation summary.
pub open spec fn summary_marker() -> Seq<char> {
    "[Summary of earlier conversation]"@
}

/// A pinned summary the agent wrote earlier.
pub open spec fn is_summary(m: MessageView) -> bool {
    m.pinned && starts_with(m.content, summary_marker())
}

/// The position of the first earlier summary, or -1.
pub open spec fn first_summary(ms: Seq<MessageView>) -> int {
    first_where(ms, |m: MessageView| is_summary(m))
}

/// The body of the first earlier summary (marker removed, trimmed), or
/// nothing when there is none.
pub open spec fn prior_body(ms: Seq<MessageView>) -> Seq<char> {
    let k = first_summary(ms);
    if k >= 0 {
        crate::text::trim(ms[k].content.subrange(summary_marker().len() as int, ms[k].content.len() as int))
    } else {
        seq![]
    }
}

/// Whether position `i` lies in one of the ranges.
pub open spec fn in_ranges(rs: Seq<(int, int)>, i: int) -> bool {
    exists|k: int| 0 <= k < rs.len() && #[trigger] rs[k].0 <= i < rs[k].1
}

/// Which messages a summary folds away: those of the dropped turns, and any
/// earlier summary (consolidated into the new one).
pub open spec fn fold_marks(ms: Seq<MessageView>, dropped: Seq<(int, int)>) -> Seq<bool> {
    Seq::new(ms.len(), |i: int| in_ranges(dropped, i) || i == first_summary(ms))
}

/// The positions whose flag is set, in ascending order.
pub open spec fn positions(flags: Seq<bool>) -> Seq<int>
    decreases flags.len(),
{
    if flags.len() == 0 {
        seq![]
    } else if flags.last() {
        positions(flags.drop_last()).push(flags.len() - 1)
    } else {
        positions(flags.drop_last())
    }
}

/// A speaker label for the transcript.
pub open spec fn role_label(r: Role) -> Seq<char> {
    match r {
        Role::User => "User"@,
        Role::Assistant => "Assistant"@,
        Role::ToolCall => "Assistant"@,
        Role::ToolResult => "Tool"@,
        Role::System => "System"@,
    }
}

/// One transcript line: `Role: content`.
pub open spec fn transcript_line(m: MessageView) -> Seq<char> {
    role_label(m.role) + ": "@ + m.content
}

/// The messages at the given positions, skipping positions out of range.
pub open spec fn at_positions(ms: Seq<MessageView>, idx: Seq<int>) -> Seq<MessageView>
    decreases idx.len(),
{
    if idx.len() == 0 {
        seq![]
    } else {
        let prev = at_positions(ms, idx.drop_last());
        let i = idx.last();
        if 0 <= i < ms.len() {
            prev.push(ms[i])
        } else {
            prev
        }
    }
}

/// Transcript lines of the messages, joined with newlines.
pub open spec fn joined_lines(ms: Seq<MessageView>) -> Seq<char>
    decreases ms.len(),
{
    if ms.len() == 0 {
        seq![]
    } else if ms.len() == 1 {
        transcript_line(ms[0])
    } else {
        joined_lines(ms.drop_last()) + "\n"@ + transcript_line(ms.last())
    }
}

/// The instruction that opens a summarization request.
pub open spec fn summary_instruction() -> Seq<char> {
    "You compress conversation history. Summarize the material below into a concise note that preserves key facts, decisions, names, and unresolved questions. Reply with only the summary."@
}

/// The system prompt of a summarization request.
pub open spec fn summarizer_system() -> Seq<char> {
    "You summarize conversations faithfully and concisely."@
}

/// The user text of a summarization request: the instruction, any earlier
/// summary, and the transcript of the messages being folded away.
pub open spec fn summary_request_text(ms: Seq<MessageView>, remove: Seq<int>) -> Seq<char> {
    let prev = prior_body(ms);
    let earlier = if prev.len() > 0 {
        "Earlier summary:\n"@ + prev + "\n\n"@
    } else {
        seq![]
    };
    summary_instruction() + "\n\n"@ + earlier + "Conversation excerpt:\n"@ + joined_lines(at_positions(ms, remove))
}

/// A summarization pass to run: the messages it would fold away, in
/// ascending order, and the prompt that asks the model for the summary.
pub struct SummaryRequest {
    /// Positions of the messages to fold into the summary.
    pub remove: Vec<usize>,
    /// The system prompt of the summarizing generation.
    pub system: String,
    /// The user message asking for the summary.
    pub request: Message,
    /// The formatted prompt for the summarizing generation: the system prompt
    /// and the request in the agent's template.
    pub prompt: String,
}

/// The positions as integers.
pub open spec fn ints(v: Seq<usize>) -> Seq<int> {
    v.map_values(|i: usize| i as int)
}

/// What a summarization pass asks for, given the prune plan's outcome:
/// nothing when the plan fails or drops nothing; otherwise the positions of
/// the dropped turns and any earlier summary, and the template's prompt for a
/// request message carrying [`summary_request_text`].
pub open spec fn summary_matches<T: ChatTemplate>(
    a: AgentView<T>,
    outcome: Result<Seq<bool>, crate::context::ContextFault>,
    r: Option<SummaryRequest>,
) -> bool {
    match outcome {
        Err(_) => r is None,
        Ok(keep) => {
            let dropped = crate::context::select(crate::context::turns_of(a.messages), keep, false);
            let remove = positions(fold_marks(a.messages, dropped));
            if dropped.len() == 0 {
                r is None
            } else {
                r matches Some(q) && {
                    &&& ints(q.remove@) == remove
                    &&& q.system@ == summarizer_system()
                    &&& is_fresh(q.request@, "summary-req"@, Role::User, summary_request_text(a.messages, remove))
                    &&& q.prompt@ == a.template.spec_format(summarizer_system(), seq![q.request@], seq![])
                }
            }
        },
    }
}

/// The messages without those at the given positions.
pub open spec fn without(ms: Seq<MessageView>, remove: Seq<int>) -> Seq<MessageView>
    decreases ms.len(),
{
    if ms.len() == 0 {
        seq![]
    } else if remove.contains(ms.len() - 1) {
        without(ms.drop_last(), remove)
    } else {
        without(ms.drop_last(), remove).push(ms.last())
    }
}

/// The smallest of some positions.
pub open spec fn least(v: Seq<int>) -> int
    decreases v.len(),
{
    if v.len() == 0 {
        0
    } else if v.len() == 1 {
        v[0]
    } else {
        let m = least(v.drop_last());
        if v.last() < m {
            v.last()
        } else {
            m
        }
    }
}

/// The conversation after folding the messages at `remove` into summary `m`:
/// they are removed, and `m` stands where the earliest of them stood. An empty
/// `remove` changes nothing.
pub open spec fn folded(ms: Seq<MessageView>, remove: Seq<int>, m: MessageView) -> Seq<MessageView> {
    if remove.len() == 0 {
        ms
    } else {
        let kept = without(ms, remove);
        let at = if least(remove) < kept.len() {
            least(remove)
        } else {
            kept.len() as int
        };
        kept.insert(at, m)
    }
}

/// The warning reported after a summary was folded in.
pub open spec fn summarized_text(count: nat) -> Seq<char> {
    "Summarized "@ + decimal(count) + " earlier message(s) to fit the context window"@
}

/// Render the messages at `indices` as a plain-text transcript for
/// summarization, one `Role: content` line each.
fn render_transcript(messages: &[Message], indices: &[usize]) -> (r: String)
    ensures
        r@ == joined_lines(at_positions(view_messages(messages@), ints(indices@))),
{
    let ghost mv = view_messages(messages@);
    let mut out = String::new();
    let mut any = false;
    let mut j: usize = 0;
    while j < indices.len()
        invariant
            j <= indices@.len(),
            mv == view_messages(messages@),
            any == (at_positions(mv, ints(indices@.take(j as int))).len() > 0),
            out@ == joined_lines(at_positions(mv, ints(indices@.take(j as int)))),
        decreases indices@.len() - j,
    {
        proof {
            assert(ints(indices@.take(j + 1)).drop_last() =~= ints(indices@.take(j as int)));
            assert(ints(indices@.take(j + 1)).last() == indices@[j as int] as int);
        }
        let i = indices[j];
        if i < messages.len() {
            let m = &messages[i];
            let label = match m.role {
                Role::User => "User",
                Role::Assistant => "Assistant",
                Role::ToolCall => "Assistant",
                Role::ToolResult => "Tool",
                Role::System => "System",
            };
            proof {
                assert(label@ == role_label(m.role));
            }
            if any {
                out.append("\n");
            }
            out.append(label);
            out.append(": ");
            out.append(m.content.as_str());
            proof {
                let sel = at_positions(mv, ints(indices@.take(j + 1)));
                assert(sel.drop_last() =~= at_positions(mv, ints(indices@.take(j as int))));
                assert(sel.last() == m@);
                if !any {
                    assert(out@ =~= transcript_line(m@));
                } else {
                    assert(out@ =~= joined_lines(sel.drop_last()) + "\n"@ + transcript_line(m@));
                }
            }
            any = true;
        }
        j += 1;
    }
    proof {
        assert(indices@.take(j as int) =~= indices@);
    }
    out
}


/// Whether position `i` lies in one of the ranges.
fn in_any_range(ranges: &Vec<std::ops::Range<usize>>, i: usize) -> (b: bool)
    ensures
        b == in_ranges(crate::context::bounds_of(ranges@), i as int),
{
    let ghost rs = crate::context::bounds_of(ranges@);
    let mut k: usize = 0;
    while k < ranges.len()
        invariant
            k <= ranges@.len(),
            rs == crate::context::bounds_of(ranges@),
            forall|j: int| 0 <= j < k ==> !(#[trigger] rs[j].0 <= i < rs[j].1),
        decreases ranges@.len() - k,
    {
        if ranges[k].start <= i && i < ranges[k].end {
            proof {
                assert(rs[k as int].0 <= i < rs[k as int].1);
            }
            return true;
        }
        k += 1;
    }
    proof {
        assert forall|j: int| 0 <= j < rs.len() implies !(#[trigger] rs[j].0 <= i < rs[j].1) by {}
    }
    false
}

impl<T: ChatTemplate> Agent<T> {
    /// The position of the first earlier summary.
    fn find_summary(&self) -> (r: Option<usize>)
        ensures
            match r {
                Some(k) => k as int == first_summary(self@.messages),
                None => first_summary(self@.messages) == -1,
            },
    {
        let ghost mv = self@.messages;
        let ghost pred = |m: MessageView| is_summary(m);
        proof {
            reveal_strlit("[Summary of earlier conversation]");
        }
        let mut i: usize = 0;
        while i < self.messages.len()
            invariant
                i <= self.messages@.len(),
                mv == self@.messages,
                pred == (|m: MessageView| is_summary(m)),
                first_where(mv.take(i as int), pred) == -1,
            decreases self.messages@.len() - i,
        {
            proof {
                assert(mv.take(i + 1).drop_last() =~= mv.take(i as int));
            }
            if self.messages[i].pinned && crate::text::starts_with_str(
                self.messages[i].content.as_str(),
                "[Summary of earlier conversation]",
            ) {
                proof {
                    assert(first_where(mv.take(i + 1), pred) == i);
                    lemma_first_where_prefix(mv, pred, i + 1);
                }
                return Some(i);
            }
            proof {
                assert(first_where(mv.take(i + 1), pred) == -1);
            }
            i += 1;
        }
        proof {
            assert(mv.take(i as int) =~= mv);
        }
        None
    }

    /// Plan a summarize-and-compress pass.
    ///
    /// Only under the `Summarize` strategy, with a ready backend, and when the
    /// prune plan (counted with `token_counter`) succeeds and drops some turns:
    /// then the dropped turns and any earlier summary are to be folded into
    /// one new summary, and the returned request carries the prompt that asks
    /// the model for it.
    pub fn summary_request<F: Fn(&str) -> u32>(&self, ready: bool, token_counter: &F) -> (r: Option<
        SummaryRequest,
    >)
        requires
            self@.messages.len() <= u32::MAX,
            forall|s: &str| token_counter.requires((s,)),
        ensures
            self@.context_config.prune_strategy != PruneStrategy::Summarize || !ready ==> r is None,
            self@.context_config.prune_strategy == PruneStrategy::Summarize && ready ==> exists|
                c: PruneCounts,
            |
                #[trigger] observed(
                    *token_counter,
                    self@.template,
                    self@.system_prompt,
                    self@.messages,
                    self@.tools,
                    available_tokens(self@.context_config),
                    c,
                ) && summary_matches(
                    self@,
                    spec_plan::<T>(self@.context_config, self@.messages, c),
                    r,
                ),
    {
        match self.config.context_config.prune_strategy {
            PruneStrategy::Summarize => {},
            PruneStrategy::SlidingWindow => {
                return None;
            },
        }
        if !ready {
            return None;
        }
        let ghost a = self@;
        let ghost mv = a.messages;
        let planned = crate::context::plan_prune(
            &self.template,
            self.config.system_prompt.as_str(),
            self.messages.as_slice(),
            self.tools.as_slice(),
            &self.config.context_config,
            token_counter,
        );
        let ghost c = choose|c: PruneCounts|
            #[trigger] observed(
                *token_counter,
                a.template,
                a.system_prompt,
                mv,
                a.tools,
                available_tokens(a.context_config),
                c,
            ) && crate::context::plan_matches(
                mv,
                spec_plan::<T>(a.context_config, mv, c),
                planned,
            );
        let ghost outcome = spec_plan::<T>(a.context_config, mv, c);
        let plan = match planned {
            Ok(p) => p,
            Err(_) => {
                proof {
                    assert(summary_matches(a, outcome, None));
                }
                return None;
            },
        };
        let ghost keep = outcome->Ok_0;
        let ghost dropped = crate::context::select(crate::context::turns_of(mv), keep, false);
        if plan.dropped.len() == 0 {
            proof {
                assert(summary_matches(a, outcome, None));
            }
            return None;
        }
        let prior = self.find_summary();
        let ghost marks = fold_marks(mv, dropped);
        let mut remove: Vec<usize> = Vec::new();
        let mut i: usize = 0;
        while i < self.messages.len()
            invariant
                i <= self.messages@.len(),
                mv == self@.messages,
                marks == fold_marks(mv, dropped),
                dropped == crate::context::bounds_of(plan.dropped@),
                match prior {
                    Some(k) => k as int == first_summary(mv),
                    None => first_summary(mv) == -1,
                },
                ints(remove@) == positions(marks.take(i as int)),
            decreases self.messages@.len() - i,
        {
            let is_prior = match prior {
                Some(k) => k == i,
                None => false,
            };
            let mark = in_any_range(&plan.dropped, i) || is_prior;
            proof {
                assert(mark == marks[i as int]);
                assert(marks.take(i + 1).drop_last() =~= marks.take(i as int));
                assert(ints(remove@.push(i)) =~= ints(remove@).push(i as int));
            }
            if mark {
                remove.push(i);
            }
            i += 1;
        }
        proof {
            assert(marks.take(i as int) =~= marks);
        }
        let ghost rm = ints(remove@);
        // The body of any earlier summary, to be consolidated into the new one.
        let prev = match prior {
            Some(k) => {
                proof {
                    lemma_first_where_bounds(mv, |m: MessageView| is_summary(m));
                    reveal_strlit("[Summary of earlier conversation]");
                }
                let content = self.messages[k].content.as_str();
                match strip_prefix_str(content, "[Summary of earlier conversation]") {
                    Some(rest) => crate::text::trim_str(rest.as_str()),
                    None => crate::text::trim_str(content),
                }
            },
            None => String::new(),
        };
        proof {
            if prior is Some {
                let k = first_summary(mv);
                lemma_first_where_bounds(mv, |m: MessageView| is_summary(m));
                assert(is_summary(mv[k]));
            }
            assert(prev@ == prior_body(mv));
        }
        let transcript = render_transcript(self.messages.as_slice(), remove.as_slice());
        let mut text = String::from_str(
            "You compress conversation history. Summarize the material below into a concise note that preserves key facts, decisions, names, and unresolved questions. Reply with only the summary.",
        );
        text.append("\n\n");
        if prev.as_str().unicode_len() > 0 {
            text.append("Earlier summary:\n");
            text.append(prev.as_str());
            text.append("\n\n");
        }
        text.append("Conversation excerpt:\n");
        text.append(transcript.as_str());
        proof {
            if prev@.len() > 0 {
                assert(text@ =~= summary_request_text(mv, rm));
            } else {
                assert(text@ =~= summary_request_text(mv, rm));
            }
        }
        let req = Message::user("summary-req", text.as_str());
        let ghost m = req@;
        let one = vec![req.clone()];
        let no_tools: Vec<ToolSchema> = Vec::new();
        let prompt = self.template.format(
            "You summarize conversations faithfully and concisely.",
            one.as_slice(),
            no_tools.as_slice(),
        );
        proof {
            assert(view_messages(one@) =~= seq![m]);
            assert(view_schemas(no_tools@) =~= Seq::<ToolSchemaView>::empty());
            assert(a.template.spec_format(summarizer_system(), seq![m], seq![]) == prompt@);
        }
        let system = String::from_str("You summarize conversations faithfully and concisely.");
        let r = Some(SummaryRequest { remove, system, request: req, prompt });
        proof {
            assert(summary_matches(a, outcome, r));
        }
        r
    }
}


/// `m` is a pinned summary message with this id and summary text.
pub open spec fn is_summary_message(m: MessageView, id: Seq<char>, summary: Seq<char>) -> bool {
    &&& m.id == id
    &&& m.role == Role::User
    &&& m.content == summary_marker() + "\n"@ + summary
    &&& m.tool_calls.len() == 0
    &&& m.tool_result is None
    &&& m.token_count is None
    &&& m.pinned
}

/// The agent after folding the messages at `remove` into a summary with this
/// text, under a freshly minted id.
pub open spec fn summary_folded<T: ChatTemplate>(a: AgentView<T>, remove: Seq<int>, summary: Seq<char>, a2: AgentView<T>) -> bool {
    if remove.len() == 0 {
        a2 == a
    } else {
        exists|m: MessageView|
            #[trigger] is_summary_message(m, msg_id((a.counter + 1) as nat), summary) && a2 == (AgentView {
                counter: (a.counter + 1) as u64,
                messages: folded(a.messages, remove, m),
                ..a
            })
    }
}

/// Whether `i` is among the positions.
fn listed(v: &[usize], i: usize) -> (b: bool)
    ensures
        b == ints(v@).contains(i as int),
{
    let mut k: usize = 0;
    while k < v.len()
        invariant
            k <= v@.len(),
            forall|j: int| 0 <= j < k ==> v@[j] != i,
        decreases v@.len() - k,
    {
        if v[k] == i {
            proof {
                assert(ints(v@)[k as int] == i as int);
            }
            return true;
        }
        k += 1;
    }
    proof {
        if ints(v@).contains(i as int) {
            let j = choose|j: int| 0 <= j < ints(v@).len() && ints(v@)[j] == i as int;
            assert(v@[j] == i);
        }
    }
    false
}

impl<T: ChatTemplate> Agent<T> {
    /// Remove the messages at `remove` and splice in one pinned summary
    /// message at the earliest removed position.
    fn fold_into_summary(&mut self, remove: &[usize], summary: &str)
        requires
            old(self)@.counter < u64::MAX,
        ensures
            summary_folded(old(self)@, ints(remove@), summary@, final(self)@),
    {
        if remove.len() == 0 {
            return;
        }
        let ghost a = self@;
        let ghost mv = a.messages;
        let ghost rm = ints(remove@);
        let mut insert_at = remove[0];
        let mut j: usize = 1;
        while j < remove.len()
            invariant
                1 <= j <= remove@.len(),
                rm == ints(remove@),
                insert_at as int == least(rm.take(j as int)),
            decreases remove@.len() - j,
        {
            proof {
                assert(rm.take(j + 1).drop_last() =~= rm.take(j as int));
            }
            if remove[j] < insert_at {
                insert_at = remove[j];
            }
            j += 1;
        }
        proof {
            assert(rm.take(j as int) =~= rm);
        }
        let mut kept: Vec<Message> = Vec::new();
        let mut i: usize = 0;
        while i < self.messages.len()
            invariant
                i <= self.messages@.len(),
                self@ == a,
                mv == a.messages,
                rm == ints(remove@),
                view_messages(kept@) == without(mv.take(i as int), rm),
            decreases self.messages@.len() - i,
        {
            proof {
                assert(mv.take(i + 1).drop_last() =~= mv.take(i as int));
            }
            if !listed(remove, i) {
                let m = self.messages[i].clone();
                proof {
                    assert(view_messages(kept@.push(m)) =~= view_messages(kept@).push(m@));
                }
                kept.push(m);
            }
            i += 1;
        }
        proof {
            assert(mv.take(i as int) =~= mv);
        }
        let id = self.next_id();
        let mut content = String::from_str("[Summary of earlier conversation]");
        content.append("\n");
        content.append(summary);
        let msg = Message::user(id.as_str(), content.as_str()).pinned();
        let ghost m = msg@;
        let at = if insert_at < kept.len() {
            insert_at
        } else {
            kept.len()
        };
        let ghost before = view_messages(kept@);
        kept.insert(at, msg);
        self.messages = kept;
        proof {
            reveal_strlit("[Summary of earlier conversation]");
            assert(is_summary_message(m, msg_id((a.counter + 1) as nat), summary@));
            assert(view_messages(self.messages@) =~= before.insert(at as int, m));
            assert(view_messages(self.messages@) =~= folded(mv, rm, m));
            assert(self@ == (AgentView { counter: (a.counter + 1) as u64, messages: folded(mv, rm, m), ..a }));
        }
    }

    /// Take the summarizing generation's text for a planned pass. A blank
    /// summary changes nothing; otherwise the request's messages are folded
    /// into one pinned summary message and a warning says how many.
    pub fn apply_summary(&mut self, request: &SummaryRequest, generated: &str) -> (events: Vec<AgentEvent>)
        requires
            old(self)@.counter < u64::MAX,
        ensures
            crate::text::trim(generated@).len() == 0 ==> final(self)@ == old(self)@ && events@.len() == 0,
            crate::text::trim(generated@).len() > 0 ==> {
                &&& summary_folded(old(self)@, ints(request.remove@), crate::text::trim(generated@), final(self)@)
                &&& view_events(events@) == seq![EventView::Warning(summarized_text(request.remove@.len()))]
            },
    {
        let summary = crate::text::trim_str(generated);
        if summary.as_str().unicode_len() == 0 {
            return Vec::new();
        }
        self.fold_into_summary(request.remove.as_slice(), summary.as_str());
        let mut text = String::from_str("Summarized ");
        let count = decimal_string(request.remove.len() as u64);
        text.append(count.as_str());
        text.append(" earlier message(s) to fit the context window");
        let events = vec![AgentEvent::Warning { message: text }];
        proof {
            assert(view_events(events@) =~= seq![EventView::Warning(summarized_text(request.remove@.len()))]);
        }
        events
    }
}


// --- Laws of the prompt loop --------------------------------------------------

/// How many `GenerationStats` events there are.
pub open spec fn stats_count(es: Seq<EventView>) -> nat
    decreases es.len(),
{
    if es.len() == 0 {
        0
    } else {
        stats_count(es.drop_last()) + if es.last() is GenerationStats {
            1nat
        } else {
            0nat
        }
    }
}

proof fn lemma_stats_count_concat(x: Seq<EventView>, y: Seq<EventView>)
    ensures
        stats_count(x + y) == stats_count(x) + stats_count(y),
    decreases y.len(),
{
    if y.len() > 0 {
        assert((x + y).drop_last() =~= x + y.drop_last());
        lemma_stats_count_concat(x, y.drop_last());
    } else {
        assert(x + y =~= x);
    }
}

proof fn lemma_stats_count_zero(es: Seq<EventView>)
    requires
        forall|i: int| 0 <= i < es.len() ==> !(#[trigger] es[i] is GenerationStats),
    ensures
        stats_count(es) == 0,
    decreases es.len(),
{
    if es.len() > 0 {
        lemma_stats_count_zero(es.drop_last());
    }
}

/// A completed generation reports its statistics exactly once, as its first
/// event, before the end of its reply and (for a final answer) before the end
/// of its turn and of the prompt.
pub proof fn law_one_stats_per_generation(
    tokens_generated: u32,
    prompt_tokens: u32,
    m: MessageView,
    news: Seq<MessageView>,
    final_answer: bool,
)
    ensures
        ({
            let stats = EventView::GenerationStats(tokens_generated, prompt_tokens);
            let es = reply_events(stats, m, news, final_answer);
            &&& stats_count(es) == 1
            &&& es[0] == stats
            &&& forall|i: int| 0 < i < es.len() ==> !(#[trigger] es[i] is GenerationStats)
        }),
{
    let stats = EventView::GenerationStats(tokens_generated, prompt_tokens);
    let es = reply_events(stats, m, news, final_answer);
    lemma_stats_count_zero(es.subrange(1, es.len() as int));
    lemma_stats_count_concat(seq![stats], es.subrange(1, es.len() as int));
    assert(seq![stats] + es.subrange(1, es.len() as int) =~= es);
    assert(stats_count(seq![stats]) == 1) by {
        let one = seq![stats];
        assert(one.drop_last() =~= Seq::<EventView>::empty());
        assert(stats_count(Seq::<EventView>::empty()) == 0);
        assert(one.last() is GenerationStats);
    }
}

/// A turn that fails reports no statistics: a generation that did not
/// complete is not metered.
pub proof fn law_failed_turn_reports_no_stats<T: ChatTemplate>(
    a: AgentView<T>,
    ru: RunView,
    e: ErrorView,
    before: Seq<EventView>,
    a2: AgentView<T>,
    ru2: RunView,
    events: Seq<EventView>,
    step: Step,
)
    requires
        failed(a, ru, e, before, a2, ru2, events, step),
    ensures
        stats_count(events) == stats_count(before),
{
    let tail = seq![EventView::Error(error_text(e)), EventView::AgentEnd(seq![])];
    lemma_stats_count_zero(tail);
    lemma_stats_count_concat(before, tail);
}

/// Settling a tool call reports no statistics.
pub proof fn law_tool_results_report_no_stats<T: ChatTemplate>(
    a: AgentView<T>,
    ru: RunView,
    turn: MessageView,
    res: ToolResultView,
    before: Seq<EventView>,
    a2: AgentView<T>,
    ru2: RunView,
    events: Seq<EventView>,
    step: Step,
)
    requires
        recorded(a, ru, turn, res, before, a2, ru2, events, step),
    ensures
        stats_count(events) == stats_count(before),
{
    let m = a2.messages.last();
    let k = ru.next_call + 1;
    if k < turn.tool_calls.len() {
        let tail = seq![EventView::MessageStart(m), EventView::MessageEnd(m)];
        lemma_stats_count_zero(tail);
        lemma_stats_count_concat(before, tail);
    } else {
        let tail = seq![
            EventView::MessageStart(m),
            EventView::MessageEnd(m),
            EventView::TurnEnd(turn, ru.tool_results.push(res)),
        ];
        lemma_stats_count_zero(tail);
        lemma_stats_count_concat(before, tail);
    }
}

/// Starting a turn reports no statistics, whether its context was prepared
/// or not.
pub proof fn law_turn_start_reports_no_stats<T: ChatTemplate>(
    a: AgentView<T>,
    ru: RunView,
    prepared: Result<PreparedContext, CoreError>,
    a2: AgentView<T>,
    events: Seq<EventView>,
    step: Step,
)
    requires
        turn_prepared(a, ru, prepared, a2, events, step),
    ensures
        stats_count(events) == 0,
{
    match prepared {
        Err(e) => {
            lemma_stats_count_zero(seq![EventView::TurnStart]);
            law_failed_turn_reports_no_stats(a, ru, e@, seq![EventView::TurnStart], a2, ru, events, step);
        },
        Ok(p) => {
            lemma_stats_count_zero(events);
        },
    }
}

/// A prompt whose first turn fails leaves the conversation as it was before
/// the prompt: the user message it added is taken back.
pub proof fn law_failed_first_turn_restores<T: ChatTemplate>(
    a0: AgentView<T>,
    u: MessageView,
    ru: RunView,
    e: ErrorView,
    before: Seq<EventView>,
    a2: AgentView<T>,
    ru2: RunView,
    events: Seq<EventView>,
    step: Step,
)
    requires
        ru.iteration == 0,
        failed(appended(a0, u), ru, e, before, a2, ru2, events, step),
    ensures
        a2.messages == a0.messages,
{
    assert(a0.messages.push(u).drop_last() =~= a0.messages);
}

/// A prompt the backend cannot serve leaves no trace: when the backend is not
/// ready at the first turn, the user message the prompt added is taken back,
/// so the conversation is as it was, and the prompt reports, in order, its
/// start, the user message, the turn, the backend error and an empty end.
pub proof fn law_unready_backend_leaves_no_trace<T: ChatTemplate>(
    a0: AgentView<T>,
    u: MessageView,
    begun: Seq<EventView>,
    a2: AgentView<T>,
    ru2: RunView,
    events: Seq<EventView>,
    step: Step,
)
    requires
        begun == seq![EventView::AgentStart, EventView::MessageStart(u), EventView::MessageEnd(u)],
        failed(
            appended(a0, u),
            started_run(),
            ErrorView::Backend("No model loaded"@),
            seq![EventView::TurnStart],
            a2,
            ru2,
            events,
            step,
        ),
    ensures
        a2.messages == a0.messages,
        begun + events == seq![
            EventView::AgentStart,
            EventView::MessageStart(u),
            EventView::MessageEnd(u),
            EventView::TurnStart,
            EventView::Error("Backend error: No model loaded"@),
            EventView::AgentEnd(seq![]),
        ],
        step is Finished,
{
    reveal_strlit("Backend error: ");
    reveal_strlit("No model loaded");
    reveal_strlit("Backend error: No model loaded");
    assert(a0.messages.push(u).drop_last() =~= a0.messages);
    assert(error_text(ErrorView::Backend("No model loaded"@)) =~= "Backend error: No model loaded"@);
    assert(begun + events =~= seq![
        EventView::AgentStart,
        EventView::MessageStart(u),
        EventView::MessageEnd(u),
        EventView::TurnStart,
        EventView::Error("Backend error: No model loaded"@),
        EventView::AgentEnd(seq![]),
    ]);
}

/// A prompt whose first generation is aborted keeps its user message and an
/// empty assistant reply after it, reports neither an error nor generation
/// stats, and ends with that reply.
pub proof fn law_aborted_generation_keeps_an_empty_reply<T: ChatTemplate>(
    a0: AgentView<T>,
    u: MessageView,
    begun: Seq<EventView>,
    p: PreparedContext,
    a1: AgentView<T>,
    turned: Seq<EventView>,
    step1: Step,
    a3: AgentView<T>,
    ru3: RunView,
    ended: Seq<EventView>,
    step3: Step,
)
    requires
        begun == seq![EventView::AgentStart, EventView::MessageStart(u), EventView::MessageEnd(u)],
        turn_prepared(appended(a0, u), started_run(), Ok(p), a1, turned, step1),
        aborted_reply(a1, started_run(), a3, ru3, ended, step3),
    ensures
        ({
            let m = a3.messages.last();
            let all = begun + turned + ended;
            &&& a3.messages == a0.messages.push(u).push(m)
            &&& m.role == Role::Assistant
            &&& m.content == Seq::<char>::empty()
            &&& forall|i: int| 0 <= i < all.len() ==> !(#[trigger] all[i] is Error) && !(all[i] is GenerationStats)
            &&& all.last() == EventView::AgentEnd(seq![m])
            &&& step3 is Finished
        }),
{
    let m = a3.messages.last();
    let all = begun + turned + ended;
    assert(seq![m] =~= Seq::<MessageView>::empty().push(m));
    assert(all.len() == 8);
    assert(all[7] == ended[2]);
    assert forall|i: int| 0 <= i < all.len() implies !(#[trigger] all[i] is Error) && !(all[i] is GenerationStats) by {
        if i < 3 {
            assert(all[i] == begun[i]);
        } else if i < 5 {
            assert(all[i] == turned[i - 3]);
        } else {
            assert(all[i] == ended[i - 5]);
        }
    }
}

/// The results of the current turn answer its calls one for one and in
/// order, as far as the run has got.
pub open spec fn results_follow_calls(ru: RunView) -> bool {
    match ru.turn {
        Some(m) => {
            &&& ru.next_call <= m.tool_calls.len()
            &&& ru.tool_results.len() == ru.next_call
            &&& forall|i: int|
                0 <= i < ru.tool_results.len() ==> #[trigger] ru.tool_results[i].tool_call_id == m.tool_calls[i].id
        },
        None => true,
    }
}

/// One result per call, in order: settling the pending call of a turn whose
/// results so far answer its calls one for one adds the one result for that
/// call; when it was the last call, the turn ends with exactly one result per
/// call, each answering its call.
pub proof fn law_one_result_per_call<T: ChatTemplate>(
    a: AgentView<T>,
    ru: RunView,
    call: ToolCallView,
    content: Seq<char>,
    is_error: bool,
    before: Seq<EventView>,
    a2: AgentView<T>,
    ru2: RunView,
    events: Seq<EventView>,
    step: Step,
)
    requires
        results_follow_calls(ru),
        pending_call(ru) == Some(call),
        ru.turn->Some_0.tool_calls.len() <= usize::MAX,
        recorded(a, ru, ru.turn->Some_0, result_of(call, content, is_error), before, a2, ru2, events, step),
    ensures
        results_follow_calls(ru2),
        ru2.tool_results == ru.tool_results.push(result_of(call, content, is_error)),
        step is CheckAbort ==> {
            let turn = ru.turn->Some_0;
            &&& ru2.tool_results.len() == turn.tool_calls.len()
            &&& events.last() == EventView::TurnEnd(turn, ru2.tool_results)
        },
{
    let turn = ru.turn->Some_0;
    let res = result_of(call, content, is_error);
    assert forall|i: int| 0 <= i < ru2.tool_results.len() implies #[trigger] ru2.tool_results[i].tool_call_id
        == turn.tool_calls[i].id by {
        if i < ru.tool_results.len() {
            assert(ru2.tool_results[i] == ru.tool_results[i]);
        }
    }
}

/// A turn whose reply makes calls starts with none of them answered.
pub proof fn law_calls_start_unanswered(ru: RunView, m: MessageView)
    requires
        ru.turn == Some(m),
        ru.next_call == 0,
        ru.tool_results == Seq::<ToolResultView>::empty(),
    ensures
        results_follow_calls(ru),
{
}

/// Every registered tool is found by its name, wherever it stands in the
/// list, and a name no tool has is not: so an approved call to any of the
/// registered tools is handed out for execution, and only a call naming none
/// of them is answered as an unknown tool.
pub proof fn law_every_registered_tool_is_found(tools: Seq<ToolSchemaView>, name: Seq<char>)
    ensures
        forall|i: int| 0 <= i < tools.len() ==> registered(tools, #[trigger] tools[i].name),
        (forall|i: int| 0 <= i < tools.len() ==> #[trigger] tools[i].name != name) ==> !registered(tools, name),
{
    assert forall|i: int| 0 <= i < tools.len() implies registered(tools, #[trigger] tools[i].name) by {
        assert(tools[i].name == tools[i].name);
    }
}

/// Transcript lines name their speaker: each line is the speaker's label,
/// `": "` and the message's text, and the labels of user, assistant, tool and
/// system messages are all different (an assistant turn that requested tools
/// is labelled as the assistant's).
pub proof fn law_transcript_names_the_speaker(m: MessageView, r1: Role, r2: Role)
    ensures
        m.role == Role::User ==> transcript_line(m) == "User: "@ + m.content,
        m.role == Role::Assistant || m.role == Role::ToolCall ==> transcript_line(m) == "Assistant: "@ + m.content,
        m.role == Role::ToolResult ==> transcript_line(m) == "Tool: "@ + m.content,
        m.role == Role::System ==> transcript_line(m) == "System: "@ + m.content,
        role_label(r1) == role_label(r2) <==> (r1 == r2 || ((r1 == Role::Assistant || r1 == Role::ToolCall) && (r2
            == Role::Assistant || r2 == Role::ToolCall))),
{
    reveal_strlit("User");
    reveal_strlit("Assistant");
    reveal_strlit("Tool");
    reveal_strlit("System");
    reveal_strlit(": ");
    reveal_strlit("User: ");
    reveal_strlit("Assistant: ");
    reveal_strlit("Tool: ");
    reveal_strlit("System: ");
    assert("User"@ + ": "@ =~= "User: "@);
    assert("Assistant"@ + ": "@ =~= "Assistant: "@);
    assert("Tool"@ + ": "@ =~= "Tool: "@);
    assert("System"@ + ": "@ =~= "System: "@);
    if role_label(r1) == role_label(r2) && r1 != r2 {
        // Labels of different lengths, or differing in their first letter, differ.
        assert(role_label(r1).len() == role_label(r2).len());
        assert(role_label(r1)[0] == role_label(r2)[0]);
    }
}

/// A denied call is never executed: no execution is started or handed out,
/// the refusal is reported, and its reason reaches the conversation as an
/// error result.
pub proof fn law_denied_call_never_runs<T: ChatTemplate>(
    a: AgentView<T>,
    ru: RunView,
    turn: MessageView,
    call: ToolCallView,
    reason: Seq<char>,
    a2: AgentView<T>,
    ru2: RunView,
    events: Seq<EventView>,
    step: Step,
)
    requires
        recorded(
            a,
            ru,
            turn,
            result_of(call, reason, true),
            seq![EventView::ToolDenied(call.id, call.name, reason)],
            a2,
            ru2,
            events,
            step,
        ),
    ensures
        !(step is Execute),
        events[0] == EventView::ToolDenied(call.id, call.name, reason),
        forall|i: int| 0 <= i < events.len() ==> !(#[trigger] events[i] is ToolExecStart),
        a2.messages.last().tool_result == Some(result_of(call, reason, true)),
{
}

proof fn lemma_digit_char(d: nat)
    requires
        d < 10,
    ensures
        crate::text::is_digit(crate::text::digit_char(d)),
        (crate::text::digit_char(d) as u32) - ('0' as u32) == d,
{
}

proof fn lemma_decimal_digits(n: nat)
    ensures
        decimal(n).len() > 0,
        forall|i: int| 0 <= i < decimal(n).len() ==> crate::text::is_digit(#[trigger] decimal(n)[i]),
        crate::text::digits_value(decimal(n)) == n,
    decreases n,
{
    if n < 10 {
        lemma_digit_char(n);
        assert(decimal(n).drop_last() =~= Seq::<char>::empty());
        assert(decimal(n).last() == crate::text::digit_char(n));
        assert(crate::text::digits_value(Seq::<char>::empty()) == 0);
    } else {
        lemma_decimal_digits(n / 10);
        lemma_digit_char(n % 10);
        assert(decimal(n).drop_last() =~= decimal(n / 10));
        assert forall|i: int| 0 <= i < decimal(n).len() implies crate::text::is_digit(#[trigger] decimal(n)[i]) by {
            if i < decimal(n).len() - 1 {
                assert(decimal(n)[i] == decimal(n / 10)[i]);
            }
        }
        assert(decimal(n).last() == crate::text::digit_char(n % 10));
        assert(n / 10 * 10 + n % 10 == n);
    }
}

proof fn lemma_minted_number(k: nat)
    requires
        k <= u64::MAX,
    ensures
        restored_number(msg_id(k)) == Some(k as u64),
{
    reveal_strlit("msg-");
    lemma_decimal_digits(k);
    let id = msg_id(k);
    assert(id.subrange(0, 4) =~= "msg-"@);
    assert(id.subrange(4, id.len() as int) =~= decimal(k));
    assert(crate::text::unsigned_body(decimal(k)) == decimal(k)) by {
        assert(crate::text::is_digit(decimal(k)[0]));
    }
}

proof fn lemma_max_restored_bound(ms: Seq<MessageView>, i: int)
    requires
        0 <= i < ms.len(),
    ensures
        restored_number(ms[i].id) matches Some(x) ==> x <= max_restored(ms),
    decreases ms.len(),
{
    if i < ms.len() - 1 {
        lemma_max_restored_bound(ms.drop_last(), i);
        assert(ms.drop_last()[i] == ms[i]);
    }
}

/// After a conversation is restored, no id the agent goes on to mint can
/// collide with a restored one: every minted number exceeds every restored
/// `msg-N` number.
pub proof fn law_minted_ids_are_new(ms: Seq<MessageView>, counter: u64, k: nat)
    requires
        max_restored(ms) <= counter,
        counter < k <= u64::MAX,
    ensures
        forall|i: int| 0 <= i < ms.len() ==> #[trigger] ms[i].id != msg_id(k),
{
    assert forall|i: int| 0 <= i < ms.len() implies #[trigger] ms[i].id != msg_id(k) by {
        lemma_max_restored_bound(ms, i);
        lemma_minted_number(k);
    }
}


/// Settling a tool call never ends the run: failures and denials become error
/// results the model sees, and the loop goes on to the next call or closes
/// the turn for the next one.
pub proof fn law_tool_outcomes_never_end_the_run<T: ChatTemplate>(
    a: AgentView<T>,
    ru: RunView,
    turn: MessageView,
    res: ToolResultView,
    before: Seq<EventView>,
    a2: AgentView<T>,
    ru2: RunView,
    events: Seq<EventView>,
    step: Step,
)
    requires
        recorded(a, ru, turn, res, before, a2, ru2, events, step),
    ensures
        step is Review || step is CheckAbort,
        forall|i: int| 0 <= i < events.len() ==> !(#[trigger] events[i] is AgentEnd || events[i] is Error) || i
            < before.len(),
{
}

/// How many agent-written summaries the messages hold.
pub open spec fn summary_count(ms: Seq<MessageView>) -> nat
    decreases ms.len(),
{
    if ms.len() == 0 {
        0
    } else {
        summary_count(ms.drop_last()) + if is_summary(ms.last()) {
            1nat
        } else {
            0nat
        }
    }
}

proof fn lemma_summary_count_concat(x: Seq<MessageView>, y: Seq<MessageView>)
    ensures
        summary_count(x + y) == summary_count(x) + summary_count(y),
    decreases y.len(),
{
    if y.len() > 0 {
        assert((x + y).drop_last() =~= x + y.drop_last());
        lemma_summary_count_concat(x, y.drop_last());
    } else {
        assert(x + y =~= x);
    }
}

proof fn lemma_summary_counted(ms: Seq<MessageView>, i: int)
    requires
        0 <= i < ms.len(),
        is_summary(ms[i]),
    ensures
        summary_count(ms) >= 1,
    decreases ms.len(),
{
    if i < ms.len() - 1 {
        assert(ms.drop_last()[i] == ms[i]);
        lemma_summary_counted(ms.drop_last(), i);
    }
}

proof fn lemma_two_summaries(ms: Seq<MessageView>, i: int, j: int)
    requires
        0 <= i < j < ms.len(),
        is_summary(ms[i]),
        is_summary(ms[j]),
    ensures
        summary_count(ms) >= 2,
    decreases ms.len(),
{
    assert(ms.drop_last()[i] == ms[i]);
    if j == ms.len() - 1 {
        lemma_summary_counted(ms.drop_last(), i);
    } else {
        assert(ms.drop_last()[j] == ms[j]);
        lemma_two_summaries(ms.drop_last(), i, j);
    }
}

proof fn lemma_summaries_removed(ms: Seq<MessageView>, remove: Seq<int>)
    requires
        forall|i: int| 0 <= i < ms.len() && is_summary(#[trigger] ms[i]) ==> remove.contains(i),
    ensures
        summary_count(without(ms, remove)) == 0,
    decreases ms.len(),
{
    if ms.len() > 0 {
        assert forall|i: int| 0 <= i < ms.drop_last().len() && is_summary(#[trigger] ms.drop_last()[i]) implies remove.contains(i) by {
            assert(ms.drop_last()[i] == ms[i]);
        }
        lemma_summaries_removed(ms.drop_last(), remove);
        if !remove.contains(ms.len() - 1) {
            assert(!is_summary(ms[ms.len() - 1]));
            assert(without(ms, remove).drop_last() =~= without(ms.drop_last(), remove));
        }
    }
}

proof fn lemma_positions(flags: Seq<bool>)
    ensures
        forall|i: int| #[trigger] positions(flags).contains(i) <==> 0 <= i < flags.len() && flags[i],
        forall|k: int| 0 <= k < positions(flags).len() ==> 0 <= #[trigger] positions(flags)[k] < flags.len(),
    decreases flags.len(),
{
    if flags.len() > 0 {
        let prev = flags.drop_last();
        lemma_positions(prev);
        assert forall|i: int| #[trigger] positions(flags).contains(i) <==> 0 <= i < flags.len() && flags[i] by {
            if 0 <= i < prev.len() {
                assert(prev[i] == flags[i]);
            }
            if positions(flags).contains(i) && !positions(prev).contains(i) {
                let k = choose|k: int| 0 <= k < positions(flags).len() && positions(flags)[k] == i;
            }
            if 0 <= i < prev.len() && flags[i] {
                let k = choose|k: int| 0 <= k < positions(prev).len() && positions(prev)[k] == i;
                assert(positions(flags)[k] == i);
            }
            if i == flags.len() - 1 && flags[i] {
                assert(positions(flags)[positions(flags).len() - 1] == i);
            }
        }
    }
}

proof fn lemma_least(v: Seq<int>, bound: int)
    requires
        v.len() > 0,
        forall|k: int| 0 <= k < v.len() ==> 0 <= #[trigger] v[k] < bound,
    ensures
        0 <= least(v) < bound,
    decreases v.len(),
{
    if v.len() > 1 {
        lemma_least(v.drop_last(), bound);
    }
}

/// Summaries consolidate: when a summary pass folds the conversation and it
/// held at most one earlier summary, it holds exactly one afterwards, the new
/// one.
pub proof fn law_one_summary_accumulates(
    ms: Seq<MessageView>,
    dropped: Seq<(int, int)>,
    m: MessageView,
    id: Seq<char>,
    summary: Seq<char>,
)
    requires
        summary_count(ms) <= 1,
        positions(fold_marks(ms, dropped)).len() > 0,
        is_summary_message(m, id, summary),
    ensures
        summary_count(folded(ms, positions(fold_marks(ms, dropped)), m)) == 1,
{
    let flags = fold_marks(ms, dropped);
    let remove = positions(flags);
    lemma_positions(flags);
    lemma_first_where_bounds(ms, |x: MessageView| is_summary(x));
    assert forall|i: int| 0 <= i < ms.len() && is_summary(#[trigger] ms[i]) implies remove.contains(i) by {
        let k = first_summary(ms);
        if i != k {
            if i < k {
                assert(!is_summary(ms[i]));
            } else {
                lemma_two_summaries(ms, k, i);
            }
        }
        assert(flags[i]);
    }
    lemma_summaries_removed(ms, remove);
    let kept = without(ms, remove);
    lemma_least(remove, flags.len() as int);
    let at = if least(remove) < kept.len() { least(remove) } else { kept.len() as int };
    assert(kept =~= kept.take(at) + kept.skip(at));
    lemma_summary_count_concat(kept.take(at), kept.skip(at));
    assert(kept.insert(at, m) =~= kept.take(at) + seq![m] + kept.skip(at));
    lemma_summary_count_concat(kept.take(at) + seq![m], kept.skip(at));
    lemma_summary_count_concat(kept.take(at), seq![m]);
    reveal_strlit("[Summary of earlier conversation]");
    assert(m.content.subrange(0, summary_marker().len() as int) =~= summary_marker());
    assert(is_summary(m));
    let one = seq![m];
    assert(one.drop_last() =~= Seq::<MessageView>::empty());
    assert(summary_count(Seq::<MessageView>::empty()) == 0);
    assert(one.last() == m);
    assert(summary_count(one) == 1);
}


/// The events close the run: the last is the one `AgentEnd`, and none before
/// it is another.
pub open spec fn closes_run(events: Seq<EventView>) -> bool {
    &&& events.len() > 0
    &&& events.last() is AgentEnd
    &&& forall|i: int| 0 <= i < events.len() - 1 ==> !(#[trigger] events[i] is AgentEnd)
}

/// A failed turn closes the run: its last event is the run's one `AgentEnd`,
/// just after the error, and the loop is finished.
pub proof fn law_failed_turn_closes_the_run<T: ChatTemplate>(
    a: AgentView<T>,
    ru: RunView,
    e: ErrorView,
    before: Seq<EventView>,
    a2: AgentView<T>,
    ru2: RunView,
    events: Seq<EventView>,
    step: Step,
)
    requires
        failed(a, ru, e, before, a2, ru2, events, step),
        forall|i: int| 0 <= i < before.len() ==> !(#[trigger] before[i] is AgentEnd),
    ensures
        closes_run(events),
        events[events.len() - 2] == EventView::Error(error_text(e)),
        step is Finished,
{
    assert forall|i: int| 0 <= i < events.len() - 1 implies !(#[trigger] events[i] is AgentEnd) by {
        if i < before.len() {
            assert(events[i] == before[i]);
        }
    }
}

/// A completed generation closes the run exactly when the reply is a final
/// answer; otherwise the run goes on to the reply's tool calls.
pub proof fn law_final_answer_closes_the_run(
    tokens_generated: u32,
    prompt_tokens: u32,
    m: MessageView,
    news: Seq<MessageView>,
    final_answer: bool,
)
    ensures
        ({
            let es = reply_events(EventView::GenerationStats(tokens_generated, prompt_tokens), m, news, final_answer);
            &&& final_answer ==> closes_run(es) && es.last() == EventView::AgentEnd(news)
            &&& !final_answer ==> forall|i: int| 0 <= i < es.len() ==> !(#[trigger] es[i] is AgentEnd)
        }),
{
}

/// A step's events end the run exactly when the step finishes it: then the
/// last event is the run's one `AgentEnd`; otherwise there is none.
pub open spec fn ends_iff_finished(events: Seq<EventView>, finished: bool) -> bool {
    &&& finished ==> closes_run(events)
    &&& !finished ==> forall|i: int| 0 <= i < events.len() ==> !(#[trigger] events[i] is AgentEnd)
}

/// The events of a run: each step's events, in order.
pub open spec fn run_events(steps: Seq<Seq<EventView>>) -> Seq<EventView>
    decreases steps.len(),
{
    if steps.len() == 0 {
        seq![]
    } else {
        run_events(steps.drop_last()) + steps.last()
    }
}

/// How many of the flags are set.
pub open spec fn count_set(flags: Seq<bool>) -> nat
    decreases flags.len(),
{
    if flags.len() == 0 {
        0
    } else {
        count_set(flags.drop_last()) + if flags.last() {
            1nat
        } else {
            0nat
        }
    }
}

proof fn lemma_run_prefix(steps: Seq<Seq<EventView>>, generated: Seq<bool>, m: int)
    requires
        0 <= m <= steps.len() == generated.len(),
        forall|k: int| 0 <= k < m ==> ends_iff_finished(#[trigger] steps[k], false),
        forall|k: int| 0 <= k < m ==> stats_count(#[trigger] steps[k]) == if generated[k] {
            1nat
        } else {
            0nat
        },
    ensures
        forall|i: int| 0 <= i < run_events(steps.take(m)).len() ==> !(#[trigger] run_events(steps.take(m))[i] is AgentEnd),
        stats_count(run_events(steps.take(m))) == count_set(generated.take(m)),
    decreases m,
{
    if m == 0 {
        assert(steps.take(0) =~= Seq::<Seq<EventView>>::empty());
        assert(generated.take(0) =~= Seq::<bool>::empty());
    } else {
        lemma_run_prefix(steps, generated, m - 1);
        let p = steps.take(m - 1);
        assert(steps.take(m).drop_last() =~= p);
        assert(generated.take(m).drop_last() =~= generated.take(m - 1));
        let last = steps[m - 1];
        assert(ends_iff_finished(last, false));
        lemma_stats_count_concat(run_events(p), last);
        let all = run_events(steps.take(m));
        assert forall|i: int| 0 <= i < all.len() implies !(#[trigger] all[i] is AgentEnd) by {
            if i < run_events(p).len() {
                assert(all[i] == run_events(p)[i]);
            } else {
                assert(all[i] == last[i - run_events(p).len()]);
            }
        }
    }
}

/// Over a whole run, each completed generation reports its statistics once,
/// and the run ends with one `AgentEnd`, its last event: given the run's steps
/// in order, where only the last finishes the run, each step ends the run
/// exactly when it finishes it, and each reports statistics once when it
/// completed a generation and never otherwise.
pub proof fn law_run_reports_stats_per_generation(
    steps: Seq<Seq<EventView>>,
    finished: Seq<bool>,
    generated: Seq<bool>,
)
    requires
        steps.len() == finished.len() == generated.len() > 0,
        forall|k: int| 0 <= k < steps.len() ==> ends_iff_finished(#[trigger] steps[k], finished[k]),
        forall|k: int| 0 <= k < steps.len() ==> stats_count(#[trigger] steps[k]) == if generated[k] {
            1nat
        } else {
            0nat
        },
        finished.last(),
        forall|k: int| 0 <= k < finished.len() - 1 ==> !#[trigger] finished[k],
    ensures
        stats_count(run_events(steps)) == count_set(generated),
        closes_run(run_events(steps)),
{
    let n = steps.len() as int;
    assert forall|k: int| 0 <= k < n - 1 implies ends_iff_finished(#[trigger] steps[k], false) by {
        assert(!finished[k]);
    }
    lemma_run_prefix(steps, generated, n - 1);
    let p = steps.take(n - 1);
    assert(steps.drop_last() =~= p);
    assert(generated.drop_last() =~= generated.take(n - 1));
    let last = steps[n - 1];
    assert(closes_run(last));
    lemma_stats_count_concat(run_events(p), last);
    let all = run_events(steps);
    assert(all == run_events(p) + last);
    assert forall|i: int| 0 <= i < all.len() - 1 implies !(#[trigger] all[i] is AgentEnd) by {
        if i < run_events(p).len() {
            assert(all[i] == run_events(p)[i]);
        } else {
            assert(all[i] == last[i - run_events(p).len()]);
        }
    }
}

/// How many `TurnStart` events there are.
pub open spec fn turn_starts(es: Seq<EventView>) -> nat
    decreases es.len(),
{
    if es.len() == 0 {
        0
    } else {
        turn_starts(es.drop_last()) + if es.last() is TurnStart {
            1nat
        } else {
            0nat
        }
    }
}

proof fn lemma_turn_starts_concat(x: Seq<EventView>, y: Seq<EventView>)
    ensures
        turn_starts(x + y) == turn_starts(x) + turn_starts(y),
    decreases y.len(),
{
    if y.len() > 0 {
        assert((x + y).drop_last() =~= x + y.drop_last());
        lemma_turn_starts_concat(x, y.drop_last());
    } else {
        assert(x + y =~= x);
    }
}

proof fn lemma_turn_starts_prefix(steps: Seq<Seq<EventView>>, opened: Seq<bool>, m: int)
    requires
        0 <= m <= steps.len() == opened.len(),
        forall|k: int| 0 <= k < steps.len() ==> turn_starts(#[trigger] steps[k]) == if opened[k] {
            1nat
        } else {
            0nat
        },
    ensures
        turn_starts(run_events(steps.take(m))) == count_set(opened.take(m)),
    decreases m,
{
    if m == 0 {
        assert(steps.take(0) =~= Seq::<Seq<EventView>>::empty());
        assert(opened.take(0) =~= Seq::<bool>::empty());
    } else {
        lemma_turn_starts_prefix(steps, opened, m - 1);
        assert(steps.take(m).drop_last() =~= steps.take(m - 1));
        assert(opened.take(m).drop_last() =~= opened.take(m - 1));
        lemma_turn_starts_concat(run_events(steps.take(m - 1)), steps[m - 1]);
    }
}

/// Flags that follow others one step later count the same.
proof fn lemma_count_shifted(opened: Seq<bool>, generated: Seq<bool>, m: int)
    requires
        opened.len() == generated.len() > 0,
        0 <= m < opened.len(),
        !generated[0],
        forall|k: int| 0 <= k < opened.len() - 1 ==> #[trigger] opened[k] == generated[k + 1],
    ensures
        count_set(generated.take(m + 1)) == count_set(opened.take(m)),
    decreases m,
{
    if m == 0 {
        assert(generated.take(1).drop_last() =~= Seq::<bool>::empty());
        assert(opened.take(0) =~= Seq::<bool>::empty());
    } else {
        lemma_count_shifted(opened, generated, m - 1);
        assert(generated.take(m + 1).drop_last() =~= generated.take(m));
        assert(opened.take(m).drop_last() =~= opened.take(m - 1));
        assert(opened[m - 1] == generated[m]);
    }
}

/// Over a whole run whose every turn gets its context and whose every
/// generation completes, there is one statistics report per started turn:
/// given the run's steps in order, where each turn that starts (with one
/// `TurnStart`) is followed by the step that completes its generation (with
/// one statistics report), and no other step starts a turn or reports
/// statistics, the run reports as many statistics as it starts turns.
pub proof fn law_run_stats_match_turn_starts(
    steps: Seq<Seq<EventView>>,
    opened: Seq<bool>,
    generated: Seq<bool>,
)
    requires
        steps.len() == opened.len() == generated.len() > 0,
        forall|k: int| 0 <= k < steps.len() ==> turn_starts(#[trigger] steps[k]) == if opened[k] {
            1nat
        } else {
            0nat
        },
        forall|k: int| 0 <= k < steps.len() ==> stats_count(#[trigger] steps[k]) == if generated[k] {
            1nat
        } else {
            0nat
        },
        !generated[0],
        !opened[opened.len() - 1],
        forall|k: int| 0 <= k < opened.len() - 1 ==> #[trigger] opened[k] == generated[k + 1],
    ensures
        stats_count(run_events(steps)) == turn_starts(run_events(steps)),
{
    let n = steps.len() as int;
    lemma_run_prefix_stats(steps, generated, n);
    lemma_turn_starts_prefix(steps, opened, n);
    lemma_count_shifted(opened, generated, n - 1);
    assert(steps.take(n) =~= steps);
    assert(generated.take(n) =~= generated);
    assert(opened.take(n) =~= opened);
    assert(opened.take(n).drop_last() =~= opened.take(n - 1));
}

proof fn lemma_run_prefix_stats(steps: Seq<Seq<EventView>>, generated: Seq<bool>, m: int)
    requires
        0 <= m <= steps.len() == generated.len(),
        forall|k: int| 0 <= k < steps.len() ==> stats_count(#[trigger] steps[k]) == if generated[k] {
            1nat
        } else {
            0nat
        },
    ensures
        stats_count(run_events(steps.take(m))) == count_set(generated.take(m)),
    decreases m,
{
    if m == 0 {
        assert(steps.take(0) =~= Seq::<Seq<EventView>>::empty());
        assert(generated.take(0) =~= Seq::<bool>::empty());
    } else {
        lemma_run_prefix_stats(steps, generated, m - 1);
        assert(steps.take(m).drop_last() =~= steps.take(m - 1));
        assert(generated.take(m).drop_last() =~= generated.take(m - 1));
        lemma_stats_count_concat(run_events(steps.take(m - 1)), steps[m - 1]);
    }
}

/// The turn starts of each step: a prompt's beginning starts none; a turn
/// whose context was prepared starts one; a completed generation, an aborted
/// one and a settled call start none.
pub proof fn law_turn_starts_per_step<T: ChatTemplate>(
    u: MessageView,
    a: AgentView<T>,
    ru: RunView,
    p: PreparedContext,
    a2: AgentView<T>,
    turned: Seq<EventView>,
    step: Step,
    stats: EventView,
    m: MessageView,
    news: Seq<MessageView>,
    final_answer: bool,
)
    requires
        turn_prepared(a, ru, Ok(p), a2, turned, step),
    ensures
        turn_starts(seq![EventView::AgentStart, EventView::MessageStart(u), EventView::MessageEnd(u)]) == 0,
        turn_starts(turned) == 1,
        stats is GenerationStats ==> turn_starts(reply_events(stats, m, news, final_answer)) == 0,
{
    let es = reply_events(stats, m, news, final_answer);
    let d = turned.drop_last();
    assert(d =~= seq![EventView::TurnStart]);
    assert(d.drop_last() =~= Seq::<EventView>::empty());
    assert(turn_starts(d.drop_last()) == 0);
    assert(turn_starts(d) == 1);
    if stats is GenerationStats {
        lemma_turn_starts_zero(es);
    }
    lemma_turn_starts_zero(seq![EventView::AgentStart, EventView::MessageStart(u), EventView::MessageEnd(u)]);
}

proof fn lemma_turn_starts_zero(es: Seq<EventView>)
    requires
        forall|i: int| 0 <= i < es.len() ==> !(#[trigger] es[i] is TurnStart),
    ensures
        turn_starts(es) == 0,
    decreases es.len(),
{
    if es.len() > 0 {
        lemma_turn_starts_zero(es.drop_last());
    }
}

/// Beginning a prompt ends nothing and reports no statistics.
pub proof fn law_begin_ends_nothing(u: MessageView)
    ensures
        ends_iff_finished(seq![EventView::AgentStart, EventView::MessageStart(u), EventView::MessageEnd(u)], false),
        stats_count(seq![EventView::AgentStart, EventView::MessageStart(u), EventView::MessageEnd(u)]) == 0,
{
    lemma_stats_count_zero(seq![EventView::AgentStart, EventView::MessageStart(u), EventView::MessageEnd(u)]);
}

/// Starting a turn whose context was prepared ends nothing and reports no
/// statistics.
pub proof fn law_prepared_turn_ends_nothing<T: ChatTemplate>(
    a: AgentView<T>,
    ru: RunView,
    p: PreparedContext,
    a2: AgentView<T>,
    events: Seq<EventView>,
    step: Step,
)
    requires
        turn_prepared(a, ru, Ok(p), a2, events, step),
    ensures
        ends_iff_finished(events, false),
        stats_count(events) == 0,
{
    law_turn_start_reports_no_stats(a, ru, Ok(p), a2, events, step);
}

/// Settling a tool call adds no `AgentEnd` and no statistics to what came
/// before it.
pub proof fn law_settled_call_ends_nothing<T: ChatTemplate>(
    a: AgentView<T>,
    ru: RunView,
    turn: MessageView,
    res: ToolResultView,
    before: Seq<EventView>,
    a2: AgentView<T>,
    ru2: RunView,
    events: Seq<EventView>,
    step: Step,
)
    requires
        recorded(a, ru, turn, res, before, a2, ru2, events, step),
        ends_iff_finished(before, false),
        stats_count(before) == 0,
        forall|i: int| 0 <= i < before.len() ==> !(#[trigger] before[i] is TurnStart),
    ensures
        ends_iff_finished(events, false),
        stats_count(events) == 0,
        turn_starts(events) == 0,
{
    law_tool_results_report_no_stats(a, ru, turn, res, before, a2, ru2, events, step);
    assert forall|i: int| 0 <= i < events.len() implies !(#[trigger] events[i] is AgentEnd) && !(events[i] is TurnStart) by {
        if i < before.len() {
            assert(events[i] == before[i]);
        }
    }
    lemma_turn_starts_zero(events);
}

/// An aborted generation ends the run and reports no statistics.
pub proof fn law_aborted_generation_ends_the_run<T: ChatTemplate>(
    a: AgentView<T>,
    ru: RunView,
    a2: AgentView<T>,
    ru2: RunView,
    events: Seq<EventView>,
    step: Step,
)
    requires
        aborted_reply(a, ru, a2, ru2, events, step),
    ensures
        ends_iff_finished(events, true),
        stats_count(events) == 0,
        turn_starts(events) == 0,
        step is Finished,
{
    lemma_stats_count_zero(events);
    lemma_turn_starts_zero(events);
}


// --- The answer of a run ----------------------------------------------------------

/// The text of the first error a run reported, if any.
pub open spec fn first_error(es: Seq<EventView>) -> Option<Seq<char>>
    decreases es.len(),
{
    if es.len() == 0 {
        None
    } else {
        match first_error(es.drop_last()) {
            Some(t) => Some(t),
            None => match es.last() {
                EventView::Error(t) => Some(t),
                _ => None,
            },
        }
    }
}

/// The messages of the last `AgentEnd`, if any.
pub open spec fn last_end(es: Seq<EventView>) -> Option<Seq<MessageView>>
    decreases es.len(),
{
    if es.len() == 0 {
        None
    } else {
        match es.last() {
            EventView::AgentEnd(ms) => Some(ms),
            _ => last_end(es.drop_last()),
        }
    }
}

/// The last assistant message among the messages, if any.
pub open spec fn last_assistant(ms: Seq<MessageView>) -> Option<MessageView>
    decreases ms.len(),
{
    if ms.len() == 0 {
        None
    } else if ms.last().role == Role::Assistant {
        Some(ms.last())
    } else {
        last_assistant(ms.drop_last())
    }
}

/// The answer a run gives a caller that is not streaming: its error, when it
/// reported one; else the last assistant message the run produced; else the
/// error `no reply`.
pub open spec fn run_answer(es: Seq<EventView>) -> Result<MessageView, ErrorView> {
    match first_error(es) {
        Some(t) => Err(ErrorView::Agent(t)),
        None => match last_end(es) {
            Some(ms) => match last_assistant(ms) {
                Some(m) => Ok(m),
                None => Err(ErrorView::Agent("no reply"@)),
            },
            None => Err(ErrorView::Agent("no reply"@)),
        },
    }
}

/// The last assistant message among `ms`.
fn last_assistant_of(ms: &Vec<Message>) -> (r: Option<Message>)
    ensures
        match last_assistant(view_messages(ms@)) {
            Some(m) => r matches Some(x) && x@ == m,
            None => r is None,
        },
{
    let ghost mv = view_messages(ms@);
    let mut i = ms.len();
    proof {
        assert(mv.take(ms@.len() as int) =~= mv);
    }
    while i > 0
        invariant
            i <= ms@.len(),
            mv == view_messages(ms@),
            last_assistant(mv) == last_assistant(mv.take(i as int)),
        decreases i,
    {
        proof {
            assert(mv.take(i as int).drop_last() =~= mv.take(i - 1));
            assert(mv.take(i as int).last() == ms@[i - 1]@);
        }
        if ms[i - 1].role == Role::Assistant {
            return Some(ms[i - 1].clone());
        }
        i -= 1;
    }
    proof {
        assert(mv.take(0) =~= Seq::<MessageView>::empty());
        assert(mv.take(ms@.len() as int) =~= mv);
    }
    None
}

/// The answer a run gives a caller that is not streaming, from the events it
/// published: its error as an `Agent` error, else its last assistant message.
pub fn run_reply(events: &[AgentEvent]) -> (r: Result<Message, CoreError>)
    ensures
        match run_answer(view_events(events@)) {
            Ok(m) => r matches Ok(x) && x@ == m,
            Err(e) => r matches Err(x) && x@ == e,
        },
{
    let ghost ev = view_events(events@);
    // The first error, scanning forward.
    let mut i: usize = 0;
    while i < events.len()
        invariant
            i <= events@.len(),
            ev == view_events(events@),
            first_error(ev.take(i as int)) is None,
        decreases events@.len() - i,
    {
        proof {
            assert(ev.take(i + 1).drop_last() =~= ev.take(i as int));
            assert(ev.take(i + 1).last() == events@[i as int]@);
        }
        if let AgentEvent::Error { message } = &events[i] {
            proof {
                lemma_first_error_prefix(ev, i + 1);
            }
            return Err(CoreError::Agent(message.clone()));
        }
        i += 1;
    }
    proof {
        assert(ev.take(i as int) =~= ev);
    }
    // The last AgentEnd, scanning backward.
    let mut j = events.len();
    proof {
        assert(ev.take(events@.len() as int) =~= ev);
    }
    while j > 0
        invariant
            j <= events@.len(),
            ev == view_events(events@),
            first_error(ev) is None,
            last_end(ev) == last_end(ev.take(j as int)),
        decreases j,
    {
        proof {
            assert(ev.take(j as int).drop_last() =~= ev.take(j - 1));
            assert(ev.take(j as int).last() == events@[j - 1]@);
        }
        if let AgentEvent::AgentEnd { messages } = &events[j - 1] {
            return match last_assistant_of(messages) {
                Some(m) => Ok(m),
                None => Err(CoreError::Agent(String::from_str("no reply"))),
            };
        }
        j -= 1;
    }
    proof {
        assert(ev.take(j as int) =~= Seq::<EventView>::empty());
        assert(ev.take(events@.len() as int) =~= ev);
    }
    Err(CoreError::Agent(String::from_str("no reply")))
}

proof fn lemma_first_error_prefix(es: Seq<EventView>, k: int)
    requires
        0 <= k <= es.len(),
        first_error(es.take(k)) is Some,
    ensures
        first_error(es) == first_error(es.take(k)),
    decreases es.len() - k,
{
    if k < es.len() {
        assert(es.drop_last().take(k) =~= es.take(k));
        lemma_first_error_prefix(es.drop_last(), k);
    } else {
        assert(es.take(k) =~= es);
    }
}

} // verus!
