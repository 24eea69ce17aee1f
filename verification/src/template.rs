//! Chat prompt templates for the supported model families.
use vstd::prelude::*;
use crate::json::{json_pretty, json_pretty_of};
use crate::messages::{Message, MessageView, Role, view_messages};
use crate::text::{contains, contains_str, is_ws, lemma_normalize_twice, lemma_trim_fixed, lower, lower_str, trim, trim_str};
use crate::tools::{ToolSchema, ToolSchemaView, same_text, view_schemas};

verus! {

broadcast use vstd::string::group_string_axioms;

/// Chat prompt template for formatting conversations.
///
/// Implementations convert system prompts, messages, and tool schemas into the
/// prompt format expected by a model family. The per-message and per-system
/// hooks are also what the context pipeline counts for its token budget.
pub trait ChatTemplate {
    /// The template's identifier.
    spec fn spec_name(&self) -> Seq<char>;

    /// The complete prompt for a system prompt, messages and tools.
    spec fn spec_format(
        &self,
        system_prompt: Seq<char>,
        messages: Seq<MessageView>,
        tools: Seq<ToolSchemaView>,
    ) -> Seq<char>;

    /// The system block (system prompt plus tool definitions).
    spec fn spec_format_system(&self, system_prompt: Seq<char>, tools: Seq<ToolSchemaView>) -> Seq<
        char,
    >;

    /// One conversation message wrapped in the template's markers.
    spec fn spec_format_message(&self, message: MessageView) -> Seq<char>;

    /// The text appended after all messages to open the assistant's turn.
    spec fn spec_assistant_prefix(&self) -> Seq<char>;

    /// Template identifier (e.g. "chatml", "llama3", "mistral").
    fn name(&self) -> (r: &str)
        ensures
            r@ == self.spec_name(),
    ;

    /// Format a complete prompt from system prompt, messages, and tools.
    fn format(&self, system_prompt: &str, messages: &[Message], tools: &[ToolSchema]) -> (r:
        String)
        ensures
            r@ == self.spec_format(system_prompt@, view_messages(messages@), view_schemas(tools@)),
    ;

    /// Format the system block (system prompt + tool definitions).
    fn format_system(&self, system_prompt: &str, tools: &[ToolSchema]) -> (r: String)
        ensures
            r@ == self.spec_format_system(system_prompt@, view_schemas(tools@)),
    ;

    /// Wrap a single conversation message in template markers (empty for
    /// system messages, which `format_system` handles).
    fn format_message(&self, message: &Message) -> (r: String)
        ensures
            r@ == self.spec_format_message(message@),
    ;

    /// The string appended after all messages to open the assistant's turn.
    fn assistant_prefix(&self) -> (r: &str)
        ensures
            r@ == self.spec_assistant_prefix(),
    ;
}

// --- Shared pieces ----------------------------------------------------------

/// The opening of the tool-instruction block.
pub open spec fn tools_header() -> Seq<char> {
    "\n\nYou have access to the following tools:\n\n"@
}

/// The closing of the tool-instruction block: the `tool_call` convention.
pub open spec fn tools_footer() -> Seq<char> {
    "To use a tool, respond with a JSON block:\n```tool_call\n{\"name\": \"tool_name\", \"arguments\": {...}}\n```\n"@
}

/// One tool's entry in the tool-instruction block.
pub open spec fn tool_entry(t: ToolSchemaView) -> Seq<char> {
    "### "@ + t.name + "\n"@ + t.description + "\nParameters: "@ + pretty_parameters(t.parameters)
        + "\n\n"@
}

/// A tool's parameters as the block shows them: pretty-printed, or as given
/// when they are not JSON.
pub open spec fn pretty_parameters(parameters: Seq<char>) -> Seq<char> {
    match json_pretty_of(parameters) {
        Some(p) => p,
        None => parameters,
    }
}

/// The entries of every tool, in order.
pub open spec fn tool_entries(tools: Seq<ToolSchemaView>) -> Seq<char>
    decreases tools.len(),
{
    if tools.len() == 0 {
        seq![]
    } else {
        tool_entries(tools.drop_last()) + tool_entry(tools.last())
    }
}

/// The shared tool-instruction block; empty when there are no tools.
pub open spec fn spec_render_tools(tools: Seq<ToolSchemaView>) -> Seq<char> {
    if tools.len() == 0 {
        seq![]
    } else {
        tools_header() + tool_entries(tools) + tools_footer()
    }
}

/// A tool result as plain text, for templates without a tool role.
pub open spec fn spec_tool_result_text(content: Seq<char>) -> Seq<char> {
    "[Tool result]\n"@ + content
}

/// `a` followed by `b`.
fn cat2(a: &str, b: &str) -> (r: String)
    ensures
        r@ == a@ + b@,
{
    let mut s = String::from_str(a);
    s.append(b);
    s
}

/// `a`, `b` and `c` in sequence.
fn cat3(a: &str, b: &str, c: &str) -> (r: String)
    ensures
        r@ == a@ + b@ + c@,
{
    let mut s = String::from_str(a);
    s.append(b);
    s.append(c);
    s
}

/// Render the shared tool-instruction block: a description list plus the
/// `tool_call` JSON convention. Empty when there are no tools.
pub fn render_tools(tools: &[ToolSchema]) -> (r: String)
    ensures
        r@ == spec_render_tools(view_schemas(tools@)),
{
    if tools.len() == 0 {
        return String::new();
    }
    let ghost tv = view_schemas(tools@);
    let mut s = String::from_str("\n\nYou have access to the following tools:\n\n");
    let mut i: usize = 0;
    while i < tools.len()
        invariant
            i <= tools@.len(),
            tv == view_schemas(tools@),
            s@ == tools_header() + tool_entries(tv.take(i as int)),
        decreases tools@.len() - i,
    {
        let t = &tools[i];
        s.append("### ");
        s.append(t.name.as_str());
        s.append("\n");
        s.append(t.description.as_str());
        s.append("\nParameters: ");
        match json_pretty(t.parameters.as_str()) {
            Some(pretty) => s.append(pretty.as_str()),
            None => s.append(t.parameters.as_str()),
        }
        s.append("\n\n");
        proof {
            assert(tv.take(i + 1).drop_last() =~= tv.take(i as int));
            assert(tv.take(i + 1).last() == t@);
            assert(s@ =~= tools_header() + tool_entries(tv.take(i + 1)));
        }
        i += 1;
    }
    proof {
        assert(tv.take(i as int) =~= tv);
    }
    s.append(
        "To use a tool, respond with a JSON block:\n```tool_call\n{\"name\": \"tool_name\", \"arguments\": {...}}\n```\n",
    );
    s
}

/// Render a tool result as plain text for templates that lack a dedicated
/// tool role.
pub fn tool_result_text(message: &Message) -> (r: String)
    ensures
        r@ == spec_tool_result_text(message@.content),
{
    cat2("[Tool result]\n", message.content.as_str())
}

/// The fragments of a template whose prompt is its system block, each
/// message in turn, and the assistant prefix.
pub trait TemplateFragments {
    /// The system block.
    spec fn frag_system(&self, system_prompt: Seq<char>, tools: Seq<ToolSchemaView>) -> Seq<char>;

    /// One message in the template's markers.
    spec fn frag_message(&self, message: MessageView) -> Seq<char>;

    /// The assistant prefix.
    spec fn frag_prefix(&self) -> Seq<char>;

    /// Build the system block.
    fn system_block(&self, system_prompt: &str, tools: &[ToolSchema]) -> (r: String)
        ensures
            r@ == self.frag_system(system_prompt@, view_schemas(tools@)),
    ;

    /// Build one message's text.
    fn message_block(&self, message: &Message) -> (r: String)
        ensures
            r@ == self.frag_message(message@),
    ;

    /// The assistant prefix.
    fn prefix(&self) -> (r: &str)
        ensures
            r@ == self.frag_prefix(),
    ;
}

/// Every message formatted by `t` in turn, concatenated.
pub open spec fn joined_messages<T: TemplateFragments>(t: T, msgs: Seq<MessageView>) -> Seq<char>
    decreases msgs.len(),
{
    if msgs.len() == 0 {
        seq![]
    } else {
        joined_messages(t, msgs.drop_last()) + t.frag_message(msgs.last())
    }
}

/// The prompt of a template that has a system block of its own: the system
/// block, each message in turn, then the assistant prefix.
pub open spec fn concat_format<T: TemplateFragments>(
    t: T,
    system_prompt: Seq<char>,
    msgs: Seq<MessageView>,
    tools: Seq<ToolSchemaView>,
) -> Seq<char> {
    t.frag_system(system_prompt, tools) + joined_messages(t, msgs) + t.frag_prefix()
}

/// Format the prompt of a template with a system block of its own.
pub fn format_concat<T: TemplateFragments>(
    t: &T,
    system_prompt: &str,
    messages: &[Message],
    tools: &[ToolSchema],
) -> (r: String)
    ensures
        r@ == concat_format(*t, system_prompt@, view_messages(messages@), view_schemas(tools@)),
{
    let ghost mv = view_messages(messages@);
    let mut prompt = t.system_block(system_prompt, tools);
    let ghost sys = prompt@;
    let mut i: usize = 0;
    while i < messages.len()
        invariant
            i <= messages@.len(),
            mv == view_messages(messages@),
            prompt@ == sys + joined_messages(*t, mv.take(i as int)),
        decreases messages@.len() - i,
    {
        let piece = t.message_block(&messages[i]);
        prompt.append(piece.as_str());
        proof {
            assert(mv.take(i + 1).drop_last() =~= mv.take(i as int));
            assert(mv.take(i + 1).last() == messages@[i as int]@);
            assert(prompt@ =~= sys + joined_messages(*t, mv.take(i + 1)));
        }
        i += 1;
    }
    proof {
        assert(mv.take(i as int) =~= mv);
    }
    prompt.append(t.prefix());
    prompt
}

// --- ChatML ----------------------------------------------------------------

/// ChatML template format (default).
///
/// ```text
/// <|im_start|>system
/// {system_prompt}<|im_end|>
/// <|im_start|>user
/// {message}<|im_end|>
/// <|im_start|>assistant
/// ```
pub struct ChatMLTemplate;

impl TemplateFragments for ChatMLTemplate {
    open spec fn frag_system(&self, system_prompt: Seq<char>, tools: Seq<ToolSchemaView>) -> Seq<char> {
        "<|im_start|>system\n"@ + system_prompt + spec_render_tools(tools) + "<|im_end|>\n"@
    }

    open spec fn frag_message(&self, message: MessageView) -> Seq<char> {
        let c = message.content;
        match message.role {
            Role::User => "<|im_start|>user\n"@ + c + "<|im_end|>\n"@,
            Role::Assistant => "<|im_start|>assistant\n"@ + c + "<|im_end|>\n"@,
            Role::ToolResult => "<|im_start|>tool\n"@ + c + "<|im_end|>\n"@,
            Role::ToolCall => "<|im_start|>assistant\n"@ + c + "<|im_end|>\n"@,
            Role::System => seq![],
        }
    }

    open spec fn frag_prefix(&self) -> Seq<char> {
        "<|im_start|>assistant\n"@
    }

    fn system_block(&self, system_prompt: &str, tools: &[ToolSchema]) -> (r: String) {
        let mut s = String::from_str("<|im_start|>system\n");
        s.append(system_prompt);
        let t = render_tools(tools);
        s.append(t.as_str());
        s.append("<|im_end|>\n");
        s
    }

    fn message_block(&self, message: &Message) -> (r: String) {
        let c = message.content.as_str();
        match message.role {
            Role::User => cat3("<|im_start|>user\n", c, "<|im_end|>\n"),
            Role::Assistant => cat3("<|im_start|>assistant\n", c, "<|im_end|>\n"),
            Role::ToolResult => cat3("<|im_start|>tool\n", c, "<|im_end|>\n"),
            Role::ToolCall => cat3("<|im_start|>assistant\n", c, "<|im_end|>\n"),
            Role::System => String::new(),
        }
    }

    fn prefix(&self) -> (r: &str) {
        "<|im_start|>assistant\n"
    }
}

impl ChatTemplate for ChatMLTemplate {
    open spec fn spec_name(&self) -> Seq<char> {
        "chatml"@
    }

    open spec fn spec_format(
        &self,
        system_prompt: Seq<char>,
        messages: Seq<MessageView>,
        tools: Seq<ToolSchemaView>,
    ) -> Seq<char> {
        concat_format(*self, system_prompt, messages, tools)
    }

    open spec fn spec_format_system(&self, system_prompt: Seq<char>, tools: Seq<ToolSchemaView>) -> Seq<char> {
        self.frag_system(system_prompt, tools)
    }

    open spec fn spec_format_message(&self, message: MessageView) -> Seq<char> {
        self.frag_message(message)
    }

    open spec fn spec_assistant_prefix(&self) -> Seq<char> {
        self.frag_prefix()
    }

    fn name(&self) -> (r: &str) {
        "chatml"
    }

    fn format(&self, system_prompt: &str, messages: &[Message], tools: &[ToolSchema]) -> (r: String) {
        format_concat(self, system_prompt, messages, tools)
    }

    fn format_system(&self, system_prompt: &str, tools: &[ToolSchema]) -> (r: String) {
        self.system_block(system_prompt, tools)
    }

    fn format_message(&self, message: &Message) -> (r: String) {
        self.message_block(message)
    }

    fn assistant_prefix(&self) -> (r: &str) {
        self.prefix()
    }
}

// --- Llama 3 ---------------------------------------------------------------

/// Llama 3 / 3.1 template format.
///
/// ```text
/// <|begin_of_text|><|start_header_id|>system<|end_header_id|>
///
/// {system_prompt}<|eot_id|><|start_header_id|>user<|end_header_id|>
///
/// {message}<|eot_id|><|start_header_id|>assistant<|end_header_id|>
///
/// ```
pub struct Llama3Template;

/// A Llama 3 header block for `role`.
pub open spec fn llama3_header(role: Seq<char>, content: Seq<char>) -> Seq<char> {
    "<|start_header_id|>"@ + role + "<|end_header_id|>\n\n"@ + content + "<|eot_id|>"@
}

impl Llama3Template {
    /// A header block for `role` around `content`.
    pub fn header(&self, role: &str, content: &str) -> (r: String)
        ensures
            r@ == llama3_header(role@, content@),
    {
        let mut s = String::from_str("<|start_header_id|>");
        s.append(role);
        s.append("<|end_header_id|>\n\n");
        s.append(content);
        s.append("<|eot_id|>");
        s
    }
}

impl TemplateFragments for Llama3Template {
    open spec fn frag_system(&self, system_prompt: Seq<char>, tools: Seq<ToolSchemaView>) -> Seq<char> {
        "<|begin_of_text|>"@ + llama3_header("system"@, system_prompt + spec_render_tools(tools))
    }

    open spec fn frag_message(&self, message: MessageView) -> Seq<char> {
        match message.role {
            Role::User => llama3_header("user"@, message.content),
            Role::Assistant => llama3_header("assistant"@, message.content),
            Role::ToolCall => llama3_header("assistant"@, message.content),
            Role::ToolResult => llama3_header("ipython"@, message.content),
            Role::System => seq![],
        }
    }

    open spec fn frag_prefix(&self) -> Seq<char> {
        "<|start_header_id|>assistant<|end_header_id|>\n\n"@
    }

    fn system_block(&self, system_prompt: &str, tools: &[ToolSchema]) -> (r: String) {
        let mut content = String::from_str(system_prompt);
        let t = render_tools(tools);
        content.append(t.as_str());
        let h = self.header("system", content.as_str());
        cat2("<|begin_of_text|>", h.as_str())
    }

    fn message_block(&self, message: &Message) -> (r: String) {
        let c = message.content.as_str();
        match message.role {
            Role::User => self.header("user", c),
            Role::Assistant => self.header("assistant", c),
            Role::ToolCall => self.header("assistant", c),
            Role::ToolResult => self.header("ipython", c),
            Role::System => String::new(),
        }
    }

    fn prefix(&self) -> (r: &str) {
        "<|start_header_id|>assistant<|end_header_id|>\n\n"
    }
}

impl ChatTemplate for Llama3Template {
    open spec fn spec_name(&self) -> Seq<char> {
        "llama3"@
    }

    open spec fn spec_format(
        &self,
        system_prompt: Seq<char>,
        messages: Seq<MessageView>,
        tools: Seq<ToolSchemaView>,
    ) -> Seq<char> {
        concat_format(*self, system_prompt, messages, tools)
    }

    open spec fn spec_format_system(&self, system_prompt: Seq<char>, tools: Seq<ToolSchemaView>) -> Seq<char> {
        self.frag_system(system_prompt, tools)
    }

    open spec fn spec_format_message(&self, message: MessageView) -> Seq<char> {
        self.frag_message(message)
    }

    open spec fn spec_assistant_prefix(&self) -> Seq<char> {
        self.frag_prefix()
    }

    fn name(&self) -> (r: &str) {
        "llama3"
    }

    fn format(&self, system_prompt: &str, messages: &[Message], tools: &[ToolSchema]) -> (r: String) {
        format_concat(self, system_prompt, messages, tools)
    }

    fn format_system(&self, system_prompt: &str, tools: &[ToolSchema]) -> (r: String) {
        self.system_block(system_prompt, tools)
    }

    fn format_message(&self, message: &Message) -> (r: String) {
        self.message_block(message)
    }

    fn assistant_prefix(&self) -> (r: &str) {
        self.prefix()
    }
}

// --- Alpaca ----------------------------------------------------------------

/// Alpaca instruction template.
///
/// ```text
/// {system}
///
/// ### Instruction:
/// {user}
///
/// ### Response:
/// {assistant}
/// ```
pub struct AlpacaTemplate;

/// The preamble Alpaca uses when there is no system prompt.
pub open spec fn alpaca_preamble() -> Seq<char> {
    "Below is an instruction that describes a task. Write a response that appropriately completes the request."@
}

impl TemplateFragments for AlpacaTemplate {
    open spec fn frag_system(&self, system_prompt: Seq<char>, tools: Seq<ToolSchemaView>) -> Seq<char> {
        let preamble = if system_prompt.len() == 0 { alpaca_preamble() } else { system_prompt };
        preamble + spec_render_tools(tools) + "\n\n"@
    }

    open spec fn frag_message(&self, message: MessageView) -> Seq<char> {
        let c = message.content;
        match message.role {
            Role::User => "### Instruction:\n"@ + c + "\n\n"@,
            Role::Assistant => "### Response:\n"@ + c + "\n\n"@,
            Role::ToolCall => "### Response:\n"@ + c + "\n\n"@,
            Role::ToolResult => "### Instruction:\n"@ + spec_tool_result_text(c) + "\n\n"@,
            Role::System => seq![],
        }
    }

    open spec fn frag_prefix(&self) -> Seq<char> {
        "### Response:\n"@
    }

    fn system_block(&self, system_prompt: &str, tools: &[ToolSchema]) -> (r: String) {
        let mut s = if system_prompt.is_empty() {
            String::from_str(
                "Below is an instruction that describes a task. Write a response that appropriately completes the request.",
            )
        } else {
            String::from_str(system_prompt)
        };
        let t = render_tools(tools);
        s.append(t.as_str());
        s.append("\n\n");
        s
    }

    fn message_block(&self, message: &Message) -> (r: String) {
        let c = message.content.as_str();
        match message.role {
            Role::User => cat3("### Instruction:\n", c, "\n\n"),
            Role::Assistant => cat3("### Response:\n", c, "\n\n"),
            Role::ToolCall => cat3("### Response:\n", c, "\n\n"),
            Role::ToolResult => {
                let tr = tool_result_text(message);
                cat3("### Instruction:\n", tr.as_str(), "\n\n")
            },
            Role::System => String::new(),
        }
    }

    fn prefix(&self) -> (r: &str) {
        "### Response:\n"
    }
}

impl ChatTemplate for AlpacaTemplate {
    open spec fn spec_name(&self) -> Seq<char> {
        "alpaca"@
    }

    open spec fn spec_format(
        &self,
        system_prompt: Seq<char>,
        messages: Seq<MessageView>,
        tools: Seq<ToolSchemaView>,
    ) -> Seq<char> {
        concat_format(*self, system_prompt, messages, tools)
    }

    open spec fn spec_format_system(&self, system_prompt: Seq<char>, tools: Seq<ToolSchemaView>) -> Seq<char> {
        self.frag_system(system_prompt, tools)
    }

    open spec fn spec_format_message(&self, message: MessageView) -> Seq<char> {
        self.frag_message(message)
    }

    open spec fn spec_assistant_prefix(&self) -> Seq<char> {
        self.frag_prefix()
    }

    fn name(&self) -> (r: &str) {
        "alpaca"
    }

    fn format(&self, system_prompt: &str, messages: &[Message], tools: &[ToolSchema]) -> (r: String) {
        format_concat(self, system_prompt, messages, tools)
    }

    fn format_system(&self, system_prompt: &str, tools: &[ToolSchema]) -> (r: String) {
        self.system_block(system_prompt, tools)
    }

    fn format_message(&self, message: &Message) -> (r: String) {
        self.message_block(message)
    }

    fn assistant_prefix(&self) -> (r: &str) {
        self.prefix()
    }
}

// --- Vicuna ----------------------------------------------------------------

/// Vicuna v1.1 template.
///
/// ```text
/// {system} USER: {user} ASSISTANT: {assistant}</s>USER: {user_2} ASSISTANT:
/// ```
pub struct VicunaTemplate;

/// The preamble Vicuna uses when there is no system prompt.
pub open spec fn vicuna_preamble() -> Seq<char> {
    "A chat between a curious user and an artificial intelligence assistant. The assistant gives helpful, detailed, and polite answers to the user's questions."@
}

impl TemplateFragments for VicunaTemplate {
    open spec fn frag_system(&self, system_prompt: Seq<char>, tools: Seq<ToolSchemaView>) -> Seq<char> {
        let preamble = if system_prompt.len() == 0 { vicuna_preamble() } else { system_prompt };
        preamble + spec_render_tools(tools) + " "@
    }

    open spec fn frag_message(&self, message: MessageView) -> Seq<char> {
        let c = message.content;
        match message.role {
            Role::User => "USER: "@ + c + " "@,
            Role::Assistant => "ASSISTANT: "@ + c + "</s>"@,
            Role::ToolCall => "ASSISTANT: "@ + c + "</s>"@,
            Role::ToolResult => "USER: "@ + spec_tool_result_text(c) + " "@,
            Role::System => seq![],
        }
    }

    open spec fn frag_prefix(&self) -> Seq<char> {
        "ASSISTANT: "@
    }

    fn system_block(&self, system_prompt: &str, tools: &[ToolSchema]) -> (r: String) {
        let mut s = if system_prompt.is_empty() {
            String::from_str(
                "A chat between a curious user and an artificial intelligence assistant. The assistant gives helpful, detailed, and polite answers to the user's questions.",
            )
        } else {
            String::from_str(system_prompt)
        };
        let t = render_tools(tools);
        s.append(t.as_str());
        s.append(" ");
        s
    }

    fn message_block(&self, message: &Message) -> (r: String) {
        let c = message.content.as_str();
        match message.role {
            Role::User => cat3("USER: ", c, " "),
            Role::Assistant => cat3("ASSISTANT: ", c, "</s>"),
            Role::ToolCall => cat3("ASSISTANT: ", c, "</s>"),
            Role::ToolResult => {
                let tr = tool_result_text(message);
                cat3("USER: ", tr.as_str(), " ")
            },
            Role::System => String::new(),
        }
    }

    fn prefix(&self) -> (r: &str) {
        "ASSISTANT: "
    }
}

impl ChatTemplate for VicunaTemplate {
    open spec fn spec_name(&self) -> Seq<char> {
        "vicuna"@
    }

    open spec fn spec_format(
        &self,
        system_prompt: Seq<char>,
        messages: Seq<MessageView>,
        tools: Seq<ToolSchemaView>,
    ) -> Seq<char> {
        concat_format(*self, system_prompt, messages, tools)
    }

    open spec fn spec_format_system(&self, system_prompt: Seq<char>, tools: Seq<ToolSchemaView>) -> Seq<char> {
        self.frag_system(system_prompt, tools)
    }

    open spec fn spec_format_message(&self, message: MessageView) -> Seq<char> {
        self.frag_message(message)
    }

    open spec fn spec_assistant_prefix(&self) -> Seq<char> {
        self.frag_prefix()
    }

    fn name(&self) -> (r: &str) {
        "vicuna"
    }

    fn format(&self, system_prompt: &str, messages: &[Message], tools: &[ToolSchema]) -> (r: String) {
        format_concat(self, system_prompt, messages, tools)
    }

    fn format_system(&self, system_prompt: &str, tools: &[ToolSchema]) -> (r: String) {
        self.system_block(system_prompt, tools)
    }

    fn format_message(&self, message: &Message) -> (r: String) {
        self.message_block(message)
    }

    fn assistant_prefix(&self) -> (r: &str) {
        self.prefix()
    }
}

// --- Phi-3 -----------------------------------------------------------------

/// Phi-3 template.
///
/// ```text
/// <|system|>
/// {system}<|end|>
/// <|user|>
/// {user}<|end|>
/// <|assistant|>
/// {assistant}<|end|>
/// <|assistant|>
/// ```
///
/// The system block is omitted entirely when there is no system prompt or tool
/// schema to advertise.
pub struct Phi3Template;

impl TemplateFragments for Phi3Template {
    open spec fn frag_system(&self, system_prompt: Seq<char>, tools: Seq<ToolSchemaView>) -> Seq<char> {
        let tools_block = spec_render_tools(tools);
        if system_prompt.len() == 0 && tools_block.len() == 0 {
            seq![]
        } else {
            "<|system|>\n"@ + system_prompt + tools_block + "<|end|>\n"@
        }
    }

    open spec fn frag_message(&self, message: MessageView) -> Seq<char> {
        let c = message.content;
        match message.role {
            Role::User => "<|user|>\n"@ + c + "<|end|>\n"@,
            Role::Assistant => "<|assistant|>\n"@ + c + "<|end|>\n"@,
            Role::ToolCall => "<|assistant|>\n"@ + c + "<|end|>\n"@,
            Role::ToolResult => "<|user|>\n"@ + spec_tool_result_text(c) + "<|end|>\n"@,
            Role::System => seq![],
        }
    }

    open spec fn frag_prefix(&self) -> Seq<char> {
        "<|assistant|>\n"@
    }

    fn system_block(&self, system_prompt: &str, tools: &[ToolSchema]) -> (r: String) {
        let tools_block = render_tools(tools);
        if system_prompt.is_empty() && tools_block.as_str().is_empty() {
            return String::new();
        }
        let mut s = String::from_str("<|system|>\n");
        s.append(system_prompt);
        s.append(tools_block.as_str());
        s.append("<|end|>\n");
        s
    }

    fn message_block(&self, message: &Message) -> (r: String) {
        let c = message.content.as_str();
        match message.role {
            Role::User => cat3("<|user|>\n", c, "<|end|>\n"),
            Role::Assistant => cat3("<|assistant|>\n", c, "<|end|>\n"),
            Role::ToolCall => cat3("<|assistant|>\n", c, "<|end|>\n"),
            Role::ToolResult => {
                let tr = tool_result_text(message);
                cat3("<|user|>\n", tr.as_str(), "<|end|>\n")
            },
            Role::System => String::new(),
        }
    }

    fn prefix(&self) -> (r: &str) {
        "<|assistant|>\n"
    }
}

impl ChatTemplate for Phi3Template {
    open spec fn spec_name(&self) -> Seq<char> {
        "phi3"@
    }

    open spec fn spec_format(
        &self,
        system_prompt: Seq<char>,
        messages: Seq<MessageView>,
        tools: Seq<ToolSchemaView>,
    ) -> Seq<char> {
        concat_format(*self, system_prompt, messages, tools)
    }

    open spec fn spec_format_system(&self, system_prompt: Seq<char>, tools: Seq<ToolSchemaView>) -> Seq<char> {
        self.frag_system(system_prompt, tools)
    }

    open spec fn spec_format_message(&self, message: MessageView) -> Seq<char> {
        self.frag_message(message)
    }

    open spec fn spec_assistant_prefix(&self) -> Seq<char> {
        self.frag_prefix()
    }

    fn name(&self) -> (r: &str) {
        "phi3"
    }

    fn format(&self, system_prompt: &str, messages: &[Message], tools: &[ToolSchema]) -> (r: String) {
        format_concat(self, system_prompt, messages, tools)
    }

    fn format_system(&self, system_prompt: &str, tools: &[ToolSchema]) -> (r: String) {
        self.system_block(system_prompt, tools)
    }

    fn format_message(&self, message: &Message) -> (r: String) {
        self.message_block(message)
    }

    fn assistant_prefix(&self) -> (r: &str) {
        self.prefix()
    }
}

// --- DeepSeek --------------------------------------------------------------

/// DeepSeek-LLM chat template.
///
/// ```text
/// <｜begin▁of▁sentence｜>{system}
///
/// User: {user}
///
/// Assistant: {assistant}<｜end▁of▁sentence｜>
/// ```
///
/// The system prompt is emitted bare (no role marker) after the BOS token, then
/// turns alternate `User:` / `Assistant:`.
pub struct DeepSeekTemplate;

/// DeepSeek's beginning-of-sentence token.
pub open spec fn deepseek_bos() -> Seq<char> {
    "<｜begin▁of▁sentence｜>"@
}

impl TemplateFragments for DeepSeekTemplate {
    open spec fn frag_system(&self, system_prompt: Seq<char>, tools: Seq<ToolSchemaView>) -> Seq<char> {
        let s = system_prompt + spec_render_tools(tools);
        if s.len() == 0 {
            deepseek_bos()
        } else {
            deepseek_bos() + s + "\n\n"@
        }
    }

    open spec fn frag_message(&self, message: MessageView) -> Seq<char> {
        let c = message.content;
        match message.role {
            Role::User => "User: "@ + c + "\n\n"@,
            Role::Assistant => "Assistant: "@ + c + "<｜end▁of▁sentence｜>"@,
            Role::ToolCall => "Assistant: "@ + c + "<｜end▁of▁sentence｜>"@,
            Role::ToolResult => "User: "@ + spec_tool_result_text(c) + "\n\n"@,
            Role::System => seq![],
        }
    }

    open spec fn frag_prefix(&self) -> Seq<char> {
        "Assistant:"@
    }

    fn system_block(&self, system_prompt: &str, tools: &[ToolSchema]) -> (r: String) {
        let mut s = String::from_str(system_prompt);
        let t = render_tools(tools);
        s.append(t.as_str());
        if s.as_str().is_empty() {
            String::from_str("<｜begin▁of▁sentence｜>")
        } else {
            cat3("<｜begin▁of▁sentence｜>", s.as_str(), "\n\n")
        }
    }

    fn message_block(&self, message: &Message) -> (r: String) {
        let c = message.content.as_str();
        match message.role {
            Role::User => cat3("User: ", c, "\n\n"),
            Role::Assistant => cat3("Assistant: ", c, "<｜end▁of▁sentence｜>"),
            Role::ToolCall => cat3("Assistant: ", c, "<｜end▁of▁sentence｜>"),
            Role::ToolResult => {
                let tr = tool_result_text(message);
                cat3("User: ", tr.as_str(), "\n\n")
            },
            Role::System => String::new(),
        }
    }

    fn prefix(&self) -> (r: &str) {
        "Assistant:"
    }
}

impl ChatTemplate for DeepSeekTemplate {
    open spec fn spec_name(&self) -> Seq<char> {
        "deepseek"@
    }

    open spec fn spec_format(
        &self,
        system_prompt: Seq<char>,
        messages: Seq<MessageView>,
        tools: Seq<ToolSchemaView>,
    ) -> Seq<char> {
        concat_format(*self, system_prompt, messages, tools)
    }

    open spec fn spec_format_system(&self, system_prompt: Seq<char>, tools: Seq<ToolSchemaView>) -> Seq<char> {
        self.frag_system(system_prompt, tools)
    }

    open spec fn spec_format_message(&self, message: MessageView) -> Seq<char> {
        self.frag_message(message)
    }

    open spec fn spec_assistant_prefix(&self) -> Seq<char> {
        self.frag_prefix()
    }

    fn name(&self) -> (r: &str) {
        "deepseek"
    }

    fn format(&self, system_prompt: &str, messages: &[Message], tools: &[ToolSchema]) -> (r: String) {
        format_concat(self, system_prompt, messages, tools)
    }

    fn format_system(&self, system_prompt: &str, tools: &[ToolSchema]) -> (r: String) {
        self.system_block(system_prompt, tools)
    }

    fn format_message(&self, message: &Message) -> (r: String) {
        self.message_block(message)
    }

    fn assistant_prefix(&self) -> (r: &str) {
        self.prefix()
    }
}

// --- Command-R -------------------------------------------------------------

/// Cohere Command-R / Command-R+ template.
///
/// ```text
/// <BOS_TOKEN><|START_OF_TURN_TOKEN|><|SYSTEM_TOKEN|>{system}<|END_OF_TURN_TOKEN|>
/// <|START_OF_TURN_TOKEN|><|USER_TOKEN|>{user}<|END_OF_TURN_TOKEN|>
/// <|START_OF_TURN_TOKEN|><|CHATBOT_TOKEN|>{assistant}<|END_OF_TURN_TOKEN|>
/// <|START_OF_TURN_TOKEN|><|CHATBOT_TOKEN|>
/// ```
pub struct CommandRTemplate;

impl TemplateFragments for CommandRTemplate {
    open spec fn frag_system(&self, system_prompt: Seq<char>, tools: Seq<ToolSchemaView>) -> Seq<char> {
        let s = system_prompt + spec_render_tools(tools);
        if s.len() == 0 {
            "<BOS_TOKEN>"@
        } else {
            "<BOS_TOKEN><|START_OF_TURN_TOKEN|><|SYSTEM_TOKEN|>"@ + s + "<|END_OF_TURN_TOKEN|>"@
        }
    }

    open spec fn frag_message(&self, message: MessageView) -> Seq<char> {
        let c = message.content;
        match message.role {
            Role::User => "<|START_OF_TURN_TOKEN|><|USER_TOKEN|>"@ + c + "<|END_OF_TURN_TOKEN|>"@,
            Role::Assistant => "<|START_OF_TURN_TOKEN|><|CHATBOT_TOKEN|>"@ + c + "<|END_OF_TURN_TOKEN|>"@,
            Role::ToolCall => "<|START_OF_TURN_TOKEN|><|CHATBOT_TOKEN|>"@ + c + "<|END_OF_TURN_TOKEN|>"@,
            Role::ToolResult => "<|START_OF_TURN_TOKEN|><|USER_TOKEN|>"@ + spec_tool_result_text(c) + "<|END_OF_TURN_TOKEN|>"@,
            Role::System => seq![],
        }
    }

    open spec fn frag_prefix(&self) -> Seq<char> {
        "<|START_OF_TURN_TOKEN|><|CHATBOT_TOKEN|>"@
    }

    fn system_block(&self, system_prompt: &str, tools: &[ToolSchema]) -> (r: String) {
        let mut s = String::from_str(system_prompt);
        let t = render_tools(tools);
        s.append(t.as_str());
        if s.as_str().is_empty() {
            String::from_str("<BOS_TOKEN>")
        } else {
            cat3("<BOS_TOKEN><|START_OF_TURN_TOKEN|><|SYSTEM_TOKEN|>", s.as_str(), "<|END_OF_TURN_TOKEN|>")
        }
    }

    fn message_block(&self, message: &Message) -> (r: String) {
        let c = message.content.as_str();
        match message.role {
            Role::User => cat3("<|START_OF_TURN_TOKEN|><|USER_TOKEN|>", c, "<|END_OF_TURN_TOKEN|>"),
            Role::Assistant => cat3("<|START_OF_TURN_TOKEN|><|CHATBOT_TOKEN|>", c, "<|END_OF_TURN_TOKEN|>"),
            Role::ToolCall => cat3("<|START_OF_TURN_TOKEN|><|CHATBOT_TOKEN|>", c, "<|END_OF_TURN_TOKEN|>"),
            Role::ToolResult => {
                let tr = tool_result_text(message);
                cat3("<|START_OF_TURN_TOKEN|><|USER_TOKEN|>", tr.as_str(), "<|END_OF_TURN_TOKEN|>")
            },
            Role::System => String::new(),
        }
    }

    fn prefix(&self) -> (r: &str) {
        "<|START_OF_TURN_TOKEN|><|CHATBOT_TOKEN|>"
    }
}

impl ChatTemplate for CommandRTemplate {
    open spec fn spec_name(&self) -> Seq<char> {
        "command-r"@
    }

    open spec fn spec_format(
        &self,
        system_prompt: Seq<char>,
        messages: Seq<MessageView>,
        tools: Seq<ToolSchemaView>,
    ) -> Seq<char> {
        concat_format(*self, system_prompt, messages, tools)
    }

    open spec fn spec_format_system(&self, system_prompt: Seq<char>, tools: Seq<ToolSchemaView>) -> Seq<char> {
        self.frag_system(system_prompt, tools)
    }

    open spec fn spec_format_message(&self, message: MessageView) -> Seq<char> {
        self.frag_message(message)
    }

    open spec fn spec_assistant_prefix(&self) -> Seq<char> {
        self.frag_prefix()
    }

    fn name(&self) -> (r: &str) {
        "command-r"
    }

    fn format(&self, system_prompt: &str, messages: &[Message], tools: &[ToolSchema]) -> (r: String) {
        format_concat(self, system_prompt, messages, tools)
    }

    fn format_system(&self, system_prompt: &str, tools: &[ToolSchema]) -> (r: String) {
        self.system_block(system_prompt, tools)
    }

    fn format_message(&self, message: &Message) -> (r: String) {
        self.message_block(message)
    }

    fn assistant_prefix(&self) -> (r: &str) {
        self.prefix()
    }
}

// --- Templates that fold the system prompt into the first instruction -----

/// The families without a system role, whose system prompt is merged into the
/// first user (or tool-result) turn.
#[derive(Clone, Copy)]
pub enum MergeStyle {
    Mistral,
    Gemma,
    Llama2,
}

/// The system text of a merging template: the system prompt plus tools.
pub open spec fn merged_system(system_prompt: Seq<char>, tools: Seq<ToolSchemaView>) -> Seq<char> {
    system_prompt + spec_render_tools(tools)
}

/// An instruction body with the system text folded in front of it.
pub open spec fn with_system(style: MergeStyle, system: Seq<char>, body: Seq<char>) -> Seq<char> {
    match style {
        MergeStyle::Llama2 => "<<SYS>>\n"@ + system + "\n<</SYS>>\n\n"@ + body,
        _ => system + "\n\n"@ + body,
    }
}

/// A user-side turn.
pub open spec fn user_turn(style: MergeStyle, body: Seq<char>) -> Seq<char> {
    match style {
        MergeStyle::Mistral => "[INST] "@ + body + " [/INST]"@,
        MergeStyle::Gemma => "<start_of_turn>user\n"@ + body + "<end_of_turn>\n"@,
        MergeStyle::Llama2 => "<s>[INST] "@ + body + " [/INST]"@,
    }
}

/// A model-side turn.
pub open spec fn model_turn(style: MergeStyle, content: Seq<char>) -> Seq<char> {
    match style {
        MergeStyle::Mistral => " "@ + content + "</s>"@,
        MergeStyle::Gemma => "<start_of_turn>model\n"@ + content + "<end_of_turn>\n"@,
        MergeStyle::Llama2 => " "@ + content + " </s>"@,
    }
}

/// One message's text, and whether the system text is still pending after it.
pub open spec fn merge_step(style: MergeStyle, system: Seq<char>, pending: bool, m: MessageView) -> (
    Seq<char>,
    bool,
) {
    match m.role {
        Role::User => {
            let body = if pending { with_system(style, system, m.content) } else { m.content };
            (user_turn(style, body), false)
        },
        Role::ToolResult => {
            let tr = spec_tool_result_text(m.content);
            let body = if pending { with_system(style, system, tr) } else { tr };
            (user_turn(style, body), false)
        },
        Role::Assistant => (model_turn(style, m.content), pending),
        Role::ToolCall => (model_turn(style, m.content), pending),
        Role::System => (seq![], pending),
    }
}

/// The turns of `msgs` in a merging template, and whether the system text is
/// still pending after them.
pub open spec fn merge_fold(style: MergeStyle, system: Seq<char>, pending: bool, msgs: Seq<MessageView>) -> (
    Seq<char>,
    bool,
)
    decreases msgs.len(),
{
    if msgs.len() == 0 {
        (seq![], pending)
    } else {
        let (prev, p) = merge_fold(style, system, pending, msgs.drop_last());
        let (piece, p2) = merge_step(style, system, p, msgs.last());
        (prev + piece, p2)
    }
}

/// The turns of `msgs`, with the system text merged into the first user-side
/// turn (when there is system text at all).
pub open spec fn merged_turns(style: MergeStyle, system: Seq<char>, msgs: Seq<MessageView>) -> Seq<char> {
    merge_fold(style, system, system.len() > 0, msgs).0
}

fn user_turn_exec(style: MergeStyle, body: &str) -> (r: String)
    ensures
        r@ == user_turn(style, body@),
{
    match style {
        MergeStyle::Mistral => cat3("[INST] ", body, " [/INST]"),
        MergeStyle::Gemma => cat3("<start_of_turn>user\n", body, "<end_of_turn>\n"),
        MergeStyle::Llama2 => cat3("<s>[INST] ", body, " [/INST]"),
    }
}

fn model_turn_exec(style: MergeStyle, content: &str) -> (r: String)
    ensures
        r@ == model_turn(style, content@),
{
    match style {
        MergeStyle::Mistral => cat3(" ", content, "</s>"),
        MergeStyle::Gemma => cat3("<start_of_turn>model\n", content, "<end_of_turn>\n"),
        MergeStyle::Llama2 => cat3(" ", content, " </s>"),
    }
}

fn with_system_exec(style: MergeStyle, system: &str, body: &str) -> (r: String)
    ensures
        r@ == with_system(style, system@, body@),
{
    match style {
        MergeStyle::Llama2 => {
            let mut s = String::from_str("<<SYS>>\n");
            s.append(system);
            s.append("\n<</SYS>>\n\n");
            s.append(body);
            s
        },
        _ => cat3(system, "\n\n", body),
    }
}

fn merged_system_exec(system_prompt: &str, tools: &[ToolSchema]) -> (r: String)
    ensures
        r@ == merged_system(system_prompt@, view_schemas(tools@)),
{
    let mut s = String::from_str(system_prompt);
    let t = render_tools(tools);
    s.append(t.as_str());
    s
}

/// The turns of `messages` in a merging template.
pub fn merge_format(style: MergeStyle, system: &str, messages: &[Message]) -> (r: String)
    ensures
        r@ == merged_turns(style, system@, view_messages(messages@)),
{
    let ghost mv = view_messages(messages@);
    let mut out = String::new();
    let mut pending = !system.is_empty();
    let ghost p0 = pending;
    let mut i: usize = 0;
    while i < messages.len()
        invariant
            i <= messages@.len(),
            mv == view_messages(messages@),
            p0 == (system@.len() > 0),
            (out@, pending) == merge_fold(style, system@, p0, mv.take(i as int)),
        decreases messages@.len() - i,
    {
        let msg = &messages[i];
        let ghost before = out@;
        proof {
            assert(mv.take(i + 1).drop_last() =~= mv.take(i as int));
            assert(mv.take(i + 1).last() == msg@);
        }
        match msg.role {
            Role::User => {
                let turn = if pending {
                    let b = with_system_exec(style, system, msg.content.as_str());
                    user_turn_exec(style, b.as_str())
                } else {
                    user_turn_exec(style, msg.content.as_str())
                };
                pending = false;
                out.append(turn.as_str());
            },
            Role::ToolResult => {
                let tr = tool_result_text(msg);
                let turn = if pending {
                    let b = with_system_exec(style, system, tr.as_str());
                    user_turn_exec(style, b.as_str())
                } else {
                    user_turn_exec(style, tr.as_str())
                };
                pending = false;
                out.append(turn.as_str());
            },
            Role::Assistant | Role::ToolCall => {
                let turn = model_turn_exec(style, msg.content.as_str());
                out.append(turn.as_str());
            },
            Role::System => {
                proof {
                    assert(out@ =~= before + Seq::<char>::empty());
                }
            },
        }
        i += 1;
    }
    proof {
        assert(mv.take(i as int) =~= mv);
    }
    out
}

// --- Mistral / Mixtral -----------------------------------------------------

/// Mistral / Mixtral instruct template.
///
/// ```text
/// <s>[INST] {system}
///
/// {user} [/INST] {assistant}</s>[INST] {user_2} [/INST]
/// ```
///
/// Mistral has no dedicated system role: the system prompt is merged into the
/// first user instruction. `format_system` / `format_message` return
/// token-representative fragments for context-budget accounting.
pub struct MistralTemplate;

impl ChatTemplate for MistralTemplate {
    open spec fn spec_name(&self) -> Seq<char> {
        "mistral"@
    }

    open spec fn spec_format(
        &self,
        system_prompt: Seq<char>,
        messages: Seq<MessageView>,
        tools: Seq<ToolSchemaView>,
    ) -> Seq<char> {
        "<s>"@ + merged_turns(MergeStyle::Mistral, merged_system(system_prompt, tools), messages)
    }

    open spec fn spec_format_system(&self, system_prompt: Seq<char>, tools: Seq<ToolSchemaView>) -> Seq<char> {
        let system = merged_system(system_prompt, tools);
        if system.len() == 0 {
            "<s>"@
        } else {
            "<s>[INST] "@ + system + "\n\n"@
        }
    }

    open spec fn spec_format_message(&self, message: MessageView) -> Seq<char> {
        match message.role {
            Role::User => user_turn(MergeStyle::Mistral, message.content),
            Role::Assistant => model_turn(MergeStyle::Mistral, message.content),
            Role::ToolCall => model_turn(MergeStyle::Mistral, message.content),
            Role::ToolResult => user_turn(MergeStyle::Mistral, spec_tool_result_text(message.content)),
            Role::System => seq![],
        }
    }

    open spec fn spec_assistant_prefix(&self) -> Seq<char> {
        " "@
    }

    fn name(&self) -> (r: &str) {
        "mistral"
    }

    fn format(&self, system_prompt: &str, messages: &[Message], tools: &[ToolSchema]) -> (r: String) {
        let system = merged_system_exec(system_prompt, tools);
        let turns = merge_format(MergeStyle::Mistral, system.as_str(), messages);
        cat2("<s>", turns.as_str())
    }

    fn format_system(&self, system_prompt: &str, tools: &[ToolSchema]) -> (r: String) {
        let system = merged_system_exec(system_prompt, tools);
        if system.as_str().is_empty() {
            String::from_str("<s>")
        } else {
            cat3("<s>[INST] ", system.as_str(), "\n\n")
        }
    }

    fn format_message(&self, message: &Message) -> (r: String) {
        match message.role {
            Role::User => user_turn_exec(MergeStyle::Mistral, message.content.as_str()),
            Role::Assistant | Role::ToolCall => model_turn_exec(MergeStyle::Mistral, message.content.as_str()),
            Role::ToolResult => {
                let tr = tool_result_text(message);
                user_turn_exec(MergeStyle::Mistral, tr.as_str())
            },
            Role::System => String::new(),
        }
    }

    fn assistant_prefix(&self) -> (r: &str) {
        " "
    }
}

// --- Gemma -----------------------------------------------------------------

/// Gemma / Gemma 2 instruction template.
///
/// ```text
/// <bos><start_of_turn>user
/// {system}
///
/// {user}<end_of_turn>
/// <start_of_turn>model
/// {assistant}<end_of_turn>
/// <start_of_turn>model
/// ```
///
/// Gemma has no dedicated system role, so (like Mistral) the system prompt is
/// merged into the first user turn.
pub struct GemmaTemplate;

impl ChatTemplate for GemmaTemplate {
    open spec fn spec_name(&self) -> Seq<char> {
        "gemma"@
    }

    open spec fn spec_format(
        &self,
        system_prompt: Seq<char>,
        messages: Seq<MessageView>,
        tools: Seq<ToolSchemaView>,
    ) -> Seq<char> {
        "<bos>"@ + merged_turns(MergeStyle::Gemma, merged_system(system_prompt, tools), messages)
            + "<start_of_turn>model\n"@
    }

    open spec fn spec_format_system(&self, system_prompt: Seq<char>, tools: Seq<ToolSchemaView>) -> Seq<char> {
        let system = merged_system(system_prompt, tools);
        if system.len() == 0 {
            "<bos>"@
        } else {
            "<bos><start_of_turn>user\n"@ + system + "\n\n"@
        }
    }

    open spec fn spec_format_message(&self, message: MessageView) -> Seq<char> {
        match message.role {
            Role::User => user_turn(MergeStyle::Gemma, message.content),
            Role::Assistant => model_turn(MergeStyle::Gemma, message.content),
            Role::ToolCall => model_turn(MergeStyle::Gemma, message.content),
            Role::ToolResult => user_turn(MergeStyle::Gemma, spec_tool_result_text(message.content)),
            Role::System => seq![],
        }
    }

    open spec fn spec_assistant_prefix(&self) -> Seq<char> {
        "<start_of_turn>model\n"@
    }

    fn name(&self) -> (r: &str) {
        "gemma"
    }

    fn format(&self, system_prompt: &str, messages: &[Message], tools: &[ToolSchema]) -> (r: String) {
        let system = merged_system_exec(system_prompt, tools);
        let turns = merge_format(MergeStyle::Gemma, system.as_str(), messages);
        cat3("<bos>", turns.as_str(), "<start_of_turn>model\n")
    }

    fn format_system(&self, system_prompt: &str, tools: &[ToolSchema]) -> (r: String) {
        let system = merged_system_exec(system_prompt, tools);
        if system.as_str().is_empty() {
            String::from_str("<bos>")
        } else {
            cat3("<bos><start_of_turn>user\n", system.as_str(), "\n\n")
        }
    }

    fn format_message(&self, message: &Message) -> (r: String) {
        match message.role {
            Role::User => user_turn_exec(MergeStyle::Gemma, message.content.as_str()),
            Role::Assistant | Role::ToolCall => model_turn_exec(MergeStyle::Gemma, message.content.as_str()),
            Role::ToolResult => {
                let tr = tool_result_text(message);
                user_turn_exec(MergeStyle::Gemma, tr.as_str())
            },
            Role::System => String::new(),
        }
    }

    fn assistant_prefix(&self) -> (r: &str) {
        "<start_of_turn>model\n"
    }
}

// --- Llama 2 ---------------------------------------------------------------

/// Llama 2 chat template.
///
/// ```text
/// <s>[INST] <<SYS>>
/// {system}
/// <</SYS>>
///
/// {user} [/INST] {assistant} </s><s>[INST] {user_2} [/INST]
/// ```
///
/// Like Mistral, Llama 2 has no system role: the system prompt lives in a
/// `<<SYS>>` block inside the first instruction.
pub struct Llama2Template;

impl ChatTemplate for Llama2Template {
    open spec fn spec_name(&self) -> Seq<char> {
        "llama2"@
    }

    open spec fn spec_format(
        &self,
        system_prompt: Seq<char>,
        messages: Seq<MessageView>,
        tools: Seq<ToolSchemaView>,
    ) -> Seq<char> {
        merged_turns(MergeStyle::Llama2, merged_system(system_prompt, tools), messages)
    }

    open spec fn spec_format_system(&self, system_prompt: Seq<char>, tools: Seq<ToolSchemaView>) -> Seq<char> {
        let system = merged_system(system_prompt, tools);
        if system.len() == 0 {
            "<s>"@
        } else {
            "<s>[INST] <<SYS>>\n"@ + system + "\n<</SYS>>\n\n"@
        }
    }

    open spec fn spec_format_message(&self, message: MessageView) -> Seq<char> {
        match message.role {
            Role::User => user_turn(MergeStyle::Llama2, message.content),
            Role::Assistant => model_turn(MergeStyle::Llama2, message.content),
            Role::ToolCall => model_turn(MergeStyle::Llama2, message.content),
            Role::ToolResult => user_turn(MergeStyle::Llama2, spec_tool_result_text(message.content)),
            Role::System => seq![],
        }
    }

    open spec fn spec_assistant_prefix(&self) -> Seq<char> {
        " "@
    }

    fn name(&self) -> (r: &str) {
        "llama2"
    }

    fn format(&self, system_prompt: &str, messages: &[Message], tools: &[ToolSchema]) -> (r: String) {
        let system = merged_system_exec(system_prompt, tools);
        merge_format(MergeStyle::Llama2, system.as_str(), messages)
    }

    fn format_system(&self, system_prompt: &str, tools: &[ToolSchema]) -> (r: String) {
        let system = merged_system_exec(system_prompt, tools);
        if system.as_str().is_empty() {
            String::from_str("<s>")
        } else {
            cat3("<s>[INST] <<SYS>>\n", system.as_str(), "\n<</SYS>>\n\n")
        }
    }

    fn format_message(&self, message: &Message) -> (r: String) {
        match message.role {
            Role::User => user_turn_exec(MergeStyle::Llama2, message.content.as_str()),
            Role::Assistant | Role::ToolCall => model_turn_exec(MergeStyle::Llama2, message.content.as_str()),
            Role::ToolResult => {
                let tr = tool_result_text(message);
                user_turn_exec(MergeStyle::Llama2, tr.as_str())
            },
            Role::System => String::new(),
        }
    }

    fn assistant_prefix(&self) -> (r: &str) {
        " "
    }
}

// --- Selection -------------------------------------------------------------

/// One of the templates this crate ships, chosen at run time.
#[derive(Clone, Copy, Debug, PartialEq, Eq, Structural)]
pub enum BuiltinTemplate {
    ChatML,
    Llama3,
    Llama2,
    Mistral,
    Alpaca,
    Vicuna,
    Gemma,
    Phi3,
    DeepSeek,
    CommandR,
}

impl ChatTemplate for BuiltinTemplate {
    open spec fn spec_name(&self) -> Seq<char> {
        match self {
            BuiltinTemplate::ChatML => ChatMLTemplate.spec_name(),
            BuiltinTemplate::Llama3 => Llama3Template.spec_name(),
            BuiltinTemplate::Llama2 => Llama2Template.spec_name(),
            BuiltinTemplate::Mistral => MistralTemplate.spec_name(),
            BuiltinTemplate::Alpaca => AlpacaTemplate.spec_name(),
            BuiltinTemplate::Vicuna => VicunaTemplate.spec_name(),
            BuiltinTemplate::Gemma => GemmaTemplate.spec_name(),
            BuiltinTemplate::Phi3 => Phi3Template.spec_name(),
            BuiltinTemplate::DeepSeek => DeepSeekTemplate.spec_name(),
            BuiltinTemplate::CommandR => CommandRTemplate.spec_name(),
        }
    }

    open spec fn spec_format(
        &self,
        system_prompt: Seq<char>,
        messages: Seq<MessageView>,
        tools: Seq<ToolSchemaView>,
    ) -> Seq<char> {
        match self {
            BuiltinTemplate::ChatML => ChatMLTemplate.spec_format(system_prompt, messages, tools),
            BuiltinTemplate::Llama3 => Llama3Template.spec_format(system_prompt, messages, tools),
            BuiltinTemplate::Llama2 => Llama2Template.spec_format(system_prompt, messages, tools),
            BuiltinTemplate::Mistral => MistralTemplate.spec_format(system_prompt, messages, tools),
            BuiltinTemplate::Alpaca => AlpacaTemplate.spec_format(system_prompt, messages, tools),
            BuiltinTemplate::Vicuna => VicunaTemplate.spec_format(system_prompt, messages, tools),
            BuiltinTemplate::Gemma => GemmaTemplate.spec_format(system_prompt, messages, tools),
            BuiltinTemplate::Phi3 => Phi3Template.spec_format(system_prompt, messages, tools),
            BuiltinTemplate::DeepSeek => DeepSeekTemplate.spec_format(system_prompt, messages, tools),
            BuiltinTemplate::CommandR => CommandRTemplate.spec_format(system_prompt, messages, tools),
        }
    }

    open spec fn spec_format_system(&self, system_prompt: Seq<char>, tools: Seq<ToolSchemaView>) -> Seq<char> {
        match self {
            BuiltinTemplate::ChatML => ChatMLTemplate.spec_format_system(system_prompt, tools),
            BuiltinTemplate::Llama3 => Llama3Template.spec_format_system(system_prompt, tools),
            BuiltinTemplate::Llama2 => Llama2Template.spec_format_system(system_prompt, tools),
            BuiltinTemplate::Mistral => MistralTemplate.spec_format_system(system_prompt, tools),
            BuiltinTemplate::Alpaca => AlpacaTemplate.spec_format_system(system_prompt, tools),
            BuiltinTemplate::Vicuna => VicunaTemplate.spec_format_system(system_prompt, tools),
            BuiltinTemplate::Gemma => GemmaTemplate.spec_format_system(system_prompt, tools),
            BuiltinTemplate::Phi3 => Phi3Template.spec_format_system(system_prompt, tools),
            BuiltinTemplate::DeepSeek => DeepSeekTemplate.spec_format_system(system_prompt, tools),
            BuiltinTemplate::CommandR => CommandRTemplate.spec_format_system(system_prompt, tools),
        }
    }

    open spec fn spec_format_message(&self, message: MessageView) -> Seq<char> {
        match self {
            BuiltinTemplate::ChatML => ChatMLTemplate.spec_format_message(message),
            BuiltinTemplate::Llama3 => Llama3Template.spec_format_message(message),
            BuiltinTemplate::Llama2 => Llama2Template.spec_format_message(message),
            BuiltinTemplate::Mistral => MistralTemplate.spec_format_message(message),
            BuiltinTemplate::Alpaca => AlpacaTemplate.spec_format_message(message),
            BuiltinTemplate::Vicuna => VicunaTemplate.spec_format_message(message),
            BuiltinTemplate::Gemma => GemmaTemplate.spec_format_message(message),
            BuiltinTemplate::Phi3 => Phi3Template.spec_format_message(message),
            BuiltinTemplate::DeepSeek => DeepSeekTemplate.spec_format_message(message),
            BuiltinTemplate::CommandR => CommandRTemplate.spec_format_message(message),
        }
    }

    open spec fn spec_assistant_prefix(&self) -> Seq<char> {
        match self {
            BuiltinTemplate::ChatML => ChatMLTemplate.spec_assistant_prefix(),
            BuiltinTemplate::Llama3 => Llama3Template.spec_assistant_prefix(),
            BuiltinTemplate::Llama2 => Llama2Template.spec_assistant_prefix(),
            BuiltinTemplate::Mistral => MistralTemplate.spec_assistant_prefix(),
            BuiltinTemplate::Alpaca => AlpacaTemplate.spec_assistant_prefix(),
            BuiltinTemplate::Vicuna => VicunaTemplate.spec_assistant_prefix(),
            BuiltinTemplate::Gemma => GemmaTemplate.spec_assistant_prefix(),
            BuiltinTemplate::Phi3 => Phi3Template.spec_assistant_prefix(),
            BuiltinTemplate::DeepSeek => DeepSeekTemplate.spec_assistant_prefix(),
            BuiltinTemplate::CommandR => CommandRTemplate.spec_assistant_prefix(),
        }
    }

    fn name(&self) -> (r: &str) {
        match self {
            BuiltinTemplate::ChatML => ChatMLTemplate.name(),
            BuiltinTemplate::Llama3 => Llama3Template.name(),
            BuiltinTemplate::Llama2 => Llama2Template.name(),
            BuiltinTemplate::Mistral => MistralTemplate.name(),
            BuiltinTemplate::Alpaca => AlpacaTemplate.name(),
            BuiltinTemplate::Vicuna => VicunaTemplate.name(),
            BuiltinTemplate::Gemma => GemmaTemplate.name(),
            BuiltinTemplate::Phi3 => Phi3Template.name(),
            BuiltinTemplate::DeepSeek => DeepSeekTemplate.name(),
            BuiltinTemplate::CommandR => CommandRTemplate.name(),
        }
    }

    fn format(&self, system_prompt: &str, messages: &[Message], tools: &[ToolSchema]) -> (r: String) {
        match self {
            BuiltinTemplate::ChatML => ChatMLTemplate.format(system_prompt, messages, tools),
            BuiltinTemplate::Llama3 => Llama3Template.format(system_prompt, messages, tools),
            BuiltinTemplate::Llama2 => Llama2Template.format(system_prompt, messages, tools),
            BuiltinTemplate::Mistral => MistralTemplate.format(system_prompt, messages, tools),
            BuiltinTemplate::Alpaca => AlpacaTemplate.format(system_prompt, messages, tools),
            BuiltinTemplate::Vicuna => VicunaTemplate.format(system_prompt, messages, tools),
            BuiltinTemplate::Gemma => GemmaTemplate.format(system_prompt, messages, tools),
            BuiltinTemplate::Phi3 => Phi3Template.format(system_prompt, messages, tools),
            BuiltinTemplate::DeepSeek => DeepSeekTemplate.format(system_prompt, messages, tools),
            BuiltinTemplate::CommandR => CommandRTemplate.format(system_prompt, messages, tools),
        }
    }

    fn format_system(&self, system_prompt: &str, tools: &[ToolSchema]) -> (r: String) {
        match self {
            BuiltinTemplate::ChatML => ChatMLTemplate.format_system(system_prompt, tools),
            BuiltinTemplate::Llama3 => Llama3Template.format_system(system_prompt, tools),
            BuiltinTemplate::Llama2 => Llama2Template.format_system(system_prompt, tools),
            BuiltinTemplate::Mistral => MistralTemplate.format_system(system_prompt, tools),
            BuiltinTemplate::Alpaca => AlpacaTemplate.format_system(system_prompt, tools),
            BuiltinTemplate::Vicuna => VicunaTemplate.format_system(system_prompt, tools),
            BuiltinTemplate::Gemma => GemmaTemplate.format_system(system_prompt, tools),
            BuiltinTemplate::Phi3 => Phi3Template.format_system(system_prompt, tools),
            BuiltinTemplate::DeepSeek => DeepSeekTemplate.format_system(system_prompt, tools),
            BuiltinTemplate::CommandR => CommandRTemplate.format_system(system_prompt, tools),
        }
    }

    fn format_message(&self, message: &Message) -> (r: String) {
        match self {
            BuiltinTemplate::ChatML => ChatMLTemplate.format_message(message),
            BuiltinTemplate::Llama3 => Llama3Template.format_message(message),
            BuiltinTemplate::Llama2 => Llama2Template.format_message(message),
            BuiltinTemplate::Mistral => MistralTemplate.format_message(message),
            BuiltinTemplate::Alpaca => AlpacaTemplate.format_message(message),
            BuiltinTemplate::Vicuna => VicunaTemplate.format_message(message),
            BuiltinTemplate::Gemma => GemmaTemplate.format_message(message),
            BuiltinTemplate::Phi3 => Phi3Template.format_message(message),
            BuiltinTemplate::DeepSeek => DeepSeekTemplate.format_message(message),
            BuiltinTemplate::CommandR => CommandRTemplate.format_message(message),
        }
    }

    fn assistant_prefix(&self) -> (r: &str) {
        match self {
            BuiltinTemplate::ChatML => ChatMLTemplate.assistant_prefix(),
            BuiltinTemplate::Llama3 => Llama3Template.assistant_prefix(),
            BuiltinTemplate::Llama2 => Llama2Template.assistant_prefix(),
            BuiltinTemplate::Mistral => MistralTemplate.assistant_prefix(),
            BuiltinTemplate::Alpaca => AlpacaTemplate.assistant_prefix(),
            BuiltinTemplate::Vicuna => VicunaTemplate.assistant_prefix(),
            BuiltinTemplate::Gemma => GemmaTemplate.assistant_prefix(),
            BuiltinTemplate::Phi3 => Phi3Template.assistant_prefix(),
            BuiltinTemplate::DeepSeek => DeepSeekTemplate.assistant_prefix(),
            BuiltinTemplate::CommandR => CommandRTemplate.assistant_prefix(),
        }
    }
}

/// The template a (trimmed, lower-cased) override name resolves to, with its
/// common aliases; `None` for a family without an implementation.
pub open spec fn template_named(key: Seq<char>) -> Option<BuiltinTemplate> {
    if key == "chatml"@ {
        Some(BuiltinTemplate::ChatML)
    } else
    if key == "llama3"@ || key == "llama-3"@ || key == "llama3.1"@ || key == "llama-3.1"@ {
        Some(BuiltinTemplate::Llama3)
    } else
    if key == "llama2"@ || key == "llama-2"@ || key == "llama 2"@ {
        Some(BuiltinTemplate::Llama2)
    } else
    if key == "mistral"@ || key == "mixtral"@ {
        Some(BuiltinTemplate::Mistral)
    } else
    if key == "alpaca"@ {
        Some(BuiltinTemplate::Alpaca)
    } else
    if key == "vicuna"@ {
        Some(BuiltinTemplate::Vicuna)
    } else
    if key == "gemma"@ || key == "gemma2"@ {
        Some(BuiltinTemplate::Gemma)
    } else
    if key == "phi3"@ || key == "phi-3"@ || key == "phi"@ {
        Some(BuiltinTemplate::Phi3)
    } else
    if key == "deepseek"@ || key == "deepseek-llm"@ {
        Some(BuiltinTemplate::DeepSeek)
    } else
    if key == "command-r"@ || key == "commandr"@ || key == "command_r"@ || key == "cohere"@ {
        Some(BuiltinTemplate::CommandR)
    } else {
        None
    }
}

/// A name with no white space and no upper-case letter is its own lookup key.
proof fn lemma_plain_name(n: Seq<char>)
    requires
        forall|i: int| 0 <= i < n.len() ==> !is_ws(#[trigger] n[i]) && !('A' <= n[i] && n[i] <= 'Z'),
    ensures
        lower(trim(n)) == n,
{
    if n.len() > 0 {
        assert(!is_ws(n[0]) && !is_ws(n[n.len() - 1]));
    }
    lemma_trim_fixed(n);
    assert(lower(n) =~= n);
}

/// Looking a template up by name normalizes the name first, so looking up
/// the trimmed, lower-cased name finds the same template (or none alike).
pub proof fn law_lookup_is_normalized(name: Seq<char>)
    ensures
        template_named(lower(trim(lower(trim(name))))) == template_named(lower(trim(name))),
{
    lemma_normalize_twice(name);
}

/// Every built-in template is found under its own name.
pub proof fn law_names_resolve_to_themselves(t: BuiltinTemplate)
    ensures
        template_named(lower(trim(t.spec_name()))) == Some(t),
{
    reveal_strlit("alpaca");
    reveal_strlit("chatml");
    reveal_strlit("cohere");
    reveal_strlit("command-r");
    reveal_strlit("command_r");
    reveal_strlit("commandr");
    reveal_strlit("deepseek");
    reveal_strlit("deepseek-llm");
    reveal_strlit("gemma");
    reveal_strlit("gemma2");
    reveal_strlit("llama 2");
    reveal_strlit("llama-2");
    reveal_strlit("llama-3");
    reveal_strlit("llama-3.1");
    reveal_strlit("llama2");
    reveal_strlit("llama3");
    reveal_strlit("llama3.1");
    reveal_strlit("mistral");
    reveal_strlit("mixtral");
    reveal_strlit("phi");
    reveal_strlit("phi-3");
    reveal_strlit("phi3");
    reveal_strlit("vicuna");
    lemma_plain_name(t.spec_name());
}

/// Resolve a template by name (used by a manual override).
///
/// The name is trimmed and ASCII-lower-cased first. Returns `None` for names
/// without an implementation so the caller can fall back to GGUF
/// auto-detection or ChatML.
pub fn template_from_name(name: &str) -> (r: Option<BuiltinTemplate>)
    ensures
        r == template_named(lower(trim(name@))),
{
    let trimmed = trim_str(name);
    let key = lower_str(trimmed.as_str());
    let k = key.as_str();
    if same_text(k, "chatml") {
        Some(BuiltinTemplate::ChatML)
    } else
    if same_text(k, "llama3") || same_text(k, "llama-3") || same_text(k, "llama3.1") || same_text(k, "llama-3.1") {
        Some(BuiltinTemplate::Llama3)
    } else
    if same_text(k, "llama2") || same_text(k, "llama-2") || same_text(k, "llama 2") {
        Some(BuiltinTemplate::Llama2)
    } else
    if same_text(k, "mistral") || same_text(k, "mixtral") {
        Some(BuiltinTemplate::Mistral)
    } else
    if same_text(k, "alpaca") {
        Some(BuiltinTemplate::Alpaca)
    } else
    if same_text(k, "vicuna") {
        Some(BuiltinTemplate::Vicuna)
    } else
    if same_text(k, "gemma") || same_text(k, "gemma2") {
        Some(BuiltinTemplate::Gemma)
    } else
    if same_text(k, "phi3") || same_text(k, "phi-3") || same_text(k, "phi") {
        Some(BuiltinTemplate::Phi3)
    } else
    if same_text(k, "deepseek") || same_text(k, "deepseek-llm") {
        Some(BuiltinTemplate::DeepSeek)
    } else
    if same_text(k, "command-r") || same_text(k, "commandr") || same_text(k, "command_r") || same_text(k, "cohere") {
        Some(BuiltinTemplate::CommandR)
    } else {
        None
    }
}

/// The template a GGUF chat-template string points to: the first family
/// whose markers it contains, most specific first; ChatML when none match or
/// no template is given.
pub open spec fn detected(gguf_template: Option<Seq<char>>) -> BuiltinTemplate {
    match gguf_template {
        None => BuiltinTemplate::ChatML,
        Some(t) => {
            if contains(t, "<|start_header_id|>"@) || contains(t, "<|begin_of_text|>"@) {
                BuiltinTemplate::Llama3
            } else
            if contains(t, "<|START_OF_TURN_TOKEN|>"@) || contains(t, "<|CHATBOT_TOKEN|>"@) {
                BuiltinTemplate::CommandR
            } else
            if contains(t, "<|im_start|>"@) {
                BuiltinTemplate::ChatML
            } else
            if contains(t, "<|assistant|>"@) && (contains(t, "<|user|>"@) || contains(t, "<|system|>"@)) {
                BuiltinTemplate::Phi3
            } else
            if contains(t, "<start_of_turn>"@) {
                BuiltinTemplate::Gemma
            } else
            if contains(t, "<<SYS>>"@) {
                BuiltinTemplate::Llama2
            } else
            if contains(t, "[INST]"@) {
                BuiltinTemplate::Mistral
            } else
            if contains(t, "### Instruction:"@) {
                BuiltinTemplate::Alpaca
            } else
            if (contains(t, "User:"@) && contains(t, "Assistant:"@)) || contains(t, "▁of▁sentence"@) {
                BuiltinTemplate::DeepSeek
            } else
            if contains(t, "ASSISTANT:"@) && contains(t, "USER:"@) {
                BuiltinTemplate::Vicuna
            } else {
                BuiltinTemplate::ChatML
            }
        },
    }
}

/// Select a chat template based on a GGUF metadata template string.
///
/// Order matters: Llama 3's header tokens are checked before ChatML, and
/// Llama 2's `<<SYS>>` before Mistral's shared `[INST]`. Falls back to ChatML.
pub fn detect_template(gguf_template: Option<&str>) -> (r: BuiltinTemplate)
    ensures
        r == detected(match gguf_template {
            Some(t) => Some(t@),
            None => None,
        }),
{
    if let Some(t) = gguf_template {
        if contains_str(t, "<|start_header_id|>") || contains_str(t, "<|begin_of_text|>") {
            return BuiltinTemplate::Llama3;
        }
        if contains_str(t, "<|START_OF_TURN_TOKEN|>") || contains_str(t, "<|CHATBOT_TOKEN|>") {
            return BuiltinTemplate::CommandR;
        }
        if contains_str(t, "<|im_start|>") {
            return BuiltinTemplate::ChatML;
        }
        if contains_str(t, "<|assistant|>") && (contains_str(t, "<|user|>") || contains_str(t, "<|system|>")) {
            return BuiltinTemplate::Phi3;
        }
        if contains_str(t, "<start_of_turn>") {
            return BuiltinTemplate::Gemma;
        }
        if contains_str(t, "<<SYS>>") {
            return BuiltinTemplate::Llama2;
        }
        if contains_str(t, "[INST]") {
            return BuiltinTemplate::Mistral;
        }
        if contains_str(t, "### Instruction:") {
            return BuiltinTemplate::Alpaca;
        }
        if (contains_str(t, "User:") && contains_str(t, "Assistant:")) || contains_str(t, "▁of▁sentence") {
            return BuiltinTemplate::DeepSeek;
        }
        if contains_str(t, "ASSISTANT:") && contains_str(t, "USER:") {
            return BuiltinTemplate::Vicuna;
        }
    }
    BuiltinTemplate::ChatML
}


// --- Laws of the templates ---------------------------------------------------

/// Every message but a system message keeps its text: whatever the template,
/// the fragment a user, assistant, tool-call or tool-result message is
/// formatted into contains the message's content, so the model sees it (a
/// tool's output among them).
pub proof fn law_messages_keep_their_content(t: BuiltinTemplate, m: MessageView)
    requires
        m.role != Role::System,
    ensures
        contains(t.spec_format_message(m), m.content),
{
    let c = m.content;
    let tag = "[Tool result]\n"@;
    // A tool result's text is the content after a fixed tag.
    assert forall|a: Seq<char>, b: Seq<char>| #[trigger] (a + spec_tool_result_text(c) + b) == (a + tag) + c + b by {
        assert(a + spec_tool_result_text(c) + b =~= (a + tag) + c + b);
    }
    assert forall|a: Seq<char>, b: Seq<char>| contains(#[trigger] (a + c + b), c) by {
        lemma_contains_middle(a, c, b);
    }
    assert forall|r: Seq<char>| #[trigger] llama3_header(r, c) == ("<|start_header_id|>"@ + r + "<|end_header_id|>\n\n"@) + c + "<|eot_id|>"@ by {
        assert(llama3_header(r, c) =~= ("<|start_header_id|>"@ + r + "<|end_header_id|>\n\n"@) + c + "<|eot_id|>"@);
    }
}

/// Llama 3's header tokens win over every other family's markers, ChatML's
/// among them; and, among templates with none of the markers checked before
/// them, Llama 2's `<<SYS>>` wins over Mistral's shared `[INST]`.
pub proof fn law_detection_order(t: Seq<char>)
    ensures
        contains(t, "<|start_header_id|>"@) || contains(t, "<|begin_of_text|>"@) ==> detected(Some(t))
            == BuiltinTemplate::Llama3,
        !contains(t, "<|start_header_id|>"@) && !contains(t, "<|begin_of_text|>"@) && !contains(
            t,
            "<|START_OF_TURN_TOKEN|>"@,
        ) && !contains(t, "<|CHATBOT_TOKEN|>"@) && contains(t, "<|im_start|>"@) ==> detected(Some(t))
            == BuiltinTemplate::ChatML,
        !contains(t, "<|start_header_id|>"@) && !contains(t, "<|begin_of_text|>"@) && !contains(
            t,
            "<|START_OF_TURN_TOKEN|>"@,
        ) && !contains(t, "<|CHATBOT_TOKEN|>"@) && !contains(t, "<|im_start|>"@) && !contains(t, "<|assistant|>"@)
            && !contains(t, "<start_of_turn>"@) && contains(t, "<<SYS>>"@) ==> detected(Some(t))
            == BuiltinTemplate::Llama2,
        detected(None) == BuiltinTemplate::ChatML,
{
}

/// A GGUF template with the Phi-3 markers `<|assistant|>` and `<|user|>`, and
/// none of the markers of a family checked before Phi-3 (Llama 3's, Command
/// R's, ChatML's), is detected as Phi-3, whether or not it has a system role;
/// so is one with `<|assistant|>` and `<|system|>`.
pub proof fn law_phi3_markers_detect_phi3(t: Seq<char>)
    requires
        contains(t, "<|assistant|>"@),
        contains(t, "<|user|>"@) || contains(t, "<|system|>"@),
        !contains(t, "<|start_header_id|>"@),
        !contains(t, "<|begin_of_text|>"@),
        !contains(t, "<|START_OF_TURN_TOKEN|>"@),
        !contains(t, "<|CHATBOT_TOKEN|>"@),
        !contains(t, "<|im_start|>"@),
    ensures
        detected(Some(t)) == BuiltinTemplate::Phi3,
{
}

proof fn lemma_contains_middle(a: Seq<char>, b: Seq<char>, c: Seq<char>)
    ensures
        contains(a + b + c, b),
{
    let s = a + b + c;
    assert(s.subrange(a.len() as int, (a.len() + b.len()) as int) =~= b);
    assert(crate::text::occurs_at(s, b, a.len() as int));
}

/// Every template advertises tools the same way: its system block carries the
/// shared tool-instruction block (with its `tool_call` convention) verbatim.
pub proof fn law_every_template_advertises_tools(
    t: BuiltinTemplate,
    system_prompt: Seq<char>,
    tools: Seq<ToolSchemaView>,
)
    ensures
        contains(t.spec_format_system(system_prompt, tools), spec_render_tools(tools)),
{
    let r = spec_render_tools(tools);
    let sys = t.spec_format_system(system_prompt, tools);
    if r.len() == 0 {
        assert(sys.subrange(0, 0) =~= r);
        assert(crate::text::occurs_at(sys, r, 0));
    } else {
        match t {
            BuiltinTemplate::ChatML => {
                lemma_contains_middle("<|im_start|>system\n"@ + system_prompt, r, "<|im_end|>\n"@);
                assert(sys =~= ("<|im_start|>system\n"@ + system_prompt) + r + "<|im_end|>\n"@);
            },
            BuiltinTemplate::Llama3 => {
                let (a, c) = (
                    "<|begin_of_text|>"@ + "<|start_header_id|>"@ + "system"@ + "<|end_header_id|>\n\n"@
                        + system_prompt,
                    "<|eot_id|>"@,
                );
                lemma_contains_middle(a, r, c);
                assert(sys =~= a + r + c);
            },
            BuiltinTemplate::Alpaca => {
                let pre = if system_prompt.len() == 0 { alpaca_preamble() } else { system_prompt };
                lemma_contains_middle(pre, r, "\n\n"@);
                assert(sys =~= pre + r + "\n\n"@);
            },
            BuiltinTemplate::Vicuna => {
                let pre = if system_prompt.len() == 0 { vicuna_preamble() } else { system_prompt };
                lemma_contains_middle(pre, r, " "@);
                assert(sys =~= pre + r + " "@);
            },
            BuiltinTemplate::Phi3 => {
                lemma_contains_middle("<|system|>\n"@ + system_prompt, r, "<|end|>\n"@);
                assert(sys =~= ("<|system|>\n"@ + system_prompt) + r + "<|end|>\n"@);
            },
            BuiltinTemplate::DeepSeek => {
                lemma_contains_middle(deepseek_bos() + system_prompt, r, "\n\n"@);
                assert(sys =~= (deepseek_bos() + system_prompt) + r + "\n\n"@);
            },
            BuiltinTemplate::CommandR => {
                let a = "<BOS_TOKEN><|START_OF_TURN_TOKEN|><|SYSTEM_TOKEN|>"@ + system_prompt;
                lemma_contains_middle(a, r, "<|END_OF_TURN_TOKEN|>"@);
                assert(sys =~= a + r + "<|END_OF_TURN_TOKEN|>"@);
            },
            BuiltinTemplate::Mistral => {
                lemma_contains_middle("<s>[INST] "@ + system_prompt, r, "\n\n"@);
                assert(sys =~= ("<s>[INST] "@ + system_prompt) + r + "\n\n"@);
            },
            BuiltinTemplate::Gemma => {
                lemma_contains_middle("<bos><start_of_turn>user\n"@ + system_prompt, r, "\n\n"@);
                assert(sys =~= ("<bos><start_of_turn>user\n"@ + system_prompt) + r + "\n\n"@);
            },
            BuiltinTemplate::Llama2 => {
                lemma_contains_middle("<s>[INST] <<SYS>>\n"@ + system_prompt, r, "\n<</SYS>>\n\n"@);
                assert(sys =~= ("<s>[INST] <<SYS>>\n"@ + system_prompt) + r + "\n<</SYS>>\n\n"@);
            },
        }
    }
}

} // verus!
