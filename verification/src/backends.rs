//! The OpenAI-compatible HTTP backend's logic: its configuration, the routes
//! and message lists it sends, and the reading of the server-sent event stream
//! that comes back. The transport itself is the caller's.
use vstd::prelude::*;
use crate::agent::Generated;
use crate::error::{CoreError, ErrorView};
use crate::json::{json_array_items, json_items, json_pointer_str, json_pointer_text, json_pointer_u64,
    json_str_at, json_text_at, json_u64_at};
use crate::messages::{Message, MessageView, Role, view_messages};
use crate::text::{decimal, starts_with, strip_prefix_str, trim, trim_end, trim_str};

verus! {

broadcast use vstd::string::group_string_axioms;

/// `Duration::from_secs(secs)`: the duration of that many whole seconds.
pub uninterp spec fn duration_from_secs(secs: u64) -> std::time::Duration;

/// `std::time::Duration::from_secs`: a duration of `secs` whole seconds.
#[verifier::external_body]
fn seconds(secs: u64) -> (d: std::time::Duration)
    ensures
        d == duration_from_secs(secs),
{
    std::time::Duration::from_secs(secs)
}

/// Which OpenAI-compatible endpoint the backend targets.
#[derive(Clone, Copy, Debug, PartialEq, Eq, Structural)]
pub enum OpenAiEndpoint {
    /// `/v1/chat/completions`: the formatted prompt is sent as the content of a
    /// single user message, and the server applies its own chat template on top.
    Chat,
    /// `/v1/completions`: the formatted prompt is sent verbatim as the raw
    /// `prompt`, avoiding a second layer of templating.
    Completions,
}

impl Default for OpenAiEndpoint {
    fn default() -> (e: Self)
        ensures
            e == OpenAiEndpoint::Chat,
    {
        OpenAiEndpoint::Chat
    }
}

/// Configuration for the OpenAI-compatible HTTP backend.
#[derive(Debug)]
pub struct OpenAiConfig {
    /// Base URL up to and including `/v1` (e.g. `https://api.openai.com/v1`).
    /// The endpoint path (`/chat/completions` or `/completions`) is appended.
    pub base_url: String,
    /// Model identifier sent in each request.
    pub model: String,
    /// Bearer token. Omit for local servers that need no auth.
    pub api_key: Option<String>,
    /// Which endpoint to target. Defaults to [`OpenAiEndpoint::Chat`].
    pub endpoint: OpenAiEndpoint,
    /// Per-request timeout.
    pub timeout: std::time::Duration,
}

/// The mathematical content of an [`OpenAiConfig`].
pub struct OpenAiConfigView {
    pub base_url: Seq<char>,
    pub model: Seq<char>,
    pub api_key: Option<Seq<char>>,
    pub endpoint: OpenAiEndpoint,
    pub timeout: std::time::Duration,
}

impl View for OpenAiConfig {
    type V = OpenAiConfigView;

    open spec fn view(&self) -> OpenAiConfigView {
        OpenAiConfigView {
            base_url: self.base_url@,
            model: self.model@,
            api_key: match self.api_key {
                Some(k) => Some(k@),
                None => None,
            },
            endpoint: self.endpoint,
            timeout: self.timeout,
        }
    }
}

impl Clone for OpenAiConfig {
    fn clone(&self) -> (c: Self)
        ensures
            c@ == self@,
    {
        OpenAiConfig {
            base_url: self.base_url.clone(),
            model: self.model.clone(),
            api_key: match &self.api_key {
                Some(k) => Some(k.clone()),
                None => None,
            },
            endpoint: self.endpoint,
            timeout: self.timeout,
        }
    }
}

impl OpenAiConfig {
    /// Config for `base_url` and `model` with no API key, the `Chat` endpoint,
    /// and the default timeout of 120 seconds.
    pub fn new(base_url: &str, model: &str) -> (c: Self)
        ensures
            c@ == (OpenAiConfigView {
                base_url: base_url@,
                model: model@,
                api_key: None,
                endpoint: OpenAiEndpoint::Chat,
                timeout: duration_from_secs(120),
            }),
    {
        OpenAiConfig {
            base_url: String::from_str(base_url),
            model: String::from_str(model),
            api_key: None,
            endpoint: OpenAiEndpoint::default(),
            timeout: seconds(120),
        }
    }

    /// Set the bearer token used for authorization.
    pub fn with_api_key(self, api_key: &str) -> (c: Self)
        ensures
            c@ == (OpenAiConfigView { api_key: Some(api_key@), ..self@ }),
    {
        let mut c = self;
        c.api_key = Some(String::from_str(api_key));
        c
    }

    /// Select which endpoint to target.
    pub fn with_endpoint(self, endpoint: OpenAiEndpoint) -> (c: Self)
        ensures
            c@ == (OpenAiConfigView { endpoint, ..self@ }),
    {
        let mut c = self;
        c.endpoint = endpoint;
        c
    }

    /// Set the per-request timeout.
    pub fn with_timeout(self, timeout: std::time::Duration) -> (c: Self)
        ensures
            c@ == (OpenAiConfigView { timeout, ..self@ }),
    {
        let mut c = self;
        c.timeout = timeout;
        c
    }
}


// --- Routes and errors -------------------------------------------------------

/// The path under the base URL that an endpoint is reached at.
pub open spec fn endpoint_path(endpoint: OpenAiEndpoint) -> Seq<char> {
    match endpoint {
        OpenAiEndpoint::Chat => "chat/completions"@,
        OpenAiEndpoint::Completions => "completions"@,
    }
}

/// The URL of an endpoint: the base URL, a slash, and the endpoint's path.
pub fn endpoint_url(base_url: &str, endpoint: OpenAiEndpoint) -> (url: String)
    ensures
        url@ == base_url@ + "/"@ + endpoint_path(endpoint),
{
    let mut url = String::from_str(base_url);
    url.append("/");
    match endpoint {
        OpenAiEndpoint::Chat => url.append("chat/completions"),
        OpenAiEndpoint::Completions => url.append("completions"),
    }
    url
}

/// `prefix` followed by `rest`.
fn joined(prefix: &str, rest: &str) -> (s: String)
    ensures
        s@ == prefix@ + rest@,
{
    let mut s = String::from_str(prefix);
    s.append(rest);
    s
}

/// The error for an endpoint that answered with a non-success status: the
/// status code and the trimmed response body.
pub fn http_status_error(status: u16, detail: &str) -> (e: CoreError)
    ensures
        e@ == status_error(status, detail@),
{
    let mut m = String::from_str("endpoint returned HTTP ");
    let code = crate::text::decimal_string(status as u64);
    m.append(code.as_str());
    m.append(": ");
    let body = trim_str(detail);
    m.append(body.as_str());
    CoreError::Backend(m)
}

/// The error for a request that got no response at all (retryable).
pub fn request_failed(url: &str, cause: &str) -> (e: CoreError)
    ensures
        e@ == request_error(url@, cause@),
{
    let mut m = String::from_str("request to ");
    m.append(url);
    m.append(" failed: ");
    m.append(cause);
    CoreError::BackendUnreachable(m)
}

/// The error for a response stream that broke off.
pub fn stream_failed(cause: &str) -> (e: CoreError)
    ensures
        e@ == stream_error(cause@),
{
    CoreError::BackendUnreachable(joined("stream read failed: ", cause))
}

/// The error for an HTTP client that could not be built.
pub fn client_build_failed(cause: &str) -> (e: CoreError)
    ensures
        e@ == client_error(cause@),
{
    CoreError::Backend(joined("failed to build HTTP client: ", cause))
}

/// The error for an endpoint that answered `status` with the body `detail`.
pub open spec fn status_error(status: u16, detail: Seq<char>) -> ErrorView {
    ErrorView::Backend("endpoint returned HTTP "@ + decimal(status as nat) + ": "@ + trim(detail))
}

/// The error for a request to `url` that got no response.
pub open spec fn request_error(url: Seq<char>, cause: Seq<char>) -> ErrorView {
    ErrorView::BackendUnreachable("request to "@ + url + " failed: "@ + cause)
}

/// The error for a response stream that broke off.
pub open spec fn stream_error(cause: Seq<char>) -> ErrorView {
    ErrorView::BackendUnreachable("stream read failed: "@ + cause)
}

/// The error for an HTTP client that could not be built.
pub open spec fn client_error(cause: Seq<char>) -> ErrorView {
    ErrorView::Backend("failed to build HTTP client: "@ + cause)
}

/// Transport failures, where no response arrived (a request that failed, a
/// stream that broke off), are reported as an unreachable backend, which may
/// be retried as it is; an endpoint that answered with an error status, and a
/// client that could not be built, are reported as a backend error.
pub proof fn law_transport_errors(url: Seq<char>, cause: Seq<char>, status: u16, detail: Seq<char>)
    ensures
        request_error(url, cause) is BackendUnreachable,
        stream_error(cause) is BackendUnreachable,
        status_error(status, detail) is Backend,
        client_error(cause) is Backend,
{
}

// --- The chat message list ----------------------------------------------------

/// One turn as `/v1/chat/completions` takes it.
#[derive(Debug)]
pub struct WireTurn {
    /// `system`, `user` or `assistant`.
    pub role: String,
    /// The turn's text.
    pub content: String,
}

/// The role and content a message goes out with. A tool result becomes a user
/// turn carrying the observation, because the API's `tool` role needs an id
/// that the text-based tool convention never mints; an assistant turn that
/// asked for a tool keeps its text, which is where the call is written.
pub open spec fn wire_turn(m: MessageView) -> (Seq<char>, Seq<char>) {
    match m.role {
        Role::System => ("system"@, m.content),
        Role::User => ("user"@, m.content),
        Role::Assistant => ("assistant"@, m.content),
        Role::ToolCall => ("assistant"@, m.content),
        Role::ToolResult => ("user"@, "[Tool result]\n"@ + m.content),
    }
}

/// The message list sent to a chat endpoint: the system prompt first (unless
/// it is blank), then each message in order.
pub open spec fn wire_turns(system: Seq<char>, ms: Seq<MessageView>) -> Seq<(Seq<char>, Seq<char>)> {
    let head = if trim(system).len() > 0 {
        seq![("system"@, system)]
    } else {
        seq![]
    };
    head + ms.map_values(|m: MessageView| wire_turn(m))
}

/// The role and content of each turn.
pub open spec fn view_turns(ts: Seq<WireTurn>) -> Seq<(Seq<char>, Seq<char>)> {
    ts.map_values(|t: WireTurn| (t.role@, t.content@))
}

/// The messages as `/v1/chat/completions` takes them.
pub fn wire(system: &str, messages: &[Message]) -> (turns: Vec<WireTurn>)
    ensures
        view_turns(turns@) == wire_turns(system@, view_messages(messages@)),
{
    let ghost mv = view_messages(messages@);
    let mut turns: Vec<WireTurn> = Vec::new();
    let blank = trim_str(system);
    if blank.as_str().unicode_len() > 0 {
        turns.push(WireTurn { role: String::from_str("system"), content: String::from_str(system) });
    }
    let ghost head = view_turns(turns@);
    proof {
        if trim(system@).len() > 0 {
            assert(head =~= seq![("system"@, system@)]);
        } else {
            assert(head =~= Seq::<(Seq<char>, Seq<char>)>::empty());
        }
    }
    let mut i: usize = 0;
    while i < messages.len()
        invariant
            i <= messages@.len(),
            mv == view_messages(messages@),
            view_turns(turns@) == head + mv.take(i as int).map_values(|m: MessageView| wire_turn(m)),
        decreases messages@.len() - i,
    {
        let m = &messages[i];
        let turn = match m.role {
            Role::System => WireTurn { role: String::from_str("system"), content: m.content.clone() },
            Role::User => WireTurn { role: String::from_str("user"), content: m.content.clone() },
            Role::Assistant => WireTurn { role: String::from_str("assistant"), content: m.content.clone() },
            Role::ToolCall => WireTurn { role: String::from_str("assistant"), content: m.content.clone() },
            Role::ToolResult => WireTurn {
                role: String::from_str("user"),
                content: joined("[Tool result]\n", m.content.as_str()),
            },
        };
        proof {
            assert((turn.role@, turn.content@) == wire_turn(mv[i as int]));
            assert(view_turns(turns@.push(turn)) =~= view_turns(turns@).push((turn.role@, turn.content@)));
            assert(mv.take(i + 1).map_values(|m: MessageView| wire_turn(m)) =~= mv.take(i as int).map_values(
                |m: MessageView| wire_turn(m),
            ).push(wire_turn(mv[i as int])));
        }
        turns.push(turn);
        i += 1;
    }
    proof {
        assert(mv.take(i as int) =~= mv);
    }
    turns
}

/// The turns a prompt is sent as: a single user turn carrying the formatted
/// prompt to the chat endpoint; none to the completions endpoint, which takes
/// the prompt verbatim.
pub fn prompt_turns(endpoint: OpenAiEndpoint, prompt: &str) -> (turns: Option<Vec<WireTurn>>)
    ensures
        match endpoint {
            OpenAiEndpoint::Chat => turns matches Some(t) && view_turns(t@) == seq![("user"@, prompt@)],
            OpenAiEndpoint::Completions => turns is None,
        },
{
    match endpoint {
        OpenAiEndpoint::Chat => {
            let t = vec![WireTurn { role: String::from_str("user"), content: String::from_str(prompt) }];
            proof {
                assert(view_turns(t@) =~= seq![("user"@, prompt@)]);
            }
            Some(t)
        },
        OpenAiEndpoint::Completions => None,
    }
}

// --- The event stream -----------------------------------------------------------

/// What one server-sent event carries.
#[derive(Debug)]
pub struct Piece {
    /// Text the model said, when the event carries some.
    pub text: Option<String>,
    /// The prompt's token count from a usage block.
    pub prompt_tokens: Option<u32>,
    /// The completion's token count from a usage block.
    pub completion_tokens: Option<u32>,
    /// The `[DONE]` sentinel, after which nothing else is coming.
    pub done: bool,
}

/// The mathematical content of a [`Piece`].
pub struct PieceView {
    pub text: Option<Seq<char>>,
    pub prompt_tokens: Option<u32>,
    pub completion_tokens: Option<u32>,
    pub done: bool,
}

impl View for Piece {
    type V = PieceView;

    open spec fn view(&self) -> PieceView {
        PieceView {
            text: match self.text {
                Some(t) => Some(t@),
                None => None,
            },
            prompt_tokens: self.prompt_tokens,
            completion_tokens: self.completion_tokens,
            done: self.done,
        }
    }
}

/// Where an endpoint's chunk puts the new text, within its first choice.
pub open spec fn text_pointer(endpoint: OpenAiEndpoint) -> Seq<char> {
    match endpoint {
        OpenAiEndpoint::Chat => "/delta/content"@,
        OpenAiEndpoint::Completions => "/text"@,
    }
}

/// The text of the chunk's first choice, when the chunk has a `choices`
/// array whose first element holds a string there.
pub open spec fn choice_text(chunk: Seq<char>, endpoint: OpenAiEndpoint) -> Option<Seq<char>> {
    match json_text_at(chunk, "/choices"@) {
        None => None,
        Some(choices) => match json_items(choices) {
            None => None,
            Some(items) => if items.len() > 0 {
                json_str_at(items[0], text_pointer(endpoint))
            } else {
                None
            },
        },
    }
}

/// What an event carries, given what the JSON reading found in it: the
/// first choice's text (none when empty) and the usage counts, each kept as
/// the 32-bit count a generation reports (its low 32 bits).
pub open spec fn piece_of(text: Option<Seq<char>>, prompt: Option<u64>, completion: Option<u64>) -> PieceView {
    PieceView {
        text: match text {
            Some(t) => if t.len() > 0 {
                Some(t)
            } else {
                None
            },
            None => None,
        },
        prompt_tokens: match prompt {
            Some(n) => Some(n as u32),
            None => None,
        },
        completion_tokens: match completion {
            Some(n) => Some(n as u32),
            None => None,
        },
        done: false,
    }
}

/// An event's text is kept exactly as sent whenever it is not empty (a
/// delta of only spaces or line breaks among them); only an empty text is
/// dropped. Its usage counts are kept too.
pub proof fn law_event_text_kept_verbatim(text: Option<Seq<char>>, prompt: Option<u64>, completion: Option<u64>)
    ensures
        text matches Some(t) && t.len() > 0 ==> piece_of(text, prompt, completion).text == text,
        (text is None || text == Some(Seq::<char>::empty())) ==> piece_of(text, prompt, completion).text is None,
        piece_of(text, prompt, completion).prompt_tokens is Some <==> prompt is Some,
        piece_of(text, prompt, completion).completion_tokens is Some <==> completion is Some,
        prompt matches Some(n) ==> piece_of(text, prompt, completion).prompt_tokens == Some(n as u32),
        completion matches Some(n) ==> piece_of(text, prompt, completion).completion_tokens == Some(n as u32),
        !piece_of(text, prompt, completion).done,
{
}

/// What one `data:` payload carries: the `[DONE]` sentinel, or the new text
/// (none when empty) and any usage counts. A payload that does not parse
/// carries nothing.
pub open spec fn event_piece(data: Seq<char>, endpoint: OpenAiEndpoint) -> PieceView {
    let d = trim(data);
    if d == "[DONE]"@ {
        PieceView { text: None, prompt_tokens: None, completion_tokens: None, done: true }
    } else {
        piece_of(
            choice_text(d, endpoint),
            json_u64_at(d, "/usage/prompt_tokens"@),
            json_u64_at(d, "/usage/completion_tokens"@),
        )
    }
}

/// The piece an event carries, given what the JSON reading found in it.
pub fn piece_from_parts(text: Option<String>, prompt: Option<u64>, completion: Option<u64>) -> (p: Piece)
    ensures
        p@ == piece_of(
            match text {
                Some(t) => Some(t@),
                None => None,
            },
            prompt,
            completion,
        ),
{
    let text = match text {
        Some(t) => if t.as_str().unicode_len() > 0 {
            Some(t)
        } else {
            None
        },
        None => None,
    };
    let prompt_tokens = match prompt {
        Some(n) => Some(n as u32),
        None => None,
    };
    let completion_tokens = match completion {
        Some(n) => Some(n as u32),
        None => None,
    };
    Piece { text, prompt_tokens, completion_tokens, done: false }
}

/// Read one `data:` payload. One that will not parse is skipped rather than
/// fatal: servers vary in what they put between events.
pub fn read_event(data: &str, endpoint: OpenAiEndpoint) -> (p: Piece)
    ensures
        p@ == event_piece(data@, endpoint),
{
    let d = trim_str(data);
    proof {
        reveal_strlit("[DONE]");
    }
    if crate::tools::same_text(d.as_str(), "[DONE]") {
        return Piece { text: None, prompt_tokens: None, completion_tokens: None, done: true };
    }
    let text = match json_pointer_text(d.as_str(), "/choices") {
        None => None,
        Some(choices) => match json_array_items(choices.as_str()) {
            None => None,
            Some(items) => if items.len() > 0 {
                match endpoint {
                    OpenAiEndpoint::Chat => json_pointer_str(items[0].as_str(), "/delta/content"),
                    OpenAiEndpoint::Completions => json_pointer_str(items[0].as_str(), "/text"),
                }
            } else {
                None
            },
        },
    };
    let prompt = json_pointer_u64(d.as_str(), "/usage/prompt_tokens");
    let completion = json_pointer_u64(d.as_str(), "/usage/completion_tokens");
    piece_from_parts(text, prompt, completion)
}


/// How many newlines the text holds.
pub open spec fn newlines(s: Seq<char>) -> nat
    decreases s.len(),
{
    if s.len() == 0 {
        0
    } else {
        newlines(s.drop_last()) + if s.last() == '\n' {
            1nat
        } else {
            0nat
        }
    }
}

proof fn lemma_newlines_prefix(s: Seq<char>, k: int)
    requires
        0 <= k <= s.len(),
    ensures
        newlines(s.take(k)) <= newlines(s),
    decreases s.len() - k,
{
    if k < s.len() {
        assert(s.drop_last().take(k) =~= s.take(k));
        lemma_newlines_prefix(s.drop_last(), k);
    } else {
        assert(s.take(k) =~= s);
    }
}

/// The payload of an SSE line: what follows `data: `, when the line has it.
pub open spec fn line_data(line: Seq<char>) -> Option<Seq<char>> {
    if starts_with(line, "data: "@) {
        Some(line.subrange(6, line.len() as int))
    } else {
        None
    }
}

/// The reading of one response stream: the text said so far, how many pieces
/// of it were streamed, the last usage counts seen, whether `[DONE]` arrived,
/// and any partial line still waiting for its newline.
pub struct StreamReader {
    endpoint: OpenAiEndpoint,
    text: String,
    streamed: u32,
    usage_prompt: Option<u32>,
    usage_completion: Option<u32>,
    done: bool,
    pending: Vec<char>,
}

/// The mathematical content of a [`StreamReader`].
pub struct StreamView {
    pub endpoint: OpenAiEndpoint,
    pub text: Seq<char>,
    pub streamed: u32,
    pub usage_prompt: Option<u32>,
    pub usage_completion: Option<u32>,
    pub done: bool,
    pub pending: Seq<char>,
}

impl View for StreamReader {
    type V = StreamView;

    closed spec fn view(&self) -> StreamView {
        StreamView {
            endpoint: self.endpoint,
            text: self.text@,
            streamed: self.streamed,
            usage_prompt: self.usage_prompt,
            usage_completion: self.usage_completion,
            done: self.done,
            pending: self.pending@,
        }
    }
}

/// `a` when it is some, else `b`.
pub open spec fn or_else(a: Option<u32>, b: Option<u32>) -> Option<u32> {
    if a is Some {
        a
    } else {
        b
    }
}

/// The reader after one line's payload (`None` for a line without one), and
/// the text that line said. Usage counts are kept from the latest event that
/// had them; `[DONE]` ends the stream; new text is appended and counted.
/// Once the stream is done nothing changes.
pub open spec fn after_line(st: StreamView, data: Option<Seq<char>>) -> (StreamView, Option<Seq<char>>) {
    if st.done {
        (st, None)
    } else {
        match data {
            None => (st, None),
            Some(d) => {
                let p = event_piece(d, st.endpoint);
                let st1 = StreamView {
                    usage_prompt: or_else(p.prompt_tokens, st.usage_prompt),
                    usage_completion: or_else(p.completion_tokens, st.usage_completion),
                    ..st
                };
                if p.done {
                    (StreamView { done: true, ..st1 }, None)
                } else {
                    match p.text {
                        Some(t) => (
                            StreamView { text: st1.text + t, streamed: (st1.streamed + 1) as u32, ..st1 },
                            Some(t),
                        ),
                        None => (st1, None),
                    }
                }
            },
        }
    }
}

/// The reader after a chunk of bytes, cut into lines at each newline (each
/// line's trailing white space dropped), and the text said, in order.
pub open spec fn after_chunk(st: StreamView, chunk: Seq<char>) -> (StreamView, Seq<Seq<char>>)
    decreases chunk.len(),
{
    if chunk.len() == 0 {
        (st, seq![])
    } else {
        let (st1, said) = after_chunk(st, chunk.drop_last());
        let c = chunk.last();
        if st1.done {
            (st1, said)
        } else if c == '\n' {
            let line = trim_end(st1.pending.push('\n'));
            let (st2, t) = after_line(StreamView { pending: seq![], ..st1 }, line_data(line));
            (
                st2,
                match t {
                    Some(x) => said.push(x),
                    None => said,
                },
            )
        } else {
            (StreamView { pending: st1.pending.push(c), ..st1 }, said)
        }
    }
}

/// What a finished stream generated: the text said, the server's completion
/// count (or the number of pieces streamed when it sent none), and the
/// server's prompt count (or zero).
pub open spec fn stream_result(st: StreamView) -> (Seq<char>, u32, u32) {
    (
        st.text,
        match st.usage_completion {
            Some(n) => n,
            None => st.streamed,
        },
        match st.usage_prompt {
            Some(n) => n,
            None => 0,
        },
    )
}

impl StreamReader {
    /// A reader for a stream from this endpoint, before any event.
    pub fn new(endpoint: OpenAiEndpoint) -> (r: Self)
        ensures
            r@ == (StreamView {
                endpoint,
                text: seq![],
                streamed: 0,
                usage_prompt: None,
                usage_completion: None,
                done: false,
                pending: seq![],
            }),
    {
        StreamReader {
            endpoint,
            text: String::new(),
            streamed: 0,
            usage_prompt: None,
            usage_completion: None,
            done: false,
            pending: Vec::new(),
        }
    }

    /// Whether `[DONE]` has arrived.
    pub fn is_done(&self) -> (b: bool)
        ensures
            b == self@.done,
    {
        self.done
    }

    /// How many pieces of text have been streamed.
    pub fn streamed(&self) -> (n: u32)
        ensures
            n == self@.streamed,
    {
        self.streamed
    }

    /// Take one event payload (`None` for a line that carries none); returns
    /// the text it said, if any.
    fn take_data(&mut self, data: Option<String>) -> (said: Option<String>)
        requires
            old(self)@.streamed < u32::MAX,
        ensures
            ({
                let d = match data {
                    Some(x) => Some(x@),
                    None => None,
                };
                let (st, t) = after_line(old(self)@, d);
                &&& final(self)@ == st
                &&& match t {
                    Some(x) => said matches Some(y) && y@ == x,
                    None => said is None,
                }
            }),
    {
        if self.done {
            return None;
        }
        let d = match data {
            Some(d) => d,
            None => {
                return None;
            },
        };
        let p = read_event(d.as_str(), self.endpoint);
        if p.prompt_tokens.is_some() {
            self.usage_prompt = p.prompt_tokens;
        }
        if p.completion_tokens.is_some() {
            self.usage_completion = p.completion_tokens;
        }
        if p.done {
            self.done = true;
            return None;
        }
        match p.text {
            Some(t) => {
                self.streamed = self.streamed + 1;
                self.text.append(t.as_str());
                Some(t)
            },
            None => None,
        }
    }

    /// Take one line of the stream, without its line ending (as a buffered
    /// line reader hands it over); returns the text it said, if any.
    pub fn line(&mut self, line: &str) -> (said: Option<String>)
        requires
            old(self)@.streamed < u32::MAX,
        ensures
            ({
                let (st, t) = after_line(old(self)@, line_data(line@));
                &&& final(self)@ == st
                &&& match t {
                    Some(x) => said matches Some(y) && y@ == x,
                    None => said is None,
                }
            }),
    {
        proof {
            reveal_strlit("data: ");
        }
        let data = strip_prefix_str(line, "data: ");
        self.take_data(data)
    }

    /// Take a chunk of the stream as it came off the wire: it is cut into
    /// lines at each newline, a partial line waiting for the next chunk.
    /// Returns the text said, in order.
    pub fn chunk(&mut self, chunk: &str) -> (said: Vec<String>)
        requires
            old(self)@.streamed + newlines(chunk@) <= u32::MAX,
        ensures
            ({
                let (st, t) = after_chunk(old(self)@, chunk@);
                &&& final(self)@ == st
                &&& said@.map_values(|s: String| s@) == t
            }),
    {
        let cs = crate::text::chars_of(chunk);
        let ghost st0 = self@;
        let mut said: Vec<String> = Vec::new();
        let mut i: usize = 0;
        while i < cs.len()
            invariant
                i <= cs@.len(),
                cs@ == chunk@,
                st0.streamed + newlines(chunk@) <= u32::MAX,
                self@.streamed <= st0.streamed + newlines(cs@.take(i as int)),
                (self@, said@.map_values(|s: String| s@)) == after_chunk(st0, cs@.take(i as int)),
            decreases cs@.len() - i,
        {
            proof {
                assert(cs@.take(i + 1).drop_last() =~= cs@.take(i as int));
                assert(cs@.take(i + 1).last() == cs@[i as int]);
                lemma_newlines_prefix(cs@, i + 1);
            }
            if self.done {
                i += 1;
                continue;
            }
            let c = cs[i];
            if c == '\n' {
                let ghost p0 = self@.pending;
                let end = crate::text::trim_end_len(&self.pending);
                proof {
                    assert(crate::text::trim_end(p0.push('\n')) == crate::text::trim_end(p0)) by {
                        assert(p0.push('\n').drop_last() =~= p0);
                    }
                }
                let line = crate::text::string_from_range(&self.pending, 0, end);
                proof {
                    assert(line@ =~= crate::text::trim_end(p0.push('\n')));
                }
                self.pending = Vec::new();
                let ghost before = said@.map_values(|s: String| s@);
                let t = self.line(line.as_str());
                match t {
                    Some(x) => {
                        said.push(x);
                        proof {
                            assert(said@.map_values(|s: String| s@) =~= before.push(said@.last()@));
                        }
                    },
                    None => {},
                }
            } else {
                self.pending.push(c);
            }
            i += 1;
        }
        proof {
            assert(cs@.take(i as int) =~= chunk@);
        }
        said
    }

    /// What the stream generated: its text, the server's completion count (or
    /// the number of pieces streamed), and the server's prompt count (or zero).
    pub fn finish(self) -> (g: Generated)
        ensures
            (g.text@, g.tokens_generated, g.prompt_tokens) == stream_result(self@),
    {
        let tokens_generated = match self.usage_completion {
            Some(n) => n,
            None => self.streamed,
        };
        let prompt_tokens = match self.usage_prompt {
            Some(n) => n,
            None => 0,
        };
        Generated { text: self.text, tokens_generated, prompt_tokens }
    }
}

} // verus!
