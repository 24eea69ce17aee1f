use orion_core::backends::{
    client_build_failed, endpoint_url, http_status_error, read_event, request_failed, stream_failed, wire,
    OpenAiConfig, OpenAiEndpoint, StreamReader,
};
use orion_core::{CoreError, Message, Role};

const SSE_STREAM: &str = "\
data: {\"choices\":[{\"delta\":{\"content\":\"Hello\"}}]}\n\
\n\
data: {\"choices\":[{\"delta\":{\"content\":\", \"}}]}\n\
\n\
data: {\"choices\":[{\"delta\":{\"content\":\"world!\"}}]}\n\
\n\
data: {\"choices\":[],\"usage\":{\"prompt_tokens\":11,\"completion_tokens\":3,\"total_tokens\":14}}\n\
\n\
data: [DONE]\n\
\n";

/// Feed a response body line by line, as a buffered line reader hands it over.
fn read_lines(endpoint: OpenAiEndpoint, body: &str) -> (Vec<String>, orion_core::agent::Generated) {
    let mut reader = StreamReader::new(endpoint);
    let mut said = Vec::new();
    for line in body.lines() {
        if let Some(piece) = reader.line(line) {
            said.push(piece);
        }
        if reader.is_done() {
            break;
        }
    }
    (said, reader.finish())
}

/// Two content deltas, a usage block and the sentinel.
fn streamed(head: &str, tail: &str) -> String {
    format!(
        "data: {{\"choices\":[{{\"delta\":{{\"content\":\"{head}\"}}}}]}}\n\n\
         data: {{\"choices\":[{{\"delta\":{{\"content\":\"{tail}\"}}}}]}}\n\n\
         data: {{\"choices\":[{{\"delta\":{{}}}}],\"usage\":{{\"prompt_tokens\":11,\"completion_tokens\":2}}}}\n\n\
         data: [DONE]\n\n"
    )
}

#[test]
fn streams_tokens_and_maps_usage() {
    let (said, result) = read_lines(OpenAiEndpoint::Chat, SSE_STREAM);
    // Tokens were streamed in order.
    assert_eq!(said.concat(), "Hello, world!");
    // The full text is assembled.
    assert_eq!(result.text, "Hello, world!");
    // Counts come from the server's usage block, not the streamed-chunk count.
    assert_eq!(result.prompt_tokens, 11);
    assert_eq!(result.tokens_generated, 3);
    // The default endpoint posts to chat/completions.
    let config = OpenAiConfig::new("http://127.0.0.1:9/v1", "test-model");
    assert_eq!(endpoint_url(&config.base_url, config.endpoint), "http://127.0.0.1:9/v1/chat/completions");
}

#[test]
fn completions_endpoint_sends_raw_prompt() {
    let stream = "\
data: {\"choices\":[{\"text\":\"raw \"}]}\n\
\n\
data: {\"choices\":[{\"text\":\"answer\"}]}\n\
\n\
data: {\"choices\":[],\"usage\":{\"prompt_tokens\":5,\"completion_tokens\":2,\"total_tokens\":7}}\n\
\n\
data: [DONE]\n\
\n";
    let (_, result) = read_lines(OpenAiEndpoint::Completions, stream);
    assert_eq!(result.text, "raw answer");
    assert_eq!(result.tokens_generated, 2);
    assert_eq!(result.prompt_tokens, 5);
    let config = OpenAiConfig::new("http://127.0.0.1:9/v1", "test-model").with_endpoint(OpenAiEndpoint::Completions);
    assert_eq!(endpoint_url(&config.base_url, config.endpoint), "http://127.0.0.1:9/v1/completions");
}

#[test]
fn falls_back_to_streamed_count_without_usage() {
    let no_usage = "\
data: {\"choices\":[{\"delta\":{\"content\":\"a\"}}]}\n\
\n\
data: {\"choices\":[{\"delta\":{\"content\":\"b\"}}]}\n\
\n\
data: [DONE]\n\
\n";
    let (_, result) = read_lines(OpenAiEndpoint::Chat, no_usage);
    assert_eq!(result.text, "ab");
    assert_eq!(result.tokens_generated, 2);
    assert_eq!(result.prompt_tokens, 0);
}

#[test]
fn endpoint_error_maps_to_backend() {
    match http_status_error(500, "{\"error\":\"boom\"}") {
        CoreError::Backend(msg) => {
            assert!(msg.contains("500"), "message should carry the status: {msg}");
            assert_eq!(msg, "endpoint returned HTTP 500: {\"error\":\"boom\"}");
        }
        other => panic!("expected Backend, got {other:?}"),
    }
}

#[test]
fn unreachable_endpoint_maps_to_backend_unreachable() {
    let err = request_failed("http://127.0.0.1:9/v1/chat/completions", "connection refused");
    match err {
        CoreError::BackendUnreachable(msg) => {
            assert_eq!(msg, "request to http://127.0.0.1:9/v1/chat/completions failed: connection refused")
        }
        other => panic!("expected BackendUnreachable, got {other:?}"),
    }
}

#[test]
fn a_conversation_is_sent_as_turns_and_not_as_one_user_message() {
    let mut reader = StreamReader::new(OpenAiEndpoint::Chat);
    reader.chunk(&streamed("Atl", "antis."));
    let answer = reader.finish();
    assert_eq!(answer.text, "Atlantis.");
    // The server's own counts win over what was streamed.
    assert_eq!(answer.tokens_generated, 2);
    assert_eq!(answer.prompt_tokens, 11);

    let turns = wire(
        "You are Odin.",
        &[
            Message::user("1", "Where is it?"),
            Message::assistant("2", "Under the sea."),
            Message::user("3", "And who lives there?"),
        ],
    );
    let turns: Vec<(&str, &str)> = turns.iter().map(|t| (t.role.as_str(), t.content.as_str())).collect();
    assert_eq!(
        turns,
        vec![
            ("system", "You are Odin."),
            ("user", "Where is it?"),
            ("assistant", "Under the sea."),
            ("user", "And who lives there?"),
        ],
    );
    assert!(!turns.iter().any(|(_, c)| c.contains("<|im_start|>")));
}

#[test]
fn the_pieces_are_handed_over_as_they_arrive() {
    let mut reader = StreamReader::new(OpenAiEndpoint::Chat);
    let said = reader.chunk(&streamed("Atl", "antis."));
    assert_eq!(said, vec!["Atl", "antis."]);
    // An empty system prompt is not sent as an empty turn.
    let turns = wire("", &[Message::user("1", "Where?")]);
    assert_eq!(turns.len(), 1);
    assert_eq!(turns[0].role, "user");
}

#[test]
fn a_tool_result_is_carried_as_an_observation_rather_than_a_tool_role() {
    let mut result = Message::user("2", "42");
    result.role = Role::ToolResult;
    let turns = wire("", &[Message::user("1", "Add them"), result]);
    assert_eq!(turns[1].role, "user");
    assert!(turns[1].content.contains("[Tool result]"));
    assert!(turns[1].content.contains("42"));
    assert_eq!(turns[1].content, "[Tool result]\n42");
}

#[test]
fn an_event_split_across_chunks_is_read_once_whole() {
    let body = streamed("Atl", "antis.");
    let (a, b) = body.split_at(17);
    let mut reader = StreamReader::new(OpenAiEndpoint::Chat);
    let mut said = reader.chunk(a);
    assert!(said.is_empty());
    said.extend(reader.chunk(b));
    assert_eq!(said, vec!["Atl", "antis."]);
    assert!(reader.is_done());
    assert_eq!(reader.streamed(), 2);
}

#[test]
fn nothing_is_read_after_done() {
    let mut reader = StreamReader::new(OpenAiEndpoint::Chat);
    let said = reader.chunk("data: [DONE]\n\ndata: {\"choices\":[{\"delta\":{\"content\":\"late\"}}]}\n");
    assert!(said.is_empty());
    assert_eq!(reader.line("data: {\"choices\":[{\"delta\":{\"content\":\"later\"}}]}"), None);
    let g = reader.finish();
    assert_eq!(g.text, "");
    assert_eq!(g.tokens_generated, 0);
}

#[test]
fn crlf_lines_and_unparsable_payloads_are_tolerated() {
    let mut reader = StreamReader::new(OpenAiEndpoint::Chat);
    let said = reader.chunk(": keep-alive\r\ndata: not json\r\ndata: {\"choices\":[{\"delta\":{\"content\":\"ok\"}}]}\r\n");
    assert_eq!(said, vec!["ok"]);
}

#[test]
fn read_event_recognises_done_usage_and_empty_text() {
    let done = read_event("  [DONE]  ", OpenAiEndpoint::Chat);
    assert!(done.done);
    let usage = read_event("{\"choices\":[{\"delta\":{\"content\":\"\"}}],\"usage\":{\"prompt_tokens\":4294967297,\"completion_tokens\":7}}", OpenAiEndpoint::Chat);
    assert!(!usage.done);
    assert_eq!(usage.text, None);
    // A count beyond 32 bits keeps its low 32 bits.
    assert_eq!(usage.prompt_tokens, Some(1));
    assert_eq!(usage.completion_tokens, Some(7));
    let null_usage = read_event("{\"choices\":[{\"text\":\"t\"}],\"usage\":null}", OpenAiEndpoint::Completions);
    assert_eq!(null_usage.text.as_deref(), Some("t"));
    assert_eq!(null_usage.prompt_tokens, None);
    // Only an array's first choice counts; an object keyed "0" is no array.
    let keyed = read_event("{\"choices\":{\"0\":{\"delta\":{\"content\":\"x\"}}}}", OpenAiEndpoint::Chat);
    assert_eq!(keyed.text, None);
}

#[test]
fn config_builders_set_each_field() {
    let config = OpenAiConfig::new("http://localhost:8080/v1", "local-model")
        .with_api_key("sk-...")
        .with_endpoint(OpenAiEndpoint::Completions)
        .with_timeout(std::time::Duration::from_secs(30));
    assert_eq!(config.base_url, "http://localhost:8080/v1");
    assert_eq!(config.model, "local-model");
    assert_eq!(config.api_key.as_deref(), Some("sk-..."));
    assert_eq!(config.endpoint, OpenAiEndpoint::Completions);
    assert_eq!(config.timeout, std::time::Duration::from_secs(30));
    let plain = OpenAiConfig::new("u", "m");
    assert_eq!(plain.api_key, None);
    assert_eq!(plain.endpoint, OpenAiEndpoint::Chat);
    assert_eq!(plain.timeout, std::time::Duration::from_secs(120));
}

#[test]
fn transport_errors_carry_their_cause() {
    match stream_failed("reset") {
        CoreError::BackendUnreachable(m) => assert_eq!(m, "stream read failed: reset"),
        other => panic!("got {other:?}"),
    }
    match client_build_failed("tls") {
        CoreError::Backend(m) => assert_eq!(m, "failed to build HTTP client: tls"),
        other => panic!("got {other:?}"),
    }
}
