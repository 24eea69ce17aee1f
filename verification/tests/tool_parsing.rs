use orion_core::tools::{parse_tool_calls, fenced_blocks};

fn json(text: &str) -> serde_json::Value {
    serde_json::from_str(text).unwrap()
}

#[test]
fn parses_fenced_tool_call() {
    let text = "Sure.\n```tool_call\n{\"name\": \"add\", \"arguments\": {\"a\": 2, \"b\": 3}}\n```";
    let calls = parse_tool_calls(text);
    assert_eq!(calls.len(), 1);
    assert_eq!(calls[0].name, "add");
    assert_eq!(json(&calls[0].arguments), json("{\"a\": 2, \"b\": 3}"));
}

#[test]
fn parses_array_of_calls() {
    let text = "```tool_call\n[{\"name\": \"a\", \"arguments\": {}}, {\"name\": \"b\", \"arguments\": {\"x\": 1}}]\n```";
    let calls = parse_tool_calls(text);
    assert_eq!(calls.len(), 2);
    assert_eq!(calls[0].name, "a");
    assert_eq!(calls[1].name, "b");
    assert_eq!(json(&calls[1].arguments), json("{\"x\": 1}"));
}

#[test]
fn parses_json_tagged_fence() {
    let text = "```json\n{\"name\": \"now\", \"arguments\": {}}\n```";
    let calls = parse_tool_calls(text);
    assert_eq!(calls.len(), 1);
    assert_eq!(calls[0].name, "now");
}

#[test]
fn parses_bare_object_whole_message() {
    let text = "  {\"name\": \"now\", \"arguments\": {}}  ";
    let calls = parse_tool_calls(text);
    assert_eq!(calls.len(), 1);
    assert_eq!(calls[0].name, "now");
}

#[test]
fn missing_arguments_defaults_to_empty_object() {
    let text = "```tool_call\n{\"name\": \"now\"}\n```";
    let calls = parse_tool_calls(text);
    assert_eq!(calls.len(), 1);
    assert_eq!(json(&calls[0].arguments), json("{}"));
}

#[test]
fn collects_multiple_fenced_blocks() {
    let text = "```tool_call\n{\"name\": \"a\", \"arguments\": {}}\n```\nthen\n```tool_call\n{\"name\": \"b\", \"arguments\": {}}\n```";
    let calls = parse_tool_calls(text);
    assert_eq!(calls.len(), 2);
}

#[test]
fn skips_malformed_and_nameless() {
    let text = "```tool_call\nnot json at all\n```";
    assert!(parse_tool_calls(text).is_empty());
    let nameless = "```tool_call\n{\"arguments\": {}}\n```";
    assert!(parse_tool_calls(nameless).is_empty());
}

#[test]
fn plain_prose_yields_no_calls() {
    let text = "Here is some JSON you might use: it has a name field somewhere.";
    assert!(parse_tool_calls(text).is_empty());
    // A normal JSON answer without `arguments` must not be treated as a call.
    let answer = "{\"name\": \"Ada\", \"age\": 36}";
    assert!(parse_tool_calls(answer).is_empty());
}

#[test]
fn handles_unterminated_fence() {
    let text = "```tool_call\n{\"name\": \"now\", \"arguments\": {}}";
    let calls = parse_tool_calls(text);
    assert_eq!(calls.len(), 1);
    assert_eq!(calls[0].name, "now");
}

#[test]
fn fenced_blocks_carry_tag_and_body() {
    let blocks = fenced_blocks("intro\n  ```JSON \n{\"a\": 1}\n```\nmid\n```\nraw");
    assert_eq!(blocks.len(), 2);
    assert_eq!(blocks[0].tag, "json");
    assert_eq!(blocks[0].body, "{\"a\": 1}\n");
    assert_eq!(blocks[1].tag, "");
    assert_eq!(blocks[1].body, "raw");
}

#[test]
fn call_names_are_trimmed_and_blank_names_skipped() {
    let calls = parse_tool_calls("```tool_call\n[{\"name\": \"  spaced \"}, {\"name\": \"   \"}]\n```");
    assert_eq!(calls.len(), 1);
    assert_eq!(calls[0].name, "spaced");
}

#[test]
fn bare_object_needs_both_keys() {
    assert!(parse_tool_calls("{\"arguments\": {}}").is_empty());
    let calls = parse_tool_calls("{\"name\": \"x\", \"arguments\": {\"k\": [1, 2]}}");
    assert_eq!(calls.len(), 1);
    assert_eq!(json(&calls[0].arguments), json("{\"k\": [1, 2]}"));
}
