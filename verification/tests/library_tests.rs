use orion_core::backend::estimate_tokens;
use orion_core::context::{group_into_turns, keep_turns};
use orion_core::template::render_tools;
use orion_core::{
    BuiltinTemplate, plan_prune, prepare_context, ChatMLTemplate, ChatTemplate, ContextConfig, CoreError, Llama3Template, Message,
    PruneStrategy, Role, ToolSchema,
};

fn chars(text: &str) -> u32 {
    text.len() as u32
}

fn config(max_ctx: u32, max_resp: u32) -> ContextConfig {
    ContextConfig { max_context_tokens: max_ctx, max_response_tokens: max_resp, prune_strategy: PruneStrategy::SlidingWindow }
}

fn conversation(turns: usize) -> Vec<Message> {
    let mut messages = Vec::new();
    for i in 0..turns {
        messages.push(Message::user(&format!("u{i}"), &format!("question {i}")));
        messages.push(Message::assistant(&format!("a{i}"), &format!("answer {i}")));
    }
    messages
}

#[test]
fn estimate_is_a_quarter_of_the_chars_and_never_zero() {
    assert_eq!(estimate_tokens(""), 1);
    assert_eq!(estimate_tokens("abc"), 1);
    assert_eq!(estimate_tokens("abcdefgh"), 2);
    assert_eq!(estimate_tokens("héllo wörld!"), 3);
}

#[test]
fn errors_display_with_their_variant() {
    assert_eq!(CoreError::Backend("No model loaded".into()).to_string(), "Backend error: No model loaded");
    assert_eq!(CoreError::BackendUnreachable("down".into()).to_string(), "Backend unreachable: down");
    assert_eq!(CoreError::Context("full".into()).to_string(), "Context error: full");
    assert_eq!(CoreError::Tool("File not found".into()).to_string(), "Tool error: File not found");
    assert_eq!(CoreError::Agent("Empty message".into()).to_string(), "Agent error: Empty message");
    assert_eq!(CoreError::Aborted.to_string(), "Aborted");
}

#[test]
fn message_builders_fill_each_field() {
    let sys = Message::system("msg-1", "You are helpful.");
    assert_eq!((sys.id.as_str(), sys.role, sys.content.as_str()), ("msg-1", Role::System, "You are helpful."));
    let result = Message::tool_result("msg-4", "call-1", "read_file", "file contents...", false);
    assert_eq!(result.role, Role::ToolResult);
    assert_eq!(result.content, "file contents...");
    let r = result.tool_result.as_ref().unwrap();
    assert_eq!((r.tool_call_id.as_str(), r.tool_name.as_str(), r.content.as_str(), r.is_error), ("call-1", "read_file", "file contents...", false));
    let pinned = Message::user("msg-2", "Hello!").pinned();
    assert!(pinned.pinned);
    assert!(pinned.tool_calls.is_empty() && pinned.token_count.is_none());
    assert!(pinned.timestamp > 0);
}

#[test]
fn turns_start_at_each_user_message() {
    let mut messages = vec![Message::assistant("0", "stray greeting")];
    messages.extend(conversation(2));
    messages.push(Message::tool_result("t", "c", "n", "out", false));
    let turns = group_into_turns(&messages);
    assert_eq!(turns, vec![1..3, 3..6]);
}

#[test]
fn a_plan_partitions_the_turns_in_order() {
    let messages = conversation(6);
    let template = ChatMLTemplate;
    let overhead = chars(&template.format_system("s", &[])) + chars(template.assistant_prefix());
    let turn: u32 = messages[0..2].iter().map(|m| chars(&template.format_message(m))).sum();
    let plan = plan_prune(&template, "s", &messages, &[], &config(overhead + turn * 3 + 2, 0), &chars).unwrap();
    assert_eq!(plan.kept, vec![6..8, 8..10, 10..12]);
    assert_eq!(plan.dropped, vec![0..2, 2..4, 4..6]);
}

#[test]
fn the_prompt_fits_the_window() {
    let messages = conversation(8);
    let templates = [
        BuiltinTemplate::ChatML,
        BuiltinTemplate::Llama3,
        BuiltinTemplate::Llama2,
        BuiltinTemplate::Mistral,
        BuiltinTemplate::Alpaca,
        BuiltinTemplate::Vicuna,
        BuiltinTemplate::Gemma,
        BuiltinTemplate::Phi3,
        BuiltinTemplate::DeepSeek,
        BuiltinTemplate::CommandR,
    ];
    let mut fitted = 0;
    for template in templates {
        for budget in [200u32, 260, 400, 1000] {
            let prepared = prepare_context(&template, "sys", &messages, &[], &config(budget + 50, 50), &chars);
            if let Ok(p) = prepared {
                fitted += 1;
                assert!(p.token_count <= budget, "{}: {} tokens over a budget of {budget}", template.name(), p.token_count);
                assert_eq!(p.messages_included + p.messages_pruned, messages.len() as u32);
                assert_eq!(p.messages.len() as u32, p.messages_included);
                assert_eq!(p.system, "sys");
            }
        }
    }
    assert!(fitted >= 30);
}

#[test]
fn keeping_stops_at_the_first_turn_that_does_not_fit() {
    let costs = [5, 1, 9, 2];
    let none = [false, false, false, false];
    // The newest turn always stays; the walk back keeps turns while they fit.
    assert_eq!(keep_turns(14, 2, &costs, &none).unwrap(), vec![false, true, true, true]);
    assert_eq!(keep_turns(30, 2, &costs, &none).unwrap(), vec![true, true, true, true]);
    // Once a turn does not fit, no older one is kept, even one that would.
    assert_eq!(keep_turns(12, 2, &costs, &none).unwrap(), vec![false, false, false, true]);
    // A pinned turn stays whatever its age, and the walk passes over it.
    assert_eq!(keep_turns(14, 2, &costs, &[true, false, false, false]).unwrap(), vec![true, false, false, true]);
    assert_eq!(keep_turns(14, 2, &[1, 5, 2, 2], &[false, true, false, false]).unwrap(), vec![true, true, true, true]);
    match keep_turns(3, 3, &[1], &[false]) {
        Err(CoreError::Context(m)) => {
            assert_eq!(m, "System prompt and tools (3 tokens) exceed available context budget (3 tokens)")
        }
        _ => panic!("expected an overflow"),
    }
}

#[test]
fn tools_render_as_a_pretty_printed_list() {
    let tools = vec![ToolSchema {
        name: "search".into(),
        description: "Search the web".into(),
        parameters: "{\"type\":\"object\"}".into(),
    }];
    assert_eq!(
        render_tools(&tools),
        "\n\nYou have access to the following tools:\n\n### search\nSearch the web\nParameters: {\n  \"type\": \"object\"\n}\n\nTo use a tool, respond with a JSON block:\n```tool_call\n{\"name\": \"tool_name\", \"arguments\": {...}}\n```\n"
    );
    assert_eq!(render_tools(&[]), "");
}

#[test]
fn llama3_headers_wrap_role_and_content() {
    assert_eq!(Llama3Template.header("user", "hi"), "<|start_header_id|>user<|end_header_id|>\n\nhi<|eot_id|>");
}
