use orion_core::agent::{Generated, Step};
use orion_core::{
    Agent, AgentConfig, AgentEvent, ApprovalDecision, ContextConfig, CoreError, Message, PreparedContext,
    PruneStrategy, Role, ToolCall, ToolSchema,
};

const SUMMARY_MARKER: &str = "[Summary of earlier conversation]";

fn words(text: &str) -> u32 {
    text.split_whitespace().count() as u32
}

/// What a test's stand-ins for the backend, the approval hook and the tools do.
struct World<'a> {
    replies: Vec<&'a str>,
    summary: &'a str,
    ready: bool,
    review: &'a dyn Fn(&ToolCall) -> ApprovalDecision,
    execute: &'a dyn Fn(&ToolCall) -> Result<String, CoreError>,
    abort_after_tools: bool,
    fail_generation: Option<&'a dyn Fn(usize) -> Option<CoreError>>,
}

fn approve(_: &ToolCall) -> ApprovalDecision {
    ApprovalDecision::Approve
}

fn ok_tool(_: &ToolCall) -> Result<String, CoreError> {
    Ok("ok".to_string())
}

/// Adds two integers from `{ "a": .., "b": .. }`.
fn add_tool(call: &ToolCall) -> Result<String, CoreError> {
    let args: serde_json::Value = serde_json::from_str(&call.arguments).unwrap();
    let a = args.get("a").and_then(|v| v.as_i64()).unwrap_or(0);
    let b = args.get("b").and_then(|v| v.as_i64()).unwrap_or(0);
    Ok((a + b).to_string())
}

fn world<'a>(replies: Vec<&'a str>) -> World<'a> {
    World {
        replies,
        summary: "CANNED REPLY",
        ready: true,
        review: &approve,
        execute: &ok_tool,
        abort_after_tools: false,
        fail_generation: None,
    }
}

/// Drive one prompt through the agent's steps, as a host would, returning
/// every event and every context handed out for generation.
fn drive(agent: &mut Agent, w: &World, prompt: &str) -> (Vec<AgentEvent>, Vec<PreparedContext>) {
    let mut events = Vec::new();
    let mut contexts = Vec::new();
    let (mut run, begun) = agent.begin_prompt(prompt).expect("a prompt");
    events.extend(begun);
    if let Some(request) = agent.summary_request(w.ready, &words) {
        events.extend(agent.apply_summary(&request, w.summary));
    }
    let mut generation = 0usize;
    let mut step = Step::NextTurn;
    loop {
        let (more, next) = match step {
            Step::NextTurn => agent.next_turn(&mut run, w.ready, &words),
            Step::Generate(context) => {
                contexts.push(context);
                let failure = w.fail_generation.and_then(|f| f(generation));
                let text = w.replies[generation.min(w.replies.len() - 1)];
                generation += 1;
                let outcome = match failure {
                    Some(e) => Err(e),
                    None => Ok(Generated { text: text.to_string(), tokens_generated: words(text), prompt_tokens: 0 }),
                };
                agent.generation_done(&mut run, outcome)
            }
            Step::Review(call) => agent.review_done(&mut run, (w.review)(&call)),
            Step::Execute(call) => agent.tool_done(&mut run, (w.execute)(&call)),
            Step::CheckAbort => run.abort_checked(w.abort_after_tools),
            Step::Finished => break,
        };
        events.extend(more);
        step = next;
    }
    (events, contexts)
}

fn tool(name: &str) -> ToolSchema {
    ToolSchema {
        name: name.into(),
        description: "A tool".into(),
        parameters: "{\"type\": \"object\", \"properties\": {}}".into(),
    }
}

fn call_block(name: &str) -> String {
    format!("```tool_call\n{{\"name\": \"{name}\", \"arguments\": {{}}}}\n```")
}

/// `expected` GenerationStats events, all before a single trailing `AgentEnd`.
fn assert_stats_contract(events: &[AgentEvent], expected: usize) {
    let stats: Vec<usize> = events
        .iter()
        .enumerate()
        .filter(|(_, e)| matches!(e, AgentEvent::GenerationStats { .. }))
        .map(|(i, _)| i)
        .collect();
    assert_eq!(stats.len(), expected, "expected {expected} GenerationStats, got {}", stats.len());
    let ends: Vec<usize> = events
        .iter()
        .enumerate()
        .filter(|(_, e)| matches!(e, AgentEvent::AgentEnd { .. }))
        .map(|(i, _)| i)
        .collect();
    assert_eq!(ends.len(), 1, "exactly one AgentEnd per run");
    let end = ends[0];
    assert_eq!(end, events.len() - 1, "AgentEnd must be the final event");
    assert!(stats.iter().all(|&i| i < end), "every GenerationStats must precede AgentEnd");
}

// --- The tool loop ---------------------------------------------------------------

#[test]
fn runs_tool_then_returns_final_answer() {
    let mut agent = Agent::new(AgentConfig::default());
    agent.set_tools(vec![tool("add")]);
    let first = "```tool_call\n{\"name\": \"add\", \"arguments\": {\"a\": 2, \"b\": 3}}\n```";
    let mut w = world(vec![first, "The sum is 5."]);
    w.execute = &add_tool;
    let (events, _) = drive(&mut agent, &w, "What is 2 + 3?");

    let started = events.iter().any(|e| matches!(e, AgentEvent::ToolExecStart { tool_name, .. } if tool_name == "add"));
    assert!(started, "expected ToolExecStart for add");
    let ended_ok = events
        .iter()
        .any(|e| matches!(e, AgentEvent::ToolExecEnd { result, .. } if result.content == "5" && !result.is_error));
    assert!(ended_ok, "expected ToolExecEnd carrying the result 5");

    let msgs = agent.messages();
    let last = msgs.last().unwrap();
    assert_eq!(last.role, Role::Assistant);
    assert_eq!(last.content, "The sum is 5.");
    assert!(last.tool_calls.is_empty());
    assert!(msgs.iter().any(|m| m.role == Role::ToolResult && m.content == "5"));

    let agent_end = events
        .iter()
        .rev()
        .find_map(|e| match e {
            AgentEvent::AgentEnd { messages } => Some(messages.len()),
            _ => None,
        })
        .unwrap();
    assert_eq!(agent_end, 3, "AgentEnd should report assistant+result+assistant");
}

#[test]
fn no_tools_registered_skips_parsing() {
    let mut agent = Agent::new(AgentConfig::default());
    let reply = "```tool_call\n{\"name\": \"add\", \"arguments\": {}}\n```";
    let (events, _) = drive(&mut agent, &world(vec![reply]), "hi");
    assert!(!events.iter().any(|e| matches!(e, AgentEvent::ToolExecStart { .. })));
    let last = agent.messages().last().unwrap();
    assert_eq!(last.role, Role::Assistant);
    assert_eq!(last.content, reply);
    assert!(last.tool_calls.is_empty());
}

#[test]
fn unknown_tool_yields_error_result_then_continues() {
    let mut agent = Agent::new(AgentConfig::default());
    agent.set_tools(vec![tool("add")]);
    let w = world(vec!["```tool_call\n{\"name\": \"unknown\", \"arguments\": {}}\n```", "Sorry, I could not do that."]);
    let (events, _) = drive(&mut agent, &w, "do something");
    let error_result = events.iter().any(|e| {
        matches!(e, AgentEvent::ToolExecEnd { result, .. }
            if result.is_error && result.content == "Tool error: unknown tool: unknown")
    });
    assert!(error_result, "unknown tool should produce an error result");
    assert_eq!(agent.messages().last().unwrap().content, "Sorry, I could not do that.");
}

#[test]
fn max_tool_iterations_guard_trips() {
    let mut agent = Agent::new(AgentConfig { max_tool_iterations: 3, ..AgentConfig::default() });
    agent.set_tools(vec![tool("add")]);
    let w = world(vec!["```tool_call\n{\"name\": \"add\", \"arguments\": {\"a\": 1, \"b\": 1}}\n```"]);
    let (events, _) = drive(&mut agent, &w, "loop forever");
    let warned = events.iter().any(|e| {
        matches!(e, AgentEvent::Warning { message }
            if message == "Stopped after 3 tool iterations without a final answer")
    });
    assert!(warned, "guard should emit a Warning when iterations are exhausted");
    let turn_starts = events.iter().filter(|e| matches!(e, AgentEvent::TurnStart)).count();
    assert_eq!(turn_starts, 3, "should stop after max_tool_iterations turns");
}

// --- Usage metering ----------------------------------------------------------------

#[test]
fn one_stats_for_a_tool_free_answer() {
    let mut agent = Agent::new(AgentConfig::default());
    let (events, _) = drive(&mut agent, &world(vec!["Just an answer."]), "hello");
    assert_stats_contract(&events, 1);
}

#[test]
fn one_stats_per_iteration_across_a_tool_loop() {
    let mut agent = Agent::new(AgentConfig::default());
    agent.set_tools(vec![tool("noop")]);
    let block = call_block("noop");
    let (events, _) = drive(&mut agent, &world(vec![&block, "All done."]), "run the tool");
    assert_stats_contract(&events, 2);
}

#[test]
fn one_stats_per_iteration_when_max_iterations_trips() {
    let mut agent = Agent::new(AgentConfig { max_tool_iterations: 3, ..AgentConfig::default() });
    agent.set_tools(vec![tool("noop")]);
    let block = call_block("noop");
    let (events, _) = drive(&mut agent, &world(vec![&block]), "loop");
    assert_stats_contract(&events, 3);
}

// --- Approval ------------------------------------------------------------------------

fn deny_act(call: &ToolCall) -> ApprovalDecision {
    if call.name == "act" || call.name == "block" {
        ApprovalDecision::Deny { reason: format!("{} is not permitted", call.name) }
    } else {
        ApprovalDecision::Approve
    }
}

#[test]
fn approve_runs_the_tool() {
    let mut agent = Agent::new(AgentConfig::default());
    agent.set_tools(vec![tool("act")]);
    let block = call_block("act");
    let (events, _) = drive(&mut agent, &world(vec![&block, "done"]), "go");
    assert!(events.iter().any(|e| matches!(e, AgentEvent::ToolExecEnd { .. })));
    assert!(!events.iter().any(|e| matches!(e, AgentEvent::ToolDenied { .. })));
}

#[test]
fn deny_skips_execution_and_feeds_the_model() {
    let mut agent = Agent::new(AgentConfig::default());
    agent.set_tools(vec![tool("act")]);
    let block = call_block("act");
    let mut w = world(vec![&block, "Understood, I will not do that."]);
    w.review = &deny_act;
    w.execute = &|_: &ToolCall| -> Result<String, CoreError> { panic!("a denied tool must not run") };
    let (events, _) = drive(&mut agent, &w, "go");

    let denied = events.iter().any(|e| {
        matches!(e, AgentEvent::ToolDenied { tool_name, reason, .. }
            if tool_name == "act" && reason.contains("not permitted"))
    });
    assert!(denied, "expected a ToolDenied event");
    assert!(!events.iter().any(|e| matches!(e, AgentEvent::ToolExecStart { .. })));

    let refusal = agent.messages().iter().find(|m| m.role == Role::ToolResult);
    let refusal = refusal.expect("a tool-result message should be recorded for the denial");
    assert!(refusal.content.contains("not permitted"));
    assert!(refusal.tool_result.as_ref().unwrap().is_error);
    assert_eq!(agent.messages().last().unwrap().content, "Understood, I will not do that.");
}

#[test]
fn mixed_decisions_in_one_turn() {
    let mut agent = Agent::new(AgentConfig::default());
    agent.set_tools(vec![tool("allow"), tool("block")]);
    let both = "```tool_call\n[{\"name\": \"allow\", \"arguments\": {}}, {\"name\": \"block\", \"arguments\": {}}]\n```";
    let mut w = world(vec![both, "all handled"]);
    w.review = &deny_act;
    w.execute = &|call: &ToolCall| -> Result<String, CoreError> {
        assert_eq!(call.name, "allow", "only the allowed tool runs");
        Ok("ran".to_string())
    };
    let (events, _) = drive(&mut agent, &w, "do both");

    let exec_ends =
        events.iter().filter(|e| matches!(e, AgentEvent::ToolExecEnd { tool_name, .. } if tool_name == "allow")).count();
    let denials =
        events.iter().filter(|e| matches!(e, AgentEvent::ToolDenied { tool_name, .. } if tool_name == "block")).count();
    assert_eq!(exec_ends, 1);
    assert_eq!(denials, 1);
    let results = agent.messages().iter().filter(|m| m.role == Role::ToolResult).count();
    assert_eq!(results, 2);
}

// --- Message-native backends -------------------------------------------------------

fn odin() -> Agent {
    Agent::new(AgentConfig { system_prompt: "You are Odin, a watcher.".into(), ..AgentConfig::default() })
}

#[test]
fn a_chat_backend_is_handed_messages_and_never_a_formatted_prompt() {
    let mut agent = odin();
    let (_, contexts) = drive(&mut agent, &world(vec!["Atlantis."]), "What is here?");
    assert_eq!(agent.messages().last().unwrap().content, "Atlantis.");
    let context = &contexts[0];
    assert_eq!(context.system, "You are Odin, a watcher.");
    assert_eq!(context.messages.len(), 1);
    assert_eq!(context.messages[0].role, Role::User);
    assert_eq!(context.messages[0].content, "What is here?");
    for message in &context.messages {
        assert!(!message.content.contains("<|im_start|>"));
    }
    assert!(!context.system.contains("<|im_start|>"));
}

#[test]
fn a_thread_arrives_as_separate_turns_in_order() {
    let mut agent = odin();
    agent.replace_messages(vec![Message::user("1", "Where is it?"), Message::assistant("2", "Under the sea.")]);
    let (_, contexts) = drive(&mut agent, &world(vec!["Atlantis."]), "And who lives there?");
    let turns: Vec<(&Role, &str)> = contexts[0].messages.iter().map(|m| (&m.role, m.content.as_str())).collect();
    assert_eq!(
        turns,
        vec![
            (&Role::User, "Where is it?"),
            (&Role::Assistant, "Under the sea."),
            (&Role::User, "And who lives there?"),
        ],
    );
}

#[test]
fn the_reply_lands_in_the_conversation() {
    let mut agent = odin();
    drive(&mut agent, &world(vec!["Atlantis."]), "What is here?");
    let kept: Vec<&str> = agent.messages().iter().map(|m| m.content.as_str()).collect();
    assert_eq!(kept, vec!["What is here?", "Atlantis."]);
}

#[test]
fn the_system_text_carries_the_tools_without_markup() {
    let mut agent = odin();
    agent.set_tools(vec![tool("add")]);
    let (_, contexts) = drive(&mut agent, &world(vec!["fine"]), "hi");
    assert!(contexts[0].system.starts_with("You are Odin, a watcher.\n\nYou have access to the following tools:"));
    assert!(contexts[0].system.contains("### add"));
    assert!(!contexts[0].system.contains("<|im_start|>"));
}

// --- Summarize ----------------------------------------------------------------------------

fn long_history() -> Vec<Message> {
    let mut history = Vec::new();
    for i in 0..10 {
        history.push(Message::user(
            &format!("msg-{}", i * 2 + 1),
            &format!("user message number {i} carrying several extra words here"),
        ));
        history.push(Message::assistant(
            &format!("msg-{}", i * 2 + 2),
            &format!("assistant reply number {i} carrying several extra words here"),
        ));
    }
    history
}

fn tight(strategy: PruneStrategy) -> AgentConfig {
    AgentConfig {
        context_config: ContextConfig { max_context_tokens: 90, max_response_tokens: 20, prune_strategy: strategy },
        ..AgentConfig::default()
    }
}

#[test]
fn summarize_folds_old_turns_into_pinned_summary() {
    let mut agent = Agent::new(tight(PruneStrategy::Summarize));
    agent.replace_messages(long_history());
    let (events, _) = drive(&mut agent, &world(vec!["CANNED REPLY"]), "the brand new latest question");

    assert!(events.iter().any(|e| matches!(e, AgentEvent::Warning { .. })), "expected a summarization Warning");
    let msgs = agent.messages();
    let summaries: Vec<_> = msgs.iter().filter(|m| m.pinned && m.content.starts_with(SUMMARY_MARKER)).collect();
    assert_eq!(summaries.len(), 1, "exactly one pinned summary expected");
    assert!(summaries[0].content.contains("CANNED REPLY"));
    assert!(!msgs.iter().any(|m| m.content.contains("user message number 0")));
    assert!(msgs.iter().any(|m| m.content.contains("the brand new latest question")));
    assert_eq!(msgs.last().unwrap().content, "CANNED REPLY");
}

#[test]
fn sliding_window_does_not_summarize() {
    let mut agent = Agent::new(tight(PruneStrategy::SlidingWindow));
    agent.replace_messages(long_history());
    let _ = drive(&mut agent, &world(vec!["CANNED REPLY"]), "latest question");
    assert!(!agent.messages().iter().any(|m| m.content.starts_with(SUMMARY_MARKER)));
}

#[test]
fn a_second_summary_consolidates_the_first() {
    let mut agent = Agent::new(tight(PruneStrategy::Summarize));
    agent.replace_messages(long_history());
    drive(&mut agent, &world(vec!["CANNED REPLY"]), "the brand new latest question");
    let mut more = agent.messages().to_vec();
    more.extend(long_history().into_iter().map(|mut m| {
        m.id = format!("x{}", m.id);
        m
    }));
    agent.replace_messages(more);
    let mut w = world(vec!["CANNED REPLY"]);
    w.summary = "SECOND SUMMARY";
    let (events, _) = drive(&mut agent, &w, "one more question");
    let warning = events.iter().find_map(|e| match e {
        AgentEvent::Warning { message } => Some(message.clone()),
        _ => None,
    });
    assert!(warning.unwrap().starts_with("Summarized "));
    let summaries: Vec<_> =
        agent.messages().iter().filter(|m| m.pinned && m.content.starts_with(SUMMARY_MARKER)).collect();
    assert_eq!(summaries.len(), 1);
    assert_eq!(summaries[0].content, format!("{SUMMARY_MARKER}\nSECOND SUMMARY"));
}

#[test]
fn a_blank_summary_changes_nothing() {
    let mut agent = Agent::new(tight(PruneStrategy::Summarize));
    agent.replace_messages(long_history());
    let before = agent.messages().len();
    agent.begin_prompt("question").unwrap();
    let request = agent.summary_request(true, &words).expect("a pass is due");
    assert!(!request.remove.is_empty());
    assert!(request.prompt.contains("Conversation excerpt:\nUser: user message number 0"));
    assert!(agent.apply_summary(&request, "   \n").is_empty());
    assert_eq!(agent.messages().len(), before + 1);
    assert!(agent.summary_request(false, &words).is_none(), "an unready backend summarizes nothing");
}

// --- Failures, aborts and the conversation --------------------------------------------

#[test]
fn an_empty_prompt_is_refused() {
    let mut agent = Agent::new(AgentConfig::default());
    match agent.begin_prompt("  \n\t ") {
        Err(CoreError::Agent(m)) => assert_eq!(m, "Empty message"),
        _ => panic!("expected an Agent error"),
    }
    assert!(agent.messages().is_empty());
}

#[test]
fn the_prompt_is_trimmed_and_events_open_the_run() {
    let mut agent = Agent::new(AgentConfig::default());
    let (_, events) = agent.begin_prompt("  hello  ").unwrap();
    assert_eq!(agent.messages()[0].content, "hello");
    assert_eq!(agent.messages()[0].id, "msg-1");
    assert!(matches!(events[0], AgentEvent::AgentStart));
    assert!(matches!(&events[1], AgentEvent::MessageStart { message } if message.content == "hello"));
    assert!(matches!(&events[2], AgentEvent::MessageEnd { message } if message.content == "hello"));
}

#[test]
fn an_unready_backend_fails_the_first_turn_and_takes_back_the_prompt() {
    let mut agent = Agent::new(AgentConfig::default());
    agent.replace_messages(vec![Message::user("a", "earlier")]);
    let mut w = world(vec!["never"]);
    w.ready = false;
    let (events, contexts) = drive(&mut agent, &w, "hi");
    assert!(contexts.is_empty());
    assert!(events.iter().any(|e| matches!(e, AgentEvent::Error { message } if message == "Backend error: No model loaded")));
    assert!(matches!(events.last().unwrap(), AgentEvent::AgentEnd { messages } if messages.is_empty()));
    let kept: Vec<&str> = agent.messages().iter().map(|m| m.content.as_str()).collect();
    assert_eq!(kept, vec!["earlier"]);
}

#[test]
fn a_context_overflow_is_reported_as_an_error_event() {
    let mut agent = Agent::new(AgentConfig {
        context_config: ContextConfig { max_context_tokens: 5, max_response_tokens: 0, prune_strategy: PruneStrategy::SlidingWindow },
        ..AgentConfig::default()
    });
    let (events, _) = drive(&mut agent, &world(vec!["x"]), "hi");
    let error = events.iter().find_map(|e| match e {
        AgentEvent::Error { message } => Some(message.clone()),
        _ => None,
    });
    assert!(error.unwrap().starts_with("Context error: System prompt and tools"));
    assert!(agent.messages().is_empty());
}

#[test]
fn a_later_turn_failure_keeps_the_tool_context() {
    let mut agent = Agent::new(AgentConfig::default());
    agent.set_tools(vec![tool("noop")]);
    let block = call_block("noop");
    let mut w = world(vec![&block, "never"]);
    let fail_second = |i: usize| if i == 1 { Some(CoreError::Backend("boom".to_string())) } else { None };
    w.fail_generation = Some(&fail_second);
    let (events, _) = drive(&mut agent, &w, "go");
    assert!(events.iter().any(|e| matches!(e, AgentEvent::Error { message } if message == "Backend error: boom")));
    let roles: Vec<Role> = agent.messages().iter().map(|m| m.role).collect();
    assert_eq!(roles, vec![Role::User, Role::Assistant, Role::ToolResult]);
}

#[test]
fn an_aborted_generation_records_an_empty_reply() {
    let mut agent = Agent::new(AgentConfig::default());
    let mut w = world(vec!["never"]);
    let abort = |_: usize| Some(CoreError::Aborted);
    w.fail_generation = Some(&abort);
    let (events, _) = drive(&mut agent, &w, "go");
    let last = agent.messages().last().unwrap();
    assert_eq!(last.role, Role::Assistant);
    assert_eq!(last.content, "");
    assert!(matches!(events.last().unwrap(), AgentEvent::AgentEnd { messages } if messages.len() == 1));
    assert!(!events.iter().any(|e| matches!(e, AgentEvent::GenerationStats { .. } | AgentEvent::Error { .. })));
}

#[test]
fn an_abort_during_tools_ends_the_run_after_the_turn() {
    let mut agent = Agent::new(AgentConfig::default());
    agent.set_tools(vec![tool("noop")]);
    let block = call_block("noop");
    let mut w = world(vec![&block, "never"]);
    w.abort_after_tools = true;
    let (events, contexts) = drive(&mut agent, &w, "go");
    assert_eq!(contexts.len(), 1);
    assert!(matches!(events[events.len() - 2], AgentEvent::TurnEnd { .. }));
    assert!(matches!(events.last().unwrap(), AgentEvent::AgentEnd { messages } if messages.len() == 2));
}

#[test]
fn tool_calls_are_numbered_under_the_reply_id() {
    let mut agent = Agent::new(AgentConfig::default());
    agent.set_tools(vec![tool("a"), tool("b")]);
    let both = "```tool_call\n[{\"name\": \"a\", \"arguments\": {}}, {\"name\": \"b\", \"arguments\": {\"x\": 1}}]\n```";
    drive(&mut agent, &world(vec![both, "done"]), "go");
    let reply = &agent.messages()[1];
    assert_eq!(reply.id, "msg-2");
    let ids: Vec<&str> = reply.tool_calls.iter().map(|c| c.id.as_str()).collect();
    assert_eq!(ids, vec!["msg-2-call-1", "msg-2-call-2"]);
    let result = agent.messages()[3].tool_result.as_ref().unwrap();
    assert_eq!(result.tool_call_id, "msg-2-call-2");
}

#[test]
fn restored_ids_are_never_minted_again() {
    let mut agent = Agent::new(AgentConfig::default());
    agent.replace_messages(vec![
        Message::user("msg-7", "a"),
        Message::assistant("msg-x", "b"),
        Message::user("msg-+3", "c"),
        Message::user("other", "d"),
    ]);
    let (_, _) = agent.begin_prompt("next").unwrap();
    assert_eq!(agent.messages().last().unwrap().id, "msg-8");
}

#[test]
fn set_pinned_finds_the_first_message_by_id() {
    let mut agent = Agent::new(AgentConfig::default());
    agent.replace_messages(vec![Message::user("1", "a"), Message::assistant("2", "b"), Message::user("2", "c")]);
    assert!(agent.set_pinned("2", true));
    let pins: Vec<bool> = agent.messages().iter().map(|m| m.pinned).collect();
    assert_eq!(pins, vec![false, true, false]);
    assert!(!agent.set_pinned("9", true));
    assert!(agent.set_pinned("2", false));
    assert!(agent.messages().iter().all(|m| !m.pinned));
}

#[test]
fn settings_change_on_the_fly() {
    let mut agent = Agent::new(AgentConfig::default());
    assert_eq!(agent.config().system_prompt, "You are a helpful assistant.");
    assert_eq!(agent.config().max_tool_iterations, 8);
    agent.set_system_prompt("You are a pirate.");
    agent.set_prune_strategy(PruneStrategy::Summarize);
    agent.set_template(orion_core::BuiltinTemplate::Llama3);
    assert_eq!(agent.config().system_prompt, "You are a pirate.");
    assert_eq!(agent.config().context_config.prune_strategy, PruneStrategy::Summarize);
    assert_eq!(*agent.template(), orion_core::BuiltinTemplate::Llama3);
    agent.replace_messages(vec![Message::user("1", "x")]);
    agent.clear();
    assert!(agent.messages().is_empty());
}

#[test]
fn a_turn_ends_with_one_result_per_call_in_order() {
    let mut agent = Agent::new(AgentConfig::default());
    agent.set_tools(vec![tool("add")]);
    let first = "```tool_call\n{\"name\": \"add\", \"arguments\": {\"a\": 1, \"b\": 1}}\n```\n\
                 ```tool_call\n{\"name\": \"add\", \"arguments\": {\"a\": 2, \"b\": 2}}\n```";
    let mut w = world(vec![first, "Done."]);
    w.execute = &add_tool;
    let (events, _) = drive(&mut agent, &w, "Add twice");
    let (message, results) = events
        .iter()
        .find_map(|e| match e {
            AgentEvent::TurnEnd { message, tool_results } if !tool_results.is_empty() => {
                Some((message.clone(), tool_results.clone()))
            }
            _ => None,
        })
        .expect("a turn with tool results");
    assert_eq!(message.tool_calls.len(), 2);
    assert_eq!(results.len(), 2);
    for (call, result) in message.tool_calls.iter().zip(results.iter()) {
        assert_eq!(result.tool_call_id, call.id);
    }
    assert_eq!(results[0].content, "2");
    assert_eq!(results[1].content, "4");
}

#[test]
fn a_run_reports_one_stats_per_turn_start() {
    let mut agent = Agent::new(AgentConfig::default());
    agent.set_tools(vec![tool("noop")]);
    let block = call_block("noop");
    let (events, _) = drive(&mut agent, &world(vec![&block, &block, "All done."]), "run the tool twice");
    let starts = events.iter().filter(|e| matches!(e, AgentEvent::TurnStart)).count();
    let stats = events.iter().filter(|e| matches!(e, AgentEvent::GenerationStats { .. })).count();
    assert_eq!(starts, 3);
    assert_eq!(stats, starts);
    assert!(matches!(events.last(), Some(AgentEvent::AgentEnd { .. })));
}
