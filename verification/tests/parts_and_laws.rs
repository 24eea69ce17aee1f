use orion_core::agent::{run_reply, Step};
use orion_core::backends::{piece_from_parts, prompt_turns};
use orion_core::template::render_tools;
use orion_core::tools::call_from_parts;
use orion_core::{
    plan_prune, prepare_context, Agent, AgentConfig, AgentEvent, ChatMLTemplate, ChatTemplate, ContextConfig, CoreError,
    Message, OpenAiEndpoint, PruneStrategy, Role, ToolSchema,
};

fn chars(text: &str) -> u32 {
    text.len() as u32
}

fn config(max_ctx: u32, max_resp: u32) -> ContextConfig {
    ContextConfig { max_context_tokens: max_ctx, max_response_tokens: max_resp, prune_strategy: PruneStrategy::SlidingWindow }
}

fn conversation(turns: usize) -> Vec<Message> {
    let mut messages = Vec::new();
    for i in 0..turns {
        messages.push(Message::user(&format!("u{i}"), &format!("question {i}")));
        messages.push(Message::assistant(&format!("a{i}"), &format!("answer {i}")));
    }
    messages
}

#[test]
fn call_parts_trim_the_name_and_default_the_arguments() {
    let call = call_from_parts(Some("  search \n".to_string()), None).expect("a call");
    assert_eq!(call.name, "search");
    assert_eq!(call.arguments, "{}");
    let call = call_from_parts(Some("add".to_string()), Some("{\"a\":1}".to_string())).expect("a call");
    assert_eq!(call.name, "add");
    assert_eq!(call.arguments, "{\"a\":1}");
}

#[test]
fn call_parts_without_a_name_give_no_call() {
    assert!(call_from_parts(None, Some("{}".to_string())).is_none());
    assert!(call_from_parts(Some("   ".to_string()), Some("{}".to_string())).is_none());
}

#[test]
fn piece_parts_drop_empty_text_and_keep_usage() {
    let piece = piece_from_parts(Some(String::new()), Some(12), None);
    assert_eq!(piece.text, None);
    assert_eq!(piece.prompt_tokens, Some(12));
    assert_eq!(piece.completion_tokens, None);
    assert!(!piece.done);
    let piece = piece_from_parts(Some("hi".to_string()), None, Some(7));
    assert_eq!(piece.text.as_deref(), Some("hi"));
    assert_eq!(piece.prompt_tokens, None);
    assert_eq!(piece.completion_tokens, Some(7));
}

#[test]
fn a_chat_endpoint_sends_the_prompt_as_one_user_turn() {
    let turns = prompt_turns(OpenAiEndpoint::Chat, "<|im_start|>user\nhi").expect("a message list");
    assert_eq!(turns.len(), 1);
    assert_eq!(turns[0].role, "user");
    assert_eq!(turns[0].content, "<|im_start|>user\nhi");
    assert!(prompt_turns(OpenAiEndpoint::Completions, "hi").is_none());
}

#[test]
fn a_run_answers_with_its_last_assistant_message() {
    let reply = Message::assistant("m2", "the answer");
    let events = vec![
        AgentEvent::AgentStart,
        AgentEvent::TurnStart,
        AgentEvent::AgentEnd { messages: vec![Message::assistant("m1", "first"), reply.clone()] },
    ];
    let got = run_reply(&events).expect("a reply");
    assert_eq!(got.id, "m2");
    assert_eq!(got.content, "the answer");
}

#[test]
fn a_run_that_reported_an_error_answers_with_it() {
    let events = vec![
        AgentEvent::AgentStart,
        AgentEvent::TurnStart,
        AgentEvent::Error { message: "Backend error: No model loaded".to_string() },
        AgentEvent::AgentEnd { messages: vec![] },
    ];
    match run_reply(&events) {
        Err(CoreError::Agent(m)) => assert_eq!(m, "Backend error: No model loaded"),
        other => panic!("expected the reported error, got {other:?}"),
    }
    match run_reply(&[AgentEvent::AgentStart, AgentEvent::AgentEnd { messages: vec![] }]) {
        Err(CoreError::Agent(m)) => assert_eq!(m, "no reply"),
        other => panic!("expected no reply, got {other:?}"),
    }
}

#[test]
fn only_the_summarize_strategy_summarizes() {
    let mut agent = Agent::new(AgentConfig::default());
    assert!(!agent.summarizes());
    agent.set_prune_strategy(PruneStrategy::Summarize);
    assert!(agent.summarizes());
}

#[test]
fn a_blank_prompt_is_refused_with_the_counter_at_its_limit() {
    let mut agent = Agent::new(AgentConfig::default());
    match agent.begin_prompt(" \t ") {
        Err(CoreError::Agent(m)) => assert_eq!(m, "Empty message"),
        _ => panic!("expected the empty-message error"),
    }
    assert!(agent.messages().is_empty());
}

#[test]
fn parameters_that_are_not_json_render_as_written() {
    let tools = vec![ToolSchema { name: "t".into(), description: "d".into(), parameters: "not json".into() }];
    let text = render_tools(&tools);
    assert!(text.contains("### t\nd\nParameters: not json\n"), "{text}");
}

#[test]
fn plan_ranges_are_whole_ordered_disjoint_and_cover_the_conversation() {
    let mut messages = conversation(6);
    messages[4].pinned = true;
    let plan = plan_prune(&ChatMLTemplate, "sys", &messages, &[], &config(400, 20), &chars).expect("a plan");
    let mut seen = vec![0usize; messages.len()];
    for r in plan.kept.iter().chain(plan.dropped.iter()) {
        assert_eq!(messages[r.start].role, Role::User);
        for i in r.clone() {
            seen[i] += 1;
            if i > r.start {
                assert_ne!(messages[i].role, Role::User);
            }
        }
    }
    assert!(seen.iter().all(|n| *n == 1), "{seen:?}");
    assert!(plan.kept.windows(2).all(|w| w[0].end <= w[1].start));
    assert!(plan.dropped.windows(2).all(|w| w[0].end <= w[1].start));
    assert_eq!(plan.kept.last().map(|r| r.end), Some(messages.len()));
    assert!(plan.kept.contains(&(4..6)), "the pinned turn survives");
    assert!(!plan.dropped.is_empty());
}

#[test]
fn plan_budget_holds_and_the_newest_dropped_turn_did_not_fit() {
    let messages = conversation(6);
    let template = ChatMLTemplate;
    let cfg = config(200, 20);
    let plan = plan_prune(&template, "sys", &messages, &[], &cfg, &chars).expect("a plan");
    let cost = |r: &std::ops::Range<usize>| -> u32 {
        messages[r.clone()].iter().map(|m| chars(&orion_core::ChatTemplate::format_message(&template, m))).sum()
    };
    let overhead = chars(&orion_core::ChatTemplate::format_system(&template, "sys", &[]))
        + chars(orion_core::ChatTemplate::assistant_prefix(&template));
    let budget = 180 - overhead;
    let kept: u32 = plan.kept.iter().map(cost).sum();
    assert!(kept <= budget);
    let newest_dropped = plan.dropped.last().expect("something dropped");
    assert!(cost(newest_dropped) > budget - kept);
}

#[test]
fn two_plans_for_the_same_conversation_agree() {
    let messages = conversation(5);
    let a = plan_prune(&ChatMLTemplate, "sys", &messages, &[], &config(160, 20), &chars).unwrap();
    let b = plan_prune(&ChatMLTemplate, "sys", &messages, &[], &config(160, 20), &chars).unwrap();
    assert_eq!(a.kept, b.kept);
    assert_eq!(a.dropped, b.dropped);
}

#[test]
fn planning_fails_on_the_first_check_that_fails() {
    let messages = conversation(2);
    match plan_prune(&ChatMLTemplate, "sys", &messages, &[], &config(20, 10), &chars) {
        Err(CoreError::Context(m)) => assert!(m.starts_with("System prompt and tools"), "{m}"),
        _ => panic!("expected the system check to fail"),
    }
    match plan_prune(&ChatMLTemplate, "sys", &messages, &[], &config(80, 10), &chars) {
        Err(CoreError::Context(m)) => assert!(m.starts_with("Latest message"), "{m}"),
        _ => panic!("expected the latest-turn check to fail"),
    }
    let mut pinned = conversation(3);
    pinned[0].pinned = true;
    pinned[2].pinned = true;
    match plan_prune(&ChatMLTemplate, "sys", &pinned, &[], &config(210, 10), &chars) {
        Err(CoreError::Context(m)) => assert!(m.starts_with("Pinned messages"), "{m}"),
        _ => panic!("expected the pinned check to fail"),
    }
}

#[test]
fn preparing_follows_the_plan_and_fits_the_window() {
    let messages = conversation(6);
    let cfg = config(200, 20);
    let plan = plan_prune(&ChatMLTemplate, "sys", &messages, &[], &cfg, &chars).unwrap();
    let prepared = prepare_context(&ChatMLTemplate, "sys", &messages, &[], &cfg, &chars).unwrap();
    let kept: Vec<Message> = plan.kept.iter().flat_map(|r| messages[r.clone()].iter().cloned()).collect();
    assert_eq!(prepared.prompt, orion_core::ChatTemplate::format(&ChatMLTemplate, "sys", &kept, &[]));
    assert_eq!(prepared.token_count, chars(&prepared.prompt));
    assert_eq!(prepared.messages_included as usize, kept.len());
    assert_eq!((prepared.messages_included + prepared.messages_pruned) as usize, messages.len());
    assert!(prepared.token_count <= 180);
    let failing = prepare_context(&ChatMLTemplate, "sys", &messages, &[], &config(20, 10), &chars);
    let planned = plan_prune(&ChatMLTemplate, "sys", &messages, &[], &config(20, 10), &chars);
    match (failing, planned) {
        (Err(CoreError::Context(a)), Err(CoreError::Context(b))) => assert_eq!(a, b),
        _ => panic!("expected the same context error"),
    }
}

/// A template a user writes: plain `role: content` lines. The trait's
/// specification functions are what the verifier reasons with; compiled code
/// never calls them, so an implementation outside the verifier gives them any
/// body.
struct PlainTemplate;

impl ChatTemplate for PlainTemplate {
    fn spec_name(&self) -> vstd::seq::Seq<char> {
        vstd::seq::Seq::empty()
    }

    fn spec_format(
        &self,
        _system_prompt: vstd::seq::Seq<char>,
        _messages: vstd::seq::Seq<orion_core::messages::MessageView>,
        _tools: vstd::seq::Seq<orion_core::tools::ToolSchemaView>,
    ) -> vstd::seq::Seq<char> {
        vstd::seq::Seq::empty()
    }

    fn spec_format_system(
        &self,
        _system_prompt: vstd::seq::Seq<char>,
        _tools: vstd::seq::Seq<orion_core::tools::ToolSchemaView>,
    ) -> vstd::seq::Seq<char> {
        vstd::seq::Seq::empty()
    }

    fn spec_format_message(&self, _message: orion_core::messages::MessageView) -> vstd::seq::Seq<char> {
        vstd::seq::Seq::empty()
    }

    fn spec_assistant_prefix(&self) -> vstd::seq::Seq<char> {
        vstd::seq::Seq::empty()
    }

    fn name(&self) -> &str {
        "plain"
    }

    fn format(&self, system_prompt: &str, messages: &[Message], tools: &[ToolSchema]) -> String {
        let mut s = self.format_system(system_prompt, tools);
        for m in messages {
            s.push_str(&self.format_message(m));
        }
        s.push_str(self.assistant_prefix());
        s
    }

    fn format_system(&self, system_prompt: &str, _tools: &[ToolSchema]) -> String {
        format!("system: {system_prompt}\n")
    }

    fn format_message(&self, message: &Message) -> String {
        match message.role {
            Role::User => format!("user: {}\n", message.content),
            Role::Assistant => format!("assistant: {}\n", message.content),
            _ => String::new(),
        }
    }

    fn assistant_prefix(&self) -> &str {
        "assistant: "
    }
}

#[test]
fn a_user_written_template_runs_the_agent() {
    let mut agent = Agent::with_template(AgentConfig::default(), PlainTemplate);
    assert_eq!(agent.template().name(), "plain");
    let (mut run, _) = agent.begin_prompt("hello").unwrap();
    let (_, step) = agent.next_turn(&mut run, true, &chars);
    match step {
        Step::Generate(p) => {
            assert_eq!(p.prompt, "system: You are a helpful assistant.\nuser: hello\nassistant: ");
            assert_eq!(p.token_count, chars(&p.prompt));
        }
        _ => panic!("expected a prepared context"),
    }
}
