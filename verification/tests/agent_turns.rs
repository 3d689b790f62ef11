use minimal_agent::agent::{map_provider_error, Agent, ToolAction, ToolOutcome, TurnOutcome};
use minimal_agent::anthropic;
use minimal_agent::config::{LlmSettings, PolicyConfig, SchemaType};
use minimal_agent::agent::extract_command;
use minimal_agent::json::{parse_json_str, to_json_string, Json};
use minimal_agent::openai;
use minimal_agent::types::{BashResult, Role};

fn settings(schema_type: SchemaType, provider: &str, base_url: &str) -> LlmSettings {
    LlmSettings {
        provider: provider.to_owned(),
        schema_type,
        model: "test-model".to_owned(),
        temperature_milli: 700,
        max_tokens: 4096,
        api_key: Some("test-key".to_owned()),
        base_url: base_url.to_owned(),
    }
}

fn plain_policy() -> PolicyConfig {
    PolicyConfig {
        default_action: "ask".to_owned(),
        deny_patterns: Vec::new(),
        auto_commands: Vec::new(),
    }
}

fn openai_agent() -> Agent {
    Agent::new(
        settings(SchemaType::OpenAI, "openai", "https://api.openai.com/v1"),
        "You are a helpful assistant.".to_owned(),
        plain_policy(),
        "/tmp".to_owned(),
    )
}

#[test]
fn reply_without_tool_calls_appends_one_assistant_message() {
    let mut agent = openai_agent();
    let before = agent.messages.len();
    let body = "{\"choices\":[{\"message\":{\"role\":\"assistant\",\"content\":\"hi\"}}],\
        \"usage\":{\"prompt_tokens\":10,\"completion_tokens\":5,\"total_tokens\":15}}";
    let outcome = agent.apply_provider_response(200, body).expect("turn applies");
    assert!(matches!(outcome, TurnOutcome::Done));
    assert_eq!(agent.messages.len(), before + 1);
    assert!(matches!(agent.messages.last().unwrap().role, Role::Assistant));
    assert_eq!(agent.messages.last().unwrap().content, "hi");
    let t = agent.get_tokens();
    assert_eq!((t.prompt, t.completion, t.total), (10, 5, 15));
}

#[test]
fn reply_with_tool_call_then_final_reply_appends_in_order() {
    let mut agent = openai_agent();
    let body1 = "{\"choices\":[{\"message\":{\"role\":\"assistant\",\"content\":\"\",\
        \"tool_calls\":[{\"id\":\"call_1\",\"type\":\"function\",\
        \"function\":{\"name\":\"bash\",\"arguments\":\"{\\\"command\\\":\\\"ls\\\"}\"}}]}}]}";
    let outcome = agent.apply_provider_response(200, body1).expect("turn applies");
    let calls = match outcome {
        TurnOutcome::ToolCalls(calls) => calls,
        TurnOutcome::Done => panic!("expected tool calls"),
    };
    assert_eq!(calls.len(), 1);
    assert_eq!(calls[0].name, "bash");

    let action = agent.plan_tool_call(&calls[0]);
    let command = match action {
        ToolAction::Run { command } => command,
        _ => panic!("ls is on the builtin allow list"),
    };
    assert_eq!(command, "ls");

    let result = BashResult { stdout: "a.txt\n".to_owned(), stderr: "".to_owned(), code: 0 };
    agent.record_tool_outcome(&calls[0].id, &ToolOutcome::Ran { command, result });

    let body2 = "{\"choices\":[{\"message\":{\"role\":\"assistant\",\"content\":\"done\"}}]}";
    let outcome2 = agent.apply_provider_response(200, body2).expect("turn applies");
    assert!(matches!(outcome2, TurnOutcome::Done));

    let roles: Vec<&Role> = agent.messages.iter().map(|m| &m.role).collect();
    assert!(matches!(roles[0], Role::System));
    assert!(matches!(roles[1], Role::Assistant));
    assert!(matches!(roles[2], Role::Tool));
    assert!(matches!(roles[3], Role::Assistant));
    assert_eq!(agent.messages.len(), 4);
    assert_eq!(agent.messages[2].tool_call_id.as_deref(), Some("call_1"));
    // the recorded payload is the pretty-printed structured result
    assert!(agent.messages[2].content.contains("\"command\": \"ls\""));
    assert!(agent.messages[2].content.contains("\"exitCode\": 0"));
}

#[test]
fn unauthorized_reply_is_categorized_and_leaves_history_alone() {
    let mut agent = openai_agent();
    let before = agent.messages.len();
    let body = "{\"error\":{\"message\":\"bad key\"}}";
    let err = agent.apply_provider_response(401, body).expect_err("401 fails the turn");
    assert_eq!(err, "Invalid API key.");
    assert_eq!(agent.messages.len(), before);
}

#[test]
fn error_body_on_success_status_still_fails() {
    let mut agent = openai_agent();
    let body = "{\"choices\":[],\"error\":{\"message\":\"quota exhausted\"}}";
    let err = agent.apply_provider_response(200, body).expect_err("embedded error fails");
    assert_eq!(err, "quota exhausted");
}

#[test]
fn malformed_body_is_a_decode_error() {
    let mut agent = openai_agent();
    let err = agent.apply_provider_response(200, "not json").expect_err("must fail");
    assert_eq!(err, "Invalid response");
}

#[test]
fn unknown_tool_and_missing_command_are_answered_diagnostically() {
    let mut agent = openai_agent();
    let body = "{\"choices\":[{\"message\":{\"role\":\"assistant\",\"content\":\"\",\
        \"tool_calls\":[\
        {\"id\":\"a\",\"type\":\"function\",\"function\":{\"name\":\"python\",\"arguments\":\"{}\"}},\
        {\"id\":\"b\",\"type\":\"function\",\"function\":{\"name\":\"bash\",\"arguments\":\"{}\"}}]}}]}";
    let outcome = agent.apply_provider_response(200, body).expect("turn applies");
    let calls = match outcome {
        TurnOutcome::ToolCalls(calls) => calls,
        TurnOutcome::Done => panic!("expected tool calls"),
    };
    assert!(matches!(agent.plan_tool_call(&calls[0]), ToolAction::UnknownTool));
    assert!(matches!(agent.plan_tool_call(&calls[1]), ToolAction::NoCommand));

    agent.record_tool_outcome(&calls[0].id, &ToolOutcome::UnknownTool {
        name: calls[0].name.clone(),
    });
    agent.record_tool_outcome(&calls[1].id, &ToolOutcome::NoCommand);
    let n = agent.messages.len();
    assert_eq!(agent.messages[n - 2].content, "Unknown tool: python");
    assert_eq!(agent.messages[n - 1].content, "No command provided.");
}

#[test]
fn openai_round_trip_through_the_wire_text() {
    // encode a history carrying one tool call, pull the encoded call back
    // out of the request body, synthesize a matching reply, and decode it
    let mut agent = openai_agent();
    let body1 = "{\"choices\":[{\"message\":{\"role\":\"assistant\",\"content\":\"\",\
        \"tool_calls\":[{\"id\":\"c9\",\"type\":\"function\",\
        \"function\":{\"name\":\"bash\",\"arguments\":\"{\\\"command\\\":\\\"pwd\\\"}\"}}]}}]}";
    agent.apply_provider_response(200, body1).expect("applies");

    let parts = openai::encode_request(&agent.settings, &agent.messages, &agent.tools)
        .expect("encodes");
    let req: serde_json::Value = serde_json::from_str(&parts.body).expect("body is JSON");
    assert_eq!(req["model"], "test-model");
    assert_eq!(req["temperature"], 0.7);
    assert_eq!(req["tool_choice"], "auto");
    assert_eq!(req["tools"][0]["function"]["name"], "bash");
    let encoded_call = &req["messages"][1]["tool_calls"][0];
    assert_eq!(encoded_call["id"], "c9");

    let synthetic = format!(
        "{{\"choices\":[{{\"message\":{{\"role\":\"assistant\",\"content\":null,\
         \"tool_calls\":[{}]}}}}]}}",
        serde_json::to_string(encoded_call).unwrap()
    );
    let resp = openai::decode_openai(200, &synthetic).expect("decodes");
    assert_eq!(resp.message.tool_calls.len(), 1);
    assert_eq!(resp.message.tool_calls[0].name, "bash");
    assert_eq!(
        to_json_string(&resp.message.tool_calls[0].input),
        "{\"command\":\"pwd\"}"
    );
}

#[test]
fn anthropic_round_trip_through_the_wire_text() {
    let mut agent = Agent::new(
        settings(SchemaType::Anthropic, "anthropic", "https://api.anthropic.com"),
        "You are a helpful assistant.".to_owned(),
        plain_policy(),
        "/tmp".to_owned(),
    );
    agent.add_user_message("list the files".to_owned());
    let body1 = "{\"content\":[{\"type\":\"text\",\"text\":\"sure\"},\
        {\"type\":\"tool_use\",\"id\":\"t1\",\"name\":\"bash\",\
        \"input\":{\"command\":\"ls -la\"}}],\
        \"usage\":{\"input_tokens\":7,\"output_tokens\":3}}";
    let outcome = agent.apply_provider_response(200, body1).expect("applies");
    assert!(matches!(outcome, TurnOutcome::ToolCalls(_)));
    let t = agent.get_tokens();
    assert_eq!((t.prompt, t.completion, t.total), (7, 3, 10));

    let parts = anthropic::encode_request(&agent.settings, &agent.messages, &agent.tools)
        .expect("encodes");
    assert_eq!(parts.url, "https://api.anthropic.com/v1/messages");
    let req: serde_json::Value = serde_json::from_str(&parts.body).expect("body is JSON");
    assert_eq!(req["stream"], false);
    assert_eq!(req["tool_choice"]["type"], "auto");
    // the system prompt went into the system block, not the turn array
    assert_eq!(req["messages"][0]["role"], "user");
    let block = &req["messages"][1]["content"][1];
    assert_eq!(block["type"], "tool_use");

    let synthetic = format!(
        "{{\"content\":[{{\"type\":\"tool_use\",\"id\":\"{}\",\"name\":\"{}\",\"input\":{}}}]}}",
        block["id"].as_str().unwrap(),
        block["name"].as_str().unwrap(),
        serde_json::to_string(&block["input"]).unwrap()
    );
    let resp = anthropic::decode_anthropic(200, &synthetic).expect("decodes");
    assert_eq!(resp.message.tool_calls.len(), 1);
    assert_eq!(resp.message.tool_calls[0].name, "bash");
    assert_eq!(
        to_json_string(&resp.message.tool_calls[0].input),
        "{\"command\":\"ls -la\"}"
    );
}

#[test]
fn anthropic_headers_and_system_blocks() {
    let agent = Agent::new(
        settings(SchemaType::Anthropic, "anthropic", "https://api.anthropic.com/v1/"),
        "Prompt.".to_owned(),
        plain_policy(),
        "/tmp".to_owned(),
    );
    let parts = anthropic::encode_request(&agent.settings, &agent.messages, &agent.tools)
        .expect("encodes");
    // the /v1 suffix is stripped before the endpoint path is appended
    assert_eq!(parts.url, "https://api.anthropic.com/v1/messages");
    let names: Vec<&str> = parts.headers.iter().map(|h| h.0.as_str()).collect();
    assert_eq!(
        names,
        ["Content-Type", "anthropic-version", "x-api-key", "anthropic-beta"]
    );
    let req: serde_json::Value = serde_json::from_str(&parts.body).unwrap();
    assert_eq!(req["system"][0]["text"], "Prompt.");
    assert_eq!(req["system"][0]["cache_control"]["type"], "ephemeral");
    let summary = req["system"][1]["text"].as_str().unwrap();
    assert!(summary.starts_with("\n\n## Available Tools\n\n"));
    assert!(summary.contains("\"name\": \"bash\""));
}

#[test]
fn minimax_alias_disables_message_caching_but_keeps_beta_header() {
    let mut agent = Agent::new(
        settings(SchemaType::Anthropic, "minimax", "https://api.minimax.io/anthropic"),
        "Prompt.".to_owned(),
        plain_policy(),
        "/tmp".to_owned(),
    );
    agent.add_user_message("hello".to_owned());
    let parts = anthropic::encode_request(&agent.settings, &agent.messages, &agent.tools)
        .expect("encodes");
    let names: Vec<&str> = parts.headers.iter().map(|h| h.0.as_str()).collect();
    assert!(names.contains(&"anthropic-beta"));
    let req: serde_json::Value = serde_json::from_str(&parts.body).unwrap();
    // without caching the user turn stays a plain string
    assert_eq!(req["messages"][0]["content"], "hello");

    let mut agent2 = Agent::new(
        settings(SchemaType::Anthropic, "anthropic", "https://api.anthropic.com"),
        "Prompt.".to_owned(),
        plain_policy(),
        "/tmp".to_owned(),
    );
    agent2.add_user_message("hello".to_owned());
    let parts2 = anthropic::encode_request(&agent2.settings, &agent2.messages, &agent2.tools)
        .expect("encodes");
    let req2: serde_json::Value = serde_json::from_str(&parts2.body).unwrap();
    // with caching the latest non-assistant message becomes a marked block
    assert_eq!(req2["messages"][0]["content"][0]["cache_control"]["type"], "ephemeral");
}

#[test]
fn provider_error_categories() {
    assert_eq!(map_provider_error("x (status 401)".to_owned()), "Invalid API key.");
    assert_eq!(
        map_provider_error("rate (status 429)".to_owned()),
        "Rate limit exceeded. Wait and retry."
    );
    assert_eq!(
        map_provider_error("tcp connect error ECONNREFUSED".to_owned()),
        "Network error. Check your connection."
    );
    assert_eq!(map_provider_error("something else".to_owned()), "something else");
}

#[test]
fn clear_keeps_the_system_message_and_the_tokens() {
    let mut agent = openai_agent();
    agent.add_user_message("hi".to_owned());
    let body = "{\"choices\":[{\"message\":{\"role\":\"assistant\",\"content\":\"ok\"}}],\
        \"usage\":{\"prompt_tokens\":1,\"completion_tokens\":1,\"total_tokens\":2}}";
    agent.apply_provider_response(200, body).expect("applies");
    agent.clear();
    assert_eq!(agent.messages.len(), 1);
    assert!(matches!(agent.messages[0].role, Role::System));
    assert_eq!(agent.get_tokens().total, 2);
    assert_eq!(agent.get_model(), "test-model");
}

#[test]
fn string_shaped_tool_input_still_yields_a_command() {
    let obj = parse_json_str("{\"command\":\"echo hi\"}").unwrap();
    assert_eq!(extract_command(&obj), "echo hi");
    let wrapped = Json::of_str("{\"command\":\"echo hi\"}");
    assert_eq!(extract_command(&wrapped), "echo hi");
    let plain = Json::of_str("echo hi");
    assert_eq!(extract_command(&plain), "echo hi");
    assert_eq!(extract_command(&Json::Null), "");
}

#[test]
fn anthropic_thinking_blocks_are_joined() {
    let body = "{\"content\":[{\"type\":\"thinking\",\"thinking\":\"a\"},\
        {\"type\":\"thinking\",\"thinking\":\"b\"},{\"type\":\"text\",\"text\":\"x\"},\
        {\"type\":\"text\",\"text\":\"y\"},{\"type\":\"unknown\"}]}";
    let resp = anthropic::decode_anthropic(200, body).expect("decodes");
    assert_eq!(resp.message.thinking.as_deref(), Some("ab"));
    assert_eq!(resp.message.content, "xy");
    assert!(resp.usage.is_none());
}

#[test]
fn reply_without_usage_leaves_tokens_alone() {
    let mut agent = openai_agent();
    let body = "{\"choices\":[{\"message\":{\"role\":\"assistant\",\"content\":\"hi\"}}]}";
    agent.apply_provider_response(200, body).expect("applies");
    assert_eq!(agent.get_tokens().total, 0);
}

#[test]
fn empty_choices_list_yields_an_empty_assistant_message() {
    let mut agent = openai_agent();
    let body = "{\"choices\":[]}";
    let outcome = agent.apply_provider_response(200, body).expect("applies");
    assert!(matches!(outcome, TurnOutcome::Done));
    assert_eq!(agent.messages.last().unwrap().content, "");
}

#[test]
fn out_of_range_usage_counts_fail_the_decode() {
    let mut agent = openai_agent();
    let body = "{\"choices\":[{\"message\":{\"role\":\"assistant\",\"content\":\"\"}}],\
        \"usage\":{\"prompt_tokens\":99999999999,\"completion_tokens\":1,\"total_tokens\":1}}";
    let err = agent.apply_provider_response(200, body).expect_err("must fail");
    assert_eq!(err, "Invalid response");
}

#[test]
fn tool_reply_encodes_as_a_cached_tool_result_block() {
    let mut agent = Agent::new(
        settings(SchemaType::Anthropic, "anthropic", "https://api.anthropic.com"),
        "Prompt.".to_owned(),
        plain_policy(),
        "/tmp".to_owned(),
    );
    agent.add_user_message("go".to_owned());
    let body = "{\"content\":[{\"type\":\"tool_use\",\"id\":\"t1\",\"name\":\"bash\",\
        \"input\":{\"command\":\"pwd\"}}]}";
    agent.apply_provider_response(200, body).expect("applies");
    let result = BashResult { stdout: "/tmp\n".to_owned(), stderr: "".to_owned(), code: 0 };
    agent.record_tool_outcome("t1", &ToolOutcome::Ran { command: "pwd".to_owned(), result });

    let parts = anthropic::encode_request(&agent.settings, &agent.messages, &agent.tools)
        .expect("encodes");
    let req: serde_json::Value = serde_json::from_str(&parts.body).unwrap();
    // turn array: user, assistant (tool_use), user (tool_result)
    let block = &req["messages"][2]["content"][0];
    assert_eq!(req["messages"][2]["role"], "user");
    assert_eq!(block["type"], "tool_result");
    assert_eq!(block["tool_use_id"], "t1");
    // the latest non-assistant message carries the cache mark
    assert_eq!(block["cache_control"]["type"], "ephemeral");
    // and the earlier user message no longer does
    assert_eq!(req["messages"][0]["content"], "go");
}

#[test]
fn openai_tool_reply_carries_its_back_reference() {
    let mut agent = openai_agent();
    agent.add_user_message("go".to_owned());
    let body = "{\"choices\":[{\"message\":{\"role\":\"assistant\",\"content\":\"\",\
        \"tool_calls\":[{\"id\":\"z\",\"type\":\"function\",\
        \"function\":{\"name\":\"bash\",\"arguments\":\"{\\\"command\\\":\\\"pwd\\\"}\"}}]}}]}";
    agent.apply_provider_response(200, body).expect("applies");
    agent.record_tool_outcome("z", &ToolOutcome::Denied);

    let parts = openai::encode_request(&agent.settings, &agent.messages, &agent.tools)
        .expect("encodes");
    let req: serde_json::Value = serde_json::from_str(&parts.body).unwrap();
    assert_eq!(req["messages"][3]["role"], "tool");
    assert_eq!(req["messages"][3]["tool_call_id"], "z");
    assert_eq!(req["messages"][3]["content"], "Command denied by policy.");
    // the bearer token rides in the headers
    assert!(parts
        .headers
        .iter()
        .any(|(k, v)| k == "Authorization" && v == "Bearer test-key"));
}

#[test]
fn recorded_tool_payload_matches_serde_pretty_form() {
    let mut agent = openai_agent();
    let result = BashResult {
        stdout: "out\n".to_owned(),
        stderr: "warn".to_owned(),
        code: 3,
    };
    agent.record_tool_outcome("id7", &ToolOutcome::Ran { command: "false".to_owned(), result });
    let content = &agent.messages.last().unwrap().content;
    let parsed: serde_json::Value = serde_json::from_str(content).expect("payload is JSON");
    assert_eq!(parsed["command"], "false");
    assert_eq!(parsed["exitCode"], 3);
    assert_eq!(parsed["stdout"], "out\n");
    assert_eq!(parsed["stderr"], "warn");
    // serde's map sorts keys the same way, so its pretty form is ours
    assert_eq!(&serde_json::to_string_pretty(&parsed).unwrap(), content);
}

#[test]
fn negative_usage_counts_never_lower_the_totals() {
    let mut agent = openai_agent();
    let body = "{\"choices\":[{\"message\":{\"role\":\"assistant\",\"content\":\"a\"}}],\
        \"usage\":{\"prompt_tokens\":10,\"completion_tokens\":5,\"total_tokens\":15}}";
    agent.apply_provider_response(200, body).expect("applies");
    let body2 = "{\"choices\":[{\"message\":{\"role\":\"assistant\",\"content\":\"b\"}}],\
        \"usage\":{\"prompt_tokens\":-3,\"completion_tokens\":-1,\"total_tokens\":-4}}";
    agent.apply_provider_response(200, body2).expect("applies");
    let t = agent.get_tokens();
    assert_eq!((t.prompt, t.completion, t.total), (10, 5, 15));
}

#[test]
fn serialized_tool_input_round_trips_exactly() {
    // stringify-then-parse: the argument text the encoder writes reads back
    // as the same structured input
    let input = parse_json_str("{\"command\":\"ls\",\"n\":[1,2.5e-1,null],\"s\":\"a\\\"b\"}").unwrap();
    let text = to_json_string(&input);
    let back = parse_json_str(&text).unwrap();
    assert_eq!(to_json_string(&back), text);
}
