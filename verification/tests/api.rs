//! The faces of the runtime: chat, tools over chat, and the command line.

use serde_json::Value;
use traject::api::native::{Traject, TOOL_TIMEOUT_MS};
use traject::api::openai_compat::{answer_of, ChatCompletionRequest, ChatMessage, OpenAiCompat};
use traject::api::tool_bridge::{
    bridge_body, bridge_reply, calls_in, extract_json_object, inject_tools, normalize_messages,
    parse_tool_calls, refusal, upstream_failure, upstream_max_tokens, went_well,
    upstream_messages, upstream_url, TOOL_PROTOCOL,
};
use traject::cli::{parse_agent, parse_run, parse_serve, take_flag_value, Backend};
use traject::ids::{StepId, TrajectoryId};
use traject::runtime::driver_model::DriverConfig;
use traject::step::{Constraints, FinishReason, GenerateDelta, StepOutcome, ToolCall};
use traject::trajectory::{TrajectoryConfig, TrajectoryState};

fn json(s: &str) -> Value {
    serde_json::from_str(s).unwrap()
}

fn words(s: &str) -> Vec<String> {
    s.split_whitespace().map(|w| w.to_string()).collect()
}

#[test]
fn parses_plain_tool_calls_json() {
    let text = r#"{"tool_calls":[{"id":"call_1","type":"function","function":{"name":"Glob","arguments":"{\"pattern\":\"*.txt\"}"}}]}"#;
    let calls = parse_tool_calls(text).expect("parse");
    assert_eq!(calls.len(), 1);
    assert_eq!(calls[0]["function"]["name"], "Glob");
}

#[test]
fn ignores_plain_text() {
    assert!(parse_tool_calls("任务已完成，没有文件需要修改。").is_none());
}

#[test]
fn calls_are_filled_in() {
    let text = r#"  {"tool_calls":[{"name":"A"},{"function":{"name":""}},{"id":"x","function":{"name":"B","arguments":{"k":1}}}]}  "#;
    let calls = parse_tool_calls(text).unwrap();
    assert_eq!(
        calls,
        vec![
            json(r#"{"id":"call_0","type":"function","function":{"name":"A","arguments":"{}"}}"#),
            json(r#"{"id":"x","type":"function","function":{"name":"B","arguments":"{\"k\":1}"}}"#),
        ]
    );
}

#[test]
fn replies_without_calls_are_no_calls() {
    assert!(parse_tool_calls(r#"{"tool_calls":[]}"#).is_none());
    assert!(parse_tool_calls(r#"{"tool_calls":{}}"#).is_none());
    assert!(parse_tool_calls(r#"{"other":1}"#).is_none());
    assert!(parse_tool_calls(r#"{"tool_calls":[{"id":"a"}]}"#).is_none());
}

#[test]
fn an_object_is_found_inside_a_fence() {
    let text = "Sure:\n```json\n{\"a\": 1}\n```\n";
    assert_eq!(extract_json_object(text), Some(json(r#"{"a":1}"#)));
    assert_eq!(extract_json_object("  [1, 2] "), Some(json("[1,2]")));
    assert_eq!(extract_json_object("} nothing {"), None);
}

#[test]
fn a_reply_with_calls_is_rewritten() {
    let reply = json(
        r#"{"id":"r","choices":[{"index":0,"finish_reason":"stop","message":{"role":"assistant","content":"{\"tool_calls\":[{\"name\":\"A\"}]}"}}]}"#,
    );
    let bridged = bridge_reply(reply.clone(), true);
    assert_eq!(
        bridged,
        json(
            r#"{"id":"r","choices":[{"index":0,"finish_reason":"tool_calls","message":{"role":"assistant","content":null,"tool_calls":[{"id":"call_0","type":"function","function":{"name":"A","arguments":"{}"}}]}}]}"#
        )
    );
    assert_eq!(bridge_reply(reply.clone(), false), reply);
    let plain = json(r#"{"choices":[{"message":{"content":"done"}}]}"#);
    assert_eq!(bridge_reply(plain.clone(), true), plain);
}

#[test]
fn tools_are_described_first() {
    let tools = vec![json(r#"{"type":"function"}"#)];
    let mut messages = vec![json(r#"{"role":"user","content":"hi"}"#)];
    inject_tools(&mut messages, &tools);
    assert_eq!(messages.len(), 2);
    assert_eq!(messages[0]["role"], "system");
    assert_eq!(
        messages[0]["content"].as_str().unwrap(),
        format!(
            "{TOOL_PROTOCOL}\nAvailable tools (OpenAI schema):\n[\n  {{\n    \"type\": \"function\"\n  }}\n]\n"
        )
    );
    assert_eq!(messages[1]["content"], "hi");
}

#[test]
fn messages_become_plain_text() {
    let out = normalize_messages(vec![
        json(r#"{"role":"tool","name":"Glob","content":"a.txt"}"#),
        json(r#"{"role":"tool","content":{"n":1}}"#),
        json(r#"{"role":"assistant","content":"think","tool_calls":[1]}"#),
        json(r#"{"role":"assistant","tool_calls":[1]}"#),
        json(r#"{"role":"assistant"}"#),
        json(r#"{"role":"assistant","content":7}"#),
        json(r#"{"role":"user","content":"hi"}"#),
    ]);
    let want = [
        ("user", "Tool `Glob` result:\na.txt"),
        ("user", "Tool `tool` result:\n{\"n\":1}"),
        ("assistant", "think\n{\"tool_calls\":[1]}"),
        ("assistant", "{\"tool_calls\":[1]}"),
        ("assistant", ""),
        ("assistant", "7"),
        ("user", "hi"),
    ];
    assert_eq!(out.len(), want.len());
    for (m, (role, content)) in out.iter().zip(want) {
        assert_eq!(m["role"], role);
        assert_eq!(m["content"], content);
    }
}

#[test]
fn requests_are_prepared_for_upstream() {
    assert_eq!(
        refusal(Some(true)),
        Some("streaming not supported by traject tool-bridge".to_string())
    );
    assert_eq!(refusal(Some(false)), None);
    assert_eq!(refusal(None), None);
    assert_eq!(upstream_url("http://h:1//"), "http://h:1/v1/chat/completions");
    let user = json(r#"{"role":"user","content":"hi"}"#);
    let (m, has) = upstream_messages(vec![user.clone()], &None);
    assert!(!has);
    assert_eq!(m, vec![user.clone()]);
    let (m, has) = upstream_messages(vec![user.clone()], &Some(vec![]));
    assert!(!has);
    assert_eq!(m.len(), 1);
    let (m, has) = upstream_messages(vec![user], &Some(vec![json("{}")]));
    assert!(has);
    assert_eq!(m.len(), 2);
}

#[test]
fn a_chat_becomes_a_prompt_and_a_reply() {
    let req = ChatCompletionRequest {
        model: "m".to_string(),
        messages: vec![
            ChatMessage { role: "system".to_string(), content: "be brief".to_string() },
            ChatMessage { role: "user".to_string(), content: "hi".to_string() },
        ],
        max_tokens: None,
    };
    assert_eq!(OpenAiCompat::prompt(&req), "system: be brief\nuser: hi");
    let r = OpenAiCompat::stub_response(TrajectoryId(1));
    assert_eq!(r.id, "00000000-0000-0000-0000-000000000001");
    assert_eq!(r.choices.len(), 1);
    assert_eq!(r.choices[0].message.role, "assistant");
    assert_eq!(r.choices[0].message.content, "(stub) trajectory finished");
    assert_eq!(r.choices[0].finish_reason, "stop");
    let config = OpenAiCompat::default_trajectory_config();
    assert!(config.stable_prefix.is_none());
}

#[test]
fn the_answer_is_the_last_text() {
    let o = StepOutcome::Generated {
        step_id: StepId(1),
        text: "42".to_string(),
        token_ids: vec![],
        finish_reason: FinishReason::Stop,
        tool_call: None,
    };
    assert_eq!(answer_of(Some(&o)), Some("42".to_string()));
    assert_eq!(answer_of(None), None);
}

#[test]
fn a_handle_submits_steps() {
    let mut h = Traject::new().create_handle(TrajectoryConfig::default());
    assert_eq!(h.state().unwrap(), TrajectoryState::Created);
    assert!(!h.is_finished().unwrap());
    h.submit_generate(GenerateDelta::from_text("hi"), Constraints::default(), 8).unwrap();
    assert_eq!(h.state().unwrap(), TrajectoryState::Running);
    h.submit_tool(ToolCall {
        name: "echo".to_string(),
        arguments: "{}".to_string(),
        call_id: None,
    })
    .unwrap();
    assert_eq!(h.state().unwrap(), TrajectoryState::WaitingTool);
    assert!(h.tool_result().unwrap().is_none());
    assert_eq!(h.id(), h.id);
    assert_eq!(TOOL_TIMEOUT_MS, 30_000);
}

#[test]
fn a_flag_is_taken_with_its_value() {
    let mut args = words("a --m x b");
    assert_eq!(take_flag_value(&mut args, "--m"), Some("x".to_string()));
    assert_eq!(args, words("a b"));
    let mut args = words("a --m=x=y b");
    assert_eq!(take_flag_value(&mut args, "--m"), Some("x=y".to_string()));
    assert_eq!(args, words("a b"));
    let mut args = words("a --m");
    assert_eq!(take_flag_value(&mut args, "--m"), None);
    assert_eq!(args, words("a"));
    let mut args = words("a b");
    assert_eq!(take_flag_value(&mut args, "--m"), None);
    assert_eq!(args, words("a b"));
}

#[test]
fn a_run_is_read_off_the_command_line() {
    let o = parse_run(words("--tools hello --max-tokens 9 --model m"));
    assert_eq!(o.prompt, "hello");
    assert_eq!(o.max_tokens, 9);
    assert_eq!(o.model, "m");
    assert!(matches!(o.backend, Backend::StubWithTool));
    let o = parse_run(vec![]);
    assert_eq!(o.prompt, "Say hello and stop.");
    assert_eq!(o.max_tokens, 64);
    assert_eq!(o.model, "/home/bodesi/models/ds-v4-flash");
    let o = parse_run(words("--engine-url http://e --backend-url http://b"));
    assert!(matches!(o.backend, Backend::Engine { url } if url == "http://e"));
    let o = parse_run(words("--backend-url http://b"));
    assert!(matches!(o.backend, Backend::Http { url } if url == "http://b"));
    assert!(matches!(parse_run(words("--kernel-smoke")).backend, Backend::KernelSmoke));
    assert!(matches!(
        parse_run(words("--flashinfer --kernel-smoke")).backend,
        Backend::FlashInfer
    ));
    assert_eq!(parse_run(words("--max-tokens many")).max_tokens, 64);
}

#[test]
fn a_server_is_read_off_the_command_line() {
    let o = parse_serve(words("--upstream http://u/ 1.2.3.4:5"));
    assert_eq!(o.upstream, Some("http://u".to_string()));
    assert_eq!(o.address, Some("1.2.3.4:5".to_string()));
    let o = parse_serve(vec![]);
    assert!(o.upstream.is_none() && o.address.is_none());
}

#[test]
fn an_agent_is_read_off_the_command_line() {
    let o = parse_agent(words("--backend-url http://h/v1/ --max-turns 3 --no-yolo fix it")).unwrap();
    assert_eq!(o.prompt, "fix it");
    assert_eq!(o.backend_url, "http://h/v1/");
    assert_eq!(o.upstream, "http://h");
    assert_eq!(o.max_turns, 3);
    assert!(!o.yolo && !o.direct);
    assert!(o.workdir.is_none());
    let o = parse_agent(words("--direct go")).unwrap();
    assert!(o.direct && o.yolo);
    assert_eq!(o.max_turns, 8);
    assert_eq!(o.backend_url, "http://127.0.0.1:8000/v1");
    assert_eq!(
        parse_agent(words("--direct")).unwrap_err(),
        "usage: traject agent [--backend-url URL] [--model ID] [--workdir DIR] [--direct] <prompt>"
    );
}

#[test]
fn a_body_is_read_and_bridged() {
    let body = r#"{"choices":[{"finish_reason":"stop","message":{"content":"{\"tool_calls\":[{\"name\":\"A\"}]}"}}]}"#;
    let bridged = bridge_body(body, true).unwrap();
    assert_eq!(bridged["choices"][0]["finish_reason"], "tool_calls");
    assert_eq!(bridged["choices"][0]["message"]["tool_calls"][0]["function"]["name"], "A");
    assert_eq!(bridge_body(body, false).unwrap(), json(body));
    let refused = bridge_body("<html>", true).unwrap_err();
    assert!(refused.starts_with("upstream json: "), "{refused}");
    assert!(refused.ends_with(": <html>"), "{refused}");
}

#[test]
fn a_fresh_front_has_the_usual_driver() {
    let t = Traject::new();
    assert!(t.driver.manager.is_empty());
    assert_eq!(t.driver.memory.tree.len(), 1);
    assert_eq!(t.driver.scheduler.ready_len(), 0);
    let usual = DriverConfig::default();
    assert_eq!(t.driver.memory.stats().blocks_capacity, usual.block_capacity);
    assert_eq!(Traject::default().driver.memory.stats().blocks_capacity, usual.block_capacity);
}

#[test]
fn calls_are_read_off_a_value() {
    let v = json(r#"{"tool_calls":[{"name":"A","arguments":{"x":1}},{"name":""}]}"#);
    let calls = calls_in(&v).unwrap();
    assert_eq!(
        calls,
        vec![json(
            r#"{"id":"call_0","type":"function","function":{"name":"A","arguments":"{\"x\":1}"}}"#
        )]
    );
    assert!(calls_in(&json(r#"{"tool_calls":[]}"#)).is_none());
    assert!(calls_in(&json(r#"{"tool_calls":3}"#)).is_none());
    assert!(calls_in(&json("[]")).is_none());
}

#[test]
fn an_upstream_failure_is_passed_on() {
    assert_eq!(upstream_max_tokens(None), 1024);
    assert_eq!(upstream_max_tokens(Some(7)), 7);
    assert!(went_well(200) && went_well(299) && !went_well(199) && !went_well(300));
    assert_eq!(
        upstream_failure(503, "503 Service Unavailable", "busy"),
        (503, "upstream 503 Service Unavailable: busy".to_string())
    );
    assert_eq!(upstream_failure(7, "7", "").0, 502);
}
