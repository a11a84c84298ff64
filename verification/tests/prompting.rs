use gateway::chain::{ModelChain, ProviderEntry};
use gateway::prompt::{tagged_response, PromptAgent, PromptCommand, PromptReply};
use gateway::tools::ToolKind;

fn openai_text_body(content: &str) -> String {
    format!(
        r#"{{"id":"chatcmpl-1","object":"chat.completion","created":1,"model":"m","choices":[{{"index":0,"message":{{"role":"assistant","content":"{content}"}},"finish_reason":"stop"}}],"usage":{{"prompt_tokens":1,"total_tokens":2}}}}"#
    )
}

fn openai_empty_text_body() -> String {
    r#"{"id":"chatcmpl-1","object":"chat.completion","created":1,"model":"m","choices":[{"index":0,"message":{"role":"assistant","content":""},"finish_reason":"stop"}],"usage":{"prompt_tokens":1,"total_tokens":2}}"#.to_string()
}

fn openai_tool_call_body(tool_name: &str, arguments: &str) -> String {
    format!(
        r#"{{"id":"chatcmpl-1","object":"chat.completion","created":1,"model":"m","choices":[{{"index":0,"message":{{"role":"assistant","content":null,"tool_calls":[{{"id":"call_1","type":"function","function":{{"name":"{tool_name}","arguments":"{arguments}"}}}}]}},"finish_reason":"tool_calls"}}],"usage":{{"prompt_tokens":1,"total_tokens":2}}}}"#
    )
}

/// What a client makes of a provider's reply; without one, it could not be asked.
fn reply_in(body: &Option<String>) -> PromptReply {
    let body = match body {
        Some(b) => b,
        None => return PromptReply::Failed,
    };
    let v: serde_json::Value = match serde_json::from_str(body) {
        Ok(v) => v,
        Err(_) => return PromptReply::Failed,
    };
    let message = &v["choices"][0]["message"];
    match message["content"].as_str() {
        Some(text) => PromptReply::Message(text.to_string()),
        None => {
            let call = &message["tool_calls"][0]["function"];
            PromptReply::ToolCall {
                name: call["name"].as_str().unwrap().to_string(),
                arguments: call["arguments"].as_str().unwrap().to_string(),
            }
        }
    }
}

fn start(providers: &[(&str, Option<String>)], user_prompt: &str) -> (PromptAgent, PromptCommand) {
    ModelChain {
        providers: providers
            .iter()
            .map(|(m, _)| ProviderEntry {
                model: m.to_string(),
                base_url: "http://localhost".to_string(),
                api_key: "k".to_string(),
            })
            .collect(),
    }
    .prompt(user_prompt, "preamble")
}

fn prompt(providers: &[(&str, Option<String>)], user_prompt: &str) -> Result<String, String> {
    let (mut agent, mut command) = start(providers, user_prompt);
    loop {
        command = match command {
            PromptCommand::Ask => {
                let reply = reply_in(&providers[agent.provider].1);
                agent.replied(reply)
            }
            PromptCommand::RunTool { name, arguments } => {
                agent.tool_done(&name, &arguments, Ok("[package]".to_string()))
            }
            PromptCommand::Answer { model, text } => return Ok(tagged_response(&model, &text)),
            PromptCommand::Fail(e) => return Err(e),
        };
    }
}

#[test]
fn prompt_returns_model_tagged_response() {
    let result = prompt(&[("my-model", Some(openai_text_body("Hello!")))], "hi").unwrap();
    assert!(result.contains("**Model: my-model**"));
    assert!(result.contains("Hello!"));
    assert_eq!(result, "**Model: my-model**\n\nHello!");
}

#[test]
fn prompt_empty_message_tries_next() {
    let result = prompt(
        &[("empty", Some(openai_empty_text_body())), ("ok", Some(openai_text_body("non-empty")))],
        "hi",
    )
    .unwrap();
    assert!(result.contains("non-empty"));
}

#[test]
fn prompt_tool_call_then_text() {
    let result = prompt(
        &[
            ("tool-model", Some(openai_tool_call_body("read_self", r#"{\"path\":\"Cargo.toml\"}"#))),
            ("text-model", Some(openai_text_body("Done!"))),
        ],
        "read cargo",
    )
    .unwrap();
    assert!(result.contains("Done!"));
}

#[test]
fn prompt_all_providers_exhausted_then_fallback() {
    let err = prompt(
        &[("d1", Some("not json {{".to_string())), ("d2", Some("not json".to_string()))],
        "hi",
    )
    .unwrap_err();
    assert!(err.contains("all final summaries failed"), "got: {err}");
}

#[test]
fn prompt_max_rounds_fallback_succeeds() {
    let result = prompt(
        &[
            ("tool-model", Some(openai_tool_call_body("read_self", r#"{\"path\":\"Cargo.toml\"}"#))),
            ("fallback-model", Some(openai_text_body("fallback summary"))),
        ],
        "do something",
    )
    .unwrap();
    assert!(result.contains("fallback summary"), "got: {result}");
}

#[test]
fn run_sync_happy_path() {
    let result = prompt(&[("sync-model", Some(openai_text_body("sync response")))], "hello").unwrap();
    assert!(result.contains("sync response"));
}

#[test]
fn run_agent_loop_completion_error_tries_next() {
    let result = prompt(
        &[("bad-json", Some("not json".to_string())), ("ok", Some(openai_text_body("recovered text")))],
        "hi",
    )
    .unwrap();
    assert!(result.contains("recovered text"));
}

#[test]
fn run_agent_loop_completion_error_unreachable() {
    let result = prompt(&[("dead", None), ("ok", Some(openai_text_body("recovered")))], "hi").unwrap();
    assert!(result.contains("recovered"));
}

#[test]
fn tool_call_joins_the_history() {
    let (mut agent, command) = start(&[("m", None)], "find it");
    assert!(matches!(command, PromptCommand::Ask));
    assert_eq!(agent.prompt, "find it");
    let command = agent.replied(PromptReply::ToolCall {
        name: "read_self".to_string(),
        arguments: "{\"path\":\"a\"}".to_string(),
    });
    match command {
        PromptCommand::RunTool { name, arguments } => {
            assert_eq!(name, "read_self");
            assert_eq!(arguments, "{\"path\":\"a\"}");
        }
        _ => panic!("a tool call is expected"),
    }
    let command = agent.tool_done("read_self", "{\"path\":\"a\"}", Ok("text".to_string()));
    assert!(matches!(command, PromptCommand::Ask));
    assert_eq!(agent.history.len(), 2);
    assert_eq!(agent.history[0].role, "assistant");
    assert_eq!(agent.history[0].content, "I called the tool `read_self` with arguments: {\"path\":\"a\"}");
    assert_eq!(agent.history[1].role, "user");
    assert_eq!(agent.history[1].content, "Tool `read_self` returned:\ntext");
    assert_eq!(
        agent.prompt,
        "The tool result is above. Continue working on the original request: \"find it\""
    );
}

#[test]
fn failed_tool_ends_the_work() {
    let (mut agent, _) = start(&[("m", None)], "find it");
    agent.replied(PromptReply::ToolCall { name: "read_self".to_string(), arguments: "{}".to_string() });
    match agent.tool_done("read_self", "{}", Err("no such file".to_string())) {
        PromptCommand::Fail(e) => assert_eq!(e, "Tool error: no such file"),
        _ => panic!("the work should end"),
    }
}

#[test]
fn summary_is_asked_for_after_failure() {
    let (mut agent, _) = start(&[("m", None)], "find it");
    let command = agent.replied(PromptReply::Failed);
    assert!(matches!(command, PromptCommand::Ask));
    assert!(agent.summary);
    match agent.replied(PromptReply::Failed) {
        PromptCommand::Fail(e) => {
            assert_eq!(e, "Max tool call rounds (7) exceeded and all final summaries failed")
        }
        _ => panic!("the work should end"),
    }
}

#[test]
fn replies_keep_the_history() {
    let (mut agent, _) = start(&[("a", None), ("b", None)], "find it");
    agent.replied(PromptReply::ToolCall { name: "t".to_string(), arguments: "{}".to_string() });
    agent.tool_done("t", "{}", Ok("r".to_string()));
    agent.replied(PromptReply::Failed);
    agent.replied(PromptReply::Message("  ".to_string()));
    assert_eq!(agent.history.len(), 2);
    assert!(agent.summary);
    assert_eq!(agent.prompt, "Based on the conversation above, produce a final response.");
}

#[test]
fn requests_for_a_prompt_are_bounded() {
    let (mut agent, mut command) = start(&[("dead", None), ("tool", None)], "find it");
    let mut asked = 0;
    let e = loop {
        command = match command {
            PromptCommand::Ask => {
                asked += 1;
                if agent.provider == 0 {
                    agent.replied(PromptReply::Failed)
                } else {
                    agent.replied(PromptReply::ToolCall { name: "t".to_string(), arguments: "{}".to_string() })
                }
            }
            PromptCommand::RunTool { name, arguments } => {
                assert!(!agent.summary);
                agent.tool_done(&name, &arguments, Ok("r".to_string()))
            }
            PromptCommand::Answer { .. } => panic!("no answer was given"),
            PromptCommand::Fail(e) => break e,
        };
    };
    assert_eq!(asked, 16);
    assert!(e.contains("all final summaries failed"));
    assert_eq!(agent.history.len(), 14);
}

#[test]
fn empty_chain_gives_no_summary() {
    assert!(prompt(&[], "hi").unwrap_err().contains("all final summaries failed"));
}

#[test]
fn rounds_are_asked_with_tools() {
    let (mut agent, _) = start(&[("a", None), ("b", None)], "find it");
    let request = agent.request();
    assert_eq!(request.model, "a");
    assert_eq!(request.preamble, Some("preamble".to_string()));
    assert!(
        request.tools
            == vec![ToolKind::Read, ToolKind::Search, ToolKind::Write, ToolKind::Update, ToolKind::Bash]
    );
    assert_eq!(request.prompt, "find it");
    assert!(request.history.is_empty());
    assert_eq!(request.max_tokens, 4096);
    agent.replied(PromptReply::Failed);
    assert_eq!(agent.request().model, "b");
}

#[test]
fn summary_of_a_prompt_is_asked_for_without_tools() {
    let (mut agent, _) = start(&[("m", None)], "find it");
    agent.replied(PromptReply::ToolCall { name: "t".to_string(), arguments: "{}".to_string() });
    agent.tool_done("t", "{}", Ok("r".to_string()));
    let request = agent.request();
    assert_eq!(request.tools.len(), 5);
    assert_eq!(request.history.len(), 2);
    agent.replied(PromptReply::Failed);
    let request = agent.request();
    assert_eq!(request.model, "m");
    assert_eq!(request.preamble, None);
    assert!(request.tools.is_empty());
    assert_eq!(request.prompt, "Based on the conversation above, produce a final response.");
    assert_eq!(request.history[0].role, "assistant");
    assert_eq!(request.history[1].content, "Tool `t` returned:\nr");
    assert_eq!(request.max_tokens, 4096);
}
