use gateway::chain::{ModelChain, ProviderEntry};
use gateway::json::Json;
use gateway::messages::ChatMessage;
use gateway::stream::{unexpected_text, Command, Phase, StreamAgent};
use gateway::tools::{plan_call, CallPlan, ReadSelf, ToolKind};

/// What a provider answers to every request.
enum Server {
    /// A status that is no success.
    Status(u16),
    /// The connection is refused.
    Dead,
    /// A reply with this body.
    Body(String),
    /// A connection that breaks after this part of a body.
    Broken(String),
}

/// All that a run gives: the pieces of text, and the error where it failed.
struct Run {
    items: Vec<String>,
    error: Option<String>,
    agent: StreamAgent,
    asked: Vec<String>,
}

impl Run {
    fn all(&self) -> String {
        self.items.concat()
    }
}

fn chain(models: &[&str]) -> ModelChain {
    ModelChain {
        providers: models
            .iter()
            .map(|m| ProviderEntry {
                model: m.to_string(),
                base_url: format!("http://{m}"),
                api_key: "k".to_string(),
            })
            .collect(),
    }
}

/// Runs the tool calls of the tests. The only file that can be read is `Cargo.toml`.
fn run_tool(name: &str, arguments: &str) -> Result<String, String> {
    let parsed = match serde_json::from_str::<serde_json::Value>(arguments) {
        Ok(v) => match v["path"].as_str() {
            Some(path) => Ok(path.to_string()),
            None => Err("missing field `path`".to_string()),
        },
        Err(e) => Err(e.to_string()),
    };
    match plan_call(name, parsed) {
        CallPlan::Run(ToolKind::Read, path) => {
            let read = if path == "Cargo.toml" {
                Ok("[package]\nname = \"gateway\"".to_string())
            } else {
                Err("No such file".to_string())
            };
            ReadSelf.call(read).map_err(|e| e.message())
        }
        CallPlan::Run(_, _) => Err("not at hand".to_string()),
        CallPlan::Unknown(e) | CallPlan::BadArguments(e) => Err(e),
    }
}

/// Runs an agent against servers, one for each provider, with chunks of so many bytes.
fn run_in_chunks(models: &[&str], servers: &[Server], prompt: &str, size: usize) -> Run {
    run_for_client(models, servers, prompt, size, usize::MAX)
}

/// The same for a client that is gone after so many pieces of text.
fn run_for_client(models: &[&str], servers: &[Server], prompt: &str, size: usize, stays: usize) -> Run {
    let (mut agent, mut reply) = chain(models).prompt_streaming(prompt, "preamble");
    let mut items = Vec::new();
    let mut asked = Vec::new();
    let mut body: Vec<u8> = Vec::new();
    let mut pos = 0;
    for _ in 0..10_000 {
        let mut end = None;
        for piece in &reply.out {
            if items.len() < stays {
                items.push(piece.text.clone());
            } else {
                end = agent.lost(piece);
            }
            if end.is_some() {
                break;
            }
        }
        reply = match end.unwrap_or(reply).command {
            Command::Ask => {
                asked.push(agent.asked().model.clone());
                match &servers[agent.provider] {
                    Server::Status(code) => {
                        assert!(*code < 200 || *code >= 300);
                        agent.refused()
                    }
                    Server::Dead => agent.refused(),
                    Server::Body(text) | Server::Broken(text) => {
                        body = text.clone().into_bytes();
                        pos = 0;
                        agent.accepted()
                    }
                }
            }
            Command::Read => {
                if pos < body.len() {
                    let end = (pos + size).min(body.len());
                    let from = pos;
                    pos = end;
                    agent.chunk(&body[from..end])
                } else {
                    agent.ended()
                }
            }
            Command::RunTool { name, arguments } => agent.tool_done(run_tool(&name, &arguments), "0.1"),
            Command::Finish => return Run { items, error: None, agent, asked },
            Command::Fail(e) => return Run { items, error: Some(e), agent, asked },
        };
    }
    panic!("the agent does not come to an end");
}

fn run(models: &[&str], servers: &[Server]) -> Run {
    run_in_chunks(models, servers, "hi", 4096)
}

fn sse_body(chunks: &[(&str, Option<&str>)]) -> String {
    let mut body = String::new();
    for (content, finish) in chunks {
        let fr = match finish {
            Some(f) => format!(r#","finish_reason":"{f}""#),
            None => String::new(),
        };
        body.push_str(&format!(
            "data: {{\"choices\":[{{\"delta\":{{\"content\":\"{content}\"}},\"index\":0{fr}}}]}}\n\n"
        ));
    }
    body.push_str("data: [DONE]\n\n");
    body
}

fn sse_tool_call_body(tool_name: &str, arguments: &str) -> String {
    format!(
        "data: {{\"choices\":[{{\"delta\":{{\"tool_calls\":[{{\"index\":0,\"id\":\"call_1\",\"function\":{{\"name\":\"{tool_name}\",\"arguments\":\"{arguments}\"}}}}]}},\"index\":0,\"finish_reason\":\"tool_calls\"}}]}}\n\ndata: [DONE]\n\n"
    )
}

fn sse_reasoning_body() -> String {
    let mut body = String::new();
    body.push_str("data: {\"choices\":[{\"delta\":{\"reasoning_content\":\"Let me think about this.\"},\"index\":0}]}\n\n");
    body.push_str("data: {\"choices\":[{\"delta\":{\"content\":\"The answer is 42.\"},\"index\":0,\"finish_reason\":\"stop\"}]}\n\n");
    body.push_str("data: [DONE]\n\n");
    body
}

fn sse_finish_reason_only(reason: &str) -> String {
    format!(
        "data: {{\"choices\":[{{\"delta\":{{}},\"index\":0,\"finish_reason\":\"{reason}\"}}]}}\n\ndata: [DONE]\n\n"
    )
}

fn sse_no_finish_reason() -> String {
    "data: {\"choices\":[{\"delta\":{\"content\":\"partial\"},\"index\":0}]}\n\ndata: [DONE]\n\n".to_string()
}

fn tool_loop() -> Server {
    Server::Body(sse_tool_call_body("read_self", r#"{\"path\":\"Cargo.toml\"}"#))
}

fn says(text: &str) -> Server {
    Server::Body(sse_body(&[(text, Some("stop"))]))
}

#[test]
fn streaming_text_response() {
    let body = sse_body(&[("Hello", None), (" world", None), ("!", Some("stop"))]);
    let r = run(&["stream-model"], &[Server::Body(body)]);
    let all = r.all();
    assert!(all.contains("**Model: stream-model**"));
    assert!(all.contains("Hello"));
    assert!(all.contains(" world"));
    assert!(all.contains("!"));
    assert_eq!(all, "**Model: stream-model**\n\nHello world!");
    assert!(r.error.is_none());
}

#[test]
fn streaming_model_switch_announcement() {
    let r = run(&["first", "second"], &[Server::Status(500), says("ok")]);
    let all = r.all();
    assert!(all.contains("**Model: second**"));
    assert!(all.contains("ok"));
    assert_eq!(all, "**Model: first**\n\n\n\n🔄 Switched to **Model: second**\n\nok");
}

#[test]
fn streaming_non_200_status_tries_next() {
    let r = run(&["bad-status", "ok"], &[Server::Status(500), says("recovered")]);
    assert!(r.all().contains("recovered"));
}

#[test]
fn streaming_empty_content_on_stop_tries_next() {
    let r = run(
        &["empty-stop", "ok"],
        &[Server::Body(sse_finish_reason_only("stop")), says("non-empty")],
    );
    assert!(r.all().contains("non-empty"));
}

#[test]
fn streaming_finish_reason_length() {
    let r = run(&["m"], &[Server::Body(sse_finish_reason_only("length"))]);
    assert!(r.all().contains("truncated"));
}

#[test]
fn streaming_finish_reason_content_filter() {
    let r = run(&["m"], &[Server::Body(sse_finish_reason_only("content_filter"))]);
    assert!(r.all().contains("filtered"));
}

#[test]
fn streaming_reasoning_content() {
    let r = run(&["thinker"], &[Server::Body(sse_reasoning_body())]);
    let all = r.all();
    assert!(all.contains("**Thinking:**"));
    assert!(all.contains("Let me think about this"));
    assert!(all.contains("The answer is 42"));
    assert_eq!(
        all,
        "**Model: thinker**\n\n\n💭 **Thinking:**\n> Let me think about this.\n\n---\n\nThe answer is 42."
    );
}

#[test]
fn streaming_all_providers_exhausted_returns_err() {
    let r = run(&["fail1", "fail2"], &[Server::Status(500), Server::Status(500)]);
    assert!(r.error.is_some());
    assert_eq!(r.error, Some("All 2 providers exhausted at round 0".to_string()));
}

#[test]
fn streaming_no_finish_reason_tries_next() {
    let r = run(&["incomplete", "ok"], &[Server::Body(sse_no_finish_reason()), says("valid")]);
    assert!(r.all().contains("valid"));
}

#[test]
fn streaming_tool_call_executes_and_continues() {
    let r = run_in_chunks(&["tool", "text"], &[tool_loop(), says("done")], "read cargo", 4096);
    let all = r.all();
    assert!(all.contains("📖"), "tool icon present");
    assert!(all.contains("done"), "final text present");
}

#[test]
fn streaming_tool_execution_error() {
    let r = run_in_chunks(
        &["bad-tool", "text"],
        &[
            Server::Body(sse_tool_call_body("read_self", r#"not-valid-json"#)),
            says("recovered"),
        ],
        "test",
        4096,
    );
    let all = r.all();
    assert!(all.contains("Error"), "error was formatted: {all}");
    assert!(all.contains("recovered"), "second provider worked");
}

#[test]
fn streaming_client_disconnect_stops_task() {
    let body = sse_body(&[("Hello", None), (" world", None), ("!", Some("stop"))]);
    let r = run(&["m"], &[Server::Body(body.clone())]);
    assert!(!r.items.is_empty(), "should receive at least one item");
    // The client takes one item and is gone: the work stops without an error.
    let r = run_for_client(&["m"], &[Server::Body(body.clone())], "hi", 4096, 1);
    assert_eq!(r.items, vec!["**Model: m**\n\n"]);
    assert!(r.error.is_none());
    assert!(r.agent.phase == Phase::Over);
    // What the provider says is vital: where it cannot be handed on, the work stops.
    let (mut agent, _) = chain(&["m"]).prompt_streaming("hi", "preamble");
    agent.accepted();
    let reply = agent.chunk(body.as_bytes());
    assert!(reply.out.iter().all(|o| o.vital));
    assert_eq!(reply.out[0].text, "Hello");
}

#[test]
fn nothing_is_asked_for_once_the_client_is_gone() {
    // The reply asks for a tool, and more requests would follow.
    let body = "data: {\"choices\":[{\"delta\":{\"content\":\"let me see\",\"tool_calls\":[{\"index\":0,\"id\":\"a\",\"function\":{\"name\":\"read_self\",\"arguments\":\"{}\"}}]},\"finish_reason\":\"tool_calls\"}]}\n";
    let servers = [Server::Body(body.to_string())];
    let r = run_for_client(&["m"], &servers, "hi", 4096, 1);
    assert_eq!(r.asked, vec!["m"]);
    assert_eq!(r.items.len(), 1);
    assert_eq!(r.agent.messages.len(), 2);
    assert!(r.error.is_none() && r.agent.phase == Phase::Over);
    // A label that is lost does not stop the work: the first words that are lost do.
    let r = run_for_client(&["dead", "m", "n"], &[Server::Dead, says("hello"), says("never")], "hi", 4096, 0);
    assert_eq!(r.asked, vec!["dead", "m"]);
    assert!(r.items.is_empty() && r.error.is_none());
    // Nobody is left to be told of a failure that comes after lost words.
    let failing = [Server::Body(sse_body(&[("half", Some("unknown_reason"))]))];
    assert!(run_for_client(&["m"], &failing, "hi", 4096, 1).error.is_none());
    assert!(run_for_client(&["m"], &failing, "hi", 4096, 2).error.is_some());
}

#[test]
fn agent_whose_client_is_gone_is_at_its_end() {
    let (mut agent, reply) = chain(&["a", "b"]).prompt_streaming("hi", "preamble");
    assert!(!reply.out[0].vital);
    assert!(agent.lost(&reply.out[0]).is_none());
    assert!(agent.phase == Phase::Asking);
    let end = agent.gone();
    assert!(matches!(end.command, Command::Finish));
    assert!(end.out.is_empty());
    assert!(agent.phase == Phase::Over);
    assert_eq!((agent.provider, agent.round, agent.messages.len()), (0, 0, 2));
}

#[test]
fn streaming_max_rounds_fallback() {
    let r = run_in_chunks(&["tool-loop", "fallback"], &[tool_loop(), says("final summary")], "test", 4096);
    let all = r.all();
    assert!(all.contains("Max rounds reached"), "should show max rounds warning: {all}");
    assert!(all.contains("final summary"), "fallback text: {all}");
}

#[test]
fn stream_one_shot_success() {
    let r = run(&["oneshot"], &[says("one-shot result")]);
    assert!(r.all().contains("one-shot result"));
}

#[test]
fn stream_one_shot_fallback_between_providers() {
    let r = run(&["bad", "good"], &[Server::Status(500), says("recovered")]);
    assert!(r.all().contains("recovered"));
}

#[test]
fn stream_one_shot_empty_content_tries_next() {
    let r = run(&["empty", "ok"], &[Server::Body(sse_finish_reason_only("stop")), says("non-empty")]);
    assert!(r.all().contains("non-empty"));
}

#[test]
fn streaming_unexpected_finish_reason_returns_err() {
    let r = run(&["m"], &[Server::Body(sse_finish_reason_only("unknown_reason"))]);
    assert!(r.error.is_some(), "should contain error: {:?}", r.items);
    assert_eq!(r.error, Some("http://m/m unexpected finish_reason: \"unknown_reason\"".to_string()));
}

#[test]
fn streaming_http_send_error_tries_next() {
    let r = run(&["bad", "ok"], &[Server::Dead, says("recovered")]);
    assert!(r.all().contains("recovered"));
}

#[test]
fn stream_one_shot_all_providers_exhausted() {
    let r = run(&["f1", "f2"], &[Server::Status(500), Server::Status(500)]);
    assert!(r.error.is_some(), "should contain error");
}

#[test]
fn stream_one_shot_non_200_tries_next() {
    let r = run(&["bad", "ok"], &[Server::Status(503), says("recovered")]);
    assert!(r.all().contains("recovered"));
}

#[test]
fn streaming_partial_fallback_with_line_buffer() {
    let body = "data: {\"choices\":[{\"delta\":{\"content\":\"partial\"},\"index\":0}]}\n\ndata: [DONE]\n\n";
    let r = run(&["partial", "ok"], &[Server::Body(body.to_string()), says("recovered")]);
    assert!(r.all().contains("recovered"));
}

#[test]
fn streaming_partial_content_used_when_interrupted() {
    let body = "data: {\"choices\":[{\"delta\":{\"content\":\"partial-content\"},\"index\":0}]}\n\n";
    let r = run(&["interrupted", "ok"], &[Server::Body(body.to_string()), says("final")]);
    assert!(r.all().contains("final"));
}

#[test]
fn stream_one_shot_fallback_non_200_tries_next() {
    let r = run(
        &["tool", "bad-fallback", "ok-fallback"],
        &[tool_loop(), Server::Status(500), says("fallback ok")],
    );
    assert!(r.all().contains("fallback ok"));
}

#[test]
fn stream_one_shot_fallback_send_error_tries_next() {
    let r = run(&["tool", "dead", "ok"], &[tool_loop(), Server::Dead, says("recovered")]);
    assert!(r.all().contains("recovered"));
}

#[test]
fn streaming_line_buffer_residual_triggers_partial_fallback() {
    let body = "data: {\"choices\":[{\"delta\":{\"content\":\"x\"},\"index\":0}]}";
    let r = run(&["broken-eof", "ok"], &[Server::Body(body.to_string()), says("saved")]);
    assert!(r.all().contains("saved"));
}

#[test]
fn streaming_chunk_read_error_no_partial_buffer() {
    let part = "data: {\"choices\":[{\"delta\":{\"content\":\"ok\"},\"index\":0}]}\n\n";
    let r = run(&["rst", "ok"], &[Server::Broken(part.to_string()), says("recovered")]);
    assert!(r.all().contains("recovered"));
}

#[test]
fn streaming_chunk_read_error_with_partial_buffer() {
    let part = "data: {\"choices\":[{\"delta\":{\"content\":\"incomplete\"},\"index\":0}]}";
    let r = run(&["rst-partial", "ok"], &[Server::Broken(part.to_string()), says("saved")]);
    assert!(r.all().contains("saved"));
}

#[test]
fn stream_one_shot_fallback_with_reasoning() {
    let r = run(&["tool", "thinker"], &[tool_loop(), Server::Body(sse_reasoning_body())]);
    let all = r.all();
    assert!(all.contains("Thinking"));
    assert!(all.contains("The answer is 42"));
}

#[test]
fn stream_one_shot_all_providers_exhausted_with_reasoning() {
    let r = run(&["tool", "fail-fallback"], &[tool_loop(), Server::Status(500)]);
    assert!(r.error.is_some(), "expected error in stream");
    assert_eq!(r.error, Some("All 2 providers exhausted in fallback".to_string()));
}

#[test]
fn chunk_size_does_not_matter() {
    let plain = sse_body(&[("Hello", None), (" world", Some("stop"))]);
    for size in 1..40 {
        assert_eq!(
            run_in_chunks(&["m"], &[Server::Body(plain.clone())], "hi", size).all(),
            "**Model: m**\n\nHello world"
        );
    }
}

#[test]
fn bytes_that_are_no_text_are_replaced() {
    let (mut agent, _) = chain(&["m"]).prompt_streaming("hi", "preamble");
    agent.accepted();
    let mut body = b"data: {\"choices\":[{\"delta\":{\"content\":\"".to_vec();
    body.push(0xff);
    body.extend_from_slice(b"\"}}]}\n");
    let reply = agent.chunk(&body);
    assert_eq!(reply.out[0].text, "\u{fffd}");
}

#[test]
fn requests_are_bounded() {
    let r = run(&["tool", "fail-fallback"], &[tool_loop(), Server::Status(500)]);
    // Seven rounds with the first provider, and each provider once for the summary.
    assert_eq!(r.asked.len(), 9);
}

#[test]
fn every_call_is_answered_in_the_conversation() {
    let body = "data: {\"choices\":[{\"delta\":{\"tool_calls\":[{\"index\":1,\"id\":\"b\",\"function\":{\"name\":\"run_bash\",\"arguments\":\"{}\"}},{\"index\":0,\"id\":\"a\",\"function\":{\"name\":\"read_self\",\"arguments\":\"{\\\"path\\\":\"}},{\"index\":0,\"id\":\"1\",\"function\":{\"arguments\":\"\\\"Cargo.toml\\\"}\"}}]},\"finish_reason\":\"tool_calls\"}]}\n";
    let r = run(&["tool", "late"], &[Server::Body(body.to_string()), says("never")]);
    assert!(r.error.is_none());
    match &r.agent.messages[2] {
        ChatMessage::Assistant(calls) => {
            assert_eq!(calls.len(), 2);
            assert_eq!(calls[0].id, "a1");
            assert_eq!(calls[0].arguments, "{\"path\":\"Cargo.toml\"}");
            assert_eq!(calls[1].id, "b");
        }
        _ => panic!("calls expected"),
    }
    match &r.agent.messages[3] {
        ChatMessage::Tool { call_id, content } => {
            assert_eq!(call_id, "a1");
            assert!(content.contains("[package]"));
        }
        _ => panic!("answer expected"),
    }
    match &r.agent.messages[4] {
        ChatMessage::Tool { call_id, .. } => assert_eq!(call_id, "b"),
        _ => panic!("answer expected"),
    }
    // The tools are asked for in the order of their indices.
    let all = r.all();
    assert!(all.find("read_self").unwrap() < all.find("run_bash").unwrap());
}

#[test]
fn summary_is_asked_for_without_tools() {
    let (mut agent, mut reply) = chain(&["tool"]).prompt_streaming("hi", "preamble");
    let body = sse_tool_call_body("read_self", "{}");
    loop {
        reply = match reply.command {
            Command::Ask => {
                if agent.summary {
                    break;
                }
                assert!(agent.request().get("tools").is_some());
                agent.accepted()
            }
            Command::Read => agent.chunk(body.as_bytes()),
            Command::RunTool { .. } => agent.tool_done(Ok("x".to_string()), "0.0"),
            _ => panic!("a summary is expected"),
        };
    }
    let request = agent.request();
    assert!(request.get("tools").is_none());
    assert_eq!(request.get_str("model"), Some("tool"));
    assert!(matches!(request.get("stream"), Some(Json::Bool(true))));
    assert_eq!(request.get("max_tokens").and_then(|n| n.as_u64()), Some(4096));
    let messages = request.get("messages").and_then(|m| m.as_array()).unwrap();
    assert_eq!(messages.len(), 2 + 7 * 2 + 1);
    assert_eq!(messages[0].get_str("role"), Some("system"));
    assert_eq!(messages[1].get_str("content"), Some("hi"));
    assert_eq!(messages[2].get_str("role"), Some("assistant"));
    assert_eq!(messages[3].get_str("tool_call_id"), Some("call_1"));
    assert!(messages[16].get_str("content").unwrap().starts_with("You haven't produced any response yet."));
}

#[test]
fn what_is_no_event_is_passed_over() {
    let mut body = String::new();
    body.push_str(": a comment\n\ndata: not json\n\ndata: {}\n\ndata: {\"choices\":[]}\n\n");
    body.push_str("data: {\"choices\":[{\"index\":0}]}\n\n");
    body.push_str(&sse_body(&[("ok", Some("stop"))]));
    assert_eq!(run(&["m"], &[Server::Body(body)]).all(), "**Model: m**\n\nok");
}

#[test]
fn reasoning_stays_in_its_quote() {
    let body = "data: {\"choices\":[{\"delta\":{\"reasoning_content\":\"a\\nb\"}}]}\ndata: {\"choices\":[{\"delta\":{\"content\":\"c\"},\"finish_reason\":\"stop\"}]}\n";
    assert_eq!(
        run(&["m"], &[Server::Body(body.to_string())]).all(),
        "**Model: m**\n\n\n💭 **Thinking:**\n> a\n> b\n\n---\n\nc"
    );
}

#[test]
fn content_is_what_was_shown() {
    let (mut agent, _) = chain(&["m"]).prompt_streaming("hi", "preamble");
    agent.accepted();
    let mut shown = String::new();
    let body = "data: {\"choices\":[{\"delta\":{\"reasoning_content\":\"a\\nb\"}}]}\ndata: {\"choices\":[{\"delta\":{\"content\":\"c\"}}]}\ndata: {\"cho";
    for piece in agent.text(body).out {
        if piece.vital {
            shown.push_str(&piece.text);
        }
    }
    assert_eq!(agent.read.content, shown);
    assert_eq!(shown, "a\n> bc");
    assert_eq!(agent.read.line_buf, "data: {\"cho");
}

#[test]
fn refusal_keeps_the_conversation() {
    let (mut agent, reply) = chain(&["a", "b"]).prompt_streaming("hi", "preamble");
    assert!(matches!(reply.command, Command::Ask));
    assert!(agent.phase == Phase::Asking);
    let reply = agent.refused();
    assert!(matches!(reply.command, Command::Ask));
    assert_eq!((agent.provider, agent.round, agent.messages.len()), (1, 0, 2));
    match agent.refused().command {
        Command::Fail(e) => assert_eq!(e, "All 2 providers exhausted at round 0"),
        _ => panic!("no provider is left"),
    }
    assert!(agent.phase == Phase::Over);
}

#[test]
fn same_model_is_announced_once() {
    let r = run(&["m", "m"], &[Server::Status(500), says("ok")]);
    assert_eq!(r.all(), "**Model: m**\n\nok");
}

#[test]
fn most_requests_are_taken_when_the_last_provider_works() {
    let r = run(&["dead", "tool"], &[Server::Dead, tool_loop()]);
    assert_eq!(r.asked.len(), 16);
    assert_eq!(r.error, Some("All 2 providers exhausted in fallback".to_string()));
}

#[test]
fn tool_calls_without_calls_are_unexpected() {
    let r = run(&["m"], &[Server::Body(sse_finish_reason_only("tool_calls"))]);
    assert_eq!(r.error, Some("http://m/m unexpected finish_reason: \"tool_calls\"".to_string()));
}

#[test]
fn unexpected_reason_is_told_in_quotes() {
    let provider = &chain(&["m"]).providers[0];
    assert_eq!(unexpected_text(provider, "'x'"), "http://m/m unexpected finish_reason: 'x'");
    let body = "data: {\"choices\":[{\"delta\":{},\"finish_reason\":\"a\\\"b\\n\"}]}\n";
    let r = run(&["m"], &[Server::Body(body.to_string())]);
    assert_eq!(r.error, Some("http://m/m unexpected finish_reason: \"a\\\"b\\n\"".to_string()));
}

#[test]
fn interrupted_tool_calls_with_content_end_the_work() {
    let part = "data: {\"choices\":[{\"delta\":{\"content\":\"half\",\"tool_calls\":[{\"index\":0,\"id\":\"a\"}]}}]}\n";
    let r = run(&["m", "n"], &[Server::Broken(part.to_string()), says("other")]);
    assert_eq!(r.all(), "**Model: m**\n\nhalf");
    let part = "data: {\"choices\":[{\"delta\":{\"tool_calls\":[{\"index\":0,\"id\":\"a\"}]}}]}\n";
    let r = run(&["m", "n"], &[Server::Broken(part.to_string()), says("other")]);
    assert!(r.all().ends_with("other"));
}

#[test]
fn silent_round_goes_to_the_summary() {
    let (mut agent, _) = chain(&["a", "b"]).prompt_streaming("hi", "preamble");
    agent.accepted();
    let reply = agent.text(&sse_finish_reason_only("stop"));
    assert!(matches!(reply.command, Command::Ask));
    assert!(agent.silent && !agent.summary);
    // The last provider refuses, but the one before has stopped without a word.
    let reply = agent.refused();
    assert!(matches!(reply.command, Command::Ask));
    assert!(agent.summary);
    assert_eq!(agent.provider, 0);
    assert_eq!(reply.out.len(), 1);
    assert_eq!(reply.out[0].text, "**Model: a**\n\n");
    match &agent.messages[2] {
        ChatMessage::User(text) => assert!(text.starts_with("You haven't produced any response yet.")),
        _ => panic!("a request for a summary is expected"),
    }
    assert!(agent.request().get("tools").is_none());
    agent.accepted();
    agent.text(&sse_body(&[("in short", Some("stop"))]));
    assert!(matches!(agent.ended().command, Command::Finish));
}

#[test]
fn silent_providers_fail_in_the_summary() {
    let silent = || Server::Body(sse_finish_reason_only("stop"));
    let r = run(&["a", "b"], &[silent(), silent()]);
    assert_eq!(r.error, Some("All 2 providers exhausted in fallback".to_string()));
    assert_eq!(r.asked, vec!["a", "b", "a", "b"]);
    // A reply that gives no reason at all is no silent stop.
    let r = run(&["a"], &[Server::Body(sse_no_finish_reason())]);
    assert_eq!(r.error, Some("All 1 providers exhausted at round 0".to_string()));
}

#[test]
fn silence_is_forgotten_in_the_next_round() {
    let (mut agent, _) = chain(&["a", "b"]).prompt_streaming("hi", "preamble");
    agent.accepted();
    agent.text(&sse_finish_reason_only("stop"));
    agent.accepted();
    agent.text(&sse_tool_call_body("read_self", "{}"));
    let reply = agent.tool_done(Ok("x".to_string()), "0.0");
    assert!(matches!(reply.command, Command::Ask));
    assert_eq!((agent.round, agent.provider, agent.silent), (1, 0, false));
    agent.refused();
    match agent.refused().command {
        Command::Fail(e) => assert_eq!(e, "All 2 providers exhausted at round 1"),
        _ => panic!("no provider is left"),
    }
}

#[test]
fn runs_do_not_depend_on_cuts() {
    let content = "hé💭 > ".repeat(3);
    let servers = || {
        [
            Server::Body(sse_finish_reason_only("stop")),
            Server::Body(sse_body(&[(content.as_str(), None), ("", Some("length"))])),
        ]
    };
    let whole = run(&["a", "b"], &servers());
    let (mut agent, reply) = chain(&["a", "b"]).prompt_streaming("hi", "preamble");
    let mut items: Vec<String> = reply.out.into_iter().map(|o| o.text).collect();
    for server in servers() {
        let body = match server {
            Server::Body(text) => text,
            _ => panic!("a body is expected"),
        };
        let mut reply = agent.accepted();
        for c in body.chars() {
            if !matches!(reply.command, Command::Read) {
                break;
            }
            let mut buf = [0u8; 4];
            reply = agent.chunk(c.encode_utf8(&mut buf).as_bytes());
            items.extend(reply.out.iter().map(|o| o.text.clone()));
        }
    }
    assert!(agent.phase == Phase::Over);
    assert_eq!(items, whole.items);
    assert_eq!(agent.messages.len(), whole.agent.messages.len());
}

#[test]
fn two_pieces_are_as_good_as_one() {
    let body = sse_body(&[("one", None), ("two", Some("stop"))]);
    for cut in 0..body.len() {
        let (mut a, _) = chain(&["m"]).prompt_streaming("hi", "preamble");
        let (mut b, _) = chain(&["m"]).prompt_streaming("hi", "preamble");
        a.accepted();
        b.accepted();
        let whole = a.text(&body);
        let first = b.text(&body[..cut]);
        let mut out: Vec<String> = first.out.into_iter().map(|o| o.text).collect();
        let command = if matches!(first.command, Command::Read) {
            let second = b.text(&body[cut..]);
            out.extend(second.out.into_iter().map(|o| o.text));
            second.command
        } else {
            first.command
        };
        assert!(matches!(whole.command, Command::Finish));
        assert!(matches!(command, Command::Finish));
        assert_eq!(out, whole.out.into_iter().map(|o| o.text).collect::<Vec<_>>());
        assert_eq!(a.read.content, b.read.content);
    }
}

#[test]
fn empty_chain_fails_at_once() {
    assert_eq!(run(&[], &[]).error, Some("All 0 providers exhausted at round 0".to_string()));
}
