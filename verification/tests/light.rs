use gateway::chain::{ModelChain, ProviderEntry};
use gateway::light::{exhausted_text, LightCommand, LightReply};

/// What a provider's chat endpoint sends.
fn openai_text_body(content: &str) -> String {
    format!(
        r#"{{"id":"chatcmpl-1","object":"chat.completion","created":1,"model":"m","choices":[{{"index":0,"message":{{"role":"assistant","content":"{content}"}},"finish_reason":"stop"}}],"usage":{{"prompt_tokens":1,"total_tokens":2}}}}"#
    )
}

fn openai_empty_text_body() -> String {
    r#"{"id":"chatcmpl-1","object":"chat.completion","created":1,"model":"m","choices":[{"index":0,"message":{"role":"assistant","content":""},"finish_reason":"stop"}],"usage":{"prompt_tokens":1,"total_tokens":2}}"#.to_string()
}

fn openai_tool_call_body(tool_name: &str, arguments: &str) -> String {
    format!(
        r#"{{"id":"chatcmpl-1","object":"chat.completion","created":1,"model":"m","choices":[{{"index":0,"message":{{"role":"assistant","content":null,"tool_calls":[{{"id":"call_1","type":"function","function":{{"name":"{tool_name}","arguments":"{arguments}"}}}}]}},"finish_reason":"tool_calls"}}],"usage":{{"prompt_tokens":1,"total_tokens":2}}}}"#
    )
}

/// What a client makes of a provider's reply.
fn reply_in(body: &str) -> LightReply {
    let v: serde_json::Value = match serde_json::from_str(body) {
        Ok(v) => v,
        Err(e) => return LightReply::Failed(e.to_string()),
    };
    match v["choices"][0]["message"]["content"].as_str() {
        Some(text) => LightReply::Message(text.to_string()),
        None => LightReply::Other,
    }
}

fn prompt_light(providers: &[(&str, String)]) -> Result<String, String> {
    prompt_light_with(providers, "preamble")
}

fn prompt_light_with(providers: &[(&str, String)], preamble: &str) -> Result<String, String> {
    let chain = ModelChain {
        providers: providers
            .iter()
            .map(|(m, _)| ProviderEntry {
                model: m.to_string(),
                base_url: "http://localhost".to_string(),
                api_key: "k".to_string(),
            })
            .collect(),
    };
    let (mut prompt, mut command) = chain.prompt_light("hi", preamble);
    loop {
        command = match command {
            LightCommand::Ask => {
                let body = providers[prompt.provider].1.clone();
                prompt.replied(reply_in(&body))
            }
            LightCommand::Answer(text) => return Ok(text),
            LightCommand::Fail(e) => return Err(e),
        };
    }
}

#[test]
fn prompt_light_success_first_provider() {
    let result = prompt_light_with(&[("test-model", openai_text_body("Hello!"))], "Be helpful.").unwrap();
    assert_eq!(result, "Hello!");
}

#[test]
fn prompt_light_first_provider_completion_error_second_succeeds() {
    let result = prompt_light_with(
        &[("bad", "not json {{".to_string()), ("live", openai_text_body("fallback win"))],
        "Be helpful.",
    )
    .unwrap();
    assert_eq!(result, "fallback win");
}

#[test]
fn prompt_light_empty_message_falls_through() {
    let result =
        prompt_light(&[("empty", openai_empty_text_body()), ("ok", openai_text_body("non-empty"))]).unwrap();
    assert_eq!(result, "non-empty");
}

#[test]
fn prompt_light_unexpected_choice_falls_through() {
    let result = prompt_light(&[
        ("bad-choice", openai_tool_call_body("read_self", r#"{\"path\":\"x.md\"}"#)),
        ("ok", openai_text_body("valid")),
    ])
    .unwrap();
    assert_eq!(result, "valid");
}

#[test]
fn prompt_light_all_providers_exhausted() {
    let err = prompt_light(&[
        ("d1", "not valid json {{".to_string()),
        ("d2", "also not valid json".to_string()),
    ])
    .unwrap_err();
    assert!(err.contains("All 2 providers exhausted"), "got: {err}");
}

#[test]
fn last_complaint_is_told() {
    assert_eq!(
        prompt_light(&[("a", "no".to_string()), ("b", openai_empty_text_body())]).unwrap_err(),
        "All 2 providers exhausted in light mode. Last error: Some(\"empty response\")"
    );
    assert_eq!(
        prompt_light(&[("a", openai_tool_call_body("x", "{}"))]).unwrap_err(),
        "All 1 providers exhausted in light mode. Last error: Some(\"unexpected response type\")"
    );
    assert_eq!(
        prompt_light(&[]).unwrap_err(),
        "All 0 providers exhausted in light mode. Last error: None"
    );
}

#[test]
fn answer_is_not_trimmed() {
    assert_eq!(prompt_light(&[("a", openai_text_body("  hi "))]).unwrap(), "  hi ");
}

#[test]
fn exhaustion_is_told() {
    assert_eq!(
        exhausted_text(3, Some("'no'".to_string())),
        "All 3 providers exhausted in light mode. Last error: Some('no')"
    );
    assert_eq!(exhausted_text(0, None), "All 0 providers exhausted in light mode. Last error: None");
}

#[test]
fn light_request_has_no_tools() {
    let provider = |m: &str| ProviderEntry {
        model: m.to_string(),
        base_url: "http://localhost".to_string(),
        api_key: "k".to_string(),
    };
    let chain = ModelChain { providers: vec![provider("a"), provider("b")] };
    let (mut light, _) = chain.prompt_light("sum up", "be brief");
    let request = light.request();
    assert_eq!(request.model, "a");
    assert_eq!(request.preamble, Some("be brief".to_string()));
    assert!(request.tools.is_empty());
    assert_eq!(request.prompt, "sum up");
    assert!(request.history.is_empty());
    assert_eq!(request.max_tokens, 2048);
    light.replied(LightReply::Other);
    assert_eq!(light.request().model, "b");
}
