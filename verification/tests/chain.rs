use gateway::chain::{config_path, label_text, reported_model, ChainConfig, ChainFault, ModelChain, ProviderEntry};

fn entry(model: &str, base_url: &str) -> ProviderEntry {
    ProviderEntry { model: model.to_string(), base_url: base_url.to_string(), api_key: "k".to_string() }
}

/// The configuration that a text is, as a loader would read it.
fn config_from(json: Option<&str>) -> ChainConfig {
    let json = match json {
        Some(j) => j,
        None => return ChainConfig::Unreadable,
    };
    let value: serde_json::Value = match serde_json::from_str(json) {
        Ok(v) => v,
        Err(_) => return ChainConfig::Invalid,
    };
    let items = match value.as_array() {
        Some(items) => items,
        None => return ChainConfig::Invalid,
    };
    let mut providers = Vec::new();
    for item in items {
        match (item["model"].as_str(), item["base_url"].as_str(), item["api_key"].as_str()) {
            (Some(m), Some(u), Some(k)) => providers.push(ProviderEntry {
                model: m.to_string(),
                base_url: u.to_string(),
                api_key: k.to_string(),
            }),
            _ => return ChainConfig::Invalid,
        }
    }
    ChainConfig::Providers(providers)
}

#[test]
fn from_env_valid_config() {
    let config = config_from(Some(
        r#"[
                {"model": "test-model", "base_url": "http://example.com/v1", "api_key": "sk-test"}
            ]"#,
    ));
    let chain = match ModelChain::from_env("chain.json", config) {
        Ok(chain) => chain,
        Err(e) => panic!("{}", e.message()),
    };
    assert_eq!(chain.providers.len(), 1);
    assert_eq!(chain.providers[0].model, "test-model");
    assert_eq!(chain.providers[0].base_url, "http://example.com/v1");
}

#[test]
fn from_env_file_not_found() {
    match ModelChain::from_env("/nonexistent/path/to/chain.json", config_from(None)) {
        Err(e) => {
            assert!(e.message().contains("Failed to read chain config"), "got: {}", e.message());
            assert_eq!(e.message(), "Failed to read chain config at /nonexistent/path/to/chain.json");
        }
        Ok(_) => panic!("expected error"),
    }
}

#[test]
fn from_env_invalid_json() {
    match ModelChain::from_env("bad.json", config_from(Some("definitely not json {{{"))) {
        Err(e) => assert!(e.message().contains("Invalid chain.json"), "got: {}", e.message()),
        Ok(_) => panic!("expected error"),
    }
}

#[test]
fn from_env_empty_array() {
    match ModelChain::from_env("empty.json", config_from(Some("[]"))) {
        Err(e) => {
            assert!(e.message().contains("at least one provider"), "got: {}", e.message());
            assert!(e.fault == ChainFault::Empty);
        }
        Ok(_) => panic!("expected error"),
    }
}

#[test]
fn config_path_has_a_default() {
    assert_eq!(config_path(None), "./chain.json");
    assert_eq!(config_path(Some("/etc/chain.json".to_string())), "/etc/chain.json");
}

#[test]
fn provider_is_asked_at_its_endpoint() {
    assert_eq!(entry("m", "http://h/v1").endpoint(), "http://h/v1/chat/completions");
    assert_eq!(entry("m", "http://h/v1//").endpoint(), "http://h/v1/chat/completions");
    assert_eq!(entry("m", "http://h").authorization(), "Bearer k");
}

#[test]
fn labels_tell_the_first_model_from_a_switch() {
    assert_eq!(label_text(true, "a"), "**Model: a**\n\n");
    assert_eq!(label_text(false, "b"), "\n\n🔄 Switched to **Model: b**\n\n");
}

#[test]
fn replies_are_reported_under_the_first_model() {
    assert_eq!(reported_model(&vec![entry("a", "x"), entry("b", "y")]), "a");
    assert_eq!(reported_model(&Vec::new()), "unknown");
}
