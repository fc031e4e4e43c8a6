use minimax_proxy::config::{Config, ConfigError, Settings};
use minimax_proxy::json::Json;

fn none() -> Settings {
    Settings {
        proxy_port: None,
        minimax_base_url: None,
        minimax_api_key: None,
        minimax_models: None,
        openai_base_url: None,
        openai_api_key: None,
        openai_model_prefixes: None,
        default_provider: None,
        github_token: String::new(),
    }
}

fn some(s: &str) -> Option<String> {
    Some(s.to_string())
}

fn both() -> Config {
    let mut s = none();
    s.minimax_api_key = some("mk");
    s.openai_api_key = some("ok");
    Config::from_settings(s).ok().unwrap()
}

#[test]
fn settings_have_defaults() {
    let c = both();
    assert_eq!(c.port, 4000);
    assert_eq!(c.minimax_base, "https://api.minimax.io/v1");
    assert_eq!(c.openai_base, "https://api.openai.com/v1");
    assert_eq!(c.minimax_models, vec!["MiniMax-M2.7"]);
    assert_eq!(c.openai_model_prefixes, vec!["gpt-", "o1", "o3", "o4", "codex-", "chatgpt-"]);
    assert_eq!(c.default_provider, "");
    assert_eq!(c.enabled_providers, vec!["minimax", "openai"]);
    assert_eq!(c.explicit_model_provider, vec![("minimax-m2.7".to_string(), "minimax".to_string())]);
    assert_eq!(
        Json::Array(c.model_catalog).render(),
        r#"[{"id":"MiniMax-M2.7","object":"model","owned_by":"minimax"}]"#
    );
}

#[test]
fn ports_are_read() {
    let port = |text: &str| {
        let mut s = none();
        s.openai_api_key = some("k");
        s.proxy_port = some(text);
        Config::from_settings(s).ok().unwrap().port
    };
    assert_eq!(port("8080"), 8080);
    assert_eq!(port("+80"), 80);
    assert_eq!(port("65535"), 65535);
    assert_eq!(port("000065535"), 65535);
    for bad in ["65536", "", "+", "-1", " 80", "8o", "99999999999999999999"] {
        assert_eq!(port(bad), 4000);
    }
}

#[test]
fn a_key_is_needed() {
    let error = Config::from_settings(none()).err().unwrap();
    assert_eq!(error, ConfigError::NoKey);
    assert_eq!(
        error.message(),
        "At least one upstream provider key is required: set MINIMAX_API_KEY and/or OPENAI_API_KEY"
    );
    let mut s = none();
    s.minimax_api_key = some("");
    s.openai_api_key = some("");
    assert_eq!(Config::from_settings(s).err().unwrap(), ConfigError::NoKey);
}

#[test]
fn the_fallback_follows_the_default() {
    let mut c = both();
    assert_eq!(c.get_fallback_provider().ok().unwrap(), "openai");
    c.default_provider = "minimax".to_string();
    assert_eq!(c.get_fallback_provider().ok().unwrap(), "minimax");
    c.default_provider = "other".to_string();
    assert_eq!(c.get_fallback_provider().ok().unwrap(), "openai");
    c.enabled_providers = vec!["minimax".to_string()];
    assert_eq!(c.get_fallback_provider().ok().unwrap(), "minimax");
    c.enabled_providers = vec![];
    let error = c.get_fallback_provider().err().unwrap();
    assert_eq!(error, ConfigError::NoProvider);
    assert_eq!(error.message(), "No providers are enabled");
    assert_eq!(c.resolve_provider_for_model("x"), "openai");
}

#[test]
fn models_find_their_provider() {
    let c = both();
    assert_eq!(c.resolve_provider_for_model(" MINIMAX-m2.7 "), "minimax");
    assert_eq!(c.resolve_provider_for_model("my-minimax-x"), "minimax");
    assert_eq!(c.resolve_provider_for_model("GPT-5"), "openai");
    assert_eq!(c.resolve_provider_for_model("unknown"), "openai");
    assert_eq!(c.resolve_provider_for_model(""), "openai");
}

#[test]
fn the_explicit_map_comes_before_prefixes() {
    let mut s = none();
    s.minimax_api_key = some("mk");
    s.openai_api_key = some("ok");
    s.minimax_models = some("gpt-mini, GPT-mini");
    s.default_provider = some(" MiniMax ");
    let mut c = Config::from_settings(s).ok().unwrap();
    assert_eq!(c.default_provider, "minimax");
    assert_eq!(c.resolve_provider_for_model("GPT-Mini"), "minimax");
    assert_eq!(c.resolve_provider_for_model("gpt-x"), "openai");
    assert_eq!(c.resolve_provider_for_model("whatever"), "minimax");
    c.explicit_model_provider.push(("gpt-mini".to_string(), "openai".to_string()));
    assert_eq!(c.resolve_provider_for_model("gpt-mini"), "openai");
    c.enabled_providers = vec!["minimax".to_string()];
    assert_eq!(c.resolve_provider_for_model("gpt-x"), "minimax");
}
