use minimax_proxy::capture::ResponseCapture;
use minimax_proxy::chat::{argument_form, ArgumentForm};
use minimax_proxy::config::{Config, Settings};
use minimax_proxy::events::{sse, sse_frame};
use minimax_proxy::fetch_calls::{key_of_urls, name_of_fetch};
use minimax_proxy::fetch_loop::{fetch_asked, FetchAction, FetchLoop};
use minimax_proxy::handlers::{prepare_chat_with, route_to, Route};
use minimax_proxy::json::Json;
use minimax_proxy::util::unix_time_since;
use minimax_proxy::web_fetch::{plan_fetch_with, raw_request_with, FetchPlan};

fn j(text: &str) -> Json {
    Json::parse(text).unwrap()
}

fn settings() -> Settings {
    Settings {
        proxy_port: Some("81".to_string()),
        minimax_base_url: None,
        minimax_api_key: Some("mk".to_string()),
        minimax_models: Some("One, Two".to_string()),
        openai_base_url: None,
        openai_api_key: Some("ok".to_string()),
        openai_model_prefixes: None,
        default_provider: None,
        github_token: "gh".to_string(),
    }
}

#[test]
fn a_configuration_is_assembled_from_given_keys() {
    let keys = vec!["one".to_string(), "two".to_string()];
    let c = Config::assemble(settings(), keys, "minimax".to_string()).ok().unwrap();
    assert_eq!(c.port, 81);
    assert_eq!(c.minimax_models, vec!["One", "Two"]);
    assert_eq!(c.default_provider, "minimax");
    assert_eq!(c.explicit_model_provider.len(), 2);
    assert_eq!(c.explicit_model_provider[1], ("two".to_string(), "minimax".to_string()));
    assert_eq!(c.github_token, "gh");
    let mut without = settings();
    without.minimax_api_key = None;
    without.openai_api_key = None;
    assert!(Config::assemble(without, vec![], String::new()).is_err());
}

#[test]
fn a_given_key_finds_its_provider() {
    let c = Config::assemble(settings(), vec!["one".to_string()], "minimax".to_string()).ok().unwrap();
    let prefixes = vec!["gpt-".to_string()];
    assert_eq!(c.provider_for_key("one", &prefixes), "minimax");
    assert_eq!(c.provider_for_key("gpt-4", &prefixes), "openai");
    assert_eq!(c.provider_for_key("my-minimax-gpt", &prefixes), "minimax");
    assert_eq!(c.provider_for_key("other", &prefixes), "minimax");
    assert_eq!(c.provider_for_key("", &prefixes), "minimax");
    assert!(matches!(route_to(&c, "openai"), Route::OpenAi));
    assert!(matches!(route_to(&c, "minimax"), Route::MiniMax));
    let mut off = c;
    off.openai_key = String::new();
    off.minimax_key = String::new();
    match route_to(&off, "openai") {
        Route::Refused(body) => {
            assert_eq!(body.render(), r#"{"error":{"message":"OPENAI_API_KEY is not configured"}}"#)
        },
        _ => panic!("not refused"),
    }
    match route_to(&off, "minimax") {
        Route::Refused(body) => {
            assert_eq!(body.render(), r#"{"error":{"message":"MINIMAX_API_KEY is not configured"}}"#)
        },
        _ => panic!("not refused"),
    }
}

#[test]
fn a_chat_request_is_prepared_around_given_messages() {
    let c = Config::assemble(settings(), vec![], String::new()).ok().unwrap();
    let messages = vec![j(r#"{"role":"user","content":"hi"}"#)];
    let r = prepare_chat_with(&c, j(r#"{"messages":[],"stream":true}"#), messages);
    assert!(r.stream);
    assert!(!r.fetches);
    assert_eq!(r.model, "One");
    assert_eq!(r.previous_response_id, None);
    assert_eq!(r.request.text_at("model"), Some("One"));
    assert_eq!(r.request.get("reasoning_split").unwrap().as_bool(), Some(true));
    assert_eq!(r.request.items_at("messages").unwrap().len(), 1);
}

#[test]
fn arguments_have_a_form() {
    let text = |f: &str, is_json: bool| match argument_form(&j(f), is_json) {
        ArgumentForm::Text(s) => s,
        ArgumentForm::Value(_) => panic!("a value"),
    };
    let value = |f: &str, is_json: bool| match argument_form(&j(f), is_json) {
        ArgumentForm::Text(_) => panic!("a text"),
        ArgumentForm::Value(v) => v.render(),
    };
    assert_eq!(text("{}", false), "{}");
    assert_eq!(text(r#"{"arguments":null}"#, false), "{}");
    assert_eq!(text(r#"{"arguments":""}"#, false), "{}");
    assert_eq!(text(r#"{"arguments":"[1]"}"#, true), "[1]");
    assert_eq!(value(r#"{"arguments":"x"}"#, false), r#"{"input":"x"}"#);
    assert_eq!(value(r#"{"arguments":[1]}"#, false), "[1]");
}

#[test]
fn time_before_the_epoch_is_zero() {
    assert_eq!(unix_time_since(Some(5)), 5);
    assert_eq!(unix_time_since(None), 0);
}

#[test]
fn addresses_have_one_key_in_any_order() {
    let key = |list: &[&str]| key_of_urls(&list.iter().map(|u| u.to_string()).collect());
    assert_eq!(key(&[]), "");
    assert_eq!(key(&["b", "a", "c"]), "a|b|c");
    assert_eq!(key(&["c", "b", "a"]), "a|b|c");
    assert_eq!(key(&["b", "b"]), "b|b");
    assert_eq!(name_of_fetch(None), "unknown");
    assert_eq!(name_of_fetch(Some(&j(r#"{"url":3}"#))), "unknown");
    assert_eq!(name_of_fetch(Some(&j(r#"{"url":"u"}"#))), "u");
}

#[test]
fn a_round_goes_by_the_fetches_that_are_asked_for() {
    let call = j(r#"{"id":"c1","function":{"name":"web_fetch","arguments":"?"}}"#);
    let mut fetches = FetchLoop::start(j("{}"), vec![]);
    let asked = vec![fetch_asked(call.clone(), Some(j(r#"{"url":"u"}"#)))];
    match fetches.completion_with(j("{}"), asked, "u".to_string()) {
        FetchAction::Fetch(args) => assert_eq!(args.render(), r#"{"url":"u"}"#),
        _ => panic!("no fetch"),
    }
    match fetches.fetched("page".to_string()) {
        FetchAction::Post(request) => {
            let messages = request.items_at("messages").unwrap();
            assert_eq!(messages.len(), 2);
            assert_eq!(messages[1].render(), r#"{"content":"page","role":"tool","tool_call_id":"c1"}"#);
        },
        _ => panic!("no request"),
    }
    let again = vec![fetch_asked(call.clone(), None)];
    match fetches.completion_with(j(r#"{"id":"x"}"#), again, "u".to_string()) {
        FetchAction::Done(cc) => assert_eq!(cc.text_at("id"), Some("x")),
        _ => panic!("not done"),
    }
    let other = fetch_asked(call, None);
    assert_eq!(other.name, "unknown");
    assert_eq!(other.args.render(), "{}");
}

#[test]
fn requests_go_by_the_given_forms_of_names() {
    let args = j(r#"{"url":"u","method":"x"}"#);
    assert!(matches!(plan_fetch_with(&args, "GET"), FetchPlan::Page { .. }));
    assert!(matches!(plan_fetch_with(&args, "X"), FetchPlan::Raw { .. }));
    assert!(matches!(plan_fetch_with(&j("{}"), "GET"), FetchPlan::NoUrl));
    let headers = vec![
        ("A".to_string(), "1".to_string()),
        ("USER-AGENT".to_string(), "2".to_string()),
    ];
    let lowered = vec!["a".to_string(), "user-agent".to_string()];
    let r = raw_request_with("t", "https://api.github.com/x", "put", "PUT", &headers, &lowered, Some("b"))
        .ok()
        .unwrap();
    assert_eq!(r.method, "PUT");
    assert_eq!(r.body, Some("b".to_string()));
    assert_eq!(r.headers.len(), 3);
    assert_eq!(r.headers[1], ("Authorization".to_string(), "Bearer t".to_string()));
    assert_eq!(r.headers[2], ("A".to_string(), "1".to_string()));
    assert_eq!(
        raw_request_with("", "u", "a b", "A B", &vec![], &vec![], None).err().unwrap(),
        "Fetch error: invalid method 'a b'"
    );
}

#[test]
fn an_event_is_framed() {
    assert_eq!(sse_frame("k", "{}"), "event: k\ndata: {}\n\n");
    assert_eq!(sse("k", &j("{}")), sse_frame("k", "{}"));
}

#[test]
fn text_completes_blocks_as_bytes_do() {
    let block = "event: response.completed\r\ndata: {\"response\":{\"id\":\"r\"}}\r\n\r\nrest";
    let mut by_text = ResponseCapture::new();
    let mut by_bytes = ResponseCapture::new();
    let read = by_text.push_text(block);
    assert_eq!(read.len(), 1);
    assert_eq!(read[0].text_at("id"), Some("r"));
    assert_eq!(by_bytes.push_bytes(block.as_bytes())[0].render(), read[0].render());
}
