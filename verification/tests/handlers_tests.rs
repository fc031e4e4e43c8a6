use minimax_proxy::config::{Config, Settings};
use minimax_proxy::handlers::{
    answer_status, bearer, can_prepare, completion_as_stream, conclude_minimax_responses, cop_get_args,
    cop_post_args, error_body, health_body, keep_minimax_response, keep_upstream_response,
    maybe_resolve_previous_response_chain, models_body, original_input, prepare_minimax_chat,
    prepare_minimax_responses, previous_id, reply_with_completion, reply_with_response,
    refusal_type, route_request, upstream_outcome, upstream_url, CopQuery, Mode, Reply, Route, Upstream,
    REFUSED_STATUS,
};
use minimax_proxy::json::Json;
use minimax_proxy::store::ResponseStore;

fn j(text: &str) -> Json {
    Json::parse(text).unwrap()
}

fn config(minimax: &str, openai: &str) -> Config {
    let settings = Settings {
        proxy_port: None,
        minimax_base_url: None,
        minimax_api_key: Some(minimax.to_string()),
        minimax_models: Some("M1,M2".to_string()),
        openai_base_url: None,
        openai_api_key: Some(openai.to_string()),
        openai_model_prefixes: None,
        default_provider: None,
        github_token: String::new(),
    };
    Config::from_settings(settings).ok().unwrap()
}

#[test]
fn health_and_models_are_shown() {
    let c = config("m", "o");
    assert_eq!(
        health_body(&c).render(),
        r#"{"default_provider":"openai","providers":["minimax","openai"],"proxy":"codex-minimax-proxy","status":"ok"}"#
    );
    assert_eq!(
        models_body(&c).render(),
        r#"{"data":[{"id":"M1","object":"model","owned_by":"minimax"},{"id":"M2","object":"model","owned_by":"minimax"}],"default_provider":"openai","object":"list"}"#
    );
    let mut off = config("m", "o");
    off.enabled_providers = vec![];
    assert_eq!(health_body(&off).text_at("default_provider"), Some("none"));
    assert_eq!(error_body("e").render(), r#"{"error":{"message":"e"}}"#);
    assert_eq!(upstream_url("b", "responses"), "b/responses");
    assert_eq!(bearer("k"), "Bearer k");
}

#[test]
fn a_page_needs_an_address() {
    let refused = r#"{"error":"url parameter required"}"#;
    assert_eq!(cop_get_args(&CopQuery { url: None }).err().unwrap().render(), refused);
    assert_eq!(cop_get_args(&CopQuery { url: Some(String::new()) }).err().unwrap().render(), refused);
    assert_eq!(
        cop_get_args(&CopQuery { url: Some("u".to_string()) }).ok().unwrap().render(),
        r#"{"method":"GET","url":"u"}"#
    );
    assert_eq!(cop_post_args(&j("{}")).err().unwrap().render(), refused);
    assert_eq!(
        cop_post_args(&j(r#"{"url":""}"#)).ok().unwrap().render(),
        r#"{"body":null,"headers":{},"method":"GET","url":""}"#
    );
    assert_eq!(
        cop_post_args(&j(r#"{"url":"u","method":"PUT","headers":{"a":"b"},"body":"x"}"#)).ok().unwrap().render(),
        r#"{"body":"x","headers":{"a":"b"},"method":"PUT","url":"u"}"#
    );
}

#[test]
fn requests_are_routed() {
    let both = config("m", "o");
    assert!(matches!(route_request(&both, &j(r#"{"model":"M1"}"#)), Route::MiniMax));
    assert!(matches!(route_request(&both, &j(r#"{"model":"gpt-4"}"#)), Route::OpenAi));
    assert!(matches!(route_request(&both, &j("{}")), Route::OpenAi));
    let only = config("m", "");
    assert!(matches!(route_request(&only, &j(r#"{"model":"gpt-4"}"#)), Route::MiniMax));
    let mut broken = config("m", "o");
    broken.openai_key = String::new();
    match route_request(&broken, &j(r#"{"model":"gpt-4"}"#)) {
        Route::Refused(body) => {
            assert_eq!(body.render(), r#"{"error":{"message":"OPENAI_API_KEY is not configured"}}"#)
        },
        _ => panic!("not refused"),
    }
    broken.minimax_key = String::new();
    match route_request(&broken, &j(r#"{"model":"M1"}"#)) {
        Route::Refused(body) => {
            assert_eq!(body.render(), r#"{"error":{"message":"MINIMAX_API_KEY is not configured"}}"#)
        },
        _ => panic!("not refused"),
    }
}

fn history() -> ResponseStore {
    let mut store = ResponseStore::new();
    store.store("resp_1", "openai", vec![j(r#"{"a":1}"#)], vec![j(r#"{"b":2}"#)], None);
    store
}

#[test]
fn history_crosses_providers() {
    let store = history();
    let body = r#"{"input":"hi","previous_response_id":"resp_1"}"#;
    let mut to_minimax = j(body);
    maybe_resolve_previous_response_chain(&mut to_minimax, "minimax", &store);
    assert_eq!(
        to_minimax.render(),
        r#"{"input":[{"a":1},{"b":2},{"content":[{"text":"hi","type":"input_text"}],"role":"user","type":"message"}]}"#
    );
    let mut to_openai = j(body);
    maybe_resolve_previous_response_chain(&mut to_openai, "openai", &store);
    assert_eq!(to_openai.render(), body);
}

#[test]
fn unknown_history_is_left_alone() {
    let store = history();
    for body in [
        r#"{"input":"hi","previous_response_id":"resp_9"}"#,
        r#"{"input":"hi","previous_response_id":""}"#,
        r#"{"input":"hi","previous_response_id":7}"#,
        r#"{"input":"hi"}"#,
        "[]",
    ] {
        let mut b = j(body);
        maybe_resolve_previous_response_chain(&mut b, "minimax", &store);
        assert_eq!(b.render(), body);
    }
}

#[test]
fn a_response_request_is_prepared() {
    let store = history();
    let r = prepare_minimax_responses(
        &config("m", "o"),
        j(r#"{"model":"M9","input":"hi","stream":true,"metadata":{"k":1},"previous_response_id":"resp_1"}"#),
        &store,
    );
    assert_eq!(
        r.request.render(),
        r#"{"max_tokens":16384,"messages":[{"content":"hi","role":"user"}],"model":"M1","reasoning_split":true,"stream":true}"#
    );
    assert!(r.stream);
    assert!(!r.fetches);
    assert_eq!(r.model, "M9");
    assert_eq!(r.metadata.render(), r#"{"k":1}"#);
    assert_eq!(r.previous_response_id, Some("resp_1".to_string()));
    let mut bare = config("m", "o");
    bare.minimax_models = vec![];
    let r = prepare_minimax_responses(&bare, j("{}"), &store);
    assert_eq!(r.request.text_at("model"), Some("MiniMax-M2.7"));
}

#[test]
fn addresses_bring_the_fetch_tool() {
    let store = ResponseStore::new();
    let r = prepare_minimax_responses(&config("m", "o"), j(r#"{"input":"see https://x"}"#), &store);
    assert!(r.fetches);
    assert_eq!(r.request.items_at("tools").unwrap().len(), 1);
    assert_eq!(r.request.items_at("messages").unwrap().len(), 2);
}

fn looping(n: u32) -> ResponseStore {
    let mut store = ResponseStore::new();
    let call = || vec![j(r#"{"type":"function_call","call_id":"c","name":"f","arguments":"{}"}"#)];
    store.store("1", "minimax", vec![], call(), None);
    for k in 2..=n {
        store.store(&k.to_string(), "minimax", vec![], call(), Some((k - 1).to_string()));
    }
    store
}

fn follow(n: u32) -> Json {
    let body = format!(
        r#"{{"input":"go","previous_response_id":"{}","tools":[{{"type":"function","name":"f"}}],"tool_choice":"auto"}}"#,
        n
    );
    prepare_minimax_responses(&config("m", "o"), j(&body), &looping(n)).request
}

#[test]
fn the_breaker_nudges_and_then_takes_the_tools() {
    let quiet = follow(19);
    assert!(!quiet.render().contains("consecutive tool calls"));
    let nudged = follow(20);
    assert!(nudged.render().contains(
        "[SYSTEM: You have made 20 consecutive tool calls without responding to the user. You MUST now stop making tool calls and provide a text response summarizing your progress, findings, and any remaining work. Do NOT make any more tool calls in this response.]"
    ));
    assert!(nudged.get("tools").is_some());
    let last = &nudged.items_at("messages").unwrap()[nudged.items_at("messages").unwrap().len() - 1];
    assert_eq!(last.text_at("role"), Some("user"));
    assert!(last.text_at("content").unwrap().starts_with("go\n\n[SYSTEM: You have made 20 "));
    assert!(last.text_at("content").unwrap().ends_with("in this response.]"));
    let stripped = follow(23);
    assert!(stripped.render().contains("You have made 23 consecutive"));
    assert!(stripped.get("tools").is_none());
    assert!(stripped.get("tool_choice").is_none());
    assert!(follow(22).get("tool_choice").is_some());
}

#[test]
fn no_message_goes_up_as_system_or_developer() {
    let body = j(
        r#"{"instructions":"i","input":[{"type":"message","role":"system","content":"s"},{"type":"message","role":"developer","content":"https://d"},{"type":"message","role":"assistant","content":"a"},{"type":"message","content":"u"}]}"#,
    );
    let r = prepare_minimax_responses(&config("m", "o"), body, &ResponseStore::new());
    let roles: Vec<&str> =
        r.request.items_at("messages").unwrap().iter().map(|m| m.text_or("role", "")).collect();
    assert_eq!(roles, vec!["user", "assistant", "user", "user"]);
}

#[test]
fn a_chat_request_is_prepared() {
    let c = config("m", "o");
    let body = j(r#"{"messages":[{"role":"user","content":"a"},{"role":"user","content":"b"}],"stream":true}"#);
    assert!(can_prepare(&body));
    let r = prepare_minimax_chat(&c, body);
    assert_eq!(
        r.request.render(),
        r#"{"max_tokens":16384,"messages":[{"content":"a\n\nb","role":"user"}],"model":"M1","reasoning_split":true,"stream":true}"#
    );
    assert!(r.stream);
    assert_eq!(r.model, "M1");
    let r = prepare_minimax_chat(&c, j(r#"{"model":"x","max_tokens":null,"messages":[{"role":"user","content":"http://q"}]}"#));
    assert_eq!(r.model, "x");
    assert!(r.fetches);
    assert!(r.request.get("max_tokens").unwrap().is_null());
    assert_eq!(r.request.items_at("tools").unwrap().len(), 1);
    assert_eq!(prepare_minimax_chat(&c, j("null")).request.render(), r#"{"max_tokens":16384,"messages":[],"model":"M1","reasoning_split":true}"#);
    assert!(!can_prepare(&j("[]")));
    assert!(!can_prepare(&j(r#"{"messages":[{"role":"assistant","tool_calls":[{"function":1}]}]}"#)));
}

#[test]
fn upstream_responses_are_kept_where_they_are_whole() {
    let mut store = ResponseStore::new();
    keep_upstream_response(&mut store, &j(r#"{"id":"r","output":[1]}"#), vec![j("0")], Some("p".to_string()));
    let entry = store.get("r").unwrap();
    assert_eq!(entry.provider, "openai");
    assert_eq!(Json::Array(entry.input).render(), "[0]");
    assert_eq!(Json::Array(entry.output).render(), "[1]");
    assert_eq!(entry.previous_response_id, Some("p".to_string()));
    keep_upstream_response(&mut store, &j(r#"{"id":"s"}"#), vec![], None);
    keep_upstream_response(&mut store, &j(r#"{"output":[]}"#), vec![], None);
    assert!(store.get("s").is_none());
    assert_eq!(previous_id(&j(r#"{"previous_response_id":"p"}"#)), Some("p".to_string()));
    assert_eq!(previous_id(&j("{}")), None);
    assert_eq!(original_input(&j("{}")).len(), 0);
    assert_eq!(original_input(&j(r#"{"input":"x"}"#)).len(), 1);
}

#[test]
fn an_answer_is_kept_and_given() {
    let mut store = ResponseStore::new();
    let cc = j(r#"{"choices":[{"message":{"content":"hi"}}]}"#);
    let input = vec![j("1")];
    match conclude_minimax_responses(&mut store, &cc, "m", &j("{}"), None, input, false) {
        Reply::Body(response) => {
            let id = response.text_at("id").unwrap();
            let entry = store.get(id).unwrap();
            assert_eq!(entry.provider, "minimax");
            assert_eq!(Json::Array(entry.output).render(), response.get("output").unwrap().render());
            assert_eq!(store.resolve_chain(id).len(), 2);
        },
        Reply::Texts(_) => panic!("a stream"),
    }
    match conclude_minimax_responses(&mut store, &cc, "m", &j("{}"), None, vec![], true) {
        Reply::Texts(texts) => {
            assert!(texts[0].starts_with("event: response.created\n"));
            assert!(texts.last().unwrap().starts_with("event: response.completed\n"));
        },
        Reply::Body(_) => panic!("no stream"),
    }
    match reply_with_response(j("{}"), true, 1, 2) {
        Reply::Texts(texts) => assert_eq!(texts.len(), 3),
        Reply::Body(_) => panic!("no stream"),
    }
    keep_minimax_response(&mut store, "x", vec![], vec![j("2")], None);
    assert_eq!(store.get("x").unwrap().provider, "minimax");
}

#[test]
fn an_answer_goes_on_from_what_it_follows() {
    let mut store = ResponseStore::new();
    keep_minimax_response(&mut store, "p", vec![j("1")], vec![j("2")], None);
    let cc = j(r#"{"choices":[{"message":{"content":"hi"}}]}"#);
    let previous = Some("p".to_string());
    match conclude_minimax_responses(&mut store, &cc, "m", &j("{}"), previous, vec![j("3")], false) {
        Reply::Body(response) => {
            let chain = store.resolve_chain(response.text_at("id").unwrap());
            assert_eq!(chain.len(), 4);
            assert_eq!(chain[0].render(), "1");
            assert_eq!(chain[1].render(), "2");
            assert_eq!(chain[2].render(), "3");
            assert_eq!(chain[3].render(), response.items_at("output").unwrap()[0].render());
        },
        Reply::Texts(_) => panic!("a stream"),
    }
}

#[test]
fn completions_are_given_as_they_are_or_as_a_stream() {
    match reply_with_completion(j(r#"{"a":1}"#), false) {
        Reply::Body(body) => assert_eq!(body.render(), r#"{"a":1}"#),
        Reply::Texts(_) => panic!("a stream"),
    }
    match reply_with_completion(j(r#"{"a":1}"#), true) {
        Reply::Texts(texts) => assert_eq!(texts.len(), 2),
        Reply::Body(_) => panic!("no stream"),
    }
    let c = config("m", "o");
    let mode = |text: &str| prepare_minimax_chat(&c, j(text)).mode();
    assert!(matches!(mode("{}"), Mode::Completion));
    assert!(matches!(mode(r#"{"stream":true}"#), Mode::Stream));
    assert!(matches!(
        mode(r#"{"stream":true,"messages":[{"role":"user","content":"http://x"}]}"#),
        Mode::Fetches
    ));
}

#[test]
fn a_completion_is_shown_as_a_stream() {
    let out = completion_as_stream(&j(
        r#"{"choices":[{"finish_reason":"tool_calls","message":{"content":"hi","tool_calls":[{"id":"c","function":{"name":"f","arguments":"{}"}}]}}],"usage":{"u":1}}"#,
    ));
    assert_eq!(
        out,
        vec![
            "data: {\"choices\":[{\"delta\":{\"tool_calls\":[{\"function\":{\"arguments\":\"\",\"name\":\"f\"},\"id\":\"c\",\"index\":0,\"type\":\"function\"}]},\"index\":0}]}\n\n",
            "data: {\"choices\":[{\"delta\":{\"tool_calls\":[{\"function\":{\"arguments\":\"{}\"},\"index\":0}]},\"index\":0}]}\n\n",
            "data: {\"choices\":[{\"delta\":{\"content\":\"hi\"},\"index\":0}]}\n\n",
            "data: {\"choices\":[{\"delta\":{},\"finish_reason\":\"tool_calls\",\"index\":0}],\"usage\":{\"u\":1}}\n\n",
            "data: [DONE]\n\n",
        ]
    );
    assert_eq!(
        completion_as_stream(&j("{}")),
        vec![
            "data: {\"choices\":[{\"delta\":{},\"finish_reason\":\"stop\",\"index\":0}],\"usage\":null}\n\n",
            "data: [DONE]\n\n",
        ]
    );
}

#[test]
fn outcomes_have_a_status() {
    assert_eq!(REFUSED_STATUS, 400);
    assert_eq!(answer_status(&Upstream::Failed), 502);
    assert_eq!(answer_status(&Upstream::NoJson), 502);
    assert_eq!(answer_status(&Upstream::Value), 200);
    for (given, told) in [(404, 404), (100, 100), (999, 999), (99, 500), (1000, 500)] {
        assert_eq!(answer_status(&Upstream::Refused(given)), told);
    }
    for status in [200, 204, 299] {
        assert!(matches!(upstream_outcome(status), Upstream::Value));
    }
    assert!(matches!(upstream_outcome(199), Upstream::Refused(199)));
    assert!(matches!(upstream_outcome(300), Upstream::Refused(300)));
    assert_eq!(refusal_type(None), "application/json");
    assert_eq!(refusal_type(Some("text/html")), "text/html");
}
