use minimax_proxy::fetch_calls::{
    extract_web_fetch_calls, get_fetch_url, strip_web_fetch_calls, web_fetch_urls_key,
};
use minimax_proxy::json::Json;
use minimax_proxy::request::request_messages;
use minimax_proxy::response::{
    chat_completion_to_response, finish_reason_to_status, response_from_completion, translate_usage,
};

fn j(text: &str) -> Json {
    Json::parse(text).unwrap()
}

fn ids(n: usize) -> Vec<String> {
    (0..n).map(|i| format!("i{}", i)).collect()
}

const FULL: &str = r#"{"created":5,"choices":[{"finish_reason":"length","message":{
    "content":"<think>\n  Well. ","refusal":"no",
    "tool_calls":[{"id":"c1","function":{"name":"f","arguments":"{}"}},{"id":"c2"}]}}],
    "usage":{"prompt_tokens":1,"completion_tokens":2,"total_tokens":3,"prompt_tokens_details":{"cached_tokens":4},"completion_tokens_details":{"reasoning_tokens":5}}}"#;

#[test]
fn a_completion_becomes_a_response() {
    let r = response_from_completion(&j(FULL), "m", Some("resp_0"), Some(&j(r#"{"k":1}"#)), "R", &ids(2), "M", 9);
    assert_eq!(
        r.render(),
        r#"{"created_at":5,"id":"resp_R","incomplete_details":{"reason":"max_output_tokens"},"metadata":{"k":1},"model":"m","object":"response","output":[{"arguments":"{}","call_id":"c1","id":"fc_i0","name":"f","status":"completed","type":"function_call"},{"arguments":"{}","call_id":"c2","id":"fc_i1","name":"","status":"completed","type":"function_call"},{"content":[{"annotations":[],"text":"Well.","type":"output_text"},{"refusal":"no","type":"refusal"}],"id":"msg_M","role":"assistant","status":"completed","type":"message"}],"previous_response_id":"resp_0","status":"incomplete","usage":{"input_tokens":1,"input_tokens_details":{"cached_tokens":4},"output_tokens":2,"output_tokens_details":{"reasoning_tokens":5},"total_tokens":3}}"#
    );
}

#[test]
fn a_completion_without_a_choice_is_an_empty_response() {
    for cc in ["{}", r#"{"choices":[]}"#, r#"{"choices":[{}]}"#, r#"{"choices":7}"#] {
        let r = response_from_completion(&j(cc), "m", Some("p"), None, "R", &ids(0), "M", 9);
        assert_eq!(
            r.render(),
            r#"{"created_at":9,"id":"resp_R","model":"m","object":"response","output":[],"status":"completed","usage":{"input_tokens":0,"output_tokens":0,"total_tokens":0}}"#
        );
    }
}

#[test]
fn a_refusal_alone_makes_a_message() {
    let cc = j(r#"{"choices":[{"message":{"refusal":"no"}}]}"#);
    let r = response_from_completion(&cc, "m", None, None, "R", &ids(0), "M", -3);
    assert_eq!(
        r.get("output").unwrap().render(),
        r#"[{"content":[{"refusal":"no","type":"refusal"}],"id":"msg_M","role":"assistant","status":"completed","type":"message"}]"#
    );
    assert_eq!(r.get("created_at").unwrap().render(), "-3");
    assert_eq!(r.get("metadata").unwrap().render(), "{}");
    assert_eq!(r.get("previous_response_id").unwrap().render(), "null");
}

#[test]
fn new_items_get_their_own_identifiers() {
    let r = chat_completion_to_response(&j(FULL), "m", None, None);
    let id = r.text_at("id").unwrap();
    assert!(id.starts_with("resp_"));
    assert_eq!(id.len(), 21);
    let output = r.items_at("output").unwrap();
    assert_eq!(output.len(), 3);
    assert!(output[0].text_at("id").unwrap().starts_with("fc_"));
    assert!(output[2].text_at("id").unwrap().starts_with("msg_"));
    assert_ne!(output[0].text_at("id"), output[1].text_at("id"));
    let again = chat_completion_to_response(&j("{}"), "m", None, None);
    assert!(again.get("created_at").unwrap().as_i64().unwrap() > 1_600_000_000);
}

#[test]
fn output_handed_back_is_the_conversation_again() {
    let cc = j(r#"{"choices":[{"message":{"content":"Hi","tool_calls":[{"id":"c1","type":"function","function":{"name":"f","arguments":"{\"a\":1}"}}]}}]}"#);
    let r = response_from_completion(&cc, "m", None, None, "R", &ids(1), "M", 0);
    let body = Json::object().with("input", r.get("output").unwrap().clone());
    let messages = request_messages(&body);
    assert_eq!(
        Json::Array(messages).render(),
        r#"[{"content":null,"role":"assistant","tool_calls":[{"function":{"arguments":"{\"a\":1}","name":"f"},"id":"c1","type":"function"}]},{"content":"Hi","role":"assistant"}]"#
    );
}

#[test]
fn finish_reasons_have_a_status() {
    let (s, d) = finish_reason_to_status("length");
    assert_eq!((s, d.render()), ("incomplete", r#"{"reason":"max_output_tokens"}"#.to_string()));
    let (s, d) = finish_reason_to_status("content_filter");
    assert_eq!((s, d.render()), ("incomplete", r#"{"reason":"content_filter"}"#.to_string()));
    let (s, d) = finish_reason_to_status("stop");
    assert_eq!((s, d.render()), ("completed", "null".to_string()));
}

#[test]
fn usage_counts_default_to_zero() {
    assert_eq!(
        translate_usage(None).render(),
        r#"{"input_tokens":0,"output_tokens":0,"total_tokens":0}"#
    );
    assert_eq!(
        translate_usage(Some(&j(r#"{"prompt_tokens":-1,"total_tokens":1.5}"#))).render(),
        r#"{"input_tokens":0,"input_tokens_details":{"cached_tokens":0},"output_tokens":0,"output_tokens_details":{"reasoning_tokens":0},"total_tokens":0}"#
    );
}

#[test]
fn think_tags_are_taken_out() {
    let cc = j(r#"{"choices":[{"message":{"content":"a <think> \n b <think>c</think>"}}]}"#);
    let r = response_from_completion(&cc, "m", None, None, "R", &ids(0), "M", 0);
    let part = r.items_at("output").unwrap()[0].items_at("content").unwrap()[0].clone();
    assert_eq!(part.text_at("text"), Some("a b c</think>"));
}

const FETCHES: &str = r#"{"id":"x","choices":[{"finish_reason":"tool_calls","message":{"tool_calls":[
    {"id":"1","function":{"name":"web_fetch","arguments":"{\"url\":\"https://b\"}"}},
    {"id":"2","function":{"name":"other"}},
    {"id":"3","function":{"name":"web_fetch","arguments":"{\"url\":\"https://a\"}"}}]}},{"k":1}]}"#;

#[test]
fn fetches_are_found_and_taken_out() {
    let mut cc = j(FETCHES);
    let calls = extract_web_fetch_calls(&cc);
    assert_eq!(calls.len(), 2);
    assert_eq!(calls[1].text_at("id"), Some("3"));
    strip_web_fetch_calls(&mut cc);
    assert!(extract_web_fetch_calls(&cc).is_empty());
    assert_eq!(
        cc.render(),
        r#"{"choices":[{"finish_reason":"tool_calls","message":{"tool_calls":[{"function":{"name":"other"},"id":"2"}]}},{"k":1}],"id":"x"}"#
    );
}

#[test]
fn a_choice_without_calls_has_ended_by_itself() {
    let mut cc = j(r#"{"choices":[{"finish_reason":"tool_calls","message":{"tool_calls":[{"function":{"name":"web_fetch"}}]}}]}"#);
    strip_web_fetch_calls(&mut cc);
    assert_eq!(cc.render(), r#"{"choices":[{"finish_reason":"stop","message":{}}]}"#);
    let mut none = j(r#"{"choices":[]}"#);
    strip_web_fetch_calls(&mut none);
    assert_eq!(none.render(), r#"{"choices":[]}"#);
    assert!(extract_web_fetch_calls(&none).is_empty());
}

#[test]
fn the_order_of_addresses_does_not_matter() {
    let calls = extract_web_fetch_calls(&j(FETCHES));
    let turned = vec![calls[1].clone(), calls[0].clone()];
    assert_eq!(web_fetch_urls_key(&calls), "https://a|https://b");
    assert_eq!(web_fetch_urls_key(&turned), web_fetch_urls_key(&calls));
    let odd = vec![j(r#"{"function":{"arguments":"nope"}}"#), j(r#"{"function":{"arguments":"{}"}}"#), j("1")];
    assert_eq!(web_fetch_urls_key(&odd), "");
    let more = vec![
        j(r#"{"function":{"arguments":"{\"url\":\"ab\"}"}}"#),
        j(r#"{"function":{"arguments":"{\"url\":\"a\"}"}}"#),
        j(r#"{"function":{"arguments":"{\"url\":\"é\"}"}}"#),
        j(r#"{"function":{"arguments":"{\"url\":\"Z\"}"}}"#),
    ];
    assert_eq!(web_fetch_urls_key(&more), "Z|a|ab|é");
}

#[test]
fn fetches_without_an_address_are_unknown() {
    assert_eq!(get_fetch_url(r#"{"url":"https://a"}"#), "https://a");
    assert_eq!(get_fetch_url(r#"{"url":1}"#), "unknown");
    assert_eq!(get_fetch_url("x"), "unknown");
}
