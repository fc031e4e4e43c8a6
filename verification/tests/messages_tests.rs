use minimax_proxy::chat::{can_normalize, normalize_arguments, normalize_minimax_chat_messages};
use minimax_proxy::json::Json;
use minimax_proxy::messages::{
    merge_consecutive, repair_tool_order, trim_messages, truncate_old_tool_outputs,
    validate_tool_sequence,
};

fn list(text: &str) -> Vec<Json> {
    match Json::parse(text).unwrap() {
        Json::Array(items) => items,
        _ => panic!("no list"),
    }
}

fn text(items: Vec<Json>) -> String {
    Json::Array(items).render()
}

#[test]
fn results_are_pulled_behind_their_caller() {
    let out = repair_tool_order(list(
        r#"[{"role":"assistant","tool_calls":[{"id":"a"},{"id":"b"}]},{"role":"user","content":"u"},{"role":"tool","tool_call_id":"b"},{"role":"tool","tool_call_id":"a"}]"#,
    ));
    assert_eq!(
        text(out),
        r#"[{"role":"assistant","tool_calls":[{"id":"a"},{"id":"b"}]},{"role":"tool","tool_call_id":"b"},{"role":"tool","tool_call_id":"a"},{"content":"u","role":"user"}]"#
    );
}

#[test]
fn orphans_go_behind_the_last_caller_or_away() {
    let out = repair_tool_order(list(
        r#"[{"role":"tool","tool_call_id":"z"},{"role":"assistant","tool_calls":[{"id":"a"}]},{"role":"user","content":"u"},{"role":"tool","tool_call_id":"q"}]"#,
    ));
    assert_eq!(
        text(out),
        r#"[{"role":"assistant","tool_calls":[{"id":"a"}]},{"role":"tool","tool_call_id":"q"},{"content":"u","role":"user"}]"#
    );
}

#[test]
fn neighbours_of_one_role_are_merged() {
    let out = merge_consecutive(list(
        r#"[{"role":"user","content":"a"},{"role":"user","content":"b"},{"role":"assistant","content":"c"}]"#,
    ));
    assert_eq!(
        text(out),
        r#"[{"content":"a\n\nb","role":"user"},{"content":"c","role":"assistant"}]"#
    );
}

#[test]
fn assistant_messages_with_calls_win() {
    let out = merge_consecutive(list(
        r#"[{"role":"assistant","content":"a"},{"role":"assistant","content":"b"},{"role":"assistant","tool_calls":[]},{"role":"assistant","content":"c"},{"role":"assistant","tool_calls":[1]},{"role":"user","content":[1]},{"role":"user","content":"d"}]"#,
    ));
    assert_eq!(
        text(out),
        r#"[{"role":"assistant","tool_calls":[]},{"role":"assistant","tool_calls":[1]},{"content":[1],"role":"user"},{"content":"d","role":"user"}]"#
    );
}

#[test]
fn trimmed_conversations_keep_head_and_tail() {
    let mut items = Vec::new();
    for i in 0..60 {
        let role = if i == 8 || i == 9 { "tool" } else { "user" };
        items.push(Json::object().with("role", Json::text(role)).with("content", Json::count(i)));
    }
    let out = trim_messages(items);
    assert_eq!(out.len(), 53);
    assert_eq!(out[1].get("content").unwrap().render(), "1");
    assert!(out[2].text_at("content").unwrap().starts_with("[Earlier conversation trimmed."));
    assert_eq!(out[3].get("content").unwrap().render(), "10");
    assert_eq!(out[52].get("content").unwrap().render(), "59");
}

#[test]
fn shortened_outputs_say_how_much_is_gone() {
    let long = format!("{}\u{e9}\u{e9}", "x".repeat(1999));
    let mut items = vec![Json::object().with("role", Json::text("tool")).with("content", Json::text(&long))];
    for _ in 0..10 {
        items.push(Json::Null);
    }
    let out = truncate_old_tool_outputs(items);
    assert_eq!(
        out[0].text_at("content").unwrap(),
        format!("{}\u{e9}\n...[output truncated, 2 chars removed]", "x".repeat(1999))
    );
}

#[test]
fn orphans_are_left_out_by_validation() {
    let once = validate_tool_sequence(list(
        r#"[{"role":"tool","tool_call_id":"x"},{"role":"assistant","tool_calls":[{"id":"a"}]},{"role":"tool","tool_call_id":"a"},{"role":"user","content":"u"},{"role":"tool","tool_call_id":"a"}]"#,
    ));
    let shown = text(once);
    assert_eq!(
        shown,
        r#"[{"role":"assistant","tool_calls":[{"id":"a"}]},{"role":"tool","tool_call_id":"a"},{"content":"u","role":"user"}]"#
    );
    assert_eq!(text(validate_tool_sequence(list(&shown))), shown);
    let behind_text = r#"[{"content":"a","role":"assistant"},{"role":"tool","tool_call_id":"x"},{"role":"tool","tool_call_id":"y"}]"#;
    assert_eq!(text(validate_tool_sequence(list(behind_text))), behind_text);
}

#[test]
fn repairing_twice_is_repairing_once() {
    let out = repair_tool_order(list(
        r#"[{"role":"tool","tool_call_id":"a"},{"role":"assistant","tool_calls":[{"id":"a"}]},{"role":"tool","tool_call_id":"b"},{"role":"user","content":"u"},{"role":"tool","tool_call_id":"a"},{"role":"assistant","tool_calls":[{"id":"b"}]},{"role":"tool","tool_call_id":"a"},{"role":"tool","tool_call_id":"b"}]"#,
    ));
    let shown = text(out);
    assert_eq!(
        shown,
        r#"[{"role":"assistant","tool_calls":[{"id":"a"}]},{"role":"tool","tool_call_id":"a"},{"role":"tool","tool_call_id":"a"},{"role":"tool","tool_call_id":"b"},{"content":"u","role":"user"},{"role":"assistant","tool_calls":[{"id":"b"}]},{"role":"tool","tool_call_id":"b"}]"#
    );
    assert_eq!(text(repair_tool_order(list(&shown))), shown);
}

#[test]
fn normalizing_twice_is_normalizing_once() {
    let once = normalize_minimax_chat_messages(list(
        r#"[{"role":"user","content":"a"},{"role":"user","content":"b"},{"role":"assistant","content":"x"},{"role":"assistant","tool_calls":[{"id":"1","function":{"name":"f","arguments":{"k":[1]}}},{"id":"2","function":{"arguments":"no json"}},{"id":"3","function":null}]},{"role":"user","content":"c"},{"role":"tool","tool_call_id":"2","content":{"r":1}}]"#,
    ));
    let shown = text(once);
    assert_eq!(
        shown,
        r#"[{"content":"a\n\nb","role":"user"},{"role":"assistant","tool_calls":[{"function":{"arguments":"{\"k\":[1]}","name":"f"},"id":"1"},{"function":{"arguments":"{\"input\":\"no json\"}"},"id":"2"},{"function":{"arguments":"{}"},"id":"3"}]},{"content":"{\"r\":1}","role":"tool","tool_call_id":"2"},{"content":"c","role":"user"}]"#
    );
    assert_eq!(text(normalize_minimax_chat_messages(list(&shown))), shown);
}

#[test]
fn old_tool_outputs_are_shortened() {
    let long = "x".repeat(5000);
    let mut items = list(&format!(
        r#"[{{"role":"assistant","tool_calls":[{{"id":"a"}}]}},{{"role":"tool","tool_call_id":"a","content":"{}"}}]"#,
        long
    ));
    for i in 0..12 {
        items.push(Json::object().with("role", Json::text("user")).with("content", Json::text(&format!("{}", i))));
    }
    let out = truncate_old_tool_outputs(items);
    assert_eq!(out.len(), 14);
    let content = out[1].text_at("content").unwrap();
    assert!(content.len() < 2100);
    assert!(content.starts_with(&"x".repeat(2000)));
}

#[test]
fn recent_tool_outputs_stay_whole() {
    let long = "x".repeat(5000);
    let items = list(&format!(
        r#"[{{"role":"assistant","tool_calls":[{{"id":"a"}}]}},{{"role":"tool","tool_call_id":"a","content":"{}"}}]"#,
        long
    ));
    let out = truncate_old_tool_outputs(items);
    assert_eq!(out[1].text_at("content").unwrap().len(), 5000);
}

#[test]
fn short_conversations_are_not_trimmed() {
    let out = trim_messages(list(r#"[{"role":"user","content":"a"}]"#));
    assert_eq!(text(out), r#"[{"content":"a","role":"user"}]"#);
}

#[test]
fn arguments_become_json_text() {
    let f = |t: &str| normalize_arguments(&Json::parse(t).unwrap());
    assert_eq!(f(r#"{}"#), "{}");
    assert_eq!(f(r#"{"arguments":null}"#), "{}");
    assert_eq!(f(r#"{"arguments":""}"#), "{}");
    assert_eq!(f(r#"{"arguments":"{\"a\": 1}"}"#), r#"{"a": 1}"#);
    assert_eq!(f(r#"{"arguments":"not json"}"#), r#"{"input":"not json"}"#);
    assert_eq!(f(r#"{"arguments":{"b":2,"a":1}}"#), r#"{"a":1,"b":2}"#);
    assert_eq!(f(r#"{"arguments":false}"#), "false");
}

#[test]
fn chat_messages_are_normalized() {
    let out = normalize_minimax_chat_messages(list(
        r#"[{"role":"user","content":"u"},{"role":"assistant","tool_calls":[{"id":"a","function":{"name":"f","arguments":"oops"}},{"id":"b"},{"id":"c","function":null}]},{"role":"tool","tool_call_id":"a","content":{"k":[1]}}]"#,
    ));
    assert_eq!(
        text(out),
        r#"[{"content":"u","role":"user"},{"role":"assistant","tool_calls":[{"function":{"arguments":"{\"input\":\"oops\"}","name":"f"},"id":"a"},{"id":"b"},{"function":{"arguments":"{}"},"id":"c"}]},{"content":"{\"k\":[1]}","role":"tool","tool_call_id":"a"}]"#
    );
}

#[test]
fn functions_that_take_no_arguments_are_recognized() {
    let bad = list(r#"[{"role":"assistant","tool_calls":[{"id":"a","function":"f"}]}]"#);
    assert!(!can_normalize(&bad));
    let fine = list(r#"[{"role":"user","tool_calls":[{"id":"a","function":"f"}]}]"#);
    assert!(can_normalize(&fine));
}
