use minimax_proxy::json::Json;
use minimax_proxy::request::{
    normalize_content_blocks, normalize_input_to_array, request_messages,
    responses_request_to_chat_completions, tool_result, user_input_item,
};

fn j(text: &str) -> Json {
    Json::parse(text).unwrap()
}

fn lines(items: &Vec<Json>) -> Vec<String> {
    items.iter().map(|v| v.render()).collect()
}

#[test]
fn text_input_becomes_one_item() {
    let items = normalize_input_to_array(&j(r#""hi""#));
    assert_eq!(
        lines(&items),
        vec![r#"{"content":[{"text":"hi","type":"input_text"}],"role":"user","type":"message"}"#]
    );
    assert_eq!(user_input_item("hi").render(), items[0].render());
}

#[test]
fn list_input_stays_and_other_input_is_nothing() {
    assert_eq!(lines(&normalize_input_to_array(&j("[1,{}]"))), vec!["1", "{}"]);
    assert!(normalize_input_to_array(&j("7")).is_empty());
    assert!(normalize_input_to_array(&j("null")).is_empty());
    assert!(normalize_input_to_array(&j(r#"{"a":1}"#)).is_empty());
}

#[test]
fn single_text_block_becomes_a_string() {
    let content = j(r#"[{"type":"input_text","text":"hello"}]"#);
    assert_eq!(normalize_content_blocks(Some(&content)).render(), r#""hello""#);
    assert_eq!(normalize_content_blocks(None).render(), "null");
    assert_eq!(normalize_content_blocks(Some(&j("3"))).render(), "3");
}

#[test]
fn blocks_are_renamed() {
    let content = j(
        r#"[{"type":"output_text","text":"a"},{"type":"input_image","image_url":"u"},{"type":"input_image","url":"v"},{"type":"x","y":1}]"#,
    );
    assert_eq!(
        normalize_content_blocks(Some(&content)).render(),
        r#"[{"text":"a","type":"text"},{"image_url":{"url":"u"},"type":"image_url"},{"image_url":{"url":"v"},"type":"image_url"},{"type":"x","y":1}]"#
    );
}

#[test]
fn calls_wait_for_the_message_that_makes_them() {
    let body = j(
        r#"{"input":[
            {"type":"message","role":"developer","content":"d"},
            {"type":"function_call","call_id":"c1","name":"f","arguments":"{\"x\":1}"},
            {"type":"function_call","id":"c2","name":"g"},
            {"type":"function_call_output","call_id":"c1","output":"one"},
            {"type":"function_call_output","call_id":"c2","output":"two"},
            {"type":"reasoning"},
            {"type":"function_call","call_id":5,"id":"c3"}
        ]}"#,
    );
    assert_eq!(
        lines(&request_messages(&body)),
        vec![
            r#"{"content":"d","role":"user"}"#,
            r#"{"content":null,"role":"assistant","tool_calls":[{"function":{"arguments":"{\"x\":1}","name":"f"},"id":"c1","type":"function"},{"function":{"arguments":"{}","name":"g"},"id":"c2","type":"function"}]}"#,
            r#"{"content":"one","role":"tool","tool_call_id":"c1"}"#,
            r#"{"content":"two","role":"tool","tool_call_id":"c2"}"#,
            r#"{"content":null,"role":"assistant","tool_calls":[{"function":{"arguments":"{}","name":""},"id":"","type":"function"}]}"#,
        ]
    );
}

#[test]
fn instructions_come_first() {
    let body = j(r#"{"instructions":"Be kind.","input":"hi"}"#);
    assert_eq!(
        lines(&request_messages(&body)),
        vec![
            r#"{"content":"[System Instructions] Be kind.\n\nNote: Be efficient with tool calls. Avoid repeating the same tool call unnecessarily.","role":"user"}"#,
            r#"{"content":"hi","role":"user"}"#,
        ]
    );
}

#[test]
fn a_request_has_its_defaults() {
    let r = responses_request_to_chat_completions(&j(r#"{"input":"hi"}"#));
    assert_eq!(
        r.render(),
        r#"{"max_tokens":16384,"messages":[{"content":"hi","role":"user"}],"model":null,"stream":false}"#
    );
}

#[test]
fn a_request_carries_its_options_over() {
    let r = responses_request_to_chat_completions(&j(
        r#"{"input":"hi","model":"m","stream":true,"max_output_tokens":7,"temperature":0.5,"top_p":null,
            "tools":[{"type":"function","name":"f","description":"d","parameters":{}},{"type":"web_search"},{"type":"function","function":{"name":"g"}}],
            "tool_choice":{"type":"function","name":"f"},"reasoning":{"effort":"high"},"parallel_tool_calls":false}"#,
    ));
    assert_eq!(
        r.render(),
        r#"{"max_tokens":7,"messages":[{"content":"hi","role":"user"}],"model":"m","parallel_tool_calls":false,"reasoning_effort":"high","stream":true,"temperature":0.5,"tool_choice":{"function":{"name":"f"},"type":"function"},"tools":[{"function":{"description":"d","name":"f","parameters":{}},"type":"function"},{"function":{"name":"g"},"type":"function"}]}"#
    );
}

#[test]
fn tool_choice_without_a_name_stays() {
    let r = responses_request_to_chat_completions(&j(r#"{"tool_choice":"auto","tools":[]}"#));
    assert_eq!(r.get("tool_choice").unwrap().render(), r#""auto""#);
    assert!(r.get("tools").is_none());
    assert_eq!(tool_result("a", "b").render(), r#"{"content":"b","role":"tool","tool_call_id":"a"}"#);
}

#[test]
fn a_long_conversation_is_trimmed() {
    let mut items: Vec<Json> = Vec::new();
    for i in 0..120 {
        let role = if i % 2 == 0 { "user" } else { "assistant" };
        items.push(j(&format!(r#"{{"type":"message","role":"{}","content":"m{}"}}"#, role, i)));
    }
    let body = Json::object().with("input", Json::Array(items));
    let r = responses_request_to_chat_completions(&body);
    let messages = r.items_at("messages").unwrap();
    assert!(messages.len() <= 55);
    assert_eq!(messages[messages.len() - 1].text_at("content"), Some("m119"));
}

#[test]
fn orphan_tool_results_do_not_go_upstream() {
    let body = j(r#"{"input":[{"type":"function_call_output","call_id":"x","output":"o"},{"type":"message","role":"user","content":"u"}]}"#);
    let r = responses_request_to_chat_completions(&body);
    assert_eq!(
        r.get("messages").unwrap().render(),
        r#"[{"content":"u","role":"user"}]"#
    );
}
