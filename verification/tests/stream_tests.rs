use minimax_proxy::capture::{completed_response, handle_sse_block, read_block, ResponseCapture};
use minimax_proxy::events::{
    event_completed, event_content_part_added, event_content_part_done, event_created,
    event_created_at, event_fn_args_delta, event_fn_args_done, event_in_progress,
    event_in_progress_at, event_output_item_added, event_output_item_done, event_text_delta,
    event_text_done, sse,
};
use minimax_proxy::json::Json;
use minimax_proxy::replay::{send_response_as_stream_bytes, stream_response};
use minimax_proxy::stream::{Fresh, RequestContext, StreamToolCall, StreamTranslator};

fn j(text: &str) -> Json {
    Json::parse(text).unwrap()
}

fn fresh(n: usize, now: i64) -> Fresh {
    Fresh {
        call_ids: (0..n).map(|i| format!("c{}", i)).collect(),
        item_ids: (0..n).map(|i| format!("f{}", i)).collect(),
        message_id: "m".to_string(),
        done_id: "d".to_string(),
        output_id: "o".to_string(),
        now,
    }
}

fn begin() -> (StreamTranslator, Vec<String>) {
    let mut out = Vec::new();
    let t = StreamTranslator::start_with(
        "resp_x".to_string(),
        "mod".to_string(),
        None,
        j("{}"),
        1,
        2,
        &mut out,
    );
    (t, out)
}

fn kinds(out: &[String]) -> Vec<String> {
    out.iter()
        .map(|e| e.lines().next().unwrap().trim_start_matches("event: ").to_string())
        .collect()
}

fn data(event: &str) -> Json {
    let line = event.lines().nth(1).unwrap();
    j(line.strip_prefix("data: ").unwrap())
}

#[test]
fn events_have_their_frames() {
    assert_eq!(sse("a", &j("[1]")), "event: a\ndata: [1]\n\n");
    assert_eq!(
        event_output_item_added(1, j("2")),
        "event: response.output_item.added\ndata: {\"item\":2,\"output_index\":1,\"type\":\"response.output_item.added\"}\n\n"
    );
    assert_eq!(
        event_content_part_added(1, 2, j("3")),
        "event: response.content_part.added\ndata: {\"content_index\":2,\"output_index\":1,\"part\":3,\"type\":\"response.content_part.added\"}\n\n"
    );
    assert_eq!(
        event_text_delta(1, 2, "x"),
        "event: response.output_text.delta\ndata: {\"content_index\":2,\"delta\":\"x\",\"output_index\":1,\"type\":\"response.output_text.delta\"}\n\n"
    );
    assert_eq!(
        event_text_done(1, 2, "x"),
        "event: response.output_text.done\ndata: {\"content_index\":2,\"output_index\":1,\"text\":\"x\",\"type\":\"response.output_text.done\"}\n\n"
    );
    assert_eq!(
        event_content_part_done(1, 2, j("3")),
        "event: response.content_part.done\ndata: {\"content_index\":2,\"output_index\":1,\"part\":3,\"type\":\"response.content_part.done\"}\n\n"
    );
    assert_eq!(
        event_output_item_done(1, j("2")),
        "event: response.output_item.done\ndata: {\"item\":2,\"output_index\":1,\"type\":\"response.output_item.done\"}\n\n"
    );
    assert_eq!(
        event_fn_args_delta(1, "c", "x"),
        "event: response.function_call_arguments.delta\ndata: {\"call_id\":\"c\",\"delta\":\"x\",\"output_index\":1,\"type\":\"response.function_call_arguments.delta\"}\n\n"
    );
    assert_eq!(
        event_fn_args_done(1, "c", "x"),
        "event: response.function_call_arguments.done\ndata: {\"arguments\":\"x\",\"call_id\":\"c\",\"output_index\":1,\"type\":\"response.function_call_arguments.done\"}\n\n"
    );
    assert_eq!(
        event_completed(j("7")),
        "event: response.completed\ndata: {\"response\":7,\"type\":\"response.completed\"}\n\n"
    );
}

#[test]
fn a_stream_begins_with_two_events() {
    let base = "\"created_at\":4,\"id\":\"i\",\"metadata\":{},\"model\":\"m\",\"object\":\"response\",\"output\":[],\"previous_response_id\":\"p\",\"status\":\"in_progress\",\"usage\":{\"input_tokens\":0,\"output_tokens\":0,\"total_tokens\":0}";
    assert_eq!(
        event_created_at("i", "m", Some("p"), &j("{}"), 4),
        format!("event: response.created\ndata: {{\"response\":{{{}}},\"type\":\"response.created\"}}\n\n", base)
    );
    assert_eq!(
        event_in_progress_at("i", "m", Some("p"), &j("{}"), 4),
        format!("event: response.in_progress\ndata: {{\"response\":{{{}}},\"type\":\"response.in_progress\"}}\n\n", base)
    );
    assert!(event_created("i", "m", None, &j("{}")).starts_with("event: response.created\n"));
    assert!(event_in_progress("i", "m", None, &j("{}")).starts_with("event: response.in_progress\n"));
}

#[test]
fn text_is_streamed_in_pieces() {
    let (mut t, mut out) = begin();
    t.receive(&j(r#"{"choices":[{"delta":{"content":"Hel"}}]}"#), &fresh(0, 3), &mut out);
    t.receive(&j(r#"{"choices":[{"delta":{"content":"lo "},"finish_reason":"stop"}],"usage":{"total_tokens":8}}"#), &fresh(0, 3), &mut out);
    assert_eq!(
        kinds(&out),
        vec![
            "response.created",
            "response.in_progress",
            "response.output_item.added",
            "response.content_part.added",
            "response.output_text.delta",
            "response.output_text.delta",
            "response.output_text.done",
            "response.content_part.done",
            "response.output_item.done",
            "response.completed",
        ]
    );
    assert_eq!(data(&out[2]).get("item").unwrap().text_at("id"), Some("msg_m"));
    assert_eq!(data(&out[5]).text_at("delta"), Some("lo "));
    assert_eq!(data(&out[6]).text_at("text"), Some("Hello"));
    let response = data(&out[9]).get("response").unwrap().clone();
    assert_eq!(
        response.render(),
        r#"{"created_at":3,"id":"resp_x","incomplete_details":null,"metadata":{},"model":"mod","object":"response","output":[{"content":[{"annotations":[],"text":"Hello","type":"output_text"}],"id":"msg_o","role":"assistant","status":"completed","type":"message"}],"previous_response_id":null,"status":"completed","usage":{"input_tokens":0,"input_tokens_details":{"cached_tokens":0},"output_tokens":0,"output_tokens_details":{"reasoning_tokens":0},"total_tokens":8}}"#
    );
    let result = t.finish(&mut out);
    assert_eq!(out.len(), 10);
    assert_eq!(result.response_id, "resp_x");
    assert_eq!(Json::Array(result.output).render(), response.get("output").unwrap().render());
}

#[test]
fn calls_are_streamed_by_their_indices() {
    let (mut t, mut out) = begin();
    t.receive(&j(r#"{"choices":[{"delta":{"tool_calls":[{"index":1,"id":"B","function":{"name":"g","arguments":"{"}},{"index":0,"function":{"name":"f"}}]}}]}"#), &fresh(2, 3), &mut out);
    t.receive(&j(r#"{"choices":[{"delta":{"tool_calls":[{"index":1,"function":{"arguments":"}"}}]},"finish_reason":"tool_calls"}]}"#), &fresh(1, 3), &mut out);
    assert_eq!(
        kinds(&out)[2..],
        [
            "response.output_item.added",
            "response.function_call_arguments.delta",
            "response.output_item.added",
            "response.function_call_arguments.delta",
            "response.function_call_arguments.done",
            "response.output_item.done",
            "response.function_call_arguments.done",
            "response.output_item.done",
            "response.completed",
        ]
    );
    let response = data(&out[10]).get("response").unwrap().clone();
    assert_eq!(
        response.get("output").unwrap().render(),
        r#"[{"arguments":"","call_id":"call_c1","id":"fc_f1","name":"f","status":"completed","type":"function_call"},{"arguments":"{}","call_id":"B","id":"fc_f0","name":"g","status":"completed","type":"function_call"}]"#
    );
    assert_eq!(response.text_at("status"), Some("completed"));
}

#[test]
fn a_message_in_front_moves_the_calls() {
    let (mut t, mut out) = begin();
    t.receive(&j(r#"{"choices":[{"delta":{"content":"a"}}]}"#), &fresh(0, 3), &mut out);
    t.receive(&j(r#"{"choices":[{"delta":{"tool_calls":[{"index":0,"id":"A"}]}}]}"#), &fresh(1, 3), &mut out);
    let added = data(out.last().unwrap());
    assert_eq!(added.get("output_index").unwrap().render(), "1");
    let mut more = Vec::new();
    let result = t.finish(&mut more);
    assert_eq!(result.output.len(), 2);
    assert_eq!(result.output[0].text_at("type"), Some("message"));
    let response = data(more.last().unwrap()).get("response").unwrap().clone();
    assert_eq!(response.text_at("status"), Some("incomplete"));
}

#[test]
fn reasoning_is_not_passed_on() {
    let (mut t, mut out) = begin();
    for chunk in [
        r#"{"choices":[{"delta":{"reasoning_content":"r","content":"x"}}]}"#,
        r#"{"choices":[{"delta":{"content":"<think>plan"}}]}"#,
        r#"{"choices":[{"delta":{"content":"more"}}]}"#,
        r#"{"choices":[{"delta":{"content":"</think>"}}]}"#,
        r#"{"choices":[{"delta":{"content":"answer"}}]}"#,
        r#"{"choices":[]}"#,
        r#"{"choices":[{}]}"#,
    ] {
        t.receive(&j(chunk), &fresh(0, 3), &mut out);
    }
    let deltas: Vec<String> = out
        .iter()
        .filter(|e| e.starts_with("event: response.output_text.delta\n"))
        .map(|e| data(e).text_at("delta").unwrap().to_string())
        .collect();
    assert_eq!(deltas, vec!["answer"]);
}

const SSE: &str = "data: {\"choices\":[{\"delta\":{\"content\":\"Gr\u{fc}\u{df}e\"}}]}\r\n\r\n: note\ndata: oops\ndata: {\"choices\":[{\"delta\":{\"content\":\" da\"}}]}\n\ndata: [DONE]\n\ndata: {\"choices\":[{\"delta\":{\"content\":\"late\"}}]}\n\n";

fn run(chunks: &[&[u8]]) -> (Vec<String>, String, bool) {
    let (mut t, mut out) = begin();
    for c in chunks {
        t.push_bytes(c, &mut out);
    }
    let finished = t.is_finished();
    let result = t.finish(&mut out);
    let texts: Vec<String> = out
        .iter()
        .filter(|e| e.starts_with("event: response.output_text.d"))
        .map(|e| data(e).text_or("delta", "|").to_string())
        .collect();
    (texts, format!("{}", result.output.len()), finished)
}

#[test]
fn where_chunks_end_does_not_matter() {
    let whole = SSE.as_bytes();
    let at_once = run(&[whole]);
    assert_eq!(at_once, (vec!["Gr\u{fc}\u{df}e".to_string(), " da".to_string(), "|".to_string()], "1".to_string(), true));
    for cut in [1, 5, 20, 60, 75, 90, 120] {
        if SSE.is_char_boundary(cut) {
            assert_eq!(run(&[&whole[..cut], &whole[cut..]]), at_once);
        }
    }
}

#[test]
fn a_stream_can_be_cut_anywhere_and_often() {
    let body = SSE.replace('\u{fc}', "u").replace('\u{df}', "s");
    let at_once = run(&[body.as_bytes()]);
    for size in [1, 2, 3, 7, 50] {
        let chunks: Vec<&[u8]> = body.as_bytes().chunks(size).collect();
        assert_eq!(run(&chunks), at_once);
    }
}

#[test]
fn a_whole_stream_carries_one_identifier_and_its_output() {
    let (mut t, mut out) = begin();
    for c in SSE.as_bytes().chunks(9) {
        t.push_bytes(c, &mut out);
    }
    let result = t.finish(&mut out);
    for kind in ["created", "in_progress", "completed"] {
        let start = format!("event: response.{}\n", kind);
        let of_kind: Vec<&String> = out.iter().filter(|e| e.starts_with(&start)).collect();
        assert_eq!(of_kind.len(), 1);
        let shown = data(of_kind[0]);
        let response = shown.get("response").unwrap();
        assert_eq!(response.text_at("id"), Some(result.response_id.as_str()));
        if kind == "completed" {
            assert_eq!(
                response.get("output").unwrap().render(),
                Json::Array(result.output.clone()).render()
            );
        }
    }
}

#[test]
fn every_stream_is_completed_once() {
    let streams: [&[u8]; 5] = [
        b"",
        b"data: {\"choices\":[{\"delta\":{\"content\":\"a\"}}]}\n",
        b"data: [DONE]\n",
        b"data: {\"choices\":[{\"finish_reason\":\"stop\"}]}\ndata: {\"choices\":[{\"finish_reason\":\"stop\"}]}\ndata: [DONE]\n",
        b"data: {\"choices\":[{\"delta\":{\"content\":\"a\"},\"finish_reason\":\"length\"}]}\ndata: {\"choices\":[{\"delta\":{\"content\":\"b\"}}]}\n",
    ];
    let status = ["completed", "incomplete", "completed", "completed", "incomplete"];
    for (k, s) in streams.iter().enumerate() {
        let (mut t, mut out) = begin();
        t.push_bytes(s, &mut out);
        t.finish(&mut out);
        let ends: Vec<&String> =
            out.iter().filter(|e| e.starts_with("event: response.completed\n")).collect();
        assert_eq!(ends.len(), 1);
        assert_eq!(data(ends[0]).get("response").unwrap().text_at("status"), Some(status[k]));
    }
}

#[test]
fn bytes_that_are_no_text_are_replaced() {
    let (mut t, mut out) = begin();
    let mut bytes = b"data: {\"choices\":[{\"delta\":{\"content\":\"a".to_vec();
    bytes.push(0xff);
    bytes.extend_from_slice(b"b\"}}]}\n");
    t.push_bytes(&bytes, &mut out);
    assert_eq!(data(out.last().unwrap()).text_at("delta"), Some("a\u{fffd}b"));
}

#[test]
fn a_translation_draws_its_own_identifier() {
    let mut out = Vec::new();
    let t = StreamTranslator::start("m".to_string(), Some("p".to_string()), j("{}"), &mut out);
    let result = t.finish(&mut out);
    assert!(result.response_id.starts_with("resp_"));
    assert_eq!(result.response_id.len(), 21);
    assert_eq!(data(&out[0]).get("response").unwrap().text_at("id"), Some(result.response_id.as_str()));
}

#[test]
fn tool_calls_under_way_can_be_copied() {
    let call = StreamToolCall {
        id: "a".to_string(),
        call_id: "b".to_string(),
        name: "c".to_string(),
        arguments: "d".to_string(),
        output_idx: 3,
    };
    assert_eq!(format!("{:?}", call.clone()), format!("{:?}", call));
}

#[test]
fn a_context_is_one_line() {
    let ctx = RequestContext {
        request_id: "r".to_string(),
        model: "m".to_string(),
        provider: "p".to_string(),
        stream: true,
        message_count: 12,
        upstream_url: "u".to_string(),
    };
    assert_eq!(ctx.clone().line(), "req_id=r provider=p model=m stream=true msgs=12 url=u");
}

#[test]
fn a_response_is_replayed_as_a_stream() {
    let long = "x".repeat(161);
    let response = j(&format!(
        r#"{{"id":"resp_1","model":"m","previous_response_id":"p","output":[{{"type":"function_call","call_id":"c","arguments":"{{}}"}},{{"type":"message","content":[{{"type":"output_text","text":"{}"}},{{"type":"refusal"}}]}},{{"type":"other"}}]}}"#,
        long
    ));
    let out = stream_response(&response, 1, 2);
    assert_eq!(
        kinds(&out),
        vec![
            "response.created",
            "response.in_progress",
            "response.output_item.added",
            "response.function_call_arguments.delta",
            "response.function_call_arguments.done",
            "response.output_item.done",
            "response.output_item.added",
            "response.content_part.added",
            "response.output_text.delta",
            "response.output_text.delta",
            "response.output_text.delta",
            "response.output_text.done",
            "response.content_part.done",
            "response.output_item.done",
            "response.completed",
        ]
    );
    let pieces: Vec<String> =
        out[8..11].iter().map(|e| data(e).text_at("delta").unwrap().to_string()).collect();
    assert_eq!(pieces.iter().map(|p| p.len()).collect::<Vec<usize>>(), vec![80, 80, 1]);
    assert_eq!(pieces.concat(), long);
    assert_eq!(
        data(&out[2]).get("item").unwrap().render(),
        r#"{"arguments":"","call_id":"c","status":"in_progress","type":"function_call"}"#
    );
    assert_eq!(
        data(&out[6]).get("item").unwrap().render(),
        r#"{"content":[],"status":"in_progress","type":"message"}"#
    );
    assert_eq!(data(&out[14]).get("response").unwrap().render(), response.render());
    assert_eq!(send_response_as_stream_bytes(&response).len(), 15);
    assert_eq!(stream_response(&j("{}"), 1, 2).len(), 3);
}

#[test]
fn a_completed_response_is_captured_again() {
    let response = j(r#"{"id":"r","output":[{"text":"a\n\nb \r\n c"}]}"#);
    let event = event_completed(response.clone());
    let mut capture = ResponseCapture::new();
    let got = capture.push_bytes(event.as_bytes());
    assert_eq!(got.len(), 1);
    assert_eq!(got[0].render(), response.render());
    assert!(capture.finish().is_none());
}

#[test]
fn blocks_come_in_pieces_and_with_other_line_ends() {
    let text = "event: response.created\r\ndata: {\"type\":\"x\"}\r\n\r\ndata: {\"type\":\"response.completed\",\r\ndata:\"response\":{\"id\":\"r\"}}\r\n\r\n";
    let mut capture = ResponseCapture::new();
    assert!(capture.push_bytes(&text.as_bytes()[..60]).is_empty());
    let got = capture.push_bytes(&text.as_bytes()[60..]);
    assert_eq!(got.len(), 1);
    assert_eq!(got[0].render(), r#"{"id":"r"}"#);
}

#[test]
fn blocks_can_be_cut_anywhere_but_within_a_line_end() {
    let text = "data: {\"type\":\"response.completed\",\"response\":{\"id\":\"a\"}}\n\n\ndata: 1\r\n\r\nevent: response.completed\ndata: 2\n\nrest";
    let read = |cuts: &[usize]| {
        let mut capture = ResponseCapture::new();
        let mut got = Vec::new();
        let mut from = 0;
        for &cut in cuts {
            got.extend(capture.push_text(&text[from..cut]));
            from = cut;
        }
        got.extend(capture.push_text(&text[from..]));
        got.iter().map(|v| v.render()).collect::<Vec<String>>()
    };
    let whole = read(&[]);
    assert_eq!(whole, vec![r#"{"id":"a"}"#, "2"]);
    for cut in 1..text.len() {
        if !(text[..cut].ends_with('\r') && text[cut..].starts_with('\n')) {
            assert_eq!(read(&[cut]), whole);
            assert_eq!(read(&[cut, cut]), whole);
        }
    }
}

#[test]
fn a_last_block_without_an_end_counts() {
    let mut capture = ResponseCapture::new();
    assert!(capture.push_bytes(b"event:response.completed\ndata:{\"a\":1}").is_empty());
    assert_eq!(capture.finish().unwrap().render(), r#"{"a":1}"#);
    let mut blank = ResponseCapture::new();
    assert!(blank.push_bytes(b" \n ").is_empty());
    assert!(blank.finish().is_none());
}

#[test]
fn blocks_have_a_kind_and_data() {
    assert_eq!(read_block("event: a \ndata: 1\nx\ndata:  2 "), ("a".to_string(), "1\n2 ".to_string()));
    assert_eq!(read_block(""), (String::new(), String::new()));
    assert!(handle_sse_block("data: [DONE]").is_none());
    assert!(handle_sse_block("event: response.completed\ndata: nope").is_none());
    assert!(handle_sse_block("event: other\ndata: {}").is_none());
    assert_eq!(completed_response("response.completed", &j("3")).unwrap().render(), "3");
    assert!(completed_response("", &j(r#"{"type":"response.created"}"#)).is_none());
}
