use minimax_proxy::fetch_loop::{FetchAction, FetchLoop};
use minimax_proxy::json::Json;
use minimax_proxy::web_fetch::{
    can_cut, content_has_url, conversation_has_urls, describe_body, describe_head, describe_page,
    ensure_web_fetch_hint, ensure_web_fetch_tool, fetch_failed, next_accept, no_url_provided,
    page_accept, plan_fetch, raw_request, status_phrase, web_fetch_tool_def, FetchPlan, MAX_FETCH_LOOPS,
};

fn j(text: &str) -> Json {
    Json::parse(text).unwrap()
}

fn pair(a: &str, b: &str) -> (String, String) {
    (a.to_string(), b.to_string())
}

#[test]
fn addresses_are_found_in_content() {
    assert!(content_has_url(&j(r#""see https://x""#)));
    assert!(content_has_url(&j(r#""http://x""#)));
    assert!(!content_has_url(&j(r#""httpx://x ftp://y""#)));
    assert!(!content_has_url(&j("7")));
    assert!(content_has_url(&j(r#"[{"text":"a"},{"text":"https://x"}]"#)));
    assert!(content_has_url(&j(r#"[{"url":"https://x"}]"#)));
    assert!(content_has_url(&j(r#"[{"image_url":"https://x"}]"#)));
    assert!(content_has_url(&j(r#"[{"image_url":{"url":"https://x"}}]"#)));
    assert!(!content_has_url(&j(r#"[{"other":"https://x"},3]"#)));
    assert!(conversation_has_urls(&vec![j("{}"), j(r#"{"content":"https://x"}"#)]));
    assert!(!conversation_has_urls(&vec![j(r#"{"text":"https://x"}"#)]));
}

#[test]
fn the_tool_is_offered_once() {
    let once = ensure_web_fetch_tool(Some(&j(r#"[{"name":"a"}]"#)));
    assert_eq!(once.as_array().unwrap().len(), 2);
    assert_eq!(ensure_web_fetch_tool(Some(&once)).render(), once.render());
    assert_eq!(ensure_web_fetch_tool(None).as_array().unwrap().len(), 1);
    assert_eq!(ensure_web_fetch_tool(Some(&j("3"))).as_array().unwrap().len(), 1);
    let there = j(r#"[{"name":"web_fetch"}]"#);
    assert_eq!(ensure_web_fetch_tool(Some(&there)).render(), there.render());
    assert_eq!(
        web_fetch_tool_def().render(),
        r#"{"function":{"description":"Fetch content from a URL over HTTP/HTTPS. Use this when you need to retrieve content from a web URL. Returns HTTP status and response body as clean markdown. Supports all HTTP methods.","name":"web_fetch","parameters":{"properties":{"body":{"description":"Request body for POST/PUT/PATCH requests","type":"string"},"headers":{"description":"Optional HTTP headers as key-value pairs","type":"object"},"method":{"description":"HTTP method (default: GET)","enum":["GET","HEAD","POST","PUT","DELETE","PATCH","OPTIONS"],"type":"string"},"url":{"description":"The URL to fetch (http:// or https://)","type":"string"}},"required":["url"],"type":"object"}},"type":"function"}"#
    );
}

#[test]
fn the_hint_is_given_once() {
    let once = ensure_web_fetch_hint(vec![j(r#"{"role":"user","content":"u"}"#)]);
    assert_eq!(once.len(), 2);
    assert_eq!(once[1].text_at("role"), Some("user"));
    assert!(once[1].text_at("content").unwrap().starts_with("[System: You have a `web_fetch` tool"));
    assert!(once[1].text_at("content").unwrap().contains(r#"{"url": "..."}"#));
    assert_eq!(ensure_web_fetch_hint(once).len(), 2);
}

#[test]
fn a_fetch_is_planned() {
    assert!(matches!(plan_fetch(&j("{}")), FetchPlan::NoUrl));
    assert!(matches!(plan_fetch(&j(r#"{"url":1}"#)), FetchPlan::NoUrl));
    match plan_fetch(&j(r#"{"url":"u","method":"get"}"#)) {
        FetchPlan::Page { url } => assert_eq!(url, "u"),
        _ => panic!("no page"),
    }
    match plan_fetch(&j(r#"{"url":"u","method":"Post","headers":{"b":"2","a":"1","c":3},"body":"x"}"#)) {
        FetchPlan::Raw { url, method, mut headers, body } => {
            headers.sort();
            assert_eq!(url, "u");
            assert_eq!(method, "Post");
            assert_eq!(headers, vec![pair("a", "1"), pair("b", "2")]);
            assert_eq!(body, Some("x".to_string()));
        },
        _ => panic!("no request"),
    }
    let twice = Json::Object(vec![
        ("k".to_string(), Json::text("old")),
        ("k".to_string(), Json::text("new")),
    ]);
    let args = j(r#"{"url":"u","method":"HEAD"}"#).with("headers", twice);
    match plan_fetch(&args) {
        FetchPlan::Raw { headers, body, .. } => {
            assert_eq!(headers, vec![pair("k", "new")]);
            assert_eq!(body, None);
        },
        _ => panic!("no request"),
    }
}

#[test]
fn requests_get_their_headers() {
    let r = raw_request("tok", "https://api.github.com/x", "post", &vec![pair("X", "1"), pair("user-agent", "me")], Some("b"))
        .ok()
        .unwrap();
    assert_eq!(r.method, "POST");
    assert_eq!(r.url, "https://api.github.com/x");
    assert_eq!(r.headers, vec![pair("User-Agent", "me"), pair("Authorization", "Bearer tok"), pair("X", "1")]);
    assert_eq!(r.body, Some("b".to_string()));
    let r = raw_request("tok", "https://api.github.com/x", "DELETE", &vec![pair("authorization", "a"), pair("User-Agent", "A")], Some("b"))
        .ok()
        .unwrap();
    assert_eq!(r.headers, vec![pair("User-Agent", "A"), pair("authorization", "a")]);
    assert_eq!(r.body, None);
    let r = raw_request("tok", "https://example.com", "PUT", &vec![], None).ok().unwrap();
    assert_eq!(r.headers, vec![pair("User-Agent", "Mozilla/5.0 (compatible; CodexProxy/1.0)")]);
    let r = raw_request("", "https://api.github.com", "PATCH", &vec![], Some("z")).ok().unwrap();
    assert_eq!(r.headers.len(), 1);
    assert_eq!(r.body, Some("z".to_string()));
}

#[test]
fn methods_need_a_valid_name() {
    for bad in ["", "a b", "GET\n", "p\u{f6}st", "(x)"] {
        assert_eq!(
            raw_request("", "u", bad, &vec![], None).err().unwrap(),
            format!("Fetch error: invalid method '{}'", bad)
        );
    }
    assert!(raw_request("", "u", "m-search!#$%&'*+.^_`|~09", &vec![], None).is_ok());
}

#[test]
fn pages_are_described() {
    assert_eq!(status_phrase(404), "Not Found");
    assert_eq!(status_phrase(99), "");
    assert_eq!(status_phrase(999), "");
    let ok = |s: &str| -> Result<String, String> { Ok(s.to_string()) };
    assert_eq!(describe_page(200, "OK", ok("text")), Some("text".to_string()));
    assert_eq!(describe_page(404, status_phrase(404), ok("gone")), Some("HTTP 404 Not Found\ngone".to_string()));
    assert_eq!(describe_page(500, "", Err("e".to_string())), Some("HTTP 500 \n".to_string()));
    assert_eq!(describe_page(200, "OK", Err("e".to_string())), Some("Read error: e".to_string()));
    let long = "y".repeat(50_007);
    assert_eq!(
        describe_page(299, "", ok(&long)),
        Some(format!("{}\n...[content truncated, 7 chars omitted]", "y".repeat(50_000)))
    );
    let failed = describe_page(300, "", ok(&long)).unwrap();
    assert_eq!(failed.len(), 50_000);
    assert!(failed.starts_with("HTTP 300 \nyyy"));
}

#[test]
fn pages_are_not_cut_inside_a_character() {
    let odd = format!("{}\u{20ac}\u{20ac}", "y".repeat(49_999));
    assert!(!can_cut(&odd));
    assert_eq!(describe_page(200, "OK", Ok(odd.clone())), None);
    assert_eq!(describe_body(200, "OK", Ok(odd)), None);
    let even = format!("{}\u{20ac}", "y".repeat(50_000));
    assert!(can_cut(&even));
    assert!(describe_page(200, "OK", Ok(even)).unwrap().ends_with("y\n...[content truncated, 3 chars omitted]"));
}

#[test]
fn answers_are_described() {
    let headers = vec![pair("a", "1"), pair("b", "2")];
    assert_eq!(
        describe_head("HEAD", 200, "OK", "text/html", &headers),
        Some("HTTP 200 OK\na: 1\nb: 2".to_string())
    );
    assert_eq!(describe_head("OPTIONS", 204, "", "", &vec![]), Some("HTTP 204 \n".to_string()));
    for kind in ["image/png", "audio/x", "video/y", "application/octet-stream"] {
        assert_eq!(
            describe_head("POST", 200, "OK", kind, &headers),
            Some(format!("HTTP 200 OK\nContent-Type: {}\n(binary content, not shown)", kind))
        );
    }
    assert_eq!(describe_head("POST", 200, "OK", "text/plain", &headers), None);
    assert_eq!(describe_body(201, "Created", Ok("x".to_string())), Some("HTTP 201 Created\n\nx".to_string()));
    assert_eq!(
        describe_body(201, "Created", Err("e".to_string())),
        Some("HTTP 201 Created\n\nRead error: e".to_string())
    );
    assert_eq!(
        describe_body(200, "OK", Ok("z".repeat(50_001))),
        Some(format!("HTTP 200 OK\n\n{}\n...[truncated, 1 chars omitted]", "z".repeat(50_000)))
    );
    assert_eq!(fetch_failed("no"), "Fetch error: no");
    assert_eq!(no_url_provided(), "Error: no URL provided");
}

#[test]
fn plain_text_is_asked_for_where_there_is_no_markdown() {
    assert_eq!(page_accept(), "text/markdown");
    assert_eq!(next_accept("text/markdown", 406), Some("text/plain"));
    assert_eq!(next_accept("text/markdown", 404), Some("text/plain"));
    assert_eq!(next_accept("text/markdown", 300), Some("text/plain"));
    assert_eq!(next_accept("text/markdown", 199), Some("text/plain"));
    assert_eq!(next_accept("text/markdown", 200), None);
    assert_eq!(next_accept("text/markdown", 299), None);
    assert_eq!(next_accept("text/plain", 406), None);
}

fn asks(urls: &[&str]) -> Json {
    let mut calls = Vec::new();
    for (k, u) in urls.iter().enumerate() {
        calls.push(j(&format!(
            r#"{{"id":"c{}","function":{{"name":"web_fetch","arguments":"{{\"url\":\"{}\"}}"}}}}"#,
            k, u
        )));
    }
    let message = Json::object().with("tool_calls", Json::Array(calls));
    let choice = Json::object().with("finish_reason", Json::text("tool_calls")).with("message", message);
    Json::object().with("choices", Json::Array(vec![choice]))
}

fn start() -> FetchLoop {
    FetchLoop::start(j(r#"{"model":"m","stream":true}"#), vec![j(r#"{"role":"user","content":"u"}"#)])
}

#[test]
fn a_completion_without_fetches_ends_the_loop() {
    let mut l = start();
    assert_eq!(
        l.request().render(),
        r#"{"messages":[{"content":"u","role":"user"}],"model":"m","stream":false}"#
    );
    let cc = j(r#"{"choices":[{"message":{"content":"hi"}}]}"#);
    match l.completion(cc.clone()) {
        FetchAction::Done(last) => assert_eq!(last.render(), cc.render()),
        _ => panic!("not done"),
    }
}

#[test]
fn pages_are_fetched_once_and_answered_in_order() {
    let mut l = start();
    match l.completion(asks(&["https://a", "https://b", "https://a"])) {
        FetchAction::Fetch(args) => assert_eq!(args.text_at("url"), Some("https://a")),
        _ => panic!("no fetch"),
    }
    match l.fetched("A".to_string()) {
        FetchAction::Fetch(args) => assert_eq!(args.text_at("url"), Some("https://b")),
        _ => panic!("no fetch"),
    }
    match l.fetched("B".to_string()) {
        FetchAction::Post(request) => {
            let messages = request.items_at("messages").unwrap();
            assert_eq!(messages.len(), 5);
            assert_eq!(messages[1].text_at("role"), Some("assistant"));
            assert_eq!(messages[1].items_at("tool_calls").unwrap().len(), 3);
            assert_eq!(messages[2].render(), r#"{"content":"A","role":"tool","tool_call_id":"c0"}"#);
            assert_eq!(messages[3].text_at("content"), Some("B"));
            assert_eq!(messages[4].render(), r#"{"content":"A","role":"tool","tool_call_id":"c2"}"#);
        },
        _ => panic!("no request"),
    }
    match l.completion(asks(&["https://b"])) {
        FetchAction::Post(request) => assert_eq!(request.items_at("messages").unwrap().len(), 7),
        _ => panic!("fetched twice"),
    }
}

#[test]
fn asking_for_the_same_again_ends_the_loop() {
    let mut l = start();
    l.completion(asks(&["https://a", "https://b"]));
    l.fetched("A".to_string());
    l.fetched("B".to_string());
    match l.completion(asks(&["https://b", "https://a"])) {
        FetchAction::Done(last) => {
            assert_eq!(last.render(), r#"{"choices":[{"finish_reason":"stop","message":{}}]}"#)
        },
        _ => panic!("not done"),
    }
    let mut first = start();
    match first.completion(j(r#"{"choices":[{"message":{"tool_calls":[{"function":{"name":"web_fetch","arguments":"x"}}]}}]}"#)) {
        FetchAction::Done(_) => {},
        _ => panic!("not done"),
    }
}

#[test]
fn the_loop_goes_upstream_at_most_six_times() {
    let mut l = start();
    let mut posts = 1;
    let mut k = 0;
    loop {
        k += 1;
        let next = l.completion(asks(&[&format!("https://{}", k)]));
        match next {
            FetchAction::Fetch(_) => match l.fetched("x".to_string()) {
                FetchAction::Post(_) => posts += 1,
                _ => panic!("no request"),
            },
            FetchAction::Done(last) => {
                assert!(last.get("choices").is_some());
                break;
            },
            FetchAction::Post(_) => panic!("no fetch"),
        }
    }
    assert_eq!(posts, MAX_FETCH_LOOPS + 1);
}

#[test]
fn arguments_that_are_no_json_fetch_nothing() {
    let mut l = start();
    let cc = j(r#"{"choices":[{"message":{"tool_calls":[{"function":{"name":"web_fetch","arguments":"x"}},{"function":{"name":"web_fetch","arguments":"{\"url\":\"u\"}"}}]}}]}"#);
    match l.completion(cc) {
        FetchAction::Fetch(args) => assert_eq!(args.render(), "{}"),
        _ => panic!("no fetch"),
    }
}
