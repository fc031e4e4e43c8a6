use minimax_proxy::json::Json;
use minimax_proxy::store::{ResponseStore, MAX_CONSECUTIVE_TOOL_CALLS, STORE_MAX, STORE_TTL};

fn item(text: &str) -> Vec<Json> {
    vec![Json::text(text)]
}

fn call() -> Vec<Json> {
    vec![Json::object().with("type", Json::text("function_call"))]
}

fn shown(items: Vec<Json>) -> String {
    Json::Array(items).render()
}

#[test]
fn a_stored_response_is_found_again() {
    let mut store = ResponseStore::new();
    store.store_at(0, 7, "a", "openai", item("in"), item("out"), Some("p".to_string()));
    let entry = store.get("a").unwrap();
    assert_eq!(entry.provider, "openai");
    assert_eq!(shown(entry.input.clone()), r#"["in"]"#);
    assert_eq!(shown(entry.output.clone()), r#"["out"]"#);
    assert_eq!(entry.previous_response_id, Some("p".to_string()));
    assert_eq!(entry.stored_at, 7);
    assert_eq!(entry.consecutive_tool_calls, 0);
    assert!(store.get("b").is_none());
    store.store_at(0, 8, "a", "minimax", item("x"), item("y"), None);
    assert_eq!(store.get("a").unwrap().provider, "minimax");
    assert_eq!(store.get("a").unwrap().clone().stored_at, 8);
}

#[test]
fn a_response_without_an_identifier_is_not_stored() {
    let mut store = ResponseStore::default();
    store.store("", "openai", item("in"), item("out"), None);
    assert!(store.get("").is_none());
}

#[test]
fn chains_are_restored_oldest_first() {
    let mut store = ResponseStore::new();
    store.store("a", "openai", item("a1"), item("a2"), None);
    store.store("b", "minimax", item("b1"), item("b2"), Some("a".to_string()));
    store.store("c", "minimax", item("c1"), item("c2"), Some("b".to_string()));
    assert_eq!(shown(store.resolve_chain("c")), r#"["a1","a2","b1","b2","c1","c2"]"#);
    assert_eq!(shown(store.resolve_chain("b")), r#"["a1","a2","b1","b2"]"#);
    assert_eq!(shown(store.resolve_chain("x")), "[]");
    store.store("d", "minimax", item("d1"), item("d2"), Some("gone".to_string()));
    assert_eq!(shown(store.resolve_chain("d")), r#"["d1","d2"]"#);
}

#[test]
fn chains_that_go_round_end() {
    let mut store = ResponseStore::new();
    store.store("a", "m", item("a"), item("A"), Some("b".to_string()));
    store.store("b", "m", item("b"), item("B"), Some("a".to_string()));
    assert_eq!(shown(store.resolve_chain("a")), r#"["b","B","a","A"]"#);
    store.store("c", "m", item("c"), item("C"), Some("c".to_string()));
    assert_eq!(shown(store.resolve_chain("c")), r#"["c","C"]"#);
}

#[test]
fn tool_calls_in_a_row_are_counted() {
    let mut store = ResponseStore::new();
    store.store("1", "m", item("i"), call(), None);
    assert_eq!(store.get("1").unwrap().consecutive_tool_calls, 1);
    for k in 2..=25u32 {
        store.store(&k.to_string(), "m", item("i"), call(), Some((k - 1).to_string()));
        assert_eq!(store.get(&k.to_string()).unwrap().consecutive_tool_calls, k);
    }
    assert!(store.get("20").unwrap().consecutive_tool_calls >= MAX_CONSECUTIVE_TOOL_CALLS);
    store.store("t", "m", item("i"), item("text"), Some("25".to_string()));
    assert_eq!(store.get("t").unwrap().consecutive_tool_calls, 0);
    store.store("u", "m", item("i"), call(), Some("t".to_string()));
    assert_eq!(store.get("u").unwrap().consecutive_tool_calls, 1);
    store.store("e", "m", item("i"), vec![], Some("u".to_string()));
    assert_eq!(store.get("e").unwrap().consecutive_tool_calls, 0);
    store.store("l", "m", item("i"), call(), Some("lost".to_string()));
    assert_eq!(store.get("l").unwrap().consecutive_tool_calls, 1);
}

#[test]
fn a_full_store_loses_its_oldest_entry() {
    let mut store = ResponseStore::new();
    for k in 0..STORE_MAX {
        store.store_at(5, 5, &k.to_string(), "m", vec![], vec![], None);
    }
    assert!(store.get("0").is_some());
    store.store_at(6, 6, "new", "m", vec![], vec![], None);
    assert!(store.get("0").is_none());
    assert!(store.get("1").is_some());
    assert!(store.get("new").is_some());
    store.store_at(6, 6, "newer", "m", vec![], vec![], None);
    assert!(store.get("1").is_none());
    assert!(store.get("2").is_some());
}

#[test]
fn a_full_store_loses_what_is_no_longer_fresh() {
    let mut store = ResponseStore::new();
    for k in 0..STORE_MAX {
        let stamp = if k % 2 == 0 { 10 } else { 11 };
        store.store_at(0, stamp, &k.to_string(), "m", vec![], vec![], None);
    }
    store.store_at(STORE_TTL + 11, 20, "new", "m", vec![], vec![], None);
    assert!(store.get("0").is_none());
    assert!(store.get("498").is_none());
    assert!(store.get("1").is_some());
    assert!(store.get("499").is_some());
    assert!(store.get("new").is_some());
    assert!(store.get("1").unwrap().is_fresh(STORE_TTL + 11));
    assert!(!store.get("1").unwrap().is_fresh(STORE_TTL + 12));
}
