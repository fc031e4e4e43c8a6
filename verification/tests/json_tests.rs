use minimax_proxy::json::Json;
use minimax_proxy::pattern::{str_has_url, strip_think_tags};
use minimax_proxy::text::{
    contains, decimal_text, join, replace, same, split_on, starts_with, trim, trim_start,
};

#[test]
fn json_texts_read_back() {
    for text in [
        "null",
        "true",
        "0",
        "18446744073709551615",
        "-9223372036854775808",
        "1.5",
        r#""a\n\"é""#,
        r#"[1,[2,{}]]"#,
        r#"{"a":{"b":[null]},"c":"d"}"#,
    ] {
        assert_eq!(Json::parse(text).unwrap().render(), text);
    }
    assert_eq!(Json::parse(r#"{"b":1,"a":2,"b":3}"#).unwrap().render(), r#"{"a":2,"b":3}"#);
    assert_eq!(Json::parse(" {} ").unwrap().render(), "{}");
    for bad in ["", "{", "[DONE]", "nul", "'a'"] {
        assert!(Json::parse(bad).is_none());
    }
}

#[test]
fn of_two_members_with_one_name_the_later_is_written() {
    let member = |name: &str, n: usize| (name.to_string(), Json::count(n));
    let v = Json::Object(vec![member("a", 1), member("b", 2), member("a", 3), member("a", 4)]);
    assert_eq!(v.render(), r#"{"a":4,"b":2}"#);
    assert_eq!(v.get("a").unwrap().as_u64(), Some(4));
}

#[test]
fn a_reserved_name_does_not_read_back() {
    let v = Json::object().with("$serde_json::private::RawValue", Json::text("[1]"));
    assert_eq!(v.render(), r#"{"$serde_json::private::RawValue":"[1]"}"#);
    assert_eq!(Json::parse(&v.render()).unwrap().render(), "[1]");
}

#[test]
fn deep_texts_are_refused() {
    let nested = |n: usize| format!("{}{}", "[".repeat(n), "]".repeat(n));
    assert!(Json::parse(&nested(127)).is_some());
    assert!(Json::parse(&nested(128)).is_none());
}

#[test]
fn values_go_to_serde_and_back() {
    let v = serde_json::from_str::<serde_json::Value>(r#"{"a":[1,-2,2.5,"s",null,true]}"#).unwrap();
    let ours = Json::from_serde(v.clone());
    assert_eq!(ours.to_serde(), v);
    assert_eq!(ours.render(), v.to_string());
}

#[test]
fn members_are_read() {
    let v = Json::parse(r#"{"s":"x","n":-3,"u":7,"b":true,"a":[1],"z":null,"f":1.5}"#).unwrap();
    assert_eq!(v.text_at("s"), Some("x"));
    assert_eq!(v.text_at("n"), None);
    assert_eq!(v.text_or("q", "d"), "d");
    assert!(v.text_is("s", "x"));
    assert_eq!(v.get("n").unwrap().as_i64(), Some(-3));
    assert_eq!(v.get("n").unwrap().as_u64(), None);
    assert_eq!(v.unsigned_or("u", 1), 7);
    assert_eq!(v.unsigned_or("f", 1), 1);
    assert!(v.bool_or("b", false));
    assert_eq!(v.items_at("a").unwrap().len(), 1);
    assert_eq!(v.items_or_none("s").len(), 0);
    assert!(v.get("z").unwrap().is_null());
    assert!(v.get("z").unwrap().is_settable());
    assert_eq!(v.get_or("q", Json::count(4)).render(), "4");
    assert_eq!(Json::parse("9223372036854775808").unwrap().as_i64(), None);
}

#[test]
fn members_are_set_and_taken_out() {
    let mut v = Json::Null;
    v.set("a", Json::Bool(true));
    v.set("b", Json::text("x"));
    v.set("a", Json::Signed(-1));
    assert_eq!(v.render(), r#"{"a":-1,"b":"x"}"#);
    assert_eq!(v.remove("a").unwrap().render(), "-1");
    assert!(v.remove("a").is_none());
    assert_eq!(v.render(), r#"{"b":"x"}"#);
    let mut twice = Json::Object(vec![
        ("k".to_string(), Json::count(1)),
        ("k".to_string(), Json::count(2)),
    ]);
    assert_eq!(twice.get("k").unwrap().render(), "2");
    assert_eq!(twice.remove("k").unwrap().render(), "2");
    assert_eq!(twice.render(), "{}");
}

#[test]
fn texts_are_searched_and_split() {
    assert!(same("a", "a") && !same("a", "ab") && !same("a", "b"));
    assert_eq!(trim(" \u{2003}a b\n"), "a b");
    assert_eq!(trim_start("\t a "), "a ");
    assert!(contains("abc", "bc") && !contains("abc", "cb") && contains("a", ""));
    assert!(starts_with("abc", "ab") && !starts_with("a", "ab"));
    assert_eq!(replace("aXbXX", "X", "-"), "a-b--");
    assert_eq!(replace("aaa", "aa", "b"), "ba");
    assert_eq!(split_on("a,,b", ","), vec!["a", "", "b"]);
    assert_eq!(split_on("", ","), vec![""]);
    assert_eq!(join(&vec!["a".to_string(), "b".to_string()], "--"), "a--b");
    assert_eq!(decimal_text(0), "0");
    assert_eq!(decimal_text(18446744073709551615), "18446744073709551615");
}

#[test]
fn patterns_match() {
    assert!(str_has_url("x https://y"));
    assert!(!str_has_url("https:/y"));
    assert_eq!(strip_think_tags("<think> \n a<think><think>b"), "ab");
    assert_eq!(strip_think_tags("<thinkx>"), "<thinkx>");
}
