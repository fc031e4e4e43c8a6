use minimax_proxy::util::{holds, normalize_model_id, now_unix, parse_csv, tagged, uid, unix_time_of};

#[test]
fn identifiers_have_sixteen_characters() {
    let id = uid();
    assert_eq!(id.len(), 16);
    assert!(id.chars().all(|c| c.is_ascii_alphanumeric() || c == '-' || c == '_'));
    assert_ne!(uid(), uid());
}

#[test]
fn csv_entries_are_trimmed_and_unique() {
    assert_eq!(parse_csv(" a, b ,,a,  ,c"), vec!["a", "b", "c"]);
    assert!(parse_csv("").is_empty());
    assert_eq!(normalize_model_id("  GPT-4o "), "gpt-4o");
}

#[test]
fn the_clock_counts_from_the_epoch() {
    let epoch = std::time::UNIX_EPOCH;
    assert_eq!(unix_time_of(epoch), 0);
    assert_eq!(unix_time_of(epoch + std::time::Duration::from_millis(12_999)), 12);
    assert_eq!(unix_time_of(epoch - std::time::Duration::from_secs(5)), 0);
    assert!(now_unix() > 1_600_000_000);
}

#[test]
fn lists_hold_texts() {
    let list = vec!["a".to_string(), "b".to_string()];
    assert!(holds(&list, "b"));
    assert!(!holds(&list, "c"));
    assert_eq!(tagged("msg_", "1"), "msg_1");
    assert_eq!(normalize_model_id("\u{c4}B"), "\u{e4}b");
}
