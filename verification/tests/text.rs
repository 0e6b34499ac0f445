use wire_adapters::text::{
    concat3, decimal_text, find_text, join_texts, split_text, str_eq, trims_to,
};

#[test]
fn texts_are_compared_and_found() {
    assert!(str_eq("你好", "你好"));
    assert!(!str_eq("你", "你好"));
    assert!(!str_eq("a", "b"));
    assert_eq!(find_text("x你<think>", "<think>"), Some(4));
    assert_eq!(find_text("<thin", "<think>"), None);
    assert_eq!(find_text("aab", "ab"), Some(1));
    assert_eq!(split_text("你好", 3), ("你", "好"));
}

#[test]
fn white_space_is_trimmed() {
    assert!(trims_to("\u{a0}\t[DONE]\u{3000}\r\n", "[DONE]"));
    assert!(trims_to("a b", "a b"));
    assert!(!trims_to("[DONE].", "[DONE]"));
    assert!(!trims_to("\u{200b}[DONE]", "[DONE]"));
    assert!(trims_to("   ", ""));
}

#[test]
fn texts_are_made() {
    assert_eq!(decimal_text(0), "0");
    assert_eq!(decimal_text(10), "10");
    assert_eq!(decimal_text(usize::MAX), format!("{}", usize::MAX));
    assert_eq!(concat3("a", "", "c"), "ac");
    assert_eq!(join_texts(&vec![], "\n"), "");
    assert_eq!(join_texts(&vec!["a".to_string(), "".to_string(), "b".to_string()], "\n"), "a\n\nb");
}
