use top_english_words::lines::split_lines;
use top_english_words::order::{chars_of, sort_words, str_le};

#[test]
fn lines_drop_newlines() {
    assert_eq!(split_lines("the\nof\nand\n"), vec!["the", "of", "and"]);
    assert_eq!(split_lines("the\nof"), vec!["the", "of"]);
}

#[test]
fn lines_drop_carriage_returns_before_newlines() {
    assert_eq!(split_lines("the\r\nof\r\n"), vec!["the", "of"]);
    assert_eq!(split_lines("the\r\nof\r"), vec!["the", "of\r"]);
}

#[test]
fn lines_keep_blank_lines() {
    assert_eq!(split_lines("a\n\nb\n"), vec!["a", "", "b"]);
    assert_eq!(split_lines("\n"), vec![""]);
    assert!(split_lines("").is_empty());
}

#[test]
fn lines_match_std() {
    let text = "one\r\ntwo\n\nthree\r\r\nfour";
    let expected: Vec<String> = text.lines().map(|l| l.to_string()).collect();
    assert_eq!(split_lines(text), expected);
}

#[test]
fn string_order() {
    assert!(str_le("a", "b"));
    assert!(str_le("app", "apple"));
    assert!(!str_le("apple", "app"));
    assert!(str_le("", ""));
    assert!(str_le("Z", "a"));
    assert!(!str_le("é", "z"));
    assert_eq!(chars_of("héllo"), vec!['h', 'é', 'l', 'l', 'o']);
}

#[test]
fn sort_orders_words() {
    let words = vec![String::from("b"), String::from("a"), String::from("c"), String::from("a")];
    assert_eq!(sort_words(words), vec!["a", "a", "b", "c"]);
    assert!(sort_words(Vec::new()).is_empty());
}
