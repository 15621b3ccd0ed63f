use hypercompute::string_map::StringMap;
use hypercompute::text::{
    decimal_text, find_char, join, pad, replace_once, same_text, signed_decimal_text, split_lines,
    trim,
};

#[test]
fn numbers_are_written_in_decimal() {
    assert_eq!(decimal_text(0), "0");
    assert_eq!(decimal_text(9), "9");
    assert_eq!(decimal_text(10), "10");
    assert_eq!(decimal_text(u64::MAX), "18446744073709551615");
    assert_eq!(signed_decimal_text(-1), "-1");
    assert_eq!(signed_decimal_text(i32::MIN), "-2147483648");
    assert_eq!(signed_decimal_text(42), "42");
}

#[test]
fn texts_are_joined() {
    let none: Vec<String> = vec![];
    assert_eq!(join(&none, ", "), "");
    assert_eq!(join(&vec!["a".to_string()], ", "), "a");
    assert_eq!(join(&vec!["a".to_string(), "b".to_string(), "c".to_string()], ", "), "a, b, c");
}

#[test]
fn texts_are_padded_by_characters() {
    assert_eq!(pad("ab", 4), "ab  ");
    assert_eq!(pad("abcd", 4), "abcd");
    assert_eq!(pad("abcde", 4), "abcde");
    assert_eq!(pad("é", 3), "é  ");
    assert_eq!(pad("x", 3), format!("{:<3}", "x"));
}

#[test]
fn white_space_is_trimmed_as_std_does() {
    for text in ["", " ", "a", "  a b \n", "\t\u{a0}x\u{3000}\r\n", "\u{200b}x", "\n\n"] {
        assert_eq!(trim(text), text.trim());
    }
}

#[test]
fn every_character_is_trimmed_or_kept_as_std_does() {
    for code in 0..=0x10ffffu32 {
        if let Some(c) = char::from_u32(code) {
            let text = format!("{c}x{c}");
            assert_eq!(trim(&text), text.trim(), "U+{code:04X}");
        }
    }
}

#[test]
fn lines_are_split_as_std_does() {
    for text in ["", "a", "a\n", "a\nb", "a\r\nb\r\n", "a\rb", "a\r", "\n\n", "\r\n", "a\n\nb\n"] {
        let expected: Vec<String> = text.lines().map(|line| line.to_string()).collect();
        assert_eq!(split_lines(text), expected);
    }
}

#[test]
fn the_first_occurrence_is_replaced_as_std_does() {
    for text in ["", "http://a", "xhttp://http://", "https://a", "http:/", "ahttp://"] {
        assert_eq!(replace_once(text, "http://", "ws://"), text.replacen("http://", "ws://", 1));
    }
    assert_eq!(replace_once("ab", "", "x"), "ab".replacen("", "x", 1));
    assert_eq!(replace_once("", "", "x"), "".replacen("", "x", 1));
}

#[test]
fn characters_are_found() {
    assert_eq!(find_char("KEY=VALUE=X", '='), 3);
    assert_eq!(find_char("=x", '='), 0);
    assert_eq!(find_char("xyz", '='), 3);
    assert!(same_text("a", "a") && !same_text("a", "b") && !same_text("a", "ab"));
}

#[test]
fn a_map_of_texts_keeps_one_value_under_each_key() {
    let mut map = StringMap::new();
    assert_eq!(map.get("a"), None);
    map.insert("a".to_string(), "1".to_string());
    map.insert("b".to_string(), "2".to_string());
    map.insert("a".to_string(), "3".to_string());
    assert_eq!(map.len(), 2);
    assert_eq!(map.get("a"), Some("3"));
    assert_eq!((map.key(0), map.value(0)), ("a", "3"));
    assert_eq!((map.key(1), map.value(1)), ("b", "2"));
    let copy = map.clone();
    assert_eq!(copy.get("b"), Some("2"));
}
