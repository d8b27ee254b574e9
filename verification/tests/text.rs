//! Text, and maps of strings.

use weaver::string_map::{StringMap, StringSet};
use weaver::text::{
    contains_text, decimal_chars, ends_with, from_chars, is_space, parse_usize_chars, same_text,
    split_once_chars, splitn_chars, starts_with, to_ascii_lower, to_chars, trim_chars,
};

fn trimmed(text: &str) -> String {
    from_chars(trim_chars(&to_chars(text)))
}

#[test]
fn white_space_is_that_of_the_standard_library() {
    for n in 0..0x11_0000u32 {
        if let Some(c) = char::from_u32(n) {
            assert_eq!(is_space(c), c.is_whitespace());
        }
    }
}

#[test]
fn text_is_trimmed_as_by_the_standard_library() {
    for text in ["", " ", "a", " a b ", "\t\u{a0}x\u{3000}\r\n", "\u{200b}x"] {
        assert_eq!(trimmed(text), text.trim());
    }
}

#[test]
fn text_is_split_as_by_the_standard_library() {
    for text in ["", " ", "a", "a b", " a  b c ", "a b c d e f"] {
        let chars = to_chars(text);
        let once = split_once_chars(&chars, ' ').map(|(a, b)| (from_chars(a), from_chars(b)));
        let expected = text.split_once(' ').map(|(a, b)| (a.to_string(), b.to_string()));
        assert_eq!(once, expected);
        for n in 1..6 {
            let parts: Vec<String> =
                splitn_chars(&chars, n, ' ').iter().map(|p| from_chars(p)).collect();
            let expected: Vec<&str> = text.splitn(n, ' ').collect();
            assert_eq!(parts, expected);
        }
    }
}

#[test]
fn numbers_are_read_as_by_the_standard_library() {
    for text in [
        "", "0", "007", "+5", "-5", "+", "1a", " 1", "18446744073709551615",
        "18446744073709551616", "99999999999999999999999999999999",
    ] {
        assert_eq!(parse_usize_chars(&to_chars(text)), text.parse::<usize>().ok());
    }
}

#[test]
fn numbers_are_written_and_read_back() {
    for n in [0usize, 9, 10, 1234567890, usize::MAX] {
        let chars = decimal_chars(n);
        assert_eq!(from_chars(&chars), n.to_string());
        assert_eq!(parse_usize_chars(&chars), Some(n));
    }
}

#[test]
fn text_is_searched() {
    let chars = to_chars("weaver");
    assert!(starts_with(&chars, "wea"));
    assert!(!starts_with(&chars, "eav"));
    assert!(ends_with(&chars, "ver"));
    assert!(!ends_with(&chars, "weaverx"));
    assert!(contains_text(&chars, "eav"));
    assert!(contains_text(&chars, ""));
    assert!(!contains_text(&chars, "vae"));
    assert!(same_text(&chars, "weaver"));
    assert!(!same_text(&chars, "weave"));
}

#[test]
fn only_ascii_letters_are_lowered() {
    for c in ['A', 'Z', 'a', '0', '[', '@', 'Ä', 'İ'] {
        assert_eq!(to_ascii_lower(c), c.to_ascii_lowercase());
    }
}

#[test]
fn a_map_of_strings() {
    let mut map: StringMap<usize> = StringMap::new();
    assert!(map.is_empty());
    map.insert("a".to_string(), 1);
    map.insert("b".to_string(), 2);
    map.insert("c".to_string(), 3);
    map.insert("a".to_string(), 4);
    assert_eq!(map.len(), 3);
    assert_eq!(map.get("a"), Some(&4));
    *map.get_mut("b").unwrap() += 5;
    assert_eq!(map.get("b"), Some(&7));
    map.remove("a");
    map.remove("z");
    assert!(!map.contains_key("a"));
    assert_eq!(map.len(), 2);
    // The last entry has moved into the gap.
    assert_eq!(map.key_at(0), "c");
    assert_eq!(*map.value_at(0), 3);
    assert_eq!(map.key_at(1), "b");
    assert_eq!(map.get("c"), Some(&3));
    assert!(map.get_mut("a").is_none());
}

#[test]
fn a_set_of_strings() {
    let mut set = StringSet::default();
    assert!(set.insert("a".to_string()));
    assert!(!set.insert("a".to_string()));
    assert!(set.insert("".to_string()));
    assert!(set.contains("a"));
    assert!(!set.contains("b"));
    assert_eq!(set.len(), 2);
    assert_eq!(set.item_at(1), "");
}
