use node_access_common::number::{be_number, decimal_text, hexadecimal_text, u64_be_bytes};
use node_access_common::text::{
    as_text, char_is_white_space, chars_of, copied_text, has_suffix, same_text, split_parts,
    trimmed, trimmed_end_char, without_prefix,
};
use node_access_common::text_map::TextMap;

#[test]
fn white_space_is_what_std_says() {
    for c in '\0'..=char::MAX {
        assert_eq!(char_is_white_space(c), c.is_whitespace(), "{:?}", c);
    }
}

#[test]
fn trimming_is_what_std_does() {
    for s in ["", " ", "a", " a", "a ", "\t a b \u{2003}", "\u{a0}\u{e4}\u{3000}"] {
        assert_eq!(trimmed(s), s.trim());
    }
    for s in ["", "/", "a", "a/", "/a//", "\u{e4}///"] {
        assert_eq!(trimmed_end_char(s, '/'), s.trim_end_matches('/'));
    }
}

#[test]
fn splitting_is_what_std_does() {
    for s in ["", ":", "a", "a:b", "a:b:c:d:e:f", "::", "\u{e4}:\u{1f600}:"] {
        for limit in 0..6 {
            let expected: Vec<&str> = s.splitn(limit, ':').collect();
            assert_eq!(split_parts(s, limit, ':'), expected);
        }
    }
}

#[test]
fn prefixes_and_suffixes() {
    assert_eq!(without_prefix("http://h", "http://"), Some("h"));
    assert_eq!(without_prefix("http:/", "http://"), None);
    assert_eq!(without_prefix("\u{e4}b", "\u{e4}"), Some("b"));
    assert_eq!(without_prefix("b", ""), Some("b"));
    assert!(has_suffix("a/ws", "/ws"));
    assert!(!has_suffix("aws", "/ws"));
    assert!(!has_suffix("ws", "/ws"));
}

#[test]
fn comparing_and_copying() {
    assert!(same_text("\u{e4}b", "\u{e4}b"));
    assert!(!same_text("ab", "abc"));
    assert!(!same_text("ab", "ac"));
    assert_eq!(chars_of("\u{e4}b"), vec!['\u{e4}', 'b']);
    assert_eq!(as_text(&Some("a".to_string())), Some("a"));
    assert_eq!(as_text(&None), None);
    assert_eq!(copied_text(&Some("a".to_string())), Some("a".to_string()));
    assert_eq!(copied_text(&None), None);
}

#[test]
fn numbers_as_text_and_bytes() {
    assert_eq!(decimal_text(0), "0");
    assert_eq!(decimal_text(65535), "65535");
    assert_eq!(decimal_text(u64::MAX), "18446744073709551615");
    assert_eq!(hexadecimal_text(0), "0");
    assert_eq!(hexadecimal_text(0x2001), "2001");
    assert_eq!(hexadecimal_text(0xdb8), "db8");
    assert_eq!(u64_be_bytes(0x0102030405060708), [1, 2, 3, 4, 5, 6, 7, 8]);
    assert_eq!(be_number(&[]), 0);
    assert_eq!(be_number(&[1, 187]), 443);
    assert_eq!(be_number(&u64_be_bytes(u64::MAX - 1)), u64::MAX - 1);
}

#[test]
fn text_maps_hold_the_last_value_of_a_text() {
    let mut map: TextMap<u32> = TextMap::new();
    assert_eq!(map.get("a"), None);
    map.insert("a".to_string(), 1);
    map.insert("b".to_string(), 2);
    map.insert("a".to_string(), 3);
    assert_eq!(map.get("a"), Some(&3));
    assert_eq!(map.get("b"), Some(&2));
    map.remove("a");
    map.remove("c");
    assert_eq!(map.get("a"), None);
    assert_eq!(map.get("b"), Some(&2));
}

#[test]
fn text_maps_retain_what_they_are_told_to() {
    let mut map: TextMap<u32> = TextMap::new();
    for (key, value) in [("a", 1), ("b", 2), ("c", 3), ("d", 4)] {
        map.insert(key.to_string(), value);
    }
    map.retain(|value: &u32| value % 2 == 0);
    assert_eq!(map.get("a"), None);
    assert_eq!(map.get("b"), Some(&2));
    assert_eq!(map.get("c"), None);
    assert_eq!(map.get("d"), Some(&4));
}
