use chat_with_rust::history::HistoryLoader;
use chat_with_rust::text::{char_is_whitespace, u32_to_decimal, usize_to_decimal, is_char_printable, is_char_typeable, join_words, split_words, text_is};

#[test]
fn printable_characters() {
    for c in ['a', 'z', 'A', 'Z', '0', '9', '*', '?', '@', '!', '#', '$', '%', '&', '\\'] {
        assert!(is_char_printable(c), "{c}");
    }
    for c in [' ', '.', '-', ':', '\n', 'é', '你', '/'] {
        assert!(!is_char_printable(c), "{c}");
    }
}

#[test]
fn typeable_characters() {
    for c in ['a', 'Z', '7', '*', '\\', ' ', '.', ':'] {
        assert!(is_char_typeable(c), "{c}");
    }
    for c in ['-', '/', '\n', '\t', 'é', '你'] {
        assert!(!is_char_typeable(c), "{c}");
    }
}

#[test]
fn split_words_at_white_space() {
    assert_eq!(split_words("  conn\t127.0.0.1:80  x "), vec!["conn", "127.0.0.1:80", "x"]);
    assert_eq!(split_words(""), Vec::<String>::new());
    assert_eq!(split_words(" \t\n "), Vec::<String>::new());
    assert_eq!(split_words("a\u{3000}b\u{a0}c"), vec!["a", "b", "c"]);
    assert_eq!(split_words("你好 世界"), vec!["你好", "世界"]);
}

#[test]
fn split_matches_std() {
    for s in ["a b", "  lead", "trail  ", "x\u{2003}y\u{85}z", "one"] {
        let expected: Vec<String> = s.split_whitespace().map(|w| w.to_string()).collect();
        assert_eq!(split_words(s), expected);
    }
}

#[test]
fn join_with_single_spaces() {
    let ws = vec!["hello".to_string(), "big".to_string(), "world".to_string()];
    assert_eq!(join_words(&ws), "hello big world");
    assert_eq!(join_words(&[]), "");
    assert_eq!(join_words(&["one".to_string()]), "one");
}

#[test]
fn text_is_exact() {
    assert!(text_is(&"msg!".to_string(), "msg!"));
    assert!(!text_is(&"msg".to_string(), "msg!"));
}

#[test]
fn history_empty_gives_nothing() {
    let mut h: HistoryLoader<String> = HistoryLoader::new();
    assert_eq!(h.easily(), None);
    assert_eq!(h.later(), None);
}

#[test]
fn history_read_after_write() {
    let mut h = HistoryLoader::new();
    h.add("first".to_string());
    h.add("second".to_string());
    assert_eq!(h.easily(), Some("second".to_string()));
    assert_eq!(h.easily(), Some("first".to_string()));
    assert_eq!(h.easily(), Some("first".to_string()));
    assert_eq!(h.later(), Some("first".to_string()));
    assert_eq!(h.later(), Some("second".to_string()));
    assert_eq!(h.later(), Some("second".to_string()));
    h.add("third".to_string());
    assert_eq!(h.later(), Some("third".to_string()));
}

#[test]
fn white_space_is_what_std_says() {
    for c in (0u32..=0x10FFFF).filter_map(char::from_u32) {
        assert_eq!(char_is_whitespace(c), c.is_whitespace(), "{:?}", c);
    }
}

#[test]
fn decimal_notation() {
    for n in [0usize, 7, 9, 10, 11, 99, 100, 12345, 1_000_000, usize::MAX] {
        assert_eq!(usize_to_decimal(n), n.to_string());
    }
    for n in [0u32, 5, 10, 4_294_967, u32::MAX] {
        assert_eq!(u32_to_decimal(n), n.to_string());
    }
}
