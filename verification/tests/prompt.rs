use ce_coord::command::{is_white, parse, trim, Command};

fn put(line: &str) -> Option<(String, String)> {
    match parse(line) {
        Command::Put { key, value } => Some((key, value)),
        _ => None,
    }
}

fn del(line: &str) -> Option<String> {
    match parse(line) {
        Command::Del { key } => Some(key),
        _ => None,
    }
}

fn pair(k: &str, v: &str) -> Option<(String, String)> {
    Some((k.to_string(), v.to_string()))
}

#[test]
fn set_takes_a_key_and_the_rest_of_the_line() {
    assert_eq!(put("set alice 100"), pair("alice", "100"));
    assert_eq!(put("  set k a b  c \n"), pair("k", "a b  c"));
    assert_eq!(put("set  k v"), pair("", "k v"));
    assert_eq!(put("set schlüssel größe"), pair("schlüssel", "größe"));
    assert!(matches!(parse("set"), Command::Unknown));
    assert!(matches!(parse("set k"), Command::Unknown));
    assert!(matches!(parse("set k "), Command::Unknown));
    assert!(matches!(parse("Set k v"), Command::Unknown));
    assert!(matches!(parse("set\tk v"), Command::Unknown));
}

#[test]
fn del_takes_exactly_one_key() {
    assert_eq!(del("del alice"), Some("alice".to_string()));
    assert_eq!(del("\tdel alice\r\n"), Some("alice".to_string()));
    assert!(matches!(parse("del"), Command::Unknown));
    assert!(matches!(parse("del a b"), Command::Unknown));
    assert!(matches!(parse("del  a"), Command::Unknown));
}

#[test]
fn dump_stands_alone() {
    assert!(matches!(parse("dump"), Command::Dump));
    assert!(matches!(parse(" dump "), Command::Dump));
    assert!(matches!(parse("dump x"), Command::Unknown));
    assert!(matches!(parse("dumps"), Command::Unknown));
}

#[test]
fn blank_lines_are_told_apart() {
    assert!(matches!(parse(""), Command::Blank));
    assert!(matches!(parse(" \t \u{3000}\n"), Command::Blank));
    assert!(matches!(parse("x"), Command::Unknown));
}

#[test]
fn white_space_is_what_unicode_says() {
    for c in '\0'..=char::MAX {
        assert_eq!(is_white(c), c.is_whitespace(), "{:?}", c);
    }
    for text in ["", " ", " a b ", "\u{a0}x\u{2003}", "x", "\u{85}\u{1680} y z\n\n"] {
        assert_eq!(trim(text), text.trim());
    }
}
