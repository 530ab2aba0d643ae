use rush::{unescape, unescape_mapped, DecodeError, SubstitutionTable};

fn table_with(pairs: &[(char, &str)]) -> SubstitutionTable {
    let mut t = SubstitutionTable::new();
    for (k, v) in pairs {
        t.insert(*k, v.to_string());
    }
    t
}

fn decoded(s: &str, t: &SubstitutionTable) -> String {
    unescape_mapped(s.to_string(), t).expect("decodes")
}

#[test]
fn plain_text_is_unchanged() {
    let t = table_with(&[('a', "zzz")]);
    assert_eq!(decoded("hello, world a!", &t), "hello, world a!");
    assert_eq!(decoded("", &t), "");
    assert_eq!(unescape("rush$ ".to_string()).unwrap(), "rush$ ");
}

#[test]
fn newline_and_tab_whatever_the_table() {
    let empty = SubstitutionTable::new();
    let full = table_with(&[('n', "N"), ('t', "T")]);
    assert_eq!(decoded("\\n", &empty), "\n");
    assert_eq!(decoded("\\t", &empty), "\t");
    assert_eq!(decoded("\\n", &full), "\n");
    assert_eq!(decoded("a\\tb", &full), "a\tb");
}

#[test]
fn other_named_escapes() {
    let t = SubstitutionTable::new();
    assert_eq!(decoded("\\r\\v\\e\\a\\b\\f\\\\", &t), "\r\x0b\x1b\x07\x08\x0c\\");
    assert_eq!(decoded("\\[x\\]", &t), "\x01x\x02");
    assert_eq!(decoded("\\q\\%", &t), "q%");
}

#[test]
fn hex_and_octal_escapes_followed_by_text() {
    let t = SubstitutionTable::new();
    assert_eq!(decoded("\\x41!", &t), "A!");
    assert_eq!(decoded("\\101!", &t), "A!");
    assert_eq!(decoded("\\x4!", &t), "\u{4}!");
    assert_eq!(decoded("\\x4a\\x42 ", &t), "JB ");
    assert_eq!(decoded("\\1010", &t), "A0");
    assert_eq!(decoded("\\0x", &t), "\u{0}x");
    assert_eq!(decoded("\\x1F600 ", &t), "\u{1F600} ");
}

#[test]
fn escape_at_end_of_input_is_dropped() {
    let t = SubstitutionTable::new();
    assert_eq!(decoded("\\x4", &t), "");
    assert_eq!(decoded("ab\\x41", &t), "ab");
    assert_eq!(decoded("ab\\101", &t), "ab");
    assert_eq!(decoded("ab\\12", &t), "ab");
    assert_eq!(decoded("ab\\", &t), "ab");
    assert_eq!(decoded("ab%", &t), "ab");
}

#[test]
fn placeholder_from_table() {
    let t = table_with(&[('c', "X")]);
    assert_eq!(decoded("%c", &t), "X");
    assert_eq!(decoded("<%c%c>", &t), "<XX>");
}

#[test]
fn placeholder_missing_from_table() {
    let r = unescape_mapped("%c".to_string(), &SubstitutionTable::new());
    assert!(matches!(r, Err(DecodeError::UnknownPlaceholder('c'))));
    let t = table_with(&[('c', "X")]);
    let r = unescape_mapped("%C".to_string(), &t);
    assert!(matches!(r, Err(DecodeError::UnknownPlaceholder('C'))));
}

#[test]
fn invalid_hex_escapes() {
    let t = SubstitutionTable::new();
    match unescape_mapped("\\x!".to_string(), &t) {
        Err(DecodeError::InvalidHexEscape(b)) => assert_eq!(b, ""),
        other => panic!("unexpected {:?}", other),
    }
    match unescape_mapped("\\xD800!".to_string(), &t) {
        Err(DecodeError::InvalidHexEscape(b)) => assert_eq!(b, "D800"),
        other => panic!("unexpected {:?}", other),
    }
    match unescape_mapped("\\x110000 ".to_string(), &t) {
        Err(DecodeError::InvalidHexEscape(b)) => assert_eq!(b, "110000"),
        other => panic!("unexpected {:?}", other),
    }
    match unescape_mapped("\\xFFFFFFFFFF ".to_string(), &t) {
        Err(DecodeError::InvalidHexEscape(b)) => assert_eq!(b, "FFFFFFFFFF"),
        other => panic!("unexpected {:?}", other),
    }
}

#[test]
fn invalid_octal_escape() {
    let t = SubstitutionTable::new();
    match unescape_mapped("\\8!".to_string(), &t) {
        Err(DecodeError::InvalidOctalEscape(b)) => assert_eq!(b, "8"),
        other => panic!("unexpected {:?}", other),
    }
    match unescape_mapped("\\91x".to_string(), &t) {
        Err(DecodeError::InvalidOctalEscape(b)) => assert_eq!(b, "91"),
        other => panic!("unexpected {:?}", other),
    }
}

#[test]
fn table_insert_replaces() {
    let mut t = table_with(&[('a', "1")]);
    assert!(t.contains_key('a'));
    assert!(!t.contains_key('A'));
    t.insert('a', "2".to_string());
    assert_eq!(t.get('a').unwrap(), "2");
    assert!(t.get('b').is_none());
}
