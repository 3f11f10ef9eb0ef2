use typos::text::{str_eq, utf8_width};

#[test]
fn widths_of_each_encoding_length() {
    assert_eq!(utf8_width('a'), 1);
    assert_eq!(utf8_width('\u{7f}'), 1);
    assert_eq!(utf8_width('\u{80}'), 2);
    assert_eq!(utf8_width('\u{e9}'), 2);
    assert_eq!(utf8_width('\u{7ff}'), 2);
    assert_eq!(utf8_width('\u{800}'), 3);
    assert_eq!(utf8_width('\u{65e5}'), 3);
    assert_eq!(utf8_width('\u{ffff}'), 3);
    assert_eq!(utf8_width('\u{10000}'), 4);
    assert_eq!(utf8_width('\u{10ffff}'), 4);
    for c in ['a', '\u{e9}', '\u{65e5}', '\u{1f600}'] {
        assert_eq!(utf8_width(c), c.len_utf8());
    }
}

#[test]
fn equal_texts() {
    assert!(str_eq("", ""));
    assert!(str_eq("en-us", "en-us"));
    assert!(!str_eq("en-us", "en-uk"));
    assert!(!str_eq("en", "en-us"));
    assert!(!str_eq("caf\u{e9}", "cafe"));
    assert!(str_eq("caf\u{e9}", "caf\u{e9}"));
}
