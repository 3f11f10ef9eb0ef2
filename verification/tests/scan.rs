use typos::scan::{candidates, process_buffer, report, Candidate, Message};
use typos::tokens::Symbol;

fn rendred(word: &str) -> Option<String> {
    if word == "rendred" {
        Some("rendered".to_owned())
    } else {
        None
    }
}

#[test]
fn single_line_with_one_typo() {
    let buffer = b"HTML is rendred here";
    let messages = process_buffer(buffer, rendred);
    assert_eq!(
        messages,
        vec![Message {
            line: &buffer[..],
            line_num: 1,
            col_num: 8,
            word: "rendred",
            correction: "rendered".to_owned(),
        }]
    );
}

#[test]
fn messages_follow_reading_order() {
    let buffer = b"rendred\nok rendred rendred\n\nlast rendred";
    let messages = process_buffer(buffer, rendred);
    let places: Vec<(usize, usize)> = messages.iter().map(|m| (m.line_num, m.col_num)).collect();
    assert_eq!(places, vec![(1, 0), (2, 3), (2, 11), (4, 5)]);
    assert_eq!(messages[0].line, b"rendred\n");
    assert_eq!(messages[1].line, b"ok rendred rendred\n");
    assert_eq!(messages[3].line, b"last rendred");
}

#[test]
fn no_correction_means_no_message() {
    let messages = process_buffer(b"all is well\nhere\n", |_word: &str| None);
    assert!(messages.is_empty());
}

#[test]
fn candidates_are_whole_symbols_per_line() {
    let buffer = b"fooBar baz_1\n\nx";
    let found = candidates(buffer);
    let seen: Vec<(usize, &str, usize)> =
        found.iter().map(|c| (c.line_num, c.symbol.token(), c.symbol.offset())).collect();
    assert_eq!(seen, vec![(1, "fooBar", 0), (1, "baz_1", 7), (3, "x", 0)]);
    assert_eq!(found[0].line, b"fooBar baz_1\n");
    assert_eq!(found[2].line, b"x");
}

#[test]
fn empty_buffer_has_no_candidates() {
    assert!(candidates(b"").is_empty());
    assert!(candidates(b"\n\n").is_empty());
}

#[test]
fn invalid_utf8_is_passed_over() {
    let buffer = b"good \xff\xfe bad\xffword";
    let found = candidates(buffer);
    let seen: Vec<&str> = found.iter().map(|c| c.symbol.token()).collect();
    assert_eq!(seen, vec!["good", "bad", "word"]);
}

#[test]
fn report_carries_the_candidate() {
    let line = b"some wrod\n";
    let candidate = Candidate { line, line_num: 4, symbol: Symbol::new_unchecked("wrod", 5) };
    assert_eq!(report(&candidate, None), None);
    assert_eq!(
        report(&candidate, Some("word".to_owned())),
        Some(Message {
            line,
            line_num: 4,
            col_num: 5,
            word: "wrod",
            correction: "word".to_owned(),
        })
    );
}
