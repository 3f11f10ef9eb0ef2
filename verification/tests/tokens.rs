use typos::tokens::{split_symbol as split_text, Symbol, SymbolPattern, TokenError, Word};

#[test]
fn tokenize_empty_is_empty() {
    let input = b"";
    let expected: Vec<Symbol> = vec![];
    let actual: Vec<_> = Symbol::parse(input);
    assert_eq!(expected, actual);
}

#[test]
fn tokenize_word_is_word() {
    let input = b"word";
    let expected: Vec<Symbol> = vec![Symbol::new_unchecked("word", 0)];
    let actual: Vec<_> = Symbol::parse(input);
    assert_eq!(expected, actual);
}

#[test]
fn tokenize_space_separated_words() {
    let input = b"A B";
    let expected: Vec<Symbol> = vec![Symbol::new_unchecked("A", 0), Symbol::new_unchecked("B", 2)];
    let actual: Vec<_> = Symbol::parse(input);
    assert_eq!(expected, actual);
}

#[test]
fn tokenize_dot_separated_words() {
    let input = b"A.B";
    let expected: Vec<Symbol> = vec![Symbol::new_unchecked("A", 0), Symbol::new_unchecked("B", 2)];
    let actual: Vec<_> = Symbol::parse(input);
    assert_eq!(expected, actual);
}

#[test]
fn tokenize_namespace_separated_words() {
    let input = b"A::B";
    let expected: Vec<Symbol> = vec![Symbol::new_unchecked("A", 0), Symbol::new_unchecked("B", 3)];
    let actual: Vec<_> = Symbol::parse(input);
    assert_eq!(expected, actual);
}

#[test]
fn tokenize_underscore_doesnt_separate() {
    let input = b"A_B";
    let expected: Vec<Symbol> = vec![Symbol::new_unchecked("A_B", 0)];
    let actual: Vec<_> = Symbol::parse(input);
    assert_eq!(expected, actual);
}

#[test]
fn split_symbol() {
    let cases = [
        ("lowercase", &["lowercase"] as &[&str]),
        ("Class", &["Class"]),
        ("MyClass", &["My", "Class"]),
        ("MyC", &["My", "C"]),
        ("HTML", &["HTML"]),
        ("PDFLoader", &["PDF", "Loader"]),
        ("AString", &["A", "String"]),
        ("SimpleXMLParser", &["Simple", "XML", "Parser"]),
        ("vimRPCPlugin", &["vim", "RPC", "Plugin"]),
        ("GL11Version", &["GL", "11", "Version"]),
        ("99Bottles", &["99", "Bottles"]),
        ("May5", &["May", "5"]),
        ("BFG9000", &["BFG", "9000"]),
    ];
    for (input, expected) in cases.iter() {
        let symbol = Symbol::new(input, 0).unwrap();
        let result: Vec<_> = symbol.split().iter().map(|w| w.token()).collect();
        assert_eq!(&result, expected);
    }
}

#[test]
fn split_reports_byte_offsets() {
    let words = split_text("vimRPCPlugin", 10);
    let found: Vec<(&str, usize)> = words.iter().map(|w| (w.token(), w.offset())).collect();
    assert_eq!(found, vec![("vim", 10), ("RPC", 13), ("Plugin", 16)]);
}

#[test]
fn strict_symbol_errors() {
    assert_eq!(Symbol::new("", 0), Err(TokenError::NoneFound));
    assert_eq!(Symbol::new("::", 0), Err(TokenError::NoneFound));
    assert_eq!(Symbol::new(" word", 0), Err(TokenError::LeadingPadding));
    assert_eq!(Symbol::new("two words", 0), Err(TokenError::MoreThanOne));
    assert_eq!(Symbol::new("word", 7), Ok(Symbol::new_unchecked("word", 7)));
}

#[test]
fn strict_word_errors() {
    assert_eq!(Word::new("", 0), Err(TokenError::NoneFound));
    assert_eq!(Word::new("_", 0), Err(TokenError::NoneFound));
    assert_eq!(Word::new("_word", 0), Err(TokenError::LeadingPadding));
    assert_eq!(Word::new("twoWords", 0), Err(TokenError::MoreThanOne));
    assert_eq!(Word::new("two words", 0), Err(TokenError::MoreThanOne));
    assert_eq!(Word::new("word", 3), Ok(Word::new_unchecked("word", 3)));
}

#[test]
fn symbols_keep_their_byte_offsets_behind_wide_characters() {
    let input = "\u{e9}t\u{e9} \u{65e5}\u{672c} x_1".as_bytes();
    let found: Vec<(&str, usize)> =
        Symbol::parse(input).iter().map(|s| (s.token(), s.offset())).collect();
    assert_eq!(found, vec![("\u{e9}t\u{e9}", 0), ("\u{65e5}\u{672c}", 6), ("x_1", 13)]);
}

#[test]
fn symbols_from_given_spans() {
    let content = b"ab\xffcd";
    let found = Symbol::from_matches(content, &[(0, 2), (2, 3), (3, 5), (4, 9), (5, 3)]);
    assert_eq!(found, vec![Symbol::new_unchecked("ab", 0), Symbol::new_unchecked("cd", 3)]);
    assert!(Symbol::from_matches(content, &[]).is_empty());
    assert_eq!(Symbol::from_matches(b"abc", &[(1, 1)]), vec![Symbol::new_unchecked("", 1)]);
}

#[test]
fn strict_symbol_keeps_the_match_only() {
    let symbol = Symbol::new("word  ", 4).unwrap();
    assert_eq!(symbol.token(), "word");
    assert_eq!(symbol.offset(), 4);
}

#[test]
fn single_picks_the_only_token() {
    assert_eq!(Symbol::single(&vec![], 3), Err(TokenError::NoneFound));
    assert_eq!(
        Symbol::single(&vec![Symbol::new_unchecked("a", 1)], 3),
        Err(TokenError::LeadingPadding)
    );
    assert_eq!(
        Symbol::single(&vec![Symbol::new_unchecked("a", 0), Symbol::new_unchecked("b", 2)], 3),
        Err(TokenError::MoreThanOne)
    );
    assert_eq!(
        Symbol::single(&vec![Symbol::new_unchecked("a", 0)], 3),
        Ok(Symbol::new_unchecked("a", 3))
    );
    assert_eq!(Word::single(&vec![], 3), Err(TokenError::NoneFound));
    assert_eq!(
        Word::single(&vec![Word::new_unchecked("a", 0)], 3),
        Ok(Word::new_unchecked("a", 3))
    );
}

#[test]
fn split_skips_boundary_characters() {
    let found: Vec<(&str, usize)> =
        split_text("__foo_barBaz__9", 0).iter().map(|w| (w.token(), w.offset())).collect();
    assert_eq!(found, vec![("foo", 2), ("bar", 6), ("Baz", 9), ("9", 14)]);
    assert!(split_text("", 0).is_empty());
    assert!(split_text("___", 0).is_empty());
}

#[test]
fn split_skips_wide_boundary_characters_whole() {
    let found: Vec<(&str, usize)> =
        split_text("a\u{3042}b", 0).iter().map(|w| (w.token(), w.offset())).collect();
    assert_eq!(found, vec![("a", 0), ("b", 4)]);
    let found: Vec<(&str, usize)> =
        split_text("\u{65e5}\u{672c}Go\u{e9}X", 2).iter().map(|w| (w.token(), w.offset())).collect();
    assert_eq!(found, vec![("Go\u{e9}", 8), ("X", 12)]);
}

#[test]
fn split_capital_runs() {
    let texts = |input: &'static str| -> Vec<&'static str> {
        split_text(input, 0).iter().map(|w| w.token()).collect()
    };
    assert_eq!(texts("ABc"), vec!["A", "Bc"]);
    assert_eq!(texts("AXMLParser"), vec!["AXML", "Parser"]);
    assert_eq!(texts("aBCd"), vec!["a", "B", "Cd"]);
    assert_eq!(texts("AB"), vec!["AB"]);
    assert_eq!(texts("A1b"), vec!["A", "1", "b"]);
    assert_eq!(texts("x"), vec!["x"]);
}

#[test]
fn words_join_to_the_symbol_without_boundaries() {
    for input in ["PDFLoader", "__foo_barBaz__9", "GL11Version", "a\u{3042}b", "snake_case_1a"] {
        let symbol = Symbol::new(input, 0).unwrap();
        let joined: String = symbol.split().iter().map(|w| w.token()).collect();
        let expected: String = input
            .chars()
            .filter(|c| c.is_lowercase() || c.is_uppercase() || c.is_ascii_digit())
            .collect();
        assert_eq!(joined, expected);
    }
}

#[test]
fn each_word_parses_as_itself() {
    for input in ["PDFLoader", "vimRPCPlugin", "GL11Version", "BFG9000", "foo_barBaz"] {
        let symbol = Symbol::new(input, 0).unwrap();
        for word in symbol.split() {
            assert_eq!(Word::new(word.token(), 0), Ok(Word::new_unchecked(word.token(), 0)));
            assert_eq!(
                Word::new(word.token(), word.offset()),
                Ok(Word::new_unchecked(word.token(), word.offset()))
            );
        }
    }
}

#[test]
fn symbols_are_in_order_and_do_not_overlap() {
    let input = b"fn main() { let x_1 = foo::bar(baz, 42); }";
    let symbols = Symbol::parse(input);
    assert_eq!(symbols.len(), 8);
    for pair in symbols.windows(2) {
        assert!(pair[0].offset() + pair[0].token().len() <= pair[1].offset());
        assert!(pair[0].offset() < pair[1].offset());
    }
    for symbol in symbols.iter() {
        assert!(symbol.token().chars().all(|c| c.is_alphabetic() || c.is_numeric() || c == '_'));
        assert_eq!(&input[symbol.offset()..symbol.offset() + symbol.token().len()], symbol.token().as_bytes());
    }
}

#[test]
fn errors_in_words() {
    assert_eq!(TokenError::NoneFound.describe(), "no token found");
    assert_eq!(TokenError::LeadingPadding.describe(), "leading padding found");
    assert_eq!(TokenError::MoreThanOne.describe(), "more than one token found");
}

#[test]
fn compiled_pattern_serves_many_searches() {
    let pattern = SymbolPattern::compile().unwrap();
    let first: Vec<&str> = pattern.find(b"let x = fooBar;").iter().map(|s| s.token()).collect();
    assert_eq!(first, vec!["let", "x", "fooBar"]);
    let second: Vec<(&str, usize)> =
        pattern.find(b"  a_b-c").iter().map(|s| (s.token(), s.offset())).collect();
    assert_eq!(second, vec![("a_b", 2), ("c", 6)]);
    assert_eq!(pattern.find(b"a b"), Symbol::parse(b"a b"));
    assert!(pattern.find(b"").is_empty());
}
