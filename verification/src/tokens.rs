//! Symbols, words and the case-transition splitter.

use vstd::prelude::*;
use vstd::slice::*;
use vstd::std_specs::iter::IteratorSpec;
use vstd::string::*;
use vstd::utf8::*;
use crate::modes::{as_ints, modes_of, split_modes, word_spans, WordMode};
use crate::pattern::{
    compile, find_matches, pattern_of, regex_compiles, regex_matches, spans_in_order,
    SYMBOL_PATTERN,
};
use crate::text::{byte_len, byte_offset, decode, substr, utf8_width};
use crate::text::{lemma_offset_split, lemma_offset_step};
use crate::word_laws::lemma_words_in_order;

verus! {

/// A token as the contracts see it: its characters and the byte offset at
/// which it starts.
pub struct TokenView {
    pub text: Seq<char>,
    pub offset: nat,
}

impl TokenView {
    /// Byte offset just past the token.
    pub open spec fn end(self) -> nat {
        self.offset + byte_len(self.text)
    }
}

/// Why a text is not exactly one token.
#[derive(Debug, Clone, Copy, PartialEq, Eq, Structural)]
pub enum TokenError {
    /// The text holds no token.
    NoneFound,
    /// The first token does not start the text.
    LeadingPadding,
    /// The text holds a second token.
    MoreThanOne,
}

impl TokenError {
    /// What went wrong, in words.
    pub open spec fn wording(self) -> Seq<char> {
        match self {
            TokenError::NoneFound => "no token found"@,
            TokenError::LeadingPadding => "leading padding found"@,
            TokenError::MoreThanOne => "more than one token found"@,
        }
    }

    /// What went wrong, in words.
    pub fn describe(self) -> (words: &'static str)
        ensures
            words@ == self.wording(),
    {
        match self {
            TokenError::NoneFound => "no token found",
            TokenError::LeadingPadding => "leading padding found",
            TokenError::MoreThanOne => "more than one token found",
        }
    }
}

/// A result with its token replaced by the token's view.
pub open spec fn outcome<T: View>(r: Result<T, TokenError>) -> Result<T::V, TokenError> {
    match r {
        Ok(token) => Ok(token@),
        Err(e) => Err(e),
    }
}

/// What the strict constructors make of the tokens found in a text: the only
/// token, moved to `offset`, or the reason why there is no such token.
pub open spec fn sole(found: Seq<TokenView>, offset: nat) -> Result<TokenView, TokenError> {
    if found.len() == 0 {
        Err(TokenError::NoneFound)
    } else if found[0].offset != 0 {
        Err(TokenError::LeadingPadding)
    } else if found.len() > 1 {
        Err(TokenError::MoreThanOne)
    } else {
        Ok(TokenView { text: found[0].text, offset })
    }
}

/// Whether a span lies inside `content` and holds well-formed UTF-8.
pub open spec fn decodable(content: Seq<u8>, span: (usize, usize)) -> bool {
    span.0 <= span.1 <= content.len() && valid_utf8(content.subrange(span.0 as int, span.1 as int))
}

/// The token that a span of `content` holds, if it can be decoded.
pub open spec fn token_at(content: Seq<u8>, span: (usize, usize)) -> Option<TokenView> {
    if decodable(content, span) {
        Some(
            TokenView {
                text: decode_utf8(content.subrange(span.0 as int, span.1 as int)),
                offset: span.0 as nat,
            },
        )
    } else {
        None
    }
}

/// The tokens that the given spans of `content` hold: one for each span that
/// can be decoded, in the order of the spans.
pub open spec fn tokens_at(content: Seq<u8>, spans: Seq<(usize, usize)>) -> Seq<TokenView> {
    spans.filter_map(|span: (usize, usize)| token_at(content, span))
}

/// The symbols of `content`: the decodable matches of the symbol pattern.
pub open spec fn symbols_in(content: Seq<u8>) -> Seq<TokenView> {
    if regex_compiles(SYMBOL_PATTERN@) {
        tokens_at(content, regex_matches(SYMBOL_PATTERN@, content))
    } else {
        Seq::empty()
    }
}

/// Tokens follow each other: each starts after the one before it started and
/// not before that one ended.
pub open spec fn in_order(tokens: Seq<TokenView>) -> bool {
    forall|i: int, j: int|
        0 <= i < j < tokens.len() ==> (#[trigger] tokens[i]).offset < (#[trigger] tokens[j]).offset
            && tokens[i].end() <= tokens[j].offset
}

/// An identifier-like token of a buffer.
#[derive(Debug, Clone, Copy, PartialEq, Eq)]
pub struct Symbol<'t> {
    token: &'t str,
    offset: usize,
}

impl<'t> View for Symbol<'t> {
    type V = TokenView;

    closed spec fn view(&self) -> TokenView {
        TokenView { text: self.token@, offset: self.offset as nat }
    }
}

impl<'t> DeepView for Symbol<'t> {
    type V = TokenView;

    open spec fn deep_view(&self) -> TokenView {
        self@
    }
}

/// The symbol pattern, compiled. One value serves any number of searches.
pub struct SymbolPattern {
    re: regex::bytes::Regex,
}

impl SymbolPattern {
    #[verifier::type_invariant]
    spec fn made_from_the_pattern(&self) -> bool {
        pattern_of(self.re) == SYMBOL_PATTERN@
    }

    /// Compiles the symbol pattern.
    pub fn compile() -> (pattern: Option<SymbolPattern>)
        ensures
            pattern.is_some() == regex_compiles(SYMBOL_PATTERN@),
    {
        match compile(SYMBOL_PATTERN) {
            Some(re) => Some(SymbolPattern { re }),
            None => None,
        }
    }

    /// The symbols of `content`, in the order in which they occur.
    pub fn find<'t>(&self, content: &'t [u8]) -> (symbols: Vec<Symbol<'t>>)
        ensures
            symbols.deep_view() == tokens_at(content@, regex_matches(SYMBOL_PATTERN@, content@)),
            in_order(symbols.deep_view()),
            forall|i: int| 0 <= i < symbols.len() ==> (#[trigger] symbols[i])@.end() <= content@.len(),
    {
        proof {
            use_type_invariant(self);
        }
        let spans = find_matches(&self.re, content);
        let symbols = Symbol::from_matches(content, spans.as_slice());
        proof {
            lemma_tokens_in_order(content@, spans@);
            let tokens = tokens_at(content@, spans@);
            assert forall|i: int| 0 <= i < symbols.len() implies (#[trigger] symbols[i])@.end()
                <= content@.len() by {
                assert(symbols.deep_view()[i] == symbols[i]@);
                let m = choose|m: int|
                    0 <= m < spans@.len() && tokens[i].offset == spans@[m].0 && tokens[i].end()
                        == spans@[m].1;
                assert(spans@[m].1 <= content@.len());
            }
        }
        symbols
    }
}

impl<'t> Symbol<'t> {
    /// Builds the symbol that is exactly `token`, placed at `offset`.
    pub fn new(token: &'t str, offset: usize) -> (r: Result<Symbol<'t>, TokenError>)
        ensures
            outcome(r) == strict_symbol(token@, offset as nat),
            r is Ok ==> r.unwrap()@.end() <= offset + byte_len(token@),
    {
        let found = Symbol::parse(token.as_bytes());
        proof {
            if found.len() > 0 {
                assert(found.deep_view()[0] == found[0]@);
            }
        }
        Symbol::single(&found, offset)
    }

    /// Picks the only symbol of `found` and places it at `offset`.
    pub fn single(found: &Vec<Symbol<'t>>, offset: usize) -> (r: Result<Symbol<'t>, TokenError>)
        ensures
            outcome(r) == sole(found.deep_view(), offset as nat),
    {
        if found.len() == 0 {
            return Err(TokenError::NoneFound);
        }
        let first = found[0];
        assert(found.deep_view()[0] == first@);
        if first.offset != 0 {
            return Err(TokenError::LeadingPadding);
        }
        if found.len() > 1 {
            return Err(TokenError::MoreThanOne);
        }
        Ok(Symbol { token: first.token, offset })
    }

    /// Takes `token` and `offset` as they are.
    pub fn new_unchecked(token: &'t str, offset: usize) -> (symbol: Symbol<'t>)
        ensures
            symbol@ == (TokenView { text: token@, offset: offset as nat }),
    {
        Symbol { token, offset }
    }

    /// The symbols of `content`, in the order in which they occur.
    pub fn parse(content: &'t [u8]) -> (symbols: Vec<Symbol<'t>>)
        ensures
            symbols.deep_view() == symbols_in(content@),
            in_order(symbols.deep_view()),
            forall|i: int| 0 <= i < symbols.len() ==> (#[trigger] symbols[i])@.end() <= content@.len(),
    {
        match SymbolPattern::compile() {
            Some(pattern) => pattern.find(content),
            None => Vec::new(),
        }
    }

    /// The symbols that the given spans of `content` hold. A span that reaches
    /// outside `content`, or whose bytes are not well-formed UTF-8, holds none.
    pub fn from_matches(content: &'t [u8], spans: &[(usize, usize)]) -> (symbols: Vec<Symbol<'t>>)
        ensures
            symbols.deep_view() == tokens_at(content@, spans@),
    {
        let mut symbols: Vec<Symbol<'t>> = Vec::new();
        let mut i: usize = 0;
        assert(spans@.take(0) =~= Seq::empty());
        while i < spans.len()
            invariant
                i <= spans.len(),
                symbols.deep_view() == tokens_at(content@, spans@.take(i as int)),
            decreases spans.len() - i,
        {
            let (start, end) = spans[i];
            let ghost before = symbols.deep_view();
            proof {
                assert(spans@.take(i + 1).drop_last() =~= spans@.take(i as int));
                assert(spans@.take(i + 1).last() == spans@[i as int]);
            }
            if start <= end && end <= content.len() {
                let bytes = slice_subrange(content, start, end);
                match decode(bytes) {
                    Some(token) => {
                        let symbol = Symbol { token, offset: start };
                        symbols.push(symbol);
                        assert(symbols.deep_view() =~= before + seq![symbol@]);
                    },
                    None => {},
                }
            }
            i += 1;
        }
        assert(spans@.take(spans.len() as int) =~= spans@);
        symbols
    }

    /// The symbol's text.
    pub fn token(&self) -> (text: &'t str)
        ensures
            text@ == self@.text,
    {
        self.token
    }

    /// Byte offset at which the symbol starts.
    pub fn offset(&self) -> (offset: usize)
        ensures
            offset == self@.offset,
    {
        self.offset
    }
}

/// The decodable tokens of spans that are in order are in order themselves, and
/// each ends where its span ends.
pub proof fn lemma_tokens_in_order(content: Seq<u8>, spans: Seq<(usize, usize)>)
    requires
        spans_in_order(spans, content.len()),
    ensures
        in_order(tokens_at(content, spans)),
        forall|k: int|
            0 <= k < tokens_at(content, spans).len() ==> exists|m: int|
                0 <= m < spans.len() && (#[trigger] tokens_at(content, spans)[k]).offset
                    == spans[m].0 && tokens_at(content, spans)[k].end() == spans[m].1,
    decreases spans.len(),
{
    broadcast use decode_utf8_encode_utf8;

    if spans.len() > 0 {
        let init = spans.drop_last();
        let last = spans.last();
        lemma_tokens_in_order(content, init);
        let before = tokens_at(content, init);
        let all = tokens_at(content, spans);
        assert forall|k: int| 0 <= k < before.len() implies (#[trigger] before[k]).end()
            <= last.0 && before[k].offset < last.0 by {
            let m = choose|m: int|
                0 <= m < init.len() && before[k].offset == init[m].0 && before[k].end()
                    == init[m].1;
            assert(init[m] == spans[m]);
        }
        if decodable(content, last) {
            let token = token_at(content, last).unwrap();
            assert(all =~= before + seq![token]);
            assert(token.end() == last.1);
            assert forall|k: int| 0 <= k < all.len() implies exists|m: int|
                0 <= m < spans.len() && (#[trigger] all[k]).offset == spans[m].0 && all[k].end()
                    == spans[m].1 by {
                if k < before.len() {
                    let m = choose|m: int|
                        0 <= m < init.len() && before[k].offset == init[m].0 && before[k].end()
                            == init[m].1;
                    assert(init[m] == spans[m]);
                } else {
                    assert(spans[spans.len() - 1] == last);
                }
            }
        } else {
            assert(all =~= before);
            assert forall|k: int| 0 <= k < all.len() implies exists|m: int|
                0 <= m < spans.len() && (#[trigger] all[k]).offset == spans[m].0 && all[k].end()
                    == spans[m].1 by {
                let m = choose|m: int|
                    0 <= m < init.len() && before[k].offset == init[m].0 && before[k].end()
                        == init[m].1;
                assert(init[m] == spans[m]);
            }
        }
    }
}

/// The word that a span of characters of `text` forms, when `text` itself
/// starts at byte `offset`.
pub open spec fn word_at(text: Seq<char>, offset: nat, span: (int, int)) -> TokenView {
    TokenView { text: text.subrange(span.0, span.1), offset: offset + byte_offset(text, span.0) }
}

/// Spans of characters of `text` as the words that they form.
pub open spec fn words_at(text: Seq<char>, offset: nat, spans: Seq<(int, int)>) -> Seq<TokenView> {
    spans.map_values(|span: (int, int)| word_at(text, offset, span))
}

/// The words of a symbol with the given text that starts at byte `offset`.
pub open spec fn words_of(text: Seq<char>, offset: nat) -> Seq<TokenView> {
    words_at(text, offset, word_spans(modes_of(text), text.len() as int))
}

/// A case-delimited part of a symbol.
#[derive(Debug, Clone, Copy, PartialEq, Eq)]
pub struct Word<'t> {
    token: &'t str,
    offset: usize,
}

impl<'t> View for Word<'t> {
    type V = TokenView;

    closed spec fn view(&self) -> TokenView {
        TokenView { text: self.token@, offset: self.offset as nat }
    }
}

impl<'t> DeepView for Word<'t> {
    type V = TokenView;

    open spec fn deep_view(&self) -> TokenView {
        self@
    }
}

/// The class of each character of `text`, and the byte offset of each
/// character and of the end of the text.
fn classify_text(text: &str) -> (found: (Vec<WordMode>, Vec<usize>))
    requires
        byte_len(text@) <= usize::MAX,
    ensures
        found.0@ == modes_of(text@),
        found.1@.len() == text@.len() + 1,
        forall|k: int| 0 <= k <= text@.len() ==> (#[trigger] found.1@[k]) == byte_offset(text@, k),
{
    let mut modes: Vec<WordMode> = Vec::new();
    let mut offsets: Vec<usize> = Vec::new();
    let mut chars = text.chars();
    let mut pos: usize = 0;
    let mut cur = chars.next();
    let ghost mut k: int = 0;
    proof {
        assert(text@.take(0) =~= Seq::<char>::empty());
        assert(encode_utf8(Seq::<char>::empty()) =~= Seq::<u8>::empty());
    }
    offsets.push(pos);
    while cur.is_some()
        invariant
            byte_len(text@) <= usize::MAX,
            chars.obeys_prophetic_iter_laws(),
            0 <= k <= text@.len(),
            cur.is_some() ==> k < text@.len() && cur.unwrap() == text@[k] && chars.remaining()
                == text@.skip(k + 1),
            cur.is_none() ==> k == text@.len(),
            pos == byte_offset(text@, k),
            modes@ == modes_of(text@.take(k)),
            offsets@.len() == k + 1,
            forall|j: int| 0 <= j <= k ==> (#[trigger] offsets@[j]) == byte_offset(text@, j),
        decreases text@.len() - k,
    {
        let c = cur.unwrap();
        proof {
            lemma_offset_step(text@, k);
            lemma_offset_split(text@, k + 1);
            assert(text@.take(k + 1) =~= text@.take(k).push(c));
            assert(modes_of(text@.take(k + 1)) =~= modes_of(text@.take(k)).push(WordMode::of(c)));
        }
        modes.push(WordMode::classify(c));
        pos = pos + utf8_width(c);
        offsets.push(pos);
        cur = chars.next();
        proof {
            k = k + 1;
        }
    }
    proof {
        assert(text@.take(k) =~= text@);
    }
    (modes, offsets)
}

/// Splits the text of a symbol that starts at byte `offset` into its words.
pub fn split_symbol<'t>(symbol: &'t str, offset: usize) -> (words: Vec<Word<'t>>)
    requires
        offset + byte_len(symbol@) <= usize::MAX,
    ensures
        words.deep_view() == words_of(symbol@, offset as nat),
{
    let (modes, offsets) = classify_text(symbol);
    let spans = split_modes(modes.as_slice());
    let ghost all = word_spans(modes_of(symbol@), symbol@.len() as int);
    let mut words: Vec<Word<'t>> = Vec::new();
    let mut i: usize = 0;
    assert(all.take(0) =~= Seq::<(int, int)>::empty());
    while i < spans.len()
        invariant
            i <= spans.len(),
            offset + byte_len(symbol@) <= usize::MAX,
            as_ints(spans@) == all,
            forall|k: int|
                0 <= k < spans@.len() ==> (#[trigger] spans@[k]).0 < spans@[k].1 <= symbol@.len(),
            offsets@.len() == symbol@.len() + 1,
            forall|k: int|
                0 <= k <= symbol@.len() ==> (#[trigger] offsets@[k]) == byte_offset(symbol@, k),
            words.deep_view() == words_at(symbol@, offset as nat, all.take(i as int)),
        decreases spans.len() - i,
    {
        let (first, end) = spans[i];
        let from = offsets[first];
        let to = offsets[end];
        proof {
            lemma_offset_split(symbol@, first as int);
            assert(all[i as int] == (first as int, end as int));
            assert(all.take(i + 1) =~= all.take(i as int).push((first as int, end as int)));
        }
        let token = substr(symbol, from, to, Ghost(first as int), Ghost(end as int));
        let word = Word { token, offset: from + offset };
        let ghost before = words.deep_view();
        words.push(word);
        assert(words.deep_view() =~= before.push(word@));
        i += 1;
    }
    assert(all.take(spans.len() as int) =~= all);
    words
}

/// What `Symbol::new` makes of a text: the only symbol of its bytes, or why
/// there is none.
pub open spec fn strict_symbol(text: Seq<char>, offset: nat) -> Result<TokenView, TokenError> {
    sole(symbols_in(encode_utf8(text)), offset)
}

/// What `Word::new` makes of a text: it must be a symbol first, and then split
/// into exactly one word.
pub open spec fn strict_word(text: Seq<char>, offset: nat) -> Result<TokenView, TokenError> {
    match strict_symbol(text, offset) {
        Err(e) => Err(e),
        Ok(_) => sole(words_of(text, 0), offset),
    }
}

impl<'t> Symbol<'t> {
    /// The words of the symbol, in order.
    pub fn split(&self) -> (words: Vec<Word<'t>>)
        requires
            self@.end() <= usize::MAX,
        ensures
            words.deep_view() == words_of(self@.text, self@.offset),
    {
        split_symbol(self.token, self.offset)
    }
}

impl<'t> Word<'t> {
    /// Builds the word that is exactly `token`, placed at `offset`.
    pub fn new(token: &'t str, offset: usize) -> (r: Result<Word<'t>, TokenError>)
        ensures
            outcome(r) == strict_word(token@, offset as nat),
            r is Ok ==> r.unwrap()@.end() <= offset + byte_len(token@),
    {
        match Symbol::new(token, offset) {
            Err(e) => {
                return Err(e);
            },
            Ok(_) => {},
        }
        // a slice's length fits in `usize`, and so does the text's
        let len = token.as_bytes().len();
        assert(byte_len(token@) == len);
        let words = split_symbol(token, 0);
        proof {
            lemma_words_in_order(token@, 0);
        }
        Word::single(&words, offset)
    }

    /// Picks the only word of `found` and places it at `offset`.
    pub fn single(found: &Vec<Word<'t>>, offset: usize) -> (r: Result<Word<'t>, TokenError>)
        ensures
            outcome(r) == sole(found.deep_view(), offset as nat),
    {
        if found.len() == 0 {
            return Err(TokenError::NoneFound);
        }
        let first = found[0];
        assert(found.deep_view()[0] == first@);
        if first.offset != 0 {
            return Err(TokenError::LeadingPadding);
        }
        if found.len() > 1 {
            return Err(TokenError::MoreThanOne);
        }
        Ok(Word { token: first.token, offset })
    }

    /// Takes `token` and `offset` as they are.
    pub fn new_unchecked(token: &'t str, offset: usize) -> (word: Word<'t>)
        ensures
            word@ == (TokenView { text: token@, offset: offset as nat }),
    {
        Word { token, offset }
    }

    /// The word's text.
    pub fn token(&self) -> (text: &'t str)
        ensures
            text@ == self@.text,
    {
        self.token
    }

    /// Byte offset at which the word starts.
    pub fn offset(&self) -> (offset: usize)
        ensures
            offset == self@.offset,
    {
        self.offset
    }
}

} // verus!
