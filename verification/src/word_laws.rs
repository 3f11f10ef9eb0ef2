//! What holds of the words of every symbol.

use vstd::prelude::*;
use vstd::utf8::*;
use crate::modes::{ends_word, lemma_word_start, modes_of, word_spans, word_start, WordMode};
use crate::text::{byte_len, byte_offset, lemma_offset_monotonic, lemma_offset_step};
use crate::tokens::{
    in_order, strict_symbol, strict_word, word_at, words_at, words_of, TokenError, TokenView,
};

verus! {

/// Whether `c` can stand in a word: it is cased or an ASCII digit.
pub open spec fn in_word(c: char) -> bool {
    WordMode::of(c) != WordMode::Boundary
}

/// The characters of `text` that can stand in a word, in order.
pub open spec fn word_chars(text: Seq<char>) -> Seq<char> {
    text.filter(|c: char| in_word(c))
}

/// The texts of the given tokens, one after the other.
pub open spec fn joined(tokens: Seq<TokenView>) -> Seq<char>
    decreases tokens.len(),
{
    if tokens.len() == 0 {
        Seq::empty()
    } else {
        joined(tokens.drop_last()) + tokens.last().text
    }
}

/// Each span is a whole word that ends within the first `n` characters, and
/// the spans follow each other.
pub open spec fn whole_words(modes: Seq<WordMode>, spans: Seq<(int, int)>, n: int) -> bool {
    &&& forall|i: int|
        0 <= i < spans.len() ==> {
            let span = #[trigger] spans[i];
            &&& 0 <= span.0 < span.1 <= n
            &&& span.0 == word_start(modes, span.1 - 1)
            &&& ends_word(modes, span.1 - 1)
        }
    &&& forall|i: int, j: int|
        0 <= i < j < spans.len() ==> (#[trigger] spans[i]).1 <= (#[trigger] spans[j]).0
}

/// The word spans of every prefix are whole words in order.
pub proof fn lemma_word_spans(modes: Seq<WordMode>, n: int)
    requires
        0 <= n <= modes.len(),
    ensures
        whole_words(modes, word_spans(modes, n), n),
    decreases n,
{
    if n > 0 {
        lemma_word_spans(modes, n - 1);
        lemma_word_start(modes, n - 1);
        let before = word_spans(modes, n - 1);
        if ends_word(modes, n - 1) {
            let start = word_start(modes, n - 1);
            assert forall|i: int| 0 <= i < before.len() implies (#[trigger] before[i]).1
                <= start by {
                let end = before[i].1;
                if start < end {
                    assert(modes[end - 1] != WordMode::Boundary && !ends_word(modes, end - 1));
                }
            }
        }
    }
}

/// Filtering keeps a text whose characters all pass.
proof fn lemma_word_chars_all(text: Seq<char>)
    requires
        forall|j: int| 0 <= j < text.len() ==> in_word(#[trigger] text[j]),
    ensures
        word_chars(text) == text,
    decreases text.len(),
{
    reveal(Seq::filter);
    if text.len() > 0 {
        lemma_word_chars_all(text.drop_last());
        assert(text.drop_last().push(text.last()) =~= text);
    }
}

/// The words that end within a prefix hold, joined, the word characters that
/// come before the word still open at the end of the prefix.
proof fn lemma_joined_prefix(text: Seq<char>, offset: nat, n: int)
    requires
        0 <= n <= text.len(),
    ensures
        joined(words_at(text, offset, word_spans(modes_of(text), n))) == word_chars(
            text.take(word_start(modes_of(text), n)),
        ),
    decreases n,
{
    broadcast use Seq::filter_distributes_over_add;

    reveal(Seq::filter);
    let modes = modes_of(text);
    if n <= 0 {
        assert(text.take(0) =~= Seq::<char>::empty());
        assert(words_at(text, offset, word_spans(modes, n)) =~= Seq::<TokenView>::empty());
    } else {
        lemma_joined_prefix(text, offset, n - 1);
        lemma_word_start(modes, n - 1);
        lemma_word_start(modes, n);
        let open = word_start(modes, n - 1);
        let before = words_at(text, offset, word_spans(modes, n - 1));
        if ends_word(modes, n - 1) {
            let word = word_at(text, offset, (open, n));
            let now = words_at(text, offset, word_spans(modes, n));
            assert(now =~= before.push(word));
            assert(now.drop_last() =~= before);
            assert(text.take(n) =~= text.take(open) + text.subrange(open, n));
            assert forall|j: int| 0 <= j < n - open implies in_word(
                #[trigger] text.subrange(open, n)[j],
            ) by {
                assert(modes[open + j] != WordMode::Boundary);
            }
            lemma_word_chars_all(text.subrange(open, n));
        } else if !in_word(text[n - 1]) {
            assert(modes[n - 1] == WordMode::Boundary);
            if open < n - 1 {
                assert(modes[n - 2] != WordMode::Boundary && !ends_word(modes, n - 2));
            }
            let one = seq![text[n - 1]];
            assert(text.take(n) =~= text.take(n - 1) + one);
            assert(one.drop_last() =~= Seq::<char>::empty());
            assert(word_chars(one.drop_last()) =~= Seq::<char>::empty());
            assert(word_chars(one) =~= Seq::<char>::empty());
        } else {
        }
    }
}

/// Splitting loses nothing: the words of a symbol, joined in order, are the
/// symbol's text without its boundary characters.
pub proof fn lemma_words_round_trip(text: Seq<char>, offset: nat)
    ensures
        joined(words_of(text, offset)) == word_chars(text),
{
    let n = text.len() as int;
    let modes = modes_of(text);
    lemma_joined_prefix(text, offset, n);
    lemma_word_start(modes, n);
    if n > 0 && word_start(modes, n) < n {
        assert(modes[n - 1] != WordMode::Boundary && !ends_word(modes, n - 1));
    }
    assert(text.take(n) =~= text);
}

/// The words of a symbol are not empty, hold no boundary character, follow
/// each other without overlap, and lie inside the symbol.
pub proof fn lemma_words_in_order(text: Seq<char>, offset: nat)
    ensures
        in_order(words_of(text, offset)),
        forall|i: int|
            0 <= i < words_of(text, offset).len() ==> {
                let word = #[trigger] words_of(text, offset)[i];
                &&& word.text.len() > 0
                &&& word_chars(word.text) == word.text
                &&& offset <= word.offset
                &&& word.end() <= offset + byte_len(text)
            },
{
    let n = text.len() as int;
    let modes = modes_of(text);
    let spans = word_spans(modes, n);
    let words = words_of(text, offset);
    lemma_word_spans(modes, n);
    assert(text.take(n) =~= text);
    assert forall|i: int| 0 <= i < words.len() implies {
        let word = #[trigger] words[i];
        &&& word.text.len() > 0
        &&& word_chars(word.text) == word.text
        &&& offset <= word.offset
        &&& word.end() == offset + byte_offset(text, spans[i].1)
        &&& word.end() <= offset + byte_len(text)
    } by {
        let span = spans[i];
        lemma_word_start(modes, span.1 - 1);
        assert forall|j: int| 0 <= j < span.1 - span.0 implies in_word(
            #[trigger] text.subrange(span.0, span.1)[j],
        ) by {
            assert(modes[span.0 + j] != WordMode::Boundary);
        }
        lemma_word_chars_all(text.subrange(span.0, span.1));
        lemma_offset_monotonic(text, span.0, span.1);
        lemma_offset_monotonic(text, span.1, n);
    }
    assert forall|i: int, j: int| 0 <= i < j < words.len() implies (#[trigger] words[i]).offset < (
    #[trigger] words[j]).offset && words[i].end() <= words[j].offset by {
        lemma_offset_monotonic(text, spans[i].0, spans[i].1);
        lemma_offset_monotonic(text, spans[i].1, spans[j].0);
        lemma_offset_step(text, spans[i].0);
        lemma_offset_monotonic(text, spans[i].0 + 1, spans[i].1);
    }
}

/// A run of classes without a boundary, none of which, but the last, ends a
/// word is one word.
proof fn lemma_single_word(modes: Seq<WordMode>, n: int)
    requires
        0 <= n <= modes.len(),
        forall|j: int| 0 <= j < modes.len() ==> #[trigger] modes[j] != WordMode::Boundary,
        forall|j: int| 0 <= j < modes.len() - 1 ==> !ends_word(modes, j),
    ensures
        n < modes.len() ==> word_spans(modes, n) == Seq::<(int, int)>::empty(),
        n < modes.len() ==> word_start(modes, n) == 0,
        0 < n == modes.len() ==> word_spans(modes, n) == seq![(0int, n)],
    decreases n,
{
    if n > 0 {
        lemma_single_word(modes, n - 1);
        if n == modes.len() {
            assert(word_spans(modes, n) =~= seq![(0int, n)]);
        }
    }
}

/// Each word of a symbol, split again on its own, is that one word.
pub proof fn lemma_word_splits_into_itself(text: Seq<char>, offset: nat, i: int, at: nat)
    requires
        0 <= i < words_of(text, offset).len(),
    ensures
        words_of(words_of(text, offset)[i].text, at) == seq![
            TokenView { text: words_of(text, offset)[i].text, offset: at },
        ],
{
    let n = text.len() as int;
    let modes = modes_of(text);
    let span = word_spans(modes, n)[i];
    let word = text.subrange(span.0, span.1);
    let part = modes_of(word);
    let len = word.len() as int;
    lemma_word_spans(modes, n);
    lemma_word_start(modes, span.1 - 1);
    assert forall|j: int| 0 <= j < len implies #[trigger] part[j] == modes[span.0 + j] by {
        assert(word[j] == text[span.0 + j]);
    }
    assert forall|j: int| 0 <= j < len - 1 implies !ends_word(part, j) by {
        assert(!ends_word(modes, span.0 + j));
        assert(part[j] == modes[span.0 + j]);
        assert(part[j + 1] == modes[span.0 + j + 1]);
        if j + 2 < len {
            assert(part[j + 2] == modes[span.0 + j + 2]);
        }
    }
    assert forall|j: int| 0 <= j < len implies #[trigger] part[j] != WordMode::Boundary by {
        assert(part[j] == modes[span.0 + j]);
    }
    lemma_single_word(part, len);
    assert(word.take(0) =~= Seq::<char>::empty());
    assert(encode_utf8(Seq::<char>::empty()) =~= Seq::<u8>::empty());
    assert(word.subrange(0, len) =~= word);
    assert(words_of(word, at) =~= seq![TokenView { text: word, offset: at }]);
}

/// Parsing a word's own text again yields the same word: once the text passes
/// as a symbol, the strict word constructor returns it whole, at the offset
/// asked for.
pub proof fn lemma_word_reparses(text: Seq<char>, offset: nat, i: int, at: nat)
    requires
        0 <= i < words_of(text, offset).len(),
        strict_symbol(words_of(text, offset)[i].text, at) is Ok,
    ensures
        strict_word(words_of(text, offset)[i].text, at) == Ok::<TokenView, TokenError>(
            TokenView { text: words_of(text, offset)[i].text, offset: at },
        ),
{
    lemma_word_splits_into_itself(text, offset, i, 0);
}

} // verus!
