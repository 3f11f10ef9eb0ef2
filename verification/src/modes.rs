//! Character classes and where, in a run of classes, the words are.

use vstd::prelude::*;

verus! {

/// Whether `c` has the Unicode `Lowercase` property, as `char::is_lowercase`
/// reports it.
pub uninterp spec fn unicode_lowercase(c: char) -> bool;

/// Whether `c` has the Unicode `Uppercase` property, as `char::is_uppercase`
/// reports it.
pub uninterp spec fn unicode_uppercase(c: char) -> bool;

/// Calls `char::is_lowercase`. The Unicode table behind it is not restated
/// here: the result is only given its name.
#[verifier::external_body]
fn is_lowercase(c: char) -> (b: bool)
    ensures
        b == unicode_lowercase(c),
{
    c.is_lowercase()
}

/// Calls `char::is_uppercase`. The Unicode table behind it is not restated
/// here: the result is only given its name.
#[verifier::external_body]
fn is_uppercase(c: char) -> (b: bool)
    ensures
        b == unicode_uppercase(c),
{
    c.is_uppercase()
}

/// The class of a character, as the splitter sees it. While it scans, the
/// splitter also keeps the class of the cased character or digit seen last in
/// the word at hand, `Boundary` standing for none.
#[derive(Clone, Copy, PartialEq, Eq, Debug, Structural)]
pub enum WordMode {
    /// Neither cased nor an ASCII digit: never part of a word.
    Boundary,
    /// A lowercase character.
    Lowercase,
    /// An uppercase character.
    Uppercase,
    /// An ASCII decimal digit.
    Number,
}

impl WordMode {
    /// The class of `c`: lowercase wins over uppercase, which wins over digit.
    pub open spec fn of(c: char) -> WordMode {
        if unicode_lowercase(c) {
            WordMode::Lowercase
        } else if unicode_uppercase(c) {
            WordMode::Uppercase
        } else if '0' <= c <= '9' {
            WordMode::Number
        } else {
            WordMode::Boundary
        }
    }

    /// Classifies one character.
    pub fn classify(c: char) -> (mode: WordMode)
        ensures
            mode == WordMode::of(c),
    {
        if is_lowercase(c) {
            WordMode::Lowercase
        } else if is_uppercase(c) {
            WordMode::Uppercase
        } else if '0' <= c && c <= '9' {
            WordMode::Number
        } else {
            // a character that is neither cased nor a digit separates words
            WordMode::Boundary
        }
    }
}

/// The classes of the characters of `text`.
pub open spec fn modes_of(text: Seq<char>) -> Seq<WordMode> {
    text.map_values(|c: char| WordMode::of(c))
}

/// Whether a word ends with the character whose class is `modes[i]`.
///
/// A word never holds a boundary character. It ends at the end of the text,
/// before a boundary character, between a letter and a digit, between a
/// lowercase and an uppercase letter, and before the last capital of a run of
/// capitals that a lowercase letter follows.
pub open spec fn ends_word(modes: Seq<WordMode>, i: int) -> bool {
    let cur = modes[i];
    cur != WordMode::Boundary && (i + 1 >= modes.len() || {
        let next = modes[i + 1];
        ||| next == WordMode::Boundary
        ||| (cur != WordMode::Number && next == WordMode::Number)
        ||| (cur == WordMode::Number && next != WordMode::Number)
        ||| (cur == WordMode::Lowercase && next == WordMode::Uppercase)
        ||| (cur == WordMode::Uppercase && next == WordMode::Uppercase && i + 2 < modes.len()
            && modes[i + 2] == WordMode::Lowercase)
    })
}

/// Index of the first character of the word that the character with index `i`
/// belongs to, or would belong to if it is no boundary character.
pub open spec fn word_start(modes: Seq<WordMode>, i: int) -> int
    decreases i,
{
    if i <= 0 || modes[i - 1] == WordMode::Boundary || ends_word(modes, i - 1) {
        i
    } else {
        word_start(modes, i - 1)
    }
}

/// The words that end within the first `n` characters, each as the index of
/// its first character and the index just past its last.
pub open spec fn word_spans(modes: Seq<WordMode>, n: int) -> Seq<(int, int)>
    decreases n,
{
    if n <= 0 {
        Seq::empty()
    } else if ends_word(modes, n - 1) {
        word_spans(modes, n - 1).push((word_start(modes, n - 1), n))
    } else {
        word_spans(modes, n - 1)
    }
}

/// Spans of indices as the contracts count them.
pub open spec fn as_ints(spans: Seq<(usize, usize)>) -> Seq<(int, int)> {
    spans.map_values(|span: (usize, usize)| (span.0 as int, span.1 as int))
}

/// From the start of its word up to a character, no character is a boundary
/// and none of them ends a word.
pub proof fn lemma_word_start(modes: Seq<WordMode>, i: int)
    requires
        0 <= i <= modes.len(),
    ensures
        0 <= word_start(modes, i) <= i,
        forall|j: int|
            word_start(modes, i) <= j < i ==> #[trigger] modes[j] != WordMode::Boundary
                && !ends_word(modes, j),
    decreases i,
{
    if i <= 0 || modes[i - 1] == WordMode::Boundary || ends_word(modes, i - 1) {
    } else {
        lemma_word_start(modes, i - 1);
    }
}

/// The capital at `k` follows a capital and precedes a lowercase letter: the
/// word before it ends, which shows only once the letter after it is seen.
spec fn pending(modes: Seq<WordMode>, k: int) -> bool {
    &&& 1 <= k
    &&& k + 1 < modes.len()
    &&& modes[k - 1] == WordMode::Uppercase
    &&& modes[k] == WordMode::Uppercase
    &&& modes[k + 1] == WordMode::Lowercase
}

/// Finds the words in a run of character classes. Each word comes as the index
/// of its first character and the index just past its last.
pub fn split_modes(modes: &[WordMode]) -> (spans: Vec<(usize, usize)>)
    ensures
        as_ints(spans@) == word_spans(modes@, modes@.len() as int),
        forall|k: int| 0 <= k < spans@.len() ==> (#[trigger] spans@[k]).0 < spans@[k].1 <= modes@.len(),
{
    let mut spans: Vec<(usize, usize)> = Vec::new();
    let mut start: usize = 0;
    let mut start_mode = WordMode::Boundary;
    let mut i: usize = 0;
    assert(as_ints(spans@) =~= Seq::<(int, int)>::empty());
    while i < modes.len()
        invariant
            start <= i <= modes.len(),
            start_mode == WordMode::Uppercase ==> 1 <= i && modes@[i - 1] == WordMode::Uppercase,
            1 <= i < modes@.len() && modes@[i - 1] == WordMode::Uppercase && modes@[i as int]
                == WordMode::Uppercase ==> start_mode == WordMode::Uppercase,
            i < modes@.len() && modes@[i as int] == WordMode::Boundary ==> start_mode
                == WordMode::Boundary,
            as_ints(spans@) == word_spans(
                modes@,
                if pending(modes@, i as int) {
                    i - 1
                } else {
                    i as int
                },
            ),
            start == word_start(
                modes@,
                if pending(modes@, i as int) {
                    i - 1
                } else {
                    i as int
                },
            ),
            forall|k: int| 0 <= k < spans@.len() ==> (#[trigger] spans@[k]).0 < spans@[k].1 <= i,
        decreases modes.len() - i,
    {
        let cur_mode = modes[i];
        let ghost before = as_ints(spans@);
        proof {
            lemma_word_start(modes@, i as int);
            if i > 0 {
                lemma_word_start(modes@, i - 1);
            }
        }
        if cur_mode == WordMode::Boundary {
            if start == i {
                start += 1;
            }
        } else if i + 1 < modes.len() {
            let next_mode = modes[i + 1];
            match (start_mode, cur_mode, next_mode) {
                // the current character is the last of its word
                (_, _, WordMode::Boundary)
                | (_, WordMode::Lowercase, WordMode::Number)
                | (_, WordMode::Uppercase, WordMode::Number)
                | (_, WordMode::Number, WordMode::Lowercase)
                | (_, WordMode::Number, WordMode::Uppercase)
                | (_, WordMode::Lowercase, WordMode::Uppercase) => {
                    spans.push((start, i + 1));
                    assert(as_ints(spans@) =~= before.push((start as int, i + 1)));
                    start = i + 1;
                    start_mode = WordMode::Boundary;
                },
                // the current character is the first of the next word
                (WordMode::Uppercase, WordMode::Uppercase, WordMode::Lowercase) => {
                    spans.push((start, i));
                    assert(as_ints(spans@) =~= before.push((start as int, i as int)));
                    assert(word_spans(modes@, i as int) == word_spans(modes@, i - 1).push(
                        (word_start(modes@, i - 1), i as int),
                    ));
                    start = i;
                    start_mode = WordMode::Boundary;
                },
                // no word ends here
                (_, _, _) => {
                    start_mode = cur_mode;
                },
            }
        } else {
            // the trailing characters form the last word
            spans.push((start, i + 1));
            assert(as_ints(spans@) =~= before.push((start as int, i + 1)));
            start = i + 1;
            start_mode = WordMode::Boundary;
        }
        i += 1;
    }
    spans
}

} // verus!
