//! Scanning a buffer line by line for symbols to correct.

use vstd::prelude::*;
use crate::text::chars_of;
use crate::pattern::{regex_compiles, SYMBOL_PATTERN};
use crate::tokens::{in_order, symbols_in, Symbol, SymbolPattern, TokenView};

verus! {

/// The byte that ends a line.
pub const LINE_TERMINATOR: u8 = 0x0A;

/// Index of the first byte of the line that the byte with index `i` lies in.
pub open spec fn line_start(buffer: Seq<u8>, terminator: u8, i: int) -> int
    decreases i,
{
    if i <= 0 || buffer[i - 1] == terminator {
        i
    } else {
        line_start(buffer, terminator, i - 1)
    }
}

/// The lines that end within the first `n` bytes of `buffer`, each as the index
/// of its first byte and the index just past its last. A line ends with its
/// terminator, which belongs to it, or with the buffer.
pub open spec fn line_spans(buffer: Seq<u8>, terminator: u8, n: int) -> Seq<(int, int)>
    decreases n,
{
    if n <= 0 {
        Seq::empty()
    } else if buffer[n - 1] == terminator || n == buffer.len() {
        line_spans(buffer, terminator, n - 1).push((line_start(buffer, terminator, n - 1), n))
    } else {
        line_spans(buffer, terminator, n - 1)
    }
}

/// The lines of `buffer`, terminators included.
pub open spec fn lines_of(buffer: Seq<u8>, terminator: u8) -> Seq<Seq<u8>> {
    line_spans(buffer, terminator, buffer.len() as int).map_values(
        |span: (int, int)| buffer.subrange(span.0, span.1),
    )
}

/// The given lines, one after the other.
pub open spec fn concat(lines: Seq<Seq<u8>>) -> Seq<u8>
    decreases lines.len(),
{
    if lines.len() == 0 {
        Seq::empty()
    } else {
        concat(lines.drop_last()) + lines.last()
    }
}

/// The lines that end within a prefix make up the buffer as far as the line
/// still open at the end of the prefix.
proof fn lemma_lines_prefix(buffer: Seq<u8>, terminator: u8, n: int)
    requires
        0 <= n <= buffer.len(),
    ensures
        0 <= line_start(buffer, terminator, n) <= n,
        concat(
            line_spans(buffer, terminator, n).map_values(
                |span: (int, int)| buffer.subrange(span.0, span.1),
            ),
        ) == buffer.take(
            if n == buffer.len() {
                n
            } else {
                line_start(buffer, terminator, n)
            },
        ),
        forall|k: int|
            0 <= k < line_spans(buffer, terminator, n).len() ==> {
                let span = #[trigger] line_spans(buffer, terminator, n)[k];
                &&& 0 <= span.0 < span.1 <= n
                &&& forall|j: int| span.0 <= j < span.1 - 1 ==> buffer[j] != terminator
                &&& span.1 < buffer.len() ==> buffer[span.1 - 1] == terminator
            },
    decreases n,
{
    let cut = |span: (int, int)| buffer.subrange(span.0, span.1);
    if n <= 0 {
        assert(buffer.take(0) =~= Seq::<u8>::empty());
        assert(line_spans(buffer, terminator, n).map_values(cut) =~= Seq::<Seq<u8>>::empty());
    } else {
        lemma_lines_prefix(buffer, terminator, n - 1);
        lemma_line_start(buffer, terminator, n - 1);
        lemma_line_start(buffer, terminator, n);
        let before = line_spans(buffer, terminator, n - 1);
        let start = line_start(buffer, terminator, n - 1);
        if buffer[n - 1] == terminator || n == buffer.len() {
            let now = line_spans(buffer, terminator, n);
            assert(now == before.push((start, n)));
            assert(now.map_values(cut) =~= before.map_values(cut).push(buffer.subrange(start, n)));
            assert(now.map_values(cut).drop_last() =~= before.map_values(cut));
            assert(buffer.take(n) =~= buffer.take(start) + buffer.subrange(start, n));
        }
    }
}

/// From the start of its line up to a byte, no byte is a terminator.
proof fn lemma_line_start(buffer: Seq<u8>, terminator: u8, i: int)
    requires
        0 <= i <= buffer.len(),
    ensures
        0 <= line_start(buffer, terminator, i) <= i,
        forall|j: int| line_start(buffer, terminator, i) <= j < i ==> buffer[j] != terminator,
    decreases i,
{
    if i <= 0 || buffer[i - 1] == terminator {
    } else {
        lemma_line_start(buffer, terminator, i - 1);
    }
}

/// Cutting a buffer into lines loses nothing: the lines, one after the other,
/// are the buffer. No line is empty, a terminator stands only at the end of a
/// line, and only the last line can do without one.
pub proof fn lemma_lines_cover(buffer: Seq<u8>, terminator: u8)
    ensures
        concat(lines_of(buffer, terminator)) == buffer,
        forall|k: int|
            0 <= k < lines_of(buffer, terminator).len() ==> {
                let line = #[trigger] lines_of(buffer, terminator)[k];
                &&& line.len() > 0
                &&& forall|j: int| 0 <= j < line.len() - 1 ==> line[j] != terminator
                &&& k < lines_of(buffer, terminator).len() - 1 ==> line.last() == terminator
            },
{
    let n = buffer.len() as int;
    let spans = line_spans(buffer, terminator, n);
    lemma_lines_prefix(buffer, terminator, n);
    assert(buffer.take(n) =~= buffer);
    assert forall|k: int| 0 <= k < spans.len() - 1 implies (#[trigger] spans[k]).1 < n by {
        lemma_line_ends_differ(buffer, terminator, n, k, spans.len() - 1);
    }
}

/// Lines that end within a prefix end one after the other.
proof fn lemma_line_ends_differ(buffer: Seq<u8>, terminator: u8, n: int, a: int, b: int)
    requires
        0 <= n <= buffer.len(),
        0 <= a < b < line_spans(buffer, terminator, n).len(),
    ensures
        line_spans(buffer, terminator, n)[a].1 < line_spans(buffer, terminator, n)[b].1 <= n,
    decreases n,
{
    if n > 0 {
        let before = line_spans(buffer, terminator, n - 1);
        if b < before.len() {
            lemma_line_ends_differ(buffer, terminator, n - 1, a, b);
        } else {
            lemma_lines_prefix(buffer, terminator, n - 1);
        }
    }
}

/// Collects what `grep_searcher::LineIter` yields for `buffer`: its lines in
/// order, none of them empty, each with the terminator that ends it, the last
/// one without if the buffer does not end with a terminator.
#[verifier::external_body]
fn split_lines<'b>(terminator: u8, buffer: &'b [u8]) -> (lines: Vec<&'b [u8]>)
    ensures
        lines@.len() == lines_of(buffer@, terminator).len(),
        forall|i: int|
            0 <= i < lines@.len() ==> (#[trigger] lines@[i])@ == lines_of(buffer@, terminator)[i],
{
    grep_searcher::LineIter::new(terminator, buffer).collect()
}

/// A symbol together with the line that it was found in.
#[derive(Debug, Clone, Copy, PartialEq, Eq)]
pub struct Candidate<'m> {
    /// The whole line, with its terminator.
    pub line: &'m [u8],
    /// Number of the line, the first being 1.
    pub line_num: usize,
    /// The symbol; its offset counts from the start of the line.
    pub symbol: Symbol<'m>,
}

/// A candidate as the contracts see it.
pub struct CandidateView {
    pub line: Seq<u8>,
    pub line_num: nat,
    pub symbol: TokenView,
}

impl<'m> View for Candidate<'m> {
    type V = CandidateView;

    open spec fn view(&self) -> CandidateView {
        CandidateView { line: self.line@, line_num: self.line_num as nat, symbol: self.symbol@ }
    }
}

impl<'m> DeepView for Candidate<'m> {
    type V = CandidateView;

    open spec fn deep_view(&self) -> CandidateView {
        self@
    }
}

/// The candidates of one line: its symbols, in order.
pub open spec fn line_candidates(line: Seq<u8>, line_num: nat) -> Seq<CandidateView> {
    symbols_in(line).map_values(|symbol: TokenView| CandidateView { line, line_num, symbol })
}

/// The candidates of the first `n` of the given lines.
pub open spec fn candidates_upto(lines: Seq<Seq<u8>>, n: int) -> Seq<CandidateView>
    decreases n,
{
    if n <= 0 {
        Seq::empty()
    } else {
        candidates_upto(lines, n - 1) + line_candidates(lines[n - 1], n as nat)
    }
}

/// The candidates of a buffer: the symbols of each of its lines, from the
/// first line to the last.
pub open spec fn candidates_in(buffer: Seq<u8>) -> Seq<CandidateView> {
    let lines = lines_of(buffer, LINE_TERMINATOR);
    candidates_upto(lines, lines.len() as int)
}

/// Candidates come top to bottom and, within a line, left to right.
pub open spec fn reading_order(candidates: Seq<CandidateView>) -> bool {
    forall|i: int, j: int|
        0 <= i < j < candidates.len() ==> {
            let a = #[trigger] candidates[i];
            let b = #[trigger] candidates[j];
            a.line_num < b.line_num || (a.line_num == b.line_num && a.symbol.offset
                < b.symbol.offset && a.symbol.end() <= b.symbol.offset)
        }
}

/// The symbols of every line of `buffer`, each with its line.
pub fn candidates<'m>(buffer: &'m [u8]) -> (found: Vec<Candidate<'m>>)
    ensures
        found.deep_view() == candidates_in(buffer@),
        reading_order(found.deep_view()),
        forall|i: int|
            0 <= i < found.len() ==> 1 <= (#[trigger] found[i]).line_num && found[i]@.symbol.end()
                <= found[i].line@.len(),
{
    let pattern = SymbolPattern::compile();
    let lines = split_lines(LINE_TERMINATOR, buffer);
    let ghost texts = lines_of(buffer@, LINE_TERMINATOR);
    let mut found: Vec<Candidate<'m>> = Vec::new();
    let mut line_idx: usize = 0;
    while line_idx < lines.len()
        invariant
            line_idx <= lines.len(),
            lines@.len() == texts.len(),
            forall|i: int| 0 <= i < lines@.len() ==> (#[trigger] lines@[i])@ == texts[i],
            pattern.is_some() == regex_compiles(SYMBOL_PATTERN@),
            found.deep_view() == candidates_upto(texts, line_idx as int),
            reading_order(found.deep_view()),
            forall|i: int|
                0 <= i < found.len() ==> 1 <= (#[trigger] found[i]).line_num <= line_idx
                    && found[i]@.symbol.end() <= found[i].line@.len(),
        decreases lines.len() - line_idx,
    {
        let line = lines[line_idx];
        let line_num = line_idx + 1;
        let symbols: Vec<Symbol<'m>> = match &pattern {
            Some(pattern) => pattern.find(line),
            None => Vec::new(),
        };
        let ghost before = found.deep_view();
        let mut k: usize = 0;
        while k < symbols.len()
            invariant
                k <= symbols.len(),
                line_idx < lines.len(),
                line_num == line_idx + 1,
                line@ == texts[line_idx as int],
                symbols.deep_view() == symbols_in(line@),
                in_order(symbols.deep_view()),
                forall|i: int|
                    0 <= i < symbols.len() ==> (#[trigger] symbols[i])@.end() <= line@.len(),
                found.deep_view() == before + line_candidates(line@, line_num as nat).take(
                    k as int,
                ),
                reading_order(found.deep_view()),
                forall|i: int|
                    0 <= i < found.len() ==> 1 <= (#[trigger] found[i]).line_num <= line_num
                        && found[i]@.symbol.end() <= found[i].line@.len(),
                forall|i: int|
                    0 <= i < before.len() ==> (#[trigger] found.deep_view()[i]).line_num
                        < line_num,
                found.len() == before.len() + k,
            decreases symbols.len() - k,
        {
            let candidate = Candidate { line, line_num, symbol: symbols[k] };
            let ghost sofar = found.deep_view();
            found.push(candidate);
            proof {
                let here = line_candidates(line@, line_num as nat);
                assert(symbols.deep_view()[k as int] == symbols[k as int]@);
                assert(here[k as int] == candidate@);
                assert(here.take(k + 1) =~= here.take(k as int).push(candidate@));
                assert(found.deep_view() =~= sofar.push(candidate@));
                assert forall|i: int, j: int| 0 <= i < j < found.len() implies {
                    let a = #[trigger] found.deep_view()[i];
                    let b = #[trigger] found.deep_view()[j];
                    a.line_num < b.line_num || (a.line_num == b.line_num && a.symbol.offset
                        < b.symbol.offset && a.symbol.end() <= b.symbol.offset)
                } by {
                    if j < found.len() - 1 {
                        assert(sofar[i] == found.deep_view()[i]);
                        assert(sofar[j] == found.deep_view()[j]);
                    } else if i >= before.len() {
                        let at = i - before.len();
                        assert(sofar[i] == here[at]);
                        assert(symbols.deep_view()[at] == symbols[at]@);
                    } else {
                        assert(sofar[i] == found.deep_view()[i]);
                    }
                }
            }
            k += 1;
        }
        proof {
            let here = line_candidates(line@, line_num as nat);
            assert(here.take(symbols.len() as int) =~= here);
        }
        line_idx += 1;
    }
    found
}

/// A correction to report: where the symbol stands and what to put in its place.
#[derive(Debug, Clone, PartialEq, Eq)]
pub struct Message<'m> {
    /// The whole line, with its terminator.
    pub line: &'m [u8],
    /// Number of the line, the first being 1.
    pub line_num: usize,
    /// Byte offset of the symbol in its line.
    pub col_num: usize,
    /// The symbol as it is written.
    pub word: &'m str,
    /// What it should be.
    pub correction: String,
}

/// A message as the contracts see it.
pub struct MessageView {
    pub line: Seq<u8>,
    pub line_num: nat,
    pub col_num: nat,
    pub word: Seq<char>,
    pub correction: Seq<char>,
}

impl<'m> View for Message<'m> {
    type V = MessageView;

    open spec fn view(&self) -> MessageView {
        MessageView {
            line: self.line@,
            line_num: self.line_num as nat,
            col_num: self.col_num as nat,
            word: self.word@,
            correction: self.correction@,
        }
    }
}

impl<'m> DeepView for Message<'m> {
    type V = MessageView;

    open spec fn deep_view(&self) -> MessageView {
        self@
    }
}

/// The message that reports `correction` for `candidate`.
pub open spec fn message_for(candidate: CandidateView, correction: Seq<char>) -> MessageView {
    MessageView {
        line: candidate.line,
        line_num: candidate.line_num,
        col_num: candidate.symbol.offset,
        word: candidate.symbol.text,
        correction,
    }
}

/// The messages for the first `n` candidates, given the answer for each: one
/// message for each candidate that has a correction, in the candidates' order.
pub open spec fn messages_upto(
    candidates: Seq<CandidateView>,
    answers: Seq<Option<Seq<char>>>,
    n: int,
) -> Seq<MessageView>
    decreases n,
{
    if n <= 0 {
        Seq::empty()
    } else {
        match answers[n - 1] {
            Some(correction) => messages_upto(candidates, answers, n - 1).push(
                message_for(candidates[n - 1], correction),
            ),
            None => messages_upto(candidates, answers, n - 1),
        }
    }
}

/// The messages for all candidates, given the answer for each.
pub open spec fn messages_for(
    candidates: Seq<CandidateView>,
    answers: Seq<Option<Seq<char>>>,
) -> Seq<MessageView> {
    messages_upto(candidates, answers, candidates.len() as int)
}

/// Messages come top to bottom and, within a line, left to right.
pub open spec fn message_order(messages: Seq<MessageView>) -> bool {
    forall|i: int, j: int|
        0 <= i < j < messages.len() ==> {
            let a = #[trigger] messages[i];
            let b = #[trigger] messages[j];
            a.line_num < b.line_num || (a.line_num == b.line_num && a.col_num < b.col_num)
        }
}

/// Whether `correct` may answer `answer` when it is asked about `word`.
pub open spec fn answers_with<F: Fn(&str) -> Option<String>>(
    correct: F,
    word: Seq<char>,
    answer: Option<Seq<char>>,
) -> bool {
    exists|asked: &str, given: Option<String>|
        asked@ == word && #[trigger] call_ensures(correct, (asked,), given) && answer == chars_of(
            given,
        )
}

/// The message for a candidate, if there is a correction for it.
pub fn report<'m>(candidate: &Candidate<'m>, correction: Option<String>) -> (message: Option<
    Message<'m>,
>)
    ensures
        match correction {
            Some(text) => message.is_some() && message.unwrap()@ == message_for(
                candidate@,
                text@,
            ),
            None => message.is_none(),
        },
{
    match correction {
        Some(correction) => Some(
            Message {
                line: candidate.line,
                line_num: candidate.line_num,
                col_num: candidate.symbol.offset(),
                word: candidate.symbol.token(),
                correction,
            },
        ),
        None => None,
    }
}

/// Asks `correct` about every symbol of `buffer`, whole, line by line, and
/// collects a message for each correction that it gives.
pub fn process_buffer<'m, F: Fn(&str) -> Option<String>>(buffer: &'m [u8], correct: F) -> (messages:
    Vec<Message<'m>>)
    requires
        forall|word: &str| call_requires(correct, (word,)),
    ensures
        exists|answers: Seq<Option<Seq<char>>>|
            {
                &&& answers.len() == candidates_in(buffer@).len()
                &&& forall|i: int|
                    0 <= i < answers.len() ==> answers_with(
                        correct,
                        candidates_in(buffer@)[i].symbol.text,
                        #[trigger] answers[i],
                    )
                &&& messages.deep_view() == messages_for(candidates_in(buffer@), answers)
            },
        message_order(messages.deep_view()),
{
    let found = candidates(buffer);
    let ghost all = candidates_in(buffer@);
    let ghost mut answers: Seq<Option<Seq<char>>> = Seq::empty();
    let mut messages: Vec<Message<'m>> = Vec::new();
    let mut i: usize = 0;
    while i < found.len()
        invariant
            i <= found.len(),
            found.deep_view() == all,
            forall|word: &str| call_requires(correct, (word,)),
            answers.len() == i,
            forall|k: int|
                0 <= k < i ==> answers_with(correct, all[k].symbol.text, #[trigger] answers[k]),
            messages.deep_view() == messages_upto(all, answers, i as int),
        decreases found.len() - i,
    {
        let candidate = found[i];
        let word = candidate.symbol.token();
        let given = correct(word);
        let ghost answer = chars_of(given);
        let ghost before = messages.deep_view();
        let ghost sofar = answers;
        proof {
            assert(found.deep_view()[i as int] == candidate@);
            assert(answers_with(correct, all[i as int].symbol.text, answer)) by {
                assert(call_ensures(correct, (word,), given));
            }
            answers = answers.push(answer);
            lemma_messages_prefix(all, sofar, answers, i as int);
        }
        match report(&candidate, given) {
            Some(message) => {
                messages.push(message);
                assert(messages.deep_view() =~= before.push(message@));
            },
            None => {},
        }
        i += 1;
    }
    proof {
        assert(messages.deep_view() == messages_for(all, answers));
        lemma_messages_in_order(all, answers, all.len() as int);
    }
    messages
}

/// Whether `message` reports one of the first `n` candidates with the
/// correction given for it.
pub open spec fn reports_one(
    message: MessageView,
    candidates: Seq<CandidateView>,
    answers: Seq<Option<Seq<char>>>,
    n: int,
) -> bool {
    exists|m: int|
        0 <= m < n && (#[trigger] answers[m]) is Some && message == message_for(
            candidates[m],
            answers[m]->0,
        )
}

/// The messages for candidates in reading order are in reading order, and each
/// of them reports one of the candidates.
pub proof fn lemma_messages_in_order(
    candidates: Seq<CandidateView>,
    answers: Seq<Option<Seq<char>>>,
    n: int,
)
    requires
        reading_order(candidates),
        0 <= n <= candidates.len(),
        answers.len() == candidates.len(),
    ensures
        message_order(messages_upto(candidates, answers, n)),
        forall|k: int|
            0 <= k < messages_upto(candidates, answers, n).len() ==> reports_one(
                #[trigger] messages_upto(candidates, answers, n)[k],
                candidates,
                answers,
                n,
            ),
    decreases n,
{
    if n > 0 {
        lemma_messages_in_order(candidates, answers, n - 1);
        let before = messages_upto(candidates, answers, n - 1);
        let all = messages_upto(candidates, answers, n);
        assert forall|k: int| 0 <= k < before.len() implies reports_one(
            #[trigger] before[k],
            candidates,
            answers,
            n,
        ) by {
            assert(reports_one(before[k], candidates, answers, n - 1));
        }
        match answers[n - 1] {
            Some(correction) => {
                let last = message_for(candidates[n - 1], correction);
                assert(all == before.push(last));
                assert(reports_one(last, candidates, answers, n));
                assert forall|i: int, j: int| 0 <= i < j < all.len() implies {
                    let a = #[trigger] all[i];
                    let b = #[trigger] all[j];
                    a.line_num < b.line_num || (a.line_num == b.line_num && a.col_num < b.col_num)
                } by {
                    if j < before.len() {
                        assert(before[i] == all[i] && before[j] == all[j]);
                    } else {
                        assert(reports_one(before[i], candidates, answers, n - 1));
                        let m = choose|m: int|
                            0 <= m < n - 1 && (#[trigger] answers[m]) is Some && before[i]
                                == message_for(candidates[m], answers[m]->0);
                        assert(candidates[m].line_num < candidates[n - 1].line_num || (
                        candidates[m].line_num == candidates[n - 1].line_num
                            && candidates[m].symbol.offset < candidates[n - 1].symbol.offset));
                    }
                }
            },
            None => {},
        }
    }
}

/// The messages for the first `n` candidates depend on the first `n` answers
/// only.
proof fn lemma_messages_prefix(
    candidates: Seq<CandidateView>,
    a: Seq<Option<Seq<char>>>,
    b: Seq<Option<Seq<char>>>,
    n: int,
)
    requires
        0 <= n <= a.len() <= b.len(),
        forall|k: int| 0 <= k < n ==> a[k] == b[k],
    ensures
        messages_upto(candidates, a, n) == messages_upto(candidates, b, n),
    decreases n,
{
    if n > 0 {
        lemma_messages_prefix(candidates, a, b, n - 1);
    }
}

} // verus!
