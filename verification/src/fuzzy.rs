//! Fuzzy similarity of terms: overlap of character pairs (Dice coefficient)
//! combined with a length ratio. Scores are exact fractions.

use vstd::prelude::*;
use crate::text::{
    alphanumeric_mask, chars_equal, collect_word_spans, contains, contains_chars, copy_range,
    lower_whole, runs, text_lowercase, to_chars, views, Span,
};

verus! {

/// Terms with fewer characters are never matched fuzzily.
pub const FUZZY_QUERY_TERM_MIN_CHARS: usize = 4;

/// Terms with more characters are never matched fuzzily: their scores would
/// not fit the integers that hold them.
pub const FUZZY_QUERY_TERM_MAX_CHARS: usize = 0x40_0000;

/// Longest text that can be scored against another.
pub const FUZZY_SCORED_MAX_CHARS: usize = 0x80_0000;

/// A similarity as the fraction `num / den`.
#[derive(Clone, Copy, Debug)]
pub struct Score {
    pub num: u64,
    pub den: u64,
}

impl Score {
    /// A fraction as the scorer produces it.
    pub open spec fn is_plain(self) -> bool {
        0 < self.den <= 0x40_0000_0000_0000 && self.num <= 0x40_0000_0000_0000
    }

    /// A fraction whose parts are small enough to be compared exactly.
    pub open spec fn wf(self) -> bool {
        0 < self.den <= 0x2000_0000_0000_0000 && self.num <= 0x2000_0000_0000_0000
    }

    /// `self >= other` as fractions.
    pub open spec fn at_least(self, other: Score) -> bool {
        self.num * other.den >= other.num * self.den
    }

    /// `self > other` as fractions.
    pub open spec fn above(self, other: Score) -> bool {
        self.num * other.den > other.num * self.den
    }

    /// `self == other` as fractions.
    pub open spec fn same_value(self, other: Score) -> bool {
        self.num * other.den == other.num * self.den
    }

    /// The fraction multiplied by `percent / 100`.
    pub open spec fn scaled_by(self, percent: u64) -> Score {
        Score { num: (self.num * percent) as u64, den: (self.den * 100) as u64 }
    }

    /// Tells whether this fraction is at least the other.
    pub fn is_at_least(&self, other: &Score) -> (b: bool)
        requires
            self.wf(),
            other.wf(),
        ensures
            b == self.at_least(*other),
    {
        let a: u128 = self.num as u128;
        let b: u128 = other.den as u128;
        let c: u128 = other.num as u128;
        let d: u128 = self.den as u128;
        assert(a * b <= 0x2000_0000_0000_0000 * 0x2000_0000_0000_0000) by (nonlinear_arith)
            requires
                a <= 0x2000_0000_0000_0000,
                b <= 0x2000_0000_0000_0000,
        ;
        assert(c * d <= 0x2000_0000_0000_0000 * 0x2000_0000_0000_0000) by (nonlinear_arith)
            requires
                c <= 0x2000_0000_0000_0000,
                d <= 0x2000_0000_0000_0000,
        ;
        a * b >= c * d
    }

    /// Tells whether this fraction is above the other.
    pub fn is_above(&self, other: &Score) -> (b: bool)
        requires
            self.wf(),
            other.wf(),
        ensures
            b == self.above(*other),
    {
        let a: u128 = self.num as u128;
        let b: u128 = other.den as u128;
        let c: u128 = other.num as u128;
        let d: u128 = self.den as u128;
        assert(a * b <= 0x2000_0000_0000_0000 * 0x2000_0000_0000_0000) by (nonlinear_arith)
            requires
                a <= 0x2000_0000_0000_0000,
                b <= 0x2000_0000_0000_0000,
        ;
        assert(c * d <= 0x2000_0000_0000_0000 * 0x2000_0000_0000_0000) by (nonlinear_arith)
            requires
                c <= 0x2000_0000_0000_0000,
                d <= 0x2000_0000_0000_0000,
        ;
        a * b > c * d
    }

    /// Multiplies the fraction by `percent / 100`.
    pub fn scaled(&self, percent: u64) -> (out: Score)
        requires
            self.is_plain(),
            percent <= 128,
        ensures
            out == self.scaled_by(percent),
            out.wf(),
    {
        let n: u64 = self.num;
        let d: u64 = self.den;
        assert(n * percent <= 0x2000_0000_0000_0000) by (nonlinear_arith)
            requires
                n <= 0x40_0000_0000_0000,
                percent <= 128,
        ;
        Score { num: n * percent, den: d * 100 }
    }

    /// Whether the score reaches the acceptance threshold.
    pub fn is_accepted(&self) -> (b: bool)
        requires
            self.wf(),
        ensures
            b == self.at_least(threshold()),
    {
        let t = Score { num: 62, den: 100 };
        self.is_at_least(&t)
    }
}

/// The score below which a fuzzy match is discarded: 0.62.
pub open spec fn threshold() -> Score {
    Score { num: 62, den: 100 }
}

/// The score of texts that have nothing in common.
pub open spec fn zero_score() -> Score {
    Score { num: 0, den: 1 }
}

/// Two lengths are close enough for their texts to be compared.
pub open spec fn lengths_compatible(left: int, right: int) -> bool {
    if left <= right {
        left * 2 >= right
    } else {
        right * 2 >= left
    }
}

/// Tells whether two lengths are close enough for their texts to be
/// compared: the shorter is at least half the longer.
pub fn lengths_are_fuzzy_compatible(left: usize, right: usize) -> (b: bool)
    ensures
        b == lengths_compatible(left as int, right as int),
{
    let max_len: usize = if left >= right { left } else { right };
    let min_len: usize = if left >= right { right } else { left };
    if min_len > usize::MAX / 2 {
        true
    } else {
        min_len * 2 >= max_len
    }
}

/// The pair of characters at positions `i` and `i + 1`.
pub open spec fn bigram_at(s: Seq<char>, i: int) -> (char, char) {
    (s[i], s[i + 1])
}

/// How many of the first `upto` character pairs of `s` equal `b`.
pub open spec fn count_bigram(s: Seq<char>, b: (char, char), upto: int) -> nat
    decreases upto,
{
    if upto <= 0 {
        0
    } else {
        count_bigram(s, b, upto - 1) + if bigram_at(s, upto - 1) == b {
            1nat
        } else {
            0nat
        }
    }
}

/// Size of the multiset intersection of the character pairs of `right` with
/// the first `upto` character pairs of `left`: a pair of `left` counts while
/// `right` holds more copies of it than `left` has shown before.
pub open spec fn shared_bigrams(left: Seq<char>, right: Seq<char>, upto: int) -> nat
    decreases upto,
{
    if upto <= 0 {
        0
    } else {
        let b = bigram_at(left, upto - 1);
        shared_bigrams(left, right, upto - 1) + if count_bigram(left, b, upto - 1) < count_bigram(
            right,
            b,
            right.len() - 1,
        ) {
            1nat
        } else {
            0nat
        }
    }
}

/// The similarity of two texts: 1 for equal texts and 0.96 where one holds
/// the other; 0 where a text is empty or, these cases aside, has a single
/// character; else 0.85 of the Dice coefficient of their character pairs,
/// which is twice the number of shared pairs over the number of all pairs,
/// plus 0.15 of the ratio of the shorter length to the longer, as one
/// fraction.
pub open spec fn similarity(query: Seq<char>, candidate: Seq<char>) -> Score {
    let short = if query.len() <= candidate.len() { query.len() } else { candidate.len() };
    let long = if query.len() <= candidate.len() { candidate.len() } else { query.len() };
    let total = query.len() + candidate.len() - 2;
    let shared = shared_bigrams(query, candidate, query.len() - 1);
    if query.len() == 0 || candidate.len() == 0 {
        zero_score()
    } else if query == candidate {
        Score { num: 1, den: 1 }
    } else if contains(candidate, query) || contains(query, candidate) {
        Score { num: 96, den: 100 }
    } else if short == 1 {
        zero_score()
    } else {
        Score {
            num: (170 * shared * long + 15 * short * total) as u64,
            den: (100 * total * long) as u64,
        }
    }
}

fn count_pairs(s: &Vec<char>, a: char, b: char, upto: usize) -> (n: usize)
    requires
        upto < s.len(),
    ensures
        n == count_bigram(s@, (a, b), upto as int),
        n <= upto,
{
    let mut n: usize = 0;
    let mut i: usize = 0;
    while i < upto
        invariant
            i <= upto < s.len(),
            n <= i,
            n == count_bigram(s@, (a, b), i as int),
        decreases upto - i,
    {
        if s[i] == a && s[i + 1] == b {
            n += 1;
        }
        i += 1;
    }
    n
}

/// Counts the character pairs that two texts share, with multiplicity.
pub fn shared_bigram_count(left: &Vec<char>, right: &Vec<char>) -> (n: usize)
    requires
        left.len() >= 1,
        right.len() >= 1,
    ensures
        n == shared_bigrams(left@, right@, left.len() - 1),
        n <= left.len() - 1,
{
    let mut n: usize = 0;
    let mut i: usize = 0;
    while i + 1 < left.len()
        invariant
            i <= left.len() - 1,
            right.len() >= 1,
            n <= i,
            n == shared_bigrams(left@, right@, i as int),
        decreases left.len() - i,
    {
        let a = left[i];
        let b = left[i + 1];
        let seen = count_pairs(left, a, b, i);
        let offered = count_pairs(right, a, b, right.len() - 1);
        if seen < offered {
            n += 1;
        }
        i += 1;
    }
    n
}

/// Scores `candidate` against `query`.
pub fn similarity_of(query: &Vec<char>, candidate: &Vec<char>) -> (s: Score)
    requires
        query.len() <= FUZZY_SCORED_MAX_CHARS,
        candidate.len() <= FUZZY_SCORED_MAX_CHARS,
    ensures
        s == similarity(query@, candidate@),
        s.is_plain(),
{
    if query.len() == 0 || candidate.len() == 0 {
        return Score { num: 0, den: 1 };
    }
    if chars_equal(query, candidate) {
        return Score { num: 1, den: 1 };
    }
    if contains_chars(candidate, query) || contains_chars(query, candidate) {
        return Score { num: 96, den: 100 };
    }
    let ql: u64 = query.len() as u64;
    let cl: u64 = candidate.len() as u64;
    let short: u64 = if ql <= cl { ql } else { cl };
    let long: u64 = if ql <= cl { cl } else { ql };
    if short == 1 {
        return Score { num: 0, den: 1 };
    }
    let shared: u64 = shared_bigram_count(query, candidate) as u64;
    let total: u64 = ql + cl - 2;
    assert(170 * shared * long <= 170 * 0x80_0000 * 0x80_0000) by (nonlinear_arith)
        requires
            shared <= 0x80_0000,
            long <= 0x80_0000,
    ;
    assert(15 * short * total <= 15 * 0x80_0000 * 0x100_0000) by (nonlinear_arith)
        requires
            short <= 0x80_0000,
            total <= 0x100_0000,
    ;
    assert(0 < 100 * total * long <= 100 * 0x100_0000 * 0x80_0000) by (nonlinear_arith)
        requires
            2 <= long <= 0x80_0000,
            2 <= total <= 0x100_0000,
    ;
    assert(170 * shared <= 170 * 0x80_0000);
    assert(15 * short <= 15 * 0x80_0000);
    assert(100 * total <= 100 * 0x100_0000);
    Score { num: 170 * shared * long + 15 * short * total, den: 100 * total * long }
}

/// Scores `candidate` against `query`: 1 for equal texts, 0.96 where one
/// holds the other, else 0.85 of the Dice coefficient of their character
/// pairs plus 0.15 of the ratio of their lengths.
pub fn fuzzy_term_similarity(query: &str, candidate: &str) -> (s: Score)
    requires
        query@.len() <= FUZZY_SCORED_MAX_CHARS,
        candidate@.len() <= FUZZY_SCORED_MAX_CHARS,
    ensures
        s == similarity(query@, candidate@),
        s.is_plain(),
{
    let q = to_chars(query);
    let c = to_chars(candidate);
    similarity_of(&q, &c)
}

/// A word of a text that resembles a query term.
#[derive(Clone, Copy, Debug)]
pub struct WordMatch {
    pub start: usize,
    pub end: usize,
    pub score: Score,
}

/// A term that takes part in fuzzy matching.
pub open spec fn term_is_fuzzy(term: Seq<char>) -> bool {
    FUZZY_QUERY_TERM_MIN_CHARS <= term.len() <= FUZZY_QUERY_TERM_MAX_CHARS
}

/// Some term of the list takes part in fuzzy matching.
pub open spec fn has_fuzzy_term(terms: Seq<Seq<char>>) -> bool {
    exists|k: int| 0 <= k < terms.len() && term_is_fuzzy(#[trigger] terms[k])
}

/// The score of a lowercased word against a term, if the pair is accepted.
pub open spec fn pair_score(term: Seq<char>, word: Seq<char>) -> Option<Score> {
    if term_is_fuzzy(term) && word.len() >= FUZZY_QUERY_TERM_MIN_CHARS && lengths_compatible(
        term.len() as int,
        word.len() as int,
    ) && similarity(term, word).at_least(threshold()) {
        Some(similarity(term, word))
    } else {
        None
    }
}

/// The better of the best match so far and a new accepted pair: the new one
/// wins only with a strictly higher score.
pub open spec fn better(best: Option<WordMatch>, span: Span, found: Option<Score>) -> Option<
    WordMatch,
> {
    match found {
        None => best,
        Some(score) => match best {
            None => Some(WordMatch { start: span.start, end: span.end, score }),
            Some(b) => if score.above(b.score) {
                Some(WordMatch { start: span.start, end: span.end, score })
            } else {
                best
            },
        },
    }
}

/// The best match after the terms from `k` on were tried against one word.
pub open spec fn best_over_terms(
    word: Seq<char>,
    span: Span,
    terms: Seq<Seq<char>>,
    k: int,
    best: Option<WordMatch>,
) -> Option<WordMatch>
    decreases terms.len() - k,
{
    if k < 0 || k >= terms.len() {
        best
    } else {
        best_over_terms(word, span, terms, k + 1, better(best, span, pair_score(terms[k], word)))
    }
}

/// The best match after the words from `i` on were tried.
pub open spec fn best_over_spans(
    text: Seq<char>,
    spans: Seq<Span>,
    terms: Seq<Seq<char>>,
    i: int,
    best: Option<WordMatch>,
) -> Option<WordMatch>
    decreases spans.len() - i,
{
    if i < 0 || i >= spans.len() {
        best
    } else {
        let word = text_lowercase(text.subrange(spans[i].start as int, spans[i].end as int));
        best_over_spans(text, spans, terms, i + 1, best_over_terms(word, spans[i], terms, 0, best))
    }
}

/// The word of `text` that scores highest against any of the terms, the
/// earliest such word where several score alike.
pub open spec fn best_word_match(text: Seq<char>, terms: Seq<Seq<char>>) -> Option<WordMatch> {
    best_over_spans(text, runs(alphanumeric_mask(text)), terms, 0, None)
}

/// A pair of characters of `left` counts at most once.
pub proof fn lemma_shared_bigrams_bound(left: Seq<char>, right: Seq<char>, upto: int)
    requires
        0 <= upto,
    ensures
        shared_bigrams(left, right, upto) <= upto,
    decreases upto,
{
    if upto > 0 {
        lemma_shared_bigrams_bound(left, right, upto - 1);
    }
}

/// The similarity of two texts that can be scored is a fraction with a
/// denominator above zero.
pub proof fn lemma_similarity_is_plain(query: Seq<char>, candidate: Seq<char>)
    requires
        query.len() <= FUZZY_SCORED_MAX_CHARS,
        candidate.len() <= FUZZY_SCORED_MAX_CHARS,
    ensures
        similarity(query, candidate).is_plain(),
{
    let short = if query.len() <= candidate.len() { query.len() } else { candidate.len() };
    let long = if query.len() <= candidate.len() { candidate.len() } else { query.len() };
    let total = query.len() + candidate.len() - 2;
    let shared = shared_bigrams(query, candidate, query.len() - 1);
    if query.len() >= 2 && candidate.len() >= 2 {
        lemma_shared_bigrams_bound(query, candidate, query.len() - 1);
        assert(170 * shared * long <= 170 * 0x80_0000 * 0x80_0000) by (nonlinear_arith)
            requires
                0 <= shared <= 0x80_0000,
                0 <= long <= 0x80_0000,
        ;
        assert(15 * short * total <= 15 * 0x80_0000 * 0x100_0000) by (nonlinear_arith)
            requires
                0 <= short <= 0x80_0000,
                0 <= total <= 0x100_0000,
        ;
        assert(0 < 100 * total * long <= 100 * 0x100_0000 * 0x80_0000) by (nonlinear_arith)
            requires
                2 <= long <= 0x80_0000,
                2 <= total <= 0x100_0000,
        ;
        assert(0 <= 170 * shared * long) by (nonlinear_arith)
            requires
                0 <= shared,
                0 <= long,
        ;
        assert(0 <= 15 * short * total) by (nonlinear_arith)
            requires
                0 <= short,
                0 <= total,
        ;
    }
}

/// The order of fractions with denominators above zero is transitive.
pub proof fn lemma_at_least_transitive(a: Score, b: Score, c: Score)
    requires
        a.den > 0,
        b.den > 0,
        c.den > 0,
        a.at_least(b),
        b.at_least(c),
    ensures
        a.at_least(c),
{
    let (an, ad) = (a.num as int, a.den as int);
    let (bn, bd) = (b.num as int, b.den as int);
    let (cn, cd) = (c.num as int, c.den as int);
    assert(an * cd >= cn * ad) by (nonlinear_arith)
        requires
            ad > 0,
            bd > 0,
            cd > 0,
            an >= 0,
            bn >= 0,
            cn >= 0,
            an * bd >= bn * ad,
            bn * cd >= cn * bd,
    {
        assert(an * bd * cd >= bn * ad * cd);
        assert(bn * cd * ad >= cn * bd * ad);
        assert(bn * ad * cd == bn * cd * ad);
        assert(an * cd * bd >= cn * ad * bd);
    }
}

/// A score that a pair of term and word is accepted with has a
/// denominator above zero.
pub proof fn lemma_pair_score_is_plain(term: Seq<char>, word: Seq<char>)
    ensures
        pair_score(term, word) is Some ==> pair_score(term, word)->0.den > 0,
{
    if pair_score(term, word) is Some {
        lemma_similarity_is_plain(term, word);
    }
}

/// The best match so far has a denominator above zero.
pub open spec fn match_scored(m: Option<WordMatch>) -> bool {
    m is Some ==> m->0.score.den > 0
}

proof fn lemma_best_over_terms(
    word: Seq<char>,
    span: Span,
    terms: Seq<Seq<char>>,
    k: int,
    best: Option<WordMatch>,
)
    requires
        0 <= k <= terms.len(),
        match_scored(best),
    ensures
        match_scored(best_over_terms(word, span, terms, k, best)),
        best is Some ==> best_over_terms(word, span, terms, k, best) is Some && best_over_terms(
            word,
            span,
            terms,
            k,
            best,
        )->0.score.at_least(best->0.score),
        forall|j: int|
            k <= j < terms.len() && pair_score(#[trigger] terms[j], word) is Some
                ==> best_over_terms(word, span, terms, k, best) is Some && best_over_terms(
                word,
                span,
                terms,
                k,
                best,
            )->0.score.at_least(pair_score(terms[j], word)->0),
        best_over_terms(word, span, terms, k, best) == best || (best_over_terms(
            word,
            span,
            terms,
            k,
            best,
        ) is Some && best_over_terms(word, span, terms, k, best)->0.start == span.start
            && best_over_terms(word, span, terms, k, best)->0.end == span.end && exists|j: int|
            k <= j < terms.len() && pair_score(#[trigger] terms[j], word) == Some(
                best_over_terms(word, span, terms, k, best)->0.score,
            )),
    decreases terms.len() - k,
{
    if k < terms.len() {
        let found = pair_score(terms[k], word);
        lemma_pair_score_is_plain(terms[k], word);
        let next = better(best, span, found);
        lemma_best_over_terms(word, span, terms, k + 1, next);
        let r = best_over_terms(word, span, terms, k, best);
        assert(r == best_over_terms(word, span, terms, k + 1, next));
        if best is Some {
            lemma_at_least_transitive(r->0.score, next->0.score, best->0.score);
        }
        if found is Some {
            lemma_at_least_transitive(r->0.score, next->0.score, found->0);
        }
        assert forall|j: int|
            k <= j < terms.len() && pair_score(#[trigger] terms[j], word) is Some implies r is Some
            && r->0.score.at_least(pair_score(terms[j], word)->0) by {
            if j == k {
            } else {
                assert(k + 1 <= j);
            }
        }
        if r != best {
            if r == next {
                assert(pair_score(terms[k], word) == Some(r->0.score));
            } else {
                let j = choose|j: int|
                    k + 1 <= j < terms.len() && pair_score(#[trigger] terms[j], word) == Some(
                        r->0.score,
                    );
                assert(k <= j < terms.len() && pair_score(terms[j], word) == Some(r->0.score));
            }
        }
    }
}

/// The lowercased word of the text in a span.
pub open spec fn word_at(text: Seq<char>, span: Span) -> Seq<char> {
    text_lowercase(text.subrange(span.start as int, span.end as int))
}

proof fn lemma_best_over_spans(
    text: Seq<char>,
    spans: Seq<Span>,
    terms: Seq<Seq<char>>,
    i: int,
    best: Option<WordMatch>,
)
    requires
        0 <= i <= spans.len(),
        match_scored(best),
    ensures
        match_scored(best_over_spans(text, spans, terms, i, best)),
        best is Some ==> best_over_spans(text, spans, terms, i, best) is Some && best_over_spans(
            text,
            spans,
            terms,
            i,
            best,
        )->0.score.at_least(best->0.score),
        forall|n: int, j: int|
            i <= n < spans.len() && 0 <= j < terms.len() && pair_score(
                #[trigger] terms[j],
                word_at(text, #[trigger] spans[n]),
            ) is Some ==> best_over_spans(text, spans, terms, i, best) is Some && best_over_spans(
                text,
                spans,
                terms,
                i,
                best,
            )->0.score.at_least(pair_score(terms[j], word_at(text, spans[n]))->0),
        best_over_spans(text, spans, terms, i, best) == best || (best_over_spans(
            text,
            spans,
            terms,
            i,
            best,
        ) is Some && exists|n: int, j: int|
            i <= n < spans.len() && 0 <= j < terms.len() && best_over_spans(
                text,
                spans,
                terms,
                i,
                best,
            )->0.start == (#[trigger] spans[n]).start && best_over_spans(
                text,
                spans,
                terms,
                i,
                best,
            )->0.end == spans[n].end && pair_score(#[trigger] terms[j], word_at(text, spans[n]))
                == Some(best_over_spans(text, spans, terms, i, best)->0.score)),
    decreases spans.len() - i,
{
    if i < spans.len() {
        let word = word_at(text, spans[i]);
        let next = best_over_terms(word, spans[i], terms, 0, best);
        lemma_best_over_terms(word, spans[i], terms, 0, best);
        lemma_best_over_spans(text, spans, terms, i + 1, next);
        let r = best_over_spans(text, spans, terms, i, best);
        assert(r == best_over_spans(text, spans, terms, i + 1, next));
        if best is Some {
            lemma_at_least_transitive(r->0.score, next->0.score, best->0.score);
        }
        assert forall|n: int, j: int|
            i <= n < spans.len() && 0 <= j < terms.len() && pair_score(
                #[trigger] terms[j],
                word_at(text, #[trigger] spans[n]),
            ) is Some implies r is Some && r->0.score.at_least(
            pair_score(terms[j], word_at(text, spans[n]))->0,
        ) by {
            if n == i {
                lemma_pair_score_is_plain(terms[j], word);
                lemma_at_least_transitive(r->0.score, next->0.score, pair_score(terms[j], word)->0);
            } else {
                assert(i + 1 <= n);
            }
        }
        if r != best {
            if r == next {
                let j = choose|j: int|
                    0 <= j < terms.len() && pair_score(#[trigger] terms[j], word) == Some(
                        next->0.score,
                    );
                assert(i <= i < spans.len() && 0 <= j < terms.len() && r->0.start == spans[i].start
                    && r->0.end == spans[i].end && pair_score(terms[j], word_at(text, spans[i]))
                    == Some(r->0.score));
            } else {
                let (n, j) = choose|n: int, j: int|
                    i + 1 <= n < spans.len() && 0 <= j < terms.len() && r->0.start == (
                    #[trigger] spans[n]).start && r->0.end == spans[n].end && pair_score(
                        #[trigger] terms[j],
                        word_at(text, spans[n]),
                    ) == Some(r->0.score);
                assert(i <= n < spans.len() && 0 <= j < terms.len() && r->0.start == spans[n].start
                    && r->0.end == spans[n].end && pair_score(terms[j], word_at(text, spans[n]))
                    == Some(r->0.score));
            }
        }
    }
}

/// The best word match is a word of the text with the score that it is
/// accepted with against one of the terms, and no word is accepted
/// against any term with a higher score. There is one as soon as any pair
/// of word and term is accepted.
pub proof fn lemma_best_word_match_is_highest(text: Seq<char>, terms: Seq<Seq<char>>)
    ensures
        forall|n: int, j: int|
            0 <= n < runs(alphanumeric_mask(text)).len() && 0 <= j < terms.len() && pair_score(
                #[trigger] terms[j],
                word_at(text, #[trigger] runs(alphanumeric_mask(text))[n]),
            ) is Some ==> best_word_match(text, terms) is Some && best_word_match(
                text,
                terms,
            )->0.score.at_least(
                pair_score(terms[j], word_at(text, runs(alphanumeric_mask(text))[n]))->0,
            ),
        best_word_match(text, terms) is Some ==> exists|n: int, j: int|
            0 <= n < runs(alphanumeric_mask(text)).len() && 0 <= j < terms.len()
                && best_word_match(text, terms)->0.start == (#[trigger] runs(
                alphanumeric_mask(text),
            )[n]).start && best_word_match(text, terms)->0.end == runs(
                alphanumeric_mask(text),
            )[n].end && pair_score(
                #[trigger] terms[j],
                word_at(text, runs(alphanumeric_mask(text))[n]),
            ) == Some(best_word_match(text, terms)->0.score),
{
    lemma_best_over_spans(text, runs(alphanumeric_mask(text)), terms, 0, None);
}

/// A match that lies in a text of `len` characters, with a score that can
/// be scaled.
pub open spec fn match_fits(m: Option<WordMatch>, len: int) -> bool {
    match m {
        Some(w) => w.start < w.end <= len && w.score.is_plain(),
        None => true,
    }
}

/// Finds the word of `text` that resembles one of the terms most.
pub fn best_fuzzy_word_match(text: &Vec<char>, terms: &Vec<Vec<char>>) -> (r: Option<WordMatch>)
    ensures
        r == best_word_match(text@, views(terms@)),
        match_fits(r, text.len() as int),
{
    let spans = collect_word_spans(text);
    let mut best: Option<WordMatch> = None;
    let mut i: usize = 0;
    while i < spans.len()
        invariant
            i <= spans.len(),
            spans@ == runs(alphanumeric_mask(text@)),
            forall|k: int|
                0 <= k < spans.len() ==> (#[trigger] spans[k]).start < spans[k].end <= text.len(),
            best_word_match(text@, views(terms@)) == best_over_spans(
                text@,
                spans@,
                views(terms@),
                i as int,
                best,
            ),
            match_fits(best, text.len() as int),
        decreases spans.len() - i,
    {
        let span = spans[i];
        let token = copy_range(text, span.start, span.end);
        let word = lower_whole(&token);
        let ghost before = best;
        let mut k: usize = 0;
        while k < terms.len()
            invariant
                k <= terms.len(),
                span.start < span.end <= text.len(),
                word@ == text_lowercase(text@.subrange(span.start as int, span.end as int)),
                best_over_terms(word@, span, views(terms@), 0, before) == best_over_terms(
                    word@,
                    span,
                    views(terms@),
                    k as int,
                    best,
                ),
                match_fits(best, text.len() as int),
            decreases terms.len() - k,
        {
            let term = &terms[k];
            assert(views(terms@)[k as int] == term@);
            if term.len() >= FUZZY_QUERY_TERM_MIN_CHARS && term.len() <= FUZZY_QUERY_TERM_MAX_CHARS
                && word.len() >= FUZZY_QUERY_TERM_MIN_CHARS && lengths_are_fuzzy_compatible(
                term.len(),
                word.len(),
            ) {
                let score = similarity_of(term, &word);
                if score.is_accepted() {
                    match best {
                        None => {
                            best = Some(WordMatch { start: span.start, end: span.end, score });
                        },
                        Some(b) => {
                            if score.is_above(&b.score) {
                                best = Some(WordMatch { start: span.start, end: span.end, score });
                            }
                        },
                    }
                }
            }
            k += 1;
        }
        i += 1;
    }
    best
}

/// The score of one field: that of its best word, weighted.
pub open spec fn field_score(text: Seq<char>, terms: Seq<Seq<char>>, percent: u64) -> Score {
    match best_word_match(text, terms) {
        Some(m) => m.score.scaled_by(percent),
        None => zero_score(),
    }
}

/// The score of a note: the higher of its title's score, weighted 1.08, and
/// its sanitized text's score, weighted 0.98.
pub open spec fn row_score(title: Seq<char>, note: Seq<char>, terms: Seq<Seq<char>>) -> Score {
    let t = field_score(title, terms, 108);
    let n = field_score(note, terms, 98);
    if t.at_least(n) {
        t
    } else {
        n
    }
}

fn weighted_field_score(text: &Vec<char>, terms: &Vec<Vec<char>>, percent: u64) -> (s: Score)
    requires
        percent <= 128,
    ensures
        s == field_score(text@, views(terms@), percent),
        s.wf(),
{
    match best_fuzzy_word_match(text, terms) {
        Some(m) => m.score.scaled(percent),
        None => Score { num: 0, den: 1 },
    }
}

/// Scores a note against the query terms.
pub fn fuzzy_row_score(title: &Vec<char>, note: &Vec<char>, terms: &Vec<Vec<char>>) -> (s: Score)
    ensures
        s == row_score(title@, note@, views(terms@)),
        s.wf(),
{
    let t = weighted_field_score(title, terms, 108);
    let n = weighted_field_score(note, terms, 98);
    if t.is_at_least(&n) {
        t
    } else {
        n
    }
}

} // verus!
