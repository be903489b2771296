//! What goes to the full-text index and what comes back from it: the query
//! text built from the words of the user, and the fragments that the index
//! highlighted.

use vstd::prelude::*;
use crate::highlight::{clear_mask, mark_range, marked, new_mask, render_marked, rendered};
use crate::snippet::{extend_forward, fit_forward, has_marker_pair, holds_marker_pair};
use crate::text::{
    append_range, char_is_alphanumeric, char_width, from_chars, is_alphanumeric,
    split_whitespace_spans, to_chars, token_spans, trim_chars, trimmed, Span,
};

verus! {

/// Most tokens of a query that go to the index.
pub const MAX_QUERY_TOKENS: usize = 12;

/// Most characters of a token that go to the index.
pub const MAX_TOKEN_CHARS: usize = 64;

/// A character that may stand in a term of the index query.
pub open spec fn is_query_char(c: char) -> bool {
    char_is_alphanumeric(c) || c == '_' || c == '-'
}

/// The query characters of `token` from position `i` on, appended to `acc`
/// until it holds the most that a term may hold.
pub open spec fn clean_from(token: Seq<char>, i: int, acc: Seq<char>) -> Seq<char>
    decreases token.len() - i,
{
    if i < 0 || i >= token.len() || acc.len() >= MAX_TOKEN_CHARS {
        acc
    } else if is_query_char(token[i]) {
        clean_from(token, i + 1, acc.push(token[i]))
    } else {
        clean_from(token, i + 1, acc)
    }
}

/// What joins the terms of the index query.
pub open spec fn conjunction() -> Seq<char> {
    " AND "@
}

/// The index query after the tokens from the `k`-th on were taken in: each
/// token that keeps a character becomes a prefix term, and the terms are
/// joined by the conjunction.
pub open spec fn query_from(s: Seq<char>, spans: Seq<Span>, k: int, acc: Seq<char>) -> Seq<char>
    decreases spans.len() - k,
{
    if k < 0 || k >= spans.len() || k >= MAX_QUERY_TOKENS {
        acc
    } else {
        let term = clean_from(s.subrange(spans[k].start as int, spans[k].end as int), 0, Seq::empty());
        if term.len() == 0 {
            query_from(s, spans, k + 1, acc)
        } else if acc.len() == 0 {
            query_from(s, spans, k + 1, term.push('*'))
        } else {
            query_from(s, spans, k + 1, acc + conjunction() + term.push('*'))
        }
    }
}

/// The query text for the index: the first twelve tokens of the user's
/// query, each cut down to its query characters and to 64 of them, as
/// prefix terms that must all match; none where no token keeps a character.
pub open spec fn index_query(query: Seq<char>) -> Option<Seq<char>> {
    let text = query_from(query, token_spans(query), 0, Seq::empty());
    if text.len() == 0 {
        None
    } else {
        Some(text)
    }
}

fn clean_token(s: &Vec<char>, span: Span) -> (out: Vec<char>)
    requires
        span.start <= span.end <= s.len(),
    ensures
        out@ == clean_from(s@.subrange(span.start as int, span.end as int), 0, Seq::empty()),
{
    let ghost token = s@.subrange(span.start as int, span.end as int);
    let mut out: Vec<char> = Vec::new();
    let mut i: usize = span.start;
    while i < span.end && out.len() < MAX_TOKEN_CHARS
        invariant
            span.start <= i <= span.end <= s.len(),
            token == s@.subrange(span.start as int, span.end as int),
            clean_from(token, 0, Seq::empty()) == clean_from(token, i - span.start, out@),
        decreases span.end - i,
    {
        let c = s[i];
        assert(token[i - span.start] == c);
        if is_alphanumeric(c) || c == '_' || c == '-' {
            out.push(c);
        }
        i += 1;
    }
    out
}

/// Builds the query text for the index.
pub fn build_lucene_query(query: &str) -> (r: Option<String>)
    ensures
        match r {
            Some(text) => index_query(query@) == Some(text@),
            None => index_query(query@) is None,
        },
{
    let chars = to_chars(query);
    let spans = split_whitespace_spans(&chars);
    let joiner = to_chars(" AND ");
    let mut out: Vec<char> = Vec::new();
    let mut k: usize = 0;
    while k < spans.len() && k < MAX_QUERY_TOKENS
        invariant
            k <= spans.len(),
            chars@ == query@,
            spans@ == token_spans(query@),
            joiner@ == conjunction(),
            forall|j: int|
                0 <= j < spans.len() ==> (#[trigger] spans[j]).start < spans[j].end <= chars.len(),
            query_from(query@, spans@, 0, Seq::empty()) == query_from(query@, spans@, k as int, out@),
        decreases spans.len() - k,
    {
        let term = clean_token(&chars, spans[k]);
        if term.len() > 0 {
            let ghost before = out@;
            if out.len() > 0 {
                append_range(&mut out, &joiner, 0, joiner.len());
                assert(joiner@.subrange(0, joiner.len() as int) =~= joiner@);
            }
            append_range(&mut out, &term, 0, term.len());
            assert(term@.subrange(0, term.len() as int) =~= term@);
            out.push('*');
            assert(out@ =~= if before.len() == 0 {
                term@.push('*')
            } else {
                before + conjunction() + term@.push('*')
            });
        }
        k += 1;
    }
    if out.len() == 0 {
        None
    } else {
        Some(from_chars(&out))
    }
}

/// The character at which the byte offset `byte` lies, counted down to the
/// start of that character.
pub open spec fn char_floor(text: Seq<char>, byte: int) -> int {
    fit_forward(text, 0, byte)
}

/// The first character that begins at or behind the byte offset `byte`.
pub open spec fn char_ceil(text: Seq<char>, byte: int) -> int {
    extend_forward(text, 0, byte)
}

/// The mask with the characters set that the byte ranges from the `k`-th
/// on touch.
pub open spec fn range_marks_from(text: Seq<char>, ranges: Seq<Span>, k: int, mask: Seq<bool>) -> Seq<
    bool,
>
    decreases ranges.len() - k,
{
    if k < 0 || k >= ranges.len() {
        mask
    } else {
        range_marks_from(
            text,
            ranges,
            k + 1,
            marked(
                mask,
                char_floor(text, ranges[k].start as int),
                char_ceil(text, ranges[k].end as int),
            ),
        )
    }
}

/// Some byte range touches a character of the text.
pub open spec fn some_range_shows(text: Seq<char>, ranges: Seq<Span>) -> bool {
    exists|k: int|
        0 <= k < ranges.len() && char_floor(text, (#[trigger] ranges[k]).start as int) < char_ceil(
            text,
            ranges[k].end as int,
        )
}

/// The fragment with markers around the characters that the byte ranges
/// touch, ranges that overlap or meet sharing one pair, and trimmed; none
/// where no range shows or nothing is left.
pub open spec fn marked_fragment(text: Seq<char>, ranges: Seq<Span>) -> Option<Seq<char>> {
    let body = rendered(text, range_marks_from(text, ranges, 0, clear_mask(text.len())));
    if text.len() == 0 || !some_range_shows(text, ranges) || !has_marker_pair(body) || trimmed(
        body,
    ).len() == 0 {
        None
    } else {
        Some(trimmed(body))
    }
}

/// Finds the character in which the byte offset lies: the last character
/// boundary at or before the offset, as a position in characters.
pub fn previous_char_boundary(text: &Vec<char>, byte: usize) -> (r: usize)
    ensures
        r == char_floor(text@, byte as int),
        r <= text.len(),
{
    let mut at: usize = 0;
    let mut budget: usize = byte;
    while at < text.len() && budget >= char_width(text[at])
        invariant
            at <= text.len(),
            fit_forward(text@, 0, byte as int) == fit_forward(text@, at as int, budget as int),
        decreases text.len() - at,
    {
        budget = budget - char_width(text[at]);
        at += 1;
    }
    at
}

/// Finds the first character boundary at or behind the byte offset, as a
/// position in characters; the end of the text where the offset lies
/// behind it.
pub fn next_char_boundary(text: &Vec<char>, byte: usize) -> (r: usize)
    ensures
        r == char_ceil(text@, byte as int),
        r <= text.len(),
{
    crate::snippet::window_end(text, 0, byte)
}

/// Renders a fragment of the index with markers around the byte ranges
/// that the index highlighted.
pub fn snippet_with_markers(fragment: &str, highlighted: &Vec<Span>) -> (r: Option<String>)
    ensures
        match r {
            Some(text) => marked_fragment(fragment@, highlighted@) == Some(text@),
            None => marked_fragment(fragment@, highlighted@) is None,
        },
{
    let text = to_chars(fragment);
    if text.len() == 0 {
        return None;
    }
    let mut mask = new_mask(text.len());
    let mut shows = false;
    let mut k: usize = 0;
    while k < highlighted.len()
        invariant
            k <= highlighted.len(),
            text@ == fragment@,
            mask@.len() == text.len(),
            range_marks_from(text@, highlighted@, 0, clear_mask(text@.len())) == range_marks_from(
                text@,
                highlighted@,
                k as int,
                mask@,
            ),
            shows == exists|j: int|
                0 <= j < k && char_floor(text@, (#[trigger] highlighted@[j]).start as int)
                    < char_ceil(text@, highlighted@[j].end as int),
        decreases highlighted.len() - k,
    {
        let a = previous_char_boundary(&text, highlighted[k].start);
        let b = next_char_boundary(&text, highlighted[k].end);
        if a < b {
            shows = true;
        }
        mark_range(&mut mask, a, b);
        k += 1;
    }
    if !shows {
        return None;
    }
    let body = render_marked(&text, &mask);
    if !holds_marker_pair(&body) {
        return None;
    }
    let cut = trim_chars(&body);
    if cut.len() == 0 {
        None
    } else {
        Some(from_chars(&cut))
    }
}

} // verus!
