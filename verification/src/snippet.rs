//! Snippets: a bounded window of a field around the best match of the query
//! terms, with highlight markers.

use vstd::prelude::*;
use crate::fuzzy::{best_fuzzy_word_match, best_word_match};
use crate::highlight::{
    clear_mask, first_exact_match, first_exact_match_position, highlighted, highlighted_span,
    mark_range, mark_terms, marked, new_mask, render_marked,
};
use crate::sanitize::{preview_text, sanitize_chars_for_preview};
use crate::highlight::lemma_rendered_without;
use crate::text::{contains, foreign_to, lemma_foreign_ends, lemma_part_without};
use crate::text::{
    append_range, char_width, copy_range, from_chars, lower_whole, split_whitespace_spans,
    text_lowercase, to_chars, token_spans, utf8_width, views,
};

verus! {

/// Bytes of context on each side of a match in a note.
pub const NOTE_CONTEXT_BYTES: usize = 24;

/// Bytes of context on each side of a match in another field.
pub const FIELD_CONTEXT_BYTES: usize = 32;

/// Where the query matched a field, and whether a term occurs there as it
/// stands or a word only resembles one.
#[derive(Clone, Copy, Debug)]
pub struct FieldMatch {
    pub start: usize,
    pub end: usize,
    pub exact: bool,
}

/// The texts of a list of strings.
pub open spec fn texts(list: Seq<String>) -> Seq<Seq<char>> {
    Seq::new(list.len(), |i: int| list[i]@)
}

/// The terms of a query: its whitespace-delimited tokens, lowercased.
pub open spec fn query_terms(query: Seq<char>) -> Seq<Seq<char>> {
    Seq::new(
        token_spans(query).len(),
        |i: int|
            text_lowercase(
                query.subrange(token_spans(query)[i].start as int, token_spans(query)[i].end as int),
            ),
    )
}

/// Splits a query into lowercased terms, on characters.
pub fn query_terms_of(query: &Vec<char>) -> (terms: Vec<Vec<char>>)
    ensures
        views(terms@) == query_terms(query@),
{
    let spans = split_whitespace_spans(query);
    let mut terms: Vec<Vec<char>> = Vec::new();
    let mut i: usize = 0;
    while i < spans.len()
        invariant
            i <= spans.len(),
            spans@ == token_spans(query@),
            forall|k: int|
                0 <= k < spans.len() ==> (#[trigger] spans[k]).start < spans[k].end <= query.len(),
            terms.len() == i,
            forall|j: int| 0 <= j < i ==> (#[trigger] terms[j])@ == query_terms(query@)[j],
        decreases spans.len() - i,
    {
        let token = copy_range(query, spans[i].start, spans[i].end);
        let term = lower_whole(&token);
        terms.push(term);
        i += 1;
    }
    assert(views(terms@) =~= query_terms(query@));
    terms
}

/// Turns strings into character vectors.
pub fn chars_of_all(list: &[String]) -> (out: Vec<Vec<char>>)
    ensures
        views(out@) == texts(list@),
{
    let mut out: Vec<Vec<char>> = Vec::new();
    let mut i: usize = 0;
    while i < list.len()
        invariant
            i <= list.len(),
            out.len() == i,
            forall|j: int| 0 <= j < i ==> (#[trigger] out[j])@ == list[j]@,
        decreases list.len() - i,
    {
        out.push(to_chars(list[i].as_str()));
        i += 1;
    }
    assert(views(out@) =~= texts(list@));
    out
}

/// Turns character vectors into strings.
pub fn strings_of_all(list: &Vec<Vec<char>>) -> (out: Vec<String>)
    ensures
        texts(out@) == views(list@),
{
    let mut out: Vec<String> = Vec::new();
    let mut i: usize = 0;
    while i < list.len()
        invariant
            i <= list.len(),
            out.len() == i,
            forall|j: int| 0 <= j < i ==> (#[trigger] out[j])@ == list[j]@,
        decreases list.len() - i,
    {
        out.push(from_chars(&list[i]));
        i += 1;
    }
    assert(texts(out@) =~= views(list@));
    out
}

/// Splits a query into its lowercased terms.
pub fn parse_query_terms(query: &str) -> (terms: Vec<String>)
    ensures
        texts(terms@) == query_terms(query@),
{
    let chars = to_chars(query);
    let terms = query_terms_of(&chars);
    strings_of_all(&terms)
}

/// Where the terms match the text: the earliest exact occurrence of a term
/// if there is one, else the word that resembles a term most.
pub open spec fn field_match(text: Seq<char>, terms: Seq<Seq<char>>) -> Option<FieldMatch> {
    match first_exact_match(text, terms) {
        Some(span) => Some(FieldMatch { start: span.start, end: span.end, exact: true }),
        None => match best_word_match(text, terms) {
            Some(word) => Some(FieldMatch { start: word.start, end: word.end, exact: false }),
            None => None,
        },
    }
}

/// Locates the best match of the terms in a field.
pub fn find_field_match(text: &Vec<char>, terms: &Vec<Vec<char>>) -> (r: Option<FieldMatch>)
    ensures
        r == field_match(text@, views(terms@)),
        match r {
            Some(m) => m.start < m.end <= text.len(),
            None => true,
        },
{
    match first_exact_match_position(text, terms) {
        Some(span) => Some(FieldMatch { start: span.start, end: span.end, exact: true }),
        None => match best_fuzzy_word_match(text, terms) {
            Some(word) => Some(FieldMatch { start: word.start, end: word.end, exact: false }),
            None => None,
        },
    }
}

/// The position reached from `k` by stepping back over whole characters
/// until `budget` bytes are covered or the text begins.
pub open spec fn extend_back(s: Seq<char>, k: int, budget: int) -> int
    decreases k,
{
    if k <= 0 || k > s.len() || budget <= 0 {
        k
    } else {
        extend_back(s, k - 1, budget - utf8_width(s[k - 1]))
    }
}

/// The position reached from `k` by stepping forward over whole characters
/// until `budget` bytes are covered or the text ends.
pub open spec fn extend_forward(s: Seq<char>, k: int, budget: int) -> int
    decreases s.len() - k,
{
    if k < 0 || k >= s.len() || budget <= 0 {
        k
    } else {
        extend_forward(s, k + 1, budget - utf8_width(s[k]))
    }
}

/// The position reached from `k` by stepping forward over the characters
/// that fit whole into `budget` bytes.
pub open spec fn fit_forward(s: Seq<char>, k: int, budget: int) -> int
    decreases s.len() - k,
{
    if k < 0 || k >= s.len() || budget < utf8_width(s[k]) {
        k
    } else {
        fit_forward(s, k + 1, budget - utf8_width(s[k]))
    }
}

/// Start of the window around a match that begins at `k`.
pub fn window_start(text: &Vec<char>, k: usize, context: usize) -> (r: usize)
    requires
        k <= text.len(),
    ensures
        r == extend_back(text@, k as int, context as int),
        r <= k,
{
    let mut at: usize = k;
    let mut budget: usize = context;
    while at > 0 && budget > 0
        invariant
            at <= k <= text.len(),
            extend_back(text@, k as int, context as int) == extend_back(
                text@,
                at as int,
                budget as int,
            ),
        decreases at,
    {
        let w = char_width(text[at - 1]);
        budget = if budget >= w { budget - w } else { 0 };
        at -= 1;
        proof {
            reveal_with_fuel(extend_back, 2);
        }
    }
    at
}

/// End of the window around a match that ends at `k`.
pub fn window_end(text: &Vec<char>, k: usize, context: usize) -> (r: usize)
    requires
        k <= text.len(),
    ensures
        r == extend_forward(text@, k as int, context as int),
        k <= r <= text.len(),
{
    let mut at: usize = k;
    let mut budget: usize = context;
    while at < text.len() && budget > 0
        invariant
            k <= at <= text.len(),
            extend_forward(text@, k as int, context as int) == extend_forward(
                text@,
                at as int,
                budget as int,
            ),
        decreases text.len() - at,
    {
        let w = char_width(text[at]);
        budget = if budget >= w { budget - w } else { 0 };
        at += 1;
        proof {
            reveal_with_fuel(extend_forward, 2);
        }
    }
    at
}

/// Number of markers in `s` from position `i` on, counted from left to
/// right without overlap.
pub open spec fn marker_count(s: Seq<char>, i: int) -> nat
    decreases s.len() - i,
{
    if i < 0 || i + 2 > s.len() {
        0
    } else if s[i] == '*' && s[i + 1] == '*' {
        1 + marker_count(s, i + 2)
    } else {
        marker_count(s, i + 1)
    }
}

/// Whether the text holds a complete pair of markers.
pub open spec fn has_marker_pair(s: Seq<char>) -> bool {
    marker_count(s, 0) >= 2
}

/// Tells whether the text holds two markers or more.
pub fn holds_marker_pair(s: &Vec<char>) -> (b: bool)
    ensures
        b == has_marker_pair(s@),
{
    let mut count: usize = 0;
    let mut i: usize = 0;
    while i < s.len() && i + 1 < s.len() && count < 2
        invariant
            i <= s.len(),
            count <= 2,
            marker_count(s@, 0) == count + marker_count(s@, i as int),
        decreases s.len() - i,
    {
        if s[i] == '*' && s[i + 1] == '*' {
            count += 1;
            i += 2;
        } else {
            i += 1;
        }
    }
    count >= 2
}

/// What marks a cut at either end of a snippet.
pub open spec fn ellipsis() -> Seq<char> {
    seq!['.', '.', '.']
}

/// The window `start..end` of a text of `len` characters with an ellipsis
/// at each end at which the text goes on.
pub open spec fn with_ellipses(body: Seq<char>, start: int, end: int, len: int) -> Seq<char> {
    (if start > 0 {
        ellipsis()
    } else {
        Seq::empty()
    }) + body + (if end < len {
        ellipsis()
    } else {
        Seq::empty()
    })
}

/// The snippet of a field: the window around the match with `context` bytes
/// on each side, every occurrence of a term highlighted where the match is
/// exact and the matched word alone where it is not; none where nothing
/// matches or no complete highlight shows.
pub open spec fn field_snippet(text: Seq<char>, terms: Seq<Seq<char>>, context: int) -> Option<
    Seq<char>,
> {
    if text.len() == 0 {
        None
    } else {
        match field_match(text, terms) {
            None => None,
            Some(m) => {
                let start = extend_back(text, m.start as int, context);
                let end = extend_forward(text, m.end as int, context);
                let window = text.subrange(start, end);
                let body = if m.exact {
                    highlighted(window, terms)
                } else {
                    highlighted_span(window, m.start - start, m.end - start)
                };
                let full = with_ellipses(body, start, end, text.len() as int);
                if start >= end || !has_marker_pair(full) {
                    None
                } else {
                    Some(full)
                }
            },
        }
    }
}

/// Builds the snippet of one field.
pub fn field_snippet_of(text: &Vec<char>, terms: &Vec<Vec<char>>, context: usize) -> (r: Option<
    Vec<char>,
>)
    ensures
        match r {
            Some(s) => field_snippet(text@, views(terms@), context as int) == Some(s@),
            None => field_snippet(text@, views(terms@), context as int) is None,
        },
{
    if text.len() == 0 {
        return None;
    }
    let m = match find_field_match(text, terms) {
        Some(m) => m,
        None => {
            return None;
        },
    };
    let start = window_start(text, m.start, context);
    let end = window_end(text, m.end, context);
    if start >= end {
        return None;
    }
    let window = copy_range(text, start, end);
    let body = if m.exact {
        let mask = mark_terms(&window, terms);
        assert(mask@.len() == window@.len()) by {
            lemma_highlight_mask_len(window@, views(terms@));
        }
        render_marked(&window, &mask)
    } else {
        highlight_span(&window, m.start - start, m.end - start)
    };
    let mut full: Vec<char> = Vec::new();
    if start > 0 {
        full.push('.');
        full.push('.');
        full.push('.');
    }
    assert(full@ =~= if start > 0 { ellipsis() } else { Seq::empty() });
    append_range(&mut full, &body, 0, body.len());
    assert(body@.subrange(0, body.len() as int) =~= body@);
    let ghost head = full@;
    if end < text.len() {
        full.push('.');
        full.push('.');
        full.push('.');
        assert(full@ =~= head + ellipsis());
    } else {
        assert(full@ =~= head + Seq::<char>::empty());
    }
    if holds_marker_pair(&full) {
        Some(full)
    } else {
        None
    }
}

/// The mask of the highlights of a text has the length of the text.
pub proof fn lemma_highlight_mask_len(text: Seq<char>, terms: Seq<Seq<char>>)
    ensures
        crate::highlight::highlight_mask(text, terms).len() == text.len(),
{
    lemma_all_marks_len(text, terms, 0, clear_mask(text.len()));
}

proof fn lemma_term_marks_from_len(
    lowered: Seq<char>,
    source: Seq<usize>,
    needle: Seq<char>,
    from: int,
    mask: Seq<bool>,
)
    ensures
        crate::highlight::term_marks_from(lowered, source, needle, from, mask).len() == mask.len(),
    decreases lowered.len() - from,
{
    if from < 0 || from >= lowered.len() {
    } else {
        match crate::text::first_match(lowered, needle, from) {
            None => {},
            Some(p) => {
                let end = p + needle.len();
                if end <= from || end > lowered.len() {
                } else {
                    let next = match crate::highlight::source_range(source, p, end) {
                        Some(r) => marked(mask, r.start as int, r.end as int),
                        None => mask,
                    };
                    lemma_term_marks_from_len(lowered, source, needle, end, next);
                }
            },
        }
    }
}

proof fn lemma_all_marks_len(text: Seq<char>, terms: Seq<Seq<char>>, k: int, mask: Seq<bool>)
    ensures
        crate::highlight::all_marks_from(text, terms, k, mask).len() == mask.len(),
    decreases terms.len() - k,
{
    if k < 0 || k >= terms.len() {
    } else {
        let needle = text_lowercase(terms[k]);
        if terms[k].len() == 0 || needle.len() == 0 {
        } else {
            lemma_term_marks_from_len(
                crate::text::lowered_by_char(text),
                crate::highlight::source_map(text),
                needle,
                0,
                mask,
            );
        }
        lemma_all_marks_len(text, terms, k + 1, crate::highlight::term_marks(text, terms[k], mask));
    }
}

/// A match lies in the text and is not empty.
pub proof fn lemma_field_match_fits(text: Seq<char>, terms: Seq<Seq<char>>)
    requires
        text.len() <= usize::MAX,
    ensures
        field_match(text, terms) is Some ==> field_match(text, terms)->0.start < field_match(
            text,
            terms,
        )->0.end <= text.len(),
{
    crate::highlight::lemma_first_exact_match_is_earliest(text, terms);
    crate::highlight::lemma_source_map_in_text(text);
    crate::fuzzy::lemma_best_word_match_is_highest(text, terms);
    crate::text::lemma_runs_are_maximal(crate::text::alphanumeric_mask(text));
}

proof fn lemma_window_bounds(text: Seq<char>, k: int, budget: int)
    requires
        0 <= k <= text.len(),
    ensures
        0 <= extend_back(text, k, budget) <= k,
        k <= extend_forward(text, k, budget) <= text.len(),
{
    lemma_extend_back(text, k, budget);
    lemma_extend_forward(text, k, budget);
}

proof fn lemma_extend_back(text: Seq<char>, k: int, budget: int)
    requires
        0 <= k <= text.len(),
    ensures
        0 <= extend_back(text, k, budget) <= k,
    decreases k,
{
    if k > 0 && budget > 0 {
        lemma_extend_back(text, k - 1, budget - utf8_width(text[k - 1]));
    }
}

proof fn lemma_extend_forward(text: Seq<char>, k: int, budget: int)
    requires
        0 <= k <= text.len(),
    ensures
        k <= extend_forward(text, k, budget) <= text.len(),
    decreases text.len() - k,
{
    if k < text.len() && budget > 0 {
        lemma_extend_forward(text, k + 1, budget - utf8_width(text[k]));
    }
}

/// The snippet of a field that does not hold `needle` does not hold it
/// either, as long as `needle` holds neither an asterisk nor a dot: the
/// markers and the ellipses bring nothing else into the text.
pub proof fn lemma_field_snippet_without(
    text: Seq<char>,
    terms: Seq<Seq<char>>,
    context: int,
    needle: Seq<char>,
)
    requires
        text.len() <= usize::MAX,
        needle.len() > 0,
        forall|k: int| 0 <= k < needle.len() ==> #[trigger] needle[k] != '*' && needle[k] != '.',
        !contains(text, needle),
    ensures
        field_snippet(text, terms, context) is Some ==> !contains(
            field_snippet(text, terms, context)->0,
            needle,
        ),
{
    if field_snippet(text, terms, context) is Some {
        lemma_field_match_fits(text, terms);
        let m = field_match(text, terms)->0;
        lemma_window_bounds(text, m.start as int, context);
        lemma_window_bounds(text, m.end as int, context);
        let start = extend_back(text, m.start as int, context);
        let end = extend_forward(text, m.end as int, context);
        let window = text.subrange(start, end);
        lemma_part_without(text, needle, start, end);
        let body = if m.exact {
            highlighted(window, terms)
        } else {
            highlighted_span(window, m.start - start, m.end - start)
        };
        if m.exact {
            lemma_rendered_without(window, crate::highlight::highlight_mask(window, terms), needle);
        } else {
            lemma_rendered_without(
                window,
                marked(clear_mask(window.len()), m.start - start, m.end - start),
                needle,
            );
        }
        let front = if start > 0 { ellipsis() } else { Seq::<char>::empty() };
        let back = if end < text.len() { ellipsis() } else { Seq::<char>::empty() };
        assert(foreign_to(front, needle));
        assert(foreign_to(back, needle));
        lemma_foreign_ends(body, needle, front, back);
    }
}

/// The snippet of a note never shows the scheme of an image reference,
/// whatever the note holds.
pub proof fn lemma_note_snippet_hides_image_scheme(
    note: Seq<char>,
    terms: Seq<Seq<char>>,
    context: int,
)
    requires
        preview_text(note).len() <= usize::MAX,
    ensures
        field_snippet(preview_text(note), terms, context) is Some ==> !contains(
            field_snippet(preview_text(note), terms, context)->0,
            crate::sanitize::image_scheme(),
        ),
{
    crate::sanitize::lemma_preview_hides_image_scheme(note);
    reveal_strlit("alfred://image/");
    lemma_field_snippet_without(preview_text(note), terms, context, crate::sanitize::image_scheme());
}

/// The snippet of a note and the field it comes from: the sanitized note
/// first, then the subtitle, then the keywords; the title is never used.
pub open spec fn snippet_of(
    subtitle: Seq<char>,
    keywords: Seq<char>,
    note: Seq<char>,
    terms: Seq<Seq<char>>,
) -> Option<(Seq<char>, Seq<char>)> {
    if terms.len() == 0 {
        None
    } else {
        match field_snippet(preview_text(note), terms, NOTE_CONTEXT_BYTES as int) {
            Some(s) => Some(("note"@, s)),
            None => match field_snippet(subtitle, terms, FIELD_CONTEXT_BYTES as int) {
                Some(s) => Some(("subtitle"@, s)),
                None => match field_snippet(keywords, terms, FIELD_CONTEXT_BYTES as int) {
                    Some(s) => Some(("keywords"@, s)),
                    None => None,
                },
            },
        }
    }
}

/// The outcome of building a snippet agrees with the specified one.
pub open spec fn snippet_is(r: Option<(String, String)>, expected: Option<(Seq<char>, Seq<char>)>) -> bool {
    match r {
        Some(pair) => expected == Some((pair.0@, pair.1@)),
        None => expected is None,
    }
}

/// Builds the snippet of one field under the name of that field.
pub fn build_field_snippet(source: &str, text: &str, query_terms: &[String], context_chars: usize) -> (r:
    Option<(String, String)>)
    ensures
        match r {
            Some(pair) => pair.0@ == source@ && field_snippet(
                text@,
                texts(query_terms@),
                context_chars as int,
            ) == Some(pair.1@),
            None => field_snippet(text@, texts(query_terms@), context_chars as int) is None,
        },
{
    let chars = to_chars(text);
    let terms = chars_of_all(query_terms);
    match field_snippet_of(&chars, &terms, context_chars) {
        Some(s) => Some((source.to_owned(), from_chars(&s))),
        None => None,
    }
}

/// Builds the snippet of a note from the terms of a query, on characters.
pub fn snippet_for_terms(
    subtitle: &Vec<char>,
    keywords: &Vec<char>,
    note: &Vec<char>,
    terms: &Vec<Vec<char>>,
) -> (r: Option<(String, String)>)
    ensures
        snippet_is(r, snippet_of(subtitle@, keywords@, note@, views(terms@))),
{
    if terms.len() == 0 {
        return None;
    }
    let cleaned = sanitize_chars_for_preview(note);
    match field_snippet_of(&cleaned, terms, NOTE_CONTEXT_BYTES) {
        Some(s) => {
            return Some(("note".to_owned(), from_chars(&s)));
        },
        None => {},
    }
    match field_snippet_of(subtitle, terms, FIELD_CONTEXT_BYTES) {
        Some(s) => {
            return Some(("subtitle".to_owned(), from_chars(&s)));
        },
        None => {},
    }
    match field_snippet_of(keywords, terms, FIELD_CONTEXT_BYTES) {
        Some(s) => Some(("keywords".to_owned(), from_chars(&s))),
        None => None,
    }
}

/// Builds the snippet of a note from the terms of a query. Highlights stay
/// in the content fields: a match in the title alone gives no snippet.
pub fn build_snippet_with_terms(
    _title: &str,
    subtitle: &str,
    keywords: &str,
    note: &str,
    query_terms: &[String],
) -> (r: Option<(String, String)>)
    ensures
        snippet_is(r, snippet_of(subtitle@, keywords@, note@, texts(query_terms@))),
{
    let terms = chars_of_all(query_terms);
    snippet_for_terms(&to_chars(subtitle), &to_chars(keywords), &to_chars(note), &terms)
}

/// Builds the snippet of a note for a query.
pub fn build_snippet(title: &str, subtitle: &str, keywords: &str, note: &str, query: &str) -> (r:
    Option<(String, String)>)
    ensures
        snippet_is(r, snippet_of(subtitle@, keywords@, note@, query_terms(query@))),
{
    let terms = query_terms_of(&to_chars(query));
    snippet_for_terms(&to_chars(subtitle), &to_chars(keywords), &to_chars(note), &terms)
}

/// Wraps every occurrence of a term in markers, case-insensitively.
pub fn highlight_query_terms(text: &str, query_terms: &[String]) -> (out: String)
    ensures
        out@ == highlighted(text@, texts(query_terms@)),
{
    let chars = to_chars(text);
    let terms = chars_of_all(query_terms);
    let mask = mark_terms(&chars, &terms);
    proof {
        lemma_highlight_mask_len(chars@, views(terms@));
    }
    from_chars(&render_marked(&chars, &mask))
}

/// Wraps the characters `start..end` of the text in markers; the text comes
/// back as it is where the range holds none of its characters.
pub fn highlight_span(text: &Vec<char>, start: usize, end: usize) -> (out: Vec<char>)
    ensures
        out@ == highlighted_span(text@, start as int, end as int),
{
    let mut mask = new_mask(text.len());
    mark_range(&mut mask, start, end);
    render_marked(text, &mask)
}

} // verus!
