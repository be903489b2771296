//! Case-insensitive location of query terms in a text and the rendering of
//! highlight markers around them.

use vstd::prelude::*;
use crate::text::{
    contains, foreign_to, lemma_foreign_ends, matches_at,
    char_lowercase, find_from, first_match, lower_char, lower_whole, lowered_by_char,
    text_lowercase, views, Span,
};

verus! {

/// For each character of the lowercase form of a text, the position of the
/// character of the text that it comes from.
pub open spec fn source_map(s: Seq<char>) -> Seq<usize>
    decreases s.len(),
{
    if s.len() == 0 {
        Seq::empty()
    } else {
        source_map(s.drop_last()) + Seq::new(
            char_lowercase(s.last()).len(),
            |k: int| (s.len() - 1) as usize,
        )
    }
}

/// The lowercase form of a text, taken character by character, with the way
/// back from each of its characters to the text.
pub struct LowercaseIndex {
    pub lowered: Vec<char>,
    pub source: Vec<usize>,
    pub text_len: usize,
}

impl LowercaseIndex {
    /// Each lowercase character comes from a character of the text.
    pub open spec fn wf(&self) -> bool {
        &&& self.source.len() == self.lowered.len()
        &&& forall|k: int| 0 <= k < self.source.len() ==> #[trigger] self.source[k] < self.text_len
    }

    /// The index is that of `text`.
    pub open spec fn describes(&self, text: Seq<char>) -> bool {
        &&& self.wf()
        &&& self.text_len == text.len()
        &&& self.lowered@ == lowered_by_char(text)
        &&& self.source@ == source_map(text)
    }
}

/// Builds the lowercase index of a text.
pub fn build_lowercase_index(text: &Vec<char>) -> (index: LowercaseIndex)
    ensures
        index.describes(text@),
{
    let mut lowered: Vec<char> = Vec::new();
    let mut source: Vec<usize> = Vec::new();
    let mut i: usize = 0;
    while i < text.len()
        invariant
            i <= text.len(),
            lowered@ == lowered_by_char(text@.take(i as int)),
            source@ == source_map(text@.take(i as int)),
            source.len() == lowered.len(),
            forall|k: int| 0 <= k < source.len() ==> #[trigger] source[k] < i,
        decreases text.len() - i,
    {
        let mut piece = lower_char(text[i]);
        let ghost before = source@;
        let ghost width = piece.len();
        let mut j: usize = 0;
        while j < piece.len()
            invariant
                j <= piece.len(),
                width == piece.len(),
                i < text.len(),
                source@ == before + Seq::new(j as nat, |k: int| i),
                forall|k: int| 0 <= k < before.len() ==> #[trigger] before[k] < i,
            decreases piece.len() - j,
        {
            source.push(i);
            j += 1;
            assert(source@ =~= before + Seq::new(j as nat, |k: int| i));
        }
        proof {
            let t = text@.take(i + 1);
            assert(t.drop_last() == text@.take(i as int));
            assert(t.last() == text@[i as int]);
            assert(Seq::new(width as nat, |k: int| i) =~= Seq::new(
                char_lowercase(t.last()).len(),
                |k: int| (t.len() - 1) as usize,
            ));
        }
        lowered.append(&mut piece);
        i += 1;
    }
    assert(text@.take(text.len() as int) == text@);
    LowercaseIndex { lowered, source, text_len: text.len() }
}

/// Every lowercase character comes from a character of the text.
pub proof fn lemma_source_map_in_text(s: Seq<char>)
    requires
        s.len() <= usize::MAX,
    ensures
        forall|k: int| 0 <= k < source_map(s).len() ==> #[trigger] source_map(s)[k] < s.len(),
    decreases s.len(),
{
    if s.len() > 0 {
        lemma_source_map_in_text(s.drop_last());
        let head = source_map(s.drop_last());
        assert forall|k: int| 0 <= k < source_map(s).len() implies #[trigger] source_map(s)[k]
            < s.len() by {
            if k < head.len() {
                assert(source_map(s)[k] == head[k]);
            }
        }
    }
}

/// The characters of the text that the lowercase characters `a..b` come
/// from.
pub open spec fn source_range(source: Seq<usize>, a: int, b: int) -> Option<Span> {
    if a < 0 || a >= b || b > source.len() {
        None
    } else if source[a] < source[b - 1] + 1 {
        Some(Span { start: source[a], end: (source[b - 1] + 1) as usize })
    } else {
        None
    }
}

/// Maps a range of the lowercase form back to the text.
pub fn source_range_for_lower_range(
    index: &LowercaseIndex,
    lower_start: usize,
    lower_end: usize,
) -> (r: Option<Span>)
    requires
        index.wf(),
    ensures
        r == source_range(index.source@, lower_start as int, lower_end as int),
        span_fits(r, index.text_len as int),
{
    if lower_start >= lower_end || lower_end > index.source.len() {
        return None;
    }
    let start: usize = index.source[lower_start];
    let end: usize = index.source[lower_end - 1] + 1;
    if start < end {
        Some(Span { start, end })
    } else {
        None
    }
}

/// Where a term first occurs in a text, case-insensitively.
pub open spec fn term_occurrence(text: Seq<char>, term: Seq<char>) -> Option<Span> {
    let needle = text_lowercase(term);
    if term.len() == 0 || needle.len() == 0 {
        None
    } else {
        match first_match(lowered_by_char(text), needle, 0) {
            None => None,
            Some(p) => source_range(source_map(text), p, p + needle.len()),
        }
    }
}

/// The better of two occurrences: the earlier one, and of two that begin
/// together the longer one.
pub open spec fn prefer(best: Option<Span>, found: Option<Span>) -> Option<Span> {
    match found {
        None => best,
        Some(f) => match best {
            None => found,
            Some(b) => if f.start < b.start || (f.start == b.start && f.end - f.start > b.end
                - b.start) {
                found
            } else {
                best
            },
        },
    }
}

/// The best occurrence after the terms from `k` on were looked up.
pub open spec fn exact_from(text: Seq<char>, terms: Seq<Seq<char>>, k: int, best: Option<Span>) -> Option<
    Span,
>
    decreases terms.len() - k,
{
    if k < 0 || k >= terms.len() {
        best
    } else {
        exact_from(text, terms, k + 1, prefer(best, term_occurrence(text, terms[k])))
    }
}

/// The earliest place at which any of the terms occurs in the text,
/// case-insensitively; the longest of those that begin there.
pub open spec fn first_exact_match(text: Seq<char>, terms: Seq<Seq<char>>) -> Option<Span> {
    exact_from(text, terms, 0, None)
}

/// `a` is at least as good a place for a snippet as `b`: it begins earlier,
/// or begins at the same place and is no shorter.
pub open spec fn no_later(a: Span, b: Span) -> bool {
    a.start < b.start || (a.start == b.start && a.end - a.start >= b.end - b.start)
}

proof fn lemma_exact_from(text: Seq<char>, terms: Seq<Seq<char>>, k: int, best: Option<Span>)
    requires
        0 <= k <= terms.len(),
    ensures
        best is Some ==> exact_from(text, terms, k, best) is Some && no_later(
            exact_from(text, terms, k, best)->0,
            best->0,
        ),
        forall|j: int|
            k <= j < terms.len() && term_occurrence(text, #[trigger] terms[j]) is Some
                ==> exact_from(text, terms, k, best) is Some && no_later(
                exact_from(text, terms, k, best)->0,
                term_occurrence(text, terms[j])->0,
            ),
        exact_from(text, terms, k, best) == best || exists|j: int|
            k <= j < terms.len() && exact_from(text, terms, k, best) == term_occurrence(
                text,
                #[trigger] terms[j],
            ),
    decreases terms.len() - k,
{
    if k < terms.len() {
        let found = term_occurrence(text, terms[k]);
        let next = prefer(best, found);
        lemma_exact_from(text, terms, k + 1, next);
        let r = exact_from(text, terms, k, best);
        assert(r == exact_from(text, terms, k + 1, next));
        if r != best {
            if r == next {
                assert(r == term_occurrence(text, terms[k]));
            } else {
                let j = choose|j: int|
                    k + 1 <= j < terms.len() && r == term_occurrence(text, #[trigger] terms[j]);
                assert(k <= j < terms.len() && r == term_occurrence(text, terms[j]));
            }
        }
    }
}

/// The exact match of a text is an occurrence of one of the terms; it
/// begins no later than any occurrence of any term, and is no shorter than
/// those that begin where it begins. There is one as soon as any term
/// occurs.
pub proof fn lemma_first_exact_match_is_earliest(text: Seq<char>, terms: Seq<Seq<char>>)
    ensures
        forall|j: int|
            0 <= j < terms.len() && term_occurrence(text, #[trigger] terms[j]) is Some
                ==> first_exact_match(text, terms) is Some && no_later(
                first_exact_match(text, terms)->0,
                term_occurrence(text, terms[j])->0,
            ),
        first_exact_match(text, terms) is Some ==> exists|j: int|
            0 <= j < terms.len() && first_exact_match(text, terms) == term_occurrence(
                text,
                #[trigger] terms[j],
            ),
{
    lemma_exact_from(text, terms, 0, None);
}

/// A span that lies in a text of `len` characters and is not empty.
pub open spec fn span_fits(r: Option<Span>, len: int) -> bool {
    match r {
        Some(span) => span.start < span.end <= len,
        None => true,
    }
}

fn find_term(index: &LowercaseIndex, term: &Vec<char>, text: Ghost<Seq<char>>) -> (r: Option<Span>)
    requires
        index.describes(text@),
    ensures
        r == term_occurrence(text@, term@),
        span_fits(r, text@.len() as int),
{
    if term.len() == 0 {
        return None;
    }
    let needle = lower_whole(term);
    if needle.len() == 0 {
        return None;
    }
    match find_from(&index.lowered, &needle, 0) {
        Some(p) => source_range_for_lower_range(index, p, p + needle.len()),
        None => None,
    }
}

/// Finds the earliest, longest exact occurrence of any term.
pub fn first_exact_match_position(text: &Vec<char>, terms: &Vec<Vec<char>>) -> (r: Option<Span>)
    ensures
        r == first_exact_match(text@, views(terms@)),
        span_fits(r, text.len() as int),
{
    let index = build_lowercase_index(text);
    let mut best: Option<Span> = None;
    let mut k: usize = 0;
    while k < terms.len()
        invariant
            k <= terms.len(),
            index.describes(text@),
            first_exact_match(text@, views(terms@)) == exact_from(
                text@,
                views(terms@),
                k as int,
                best,
            ),
            span_fits(best, text.len() as int),
        decreases terms.len() - k,
    {
        assert(views(terms@)[k as int] == terms[k as int]@);
        let found = find_term(&index, &terms[k], Ghost(text@));
        match found {
            None => {},
            Some(f) => {
                match best {
                    None => {
                        best = found;
                    },
                    Some(b) => {
                        if f.start < b.start || (f.start == b.start && f.end - f.start > b.end
                            - b.start) {
                            best = found;
                        }
                    },
                }
            },
        }
        k += 1;
    }
    best
}

/// The mask with the positions `a..b` set.
pub open spec fn marked(mask: Seq<bool>, a: int, b: int) -> Seq<bool> {
    Seq::new(mask.len(), |i: int| mask[i] || (a <= i < b))
}

/// The mask with all occurrences of one lowercased term set that a scan of
/// the lowercase text finds from `from` on, each scan going on behind the
/// occurrence found.
pub open spec fn term_marks_from(
    lowered: Seq<char>,
    source: Seq<usize>,
    needle: Seq<char>,
    from: int,
    mask: Seq<bool>,
) -> Seq<bool>
    decreases lowered.len() - from,
{
    if from < 0 || from >= lowered.len() {
        mask
    } else {
        match first_match(lowered, needle, from) {
            None => mask,
            Some(p) => {
                let end = p + needle.len();
                if end <= from || end > lowered.len() {
                    mask
                } else {
                    term_marks_from(
                        lowered,
                        source,
                        needle,
                        end,
                        match source_range(source, p, end) {
                            Some(r) => marked(mask, r.start as int, r.end as int),
                            None => mask,
                        },
                    )
                }
            },
        }
    }
}

/// The mask with the occurrences of one term set.
pub open spec fn term_marks(text: Seq<char>, term: Seq<char>, mask: Seq<bool>) -> Seq<bool> {
    let needle = text_lowercase(term);
    if term.len() == 0 || needle.len() == 0 {
        mask
    } else {
        term_marks_from(lowered_by_char(text), source_map(text), needle, 0, mask)
    }
}

/// The mask with the occurrences of the terms from `k` on set.
pub open spec fn all_marks_from(text: Seq<char>, terms: Seq<Seq<char>>, k: int, mask: Seq<bool>) -> Seq<
    bool,
>
    decreases terms.len() - k,
{
    if k < 0 || k >= terms.len() {
        mask
    } else {
        all_marks_from(text, terms, k + 1, term_marks(text, terms[k], mask))
    }
}

/// A mask of the given length with nothing set.
pub open spec fn clear_mask(len: nat) -> Seq<bool> {
    Seq::new(len, |i: int| false)
}

/// The characters of the text that lie in an occurrence of any term.
pub open spec fn highlight_mask(text: Seq<char>, terms: Seq<Seq<char>>) -> Seq<bool> {
    all_marks_from(text, terms, 0, clear_mask(text.len()))
}

/// Whether position `i` is set in the mask; positions outside are not.
pub open spec fn covered(mask: Seq<bool>, i: int) -> bool {
    0 <= i < mask.len() && mask[i]
}

/// The marker that begins and ends a highlight.
pub open spec fn marker() -> Seq<char> {
    seq!['*', '*']
}

/// The text from `i` on, with a marker wherever the mask changes between a
/// character and the one before it, appended to `acc`.
pub open spec fn render_from(text: Seq<char>, mask: Seq<bool>, i: int, acc: Seq<char>) -> Seq<char>
    decreases text.len() - i,
{
    let here = if covered(mask, i) != covered(mask, i - 1) {
        acc + marker()
    } else {
        acc
    };
    if i < 0 || i >= text.len() {
        here
    } else {
        render_from(text, mask, i + 1, here.push(text[i]))
    }
}

/// The text with markers around each maximal run of set positions.
pub open spec fn rendered(text: Seq<char>, mask: Seq<bool>) -> Seq<char> {
    render_from(text, mask, 0, Seq::empty())
}

/// The text with markers around the occurrences of the terms; occurrences
/// that overlap or touch share one pair of markers.
pub open spec fn highlighted(text: Seq<char>, terms: Seq<Seq<char>>) -> Seq<char> {
    rendered(text, highlight_mask(text, terms))
}

/// The text with markers around the characters `start..end`.
pub open spec fn highlighted_span(text: Seq<char>, start: int, end: int) -> Seq<char> {
    rendered(text, marked(clear_mask(text.len()), start, end))
}

proof fn lemma_render_from_without(
    text: Seq<char>,
    mask: Seq<bool>,
    needle: Seq<char>,
    i: int,
    acc: Seq<char>,
    m: int,
)
    requires
        0 <= i <= text.len(),
        needle.len() > 0,
        forall|k: int| 0 <= k < needle.len() ==> #[trigger] needle[k] != '*',
        !contains(text, needle),
        !contains(acc, needle),
        0 <= m <= acc.len(),
        m <= i,
        forall|k: int| 0 <= k < m ==> #[trigger] acc[acc.len() - m + k] == text[i - m + k],
        m == acc.len() || acc[acc.len() - m - 1] == '*',
    ensures
        !contains(render_from(text, mask, i, acc), needle),
    decreases text.len() - i,
{
    let marks = covered(mask, i) != covered(mask, i - 1);
    let here = if marks { acc + marker() } else { acc };
    let clean = if marks { 0 } else { m };
    if marks {
        assert(foreign_to(marker(), needle));
        assert(foreign_to(Seq::<char>::empty(), needle));
        lemma_foreign_ends(acc, needle, Seq::empty(), marker());
        assert(Seq::<char>::empty() + acc + marker() =~= here);
        assert(here[here.len() - 1] == '*');
    }
    if i < text.len() {
        let c = text[i];
        let next = here.push(c);
        let n = next.len() as int;
        if c == '*' {
            assert(!contains(next, needle)) by {
                if contains(next, needle) {
                    let q = choose|q: int| matches_at(next, needle, q);
                    if q + needle.len() == n {
                        let k = needle.len() - 1;
                        assert(next[q + k] == needle[k]);
                    } else {
                        assert forall|k: int| 0 <= k < needle.len() implies here[q + k]
                            == #[trigger] needle[k] by {
                            assert(next[q + k] == here[q + k]);
                        }
                        assert(matches_at(here, needle, q));
                    }
                }
            }
            lemma_render_from_without(text, mask, needle, i + 1, next, 0);
        } else {
            let grown = clean + 1;
            assert forall|k: int| 0 <= k < grown implies #[trigger] next[n - grown + k] == text[i
                + 1 - grown + k] by {
                if k < clean {
                    assert(next[n - grown + k] == here[here.len() - clean + k]);
                }
            }
            assert(grown == n || next[n - grown - 1] == '*') by {
                if grown != n {
                    assert(next[n - grown - 1] == here[here.len() - clean - 1]);
                }
            }
            assert(!contains(next, needle)) by {
                if contains(next, needle) {
                    let q = choose|q: int| matches_at(next, needle, q);
                    if q + needle.len() < n {
                        assert forall|k: int| 0 <= k < needle.len() implies here[q + k]
                            == #[trigger] needle[k] by {
                            assert(next[q + k] == here[q + k]);
                        }
                        assert(matches_at(here, needle, q));
                    } else if q < n - grown {
                        let k = n - grown - 1 - q;
                        assert(next[q + k] == needle[k]);
                    } else {
                        let p = i + 1 - (n - q);
                        assert forall|k: int| 0 <= k < needle.len() implies text[p + k]
                            == #[trigger] needle[k] by {
                            assert(next[q + k] == needle[k]);
                            assert(next[n - grown + (q - (n - grown) + k)] == text[i + 1 - grown + (q
                                - (n - grown) + k)]);
                        }
                        assert(matches_at(text, needle, p));
                    }
                }
            }
            lemma_render_from_without(text, mask, needle, i + 1, next, grown);
        }
    }
}

/// Markers bring nothing else into a text: a text that does not hold
/// `needle` does not hold it with markers either, as long as `needle`
/// holds no asterisk.
pub proof fn lemma_rendered_without(text: Seq<char>, mask: Seq<bool>, needle: Seq<char>)
    requires
        needle.len() > 0,
        forall|k: int| 0 <= k < needle.len() ==> #[trigger] needle[k] != '*',
        !contains(text, needle),
    ensures
        !contains(rendered(text, mask), needle),
{
    let none = Seq::<char>::empty();
    assert(!contains(none, needle)) by {
        if contains(none, needle) {
            let q = choose|q: int| matches_at(none, needle, q);
        }
    }
    lemma_render_from_without(text, mask, needle, 0, none, 0);
}

/// Makes a mask of `len` positions with nothing set.
pub fn new_mask(len: usize) -> (mask: Vec<bool>)
    ensures
        mask@ == clear_mask(len as nat),
{
    let mut mask: Vec<bool> = Vec::new();
    let mut i: usize = 0;
    while i < len
        invariant
            i <= len,
            mask@ == clear_mask(i as nat),
        decreases len - i,
    {
        mask.push(false);
        i += 1;
        assert(mask@ =~= clear_mask(i as nat));
    }
    mask
}

/// Sets the positions `a..b` of the mask, as far as they lie in it.
pub fn mark_range(mask: &mut Vec<bool>, a: usize, b: usize)
    ensures
        final(mask)@ == marked(old(mask)@, a as int, b as int),
{
    let ghost before = mask@;
    let stop: usize = if b < mask.len() { b } else { mask.len() };
    let mut i: usize = a;
    while i < stop
        invariant
            a <= i,
            stop <= mask.len(),
            stop <= b,
            stop == b || stop == mask.len(),
            i <= stop || i == a,
            mask.len() == before.len(),
            forall|j: int| 0 <= j < mask.len() ==> #[trigger] mask[j] == (before[j] || (a <= j < i)),
        decreases stop - i,
    {
        mask.set(i, true);
        i += 1;
    }
    assert(mask@ =~= marked(before, a as int, b as int));
}

fn mark_term(index: &LowercaseIndex, term: &Vec<char>, mask: &mut Vec<bool>, text: Ghost<Seq<char>>)
    requires
        index.describes(text@),
    ensures
        final(mask)@ == term_marks(text@, term@, old(mask)@),
{
    if term.len() == 0 {
        return ;
    }
    let needle = lower_whole(term);
    if needle.len() == 0 {
        return ;
    }
    let mut from: usize = 0;
    while from < index.lowered.len()
        invariant
            index.describes(text@),
            needle@.len() > 0,
            term_marks(text@, term@, old(mask)@) == term_marks_from(
                index.lowered@,
                index.source@,
                needle@,
                from as int,
                mask@,
            ),
        decreases index.lowered.len() - from,
    {
        match find_from(&index.lowered, &needle, from) {
            None => {
                return ;
            },
            Some(p) => {
                let end: usize = p + needle.len();
                match source_range_for_lower_range(index, p, end) {
                    Some(r) => {
                        mark_range(mask, r.start, r.end);
                    },
                    None => {},
                }
                from = end;
            },
        }
    }
}

/// Marks the characters of the text that lie in an occurrence of a term.
pub fn mark_terms(text: &Vec<char>, terms: &Vec<Vec<char>>) -> (mask: Vec<bool>)
    ensures
        mask@ == highlight_mask(text@, views(terms@)),
{
    let index = build_lowercase_index(text);
    let mut mask = new_mask(text.len());
    let mut k: usize = 0;
    while k < terms.len()
        invariant
            k <= terms.len(),
            index.describes(text@),
            highlight_mask(text@, views(terms@)) == all_marks_from(
                text@,
                views(terms@),
                k as int,
                mask@,
            ),
        decreases terms.len() - k,
    {
        assert(views(terms@)[k as int] == terms[k as int]@);
        mark_term(&index, &terms[k], &mut mask, Ghost(text@));
        k += 1;
    }
    mask
}

/// Writes the text with a marker wherever the mask changes.
pub fn render_marked(text: &Vec<char>, mask: &Vec<bool>) -> (out: Vec<char>)
    requires
        mask.len() == text.len(),
    ensures
        out@ == rendered(text@, mask@),
{
    let mut out: Vec<char> = Vec::new();
    let mut before = false;
    let mut i: usize = 0;
    while i < text.len()
        invariant
            i <= text.len(),
            mask.len() == text.len(),
            before == covered(mask@, i - 1),
            rendered(text@, mask@) == render_from(text@, mask@, i as int, out@),
        decreases text.len() - i,
    {
        let here = mask[i];
        let ghost prev = out@;
        if here != before {
            out.push('*');
            out.push('*');
            assert(out@ =~= prev + marker());
        }
        out.push(text[i]);
        before = here;
        i += 1;
    }
    let ghost prev = out@;
    if before {
        out.push('*');
        out.push('*');
        assert(out@ =~= prev + marker());
    }
    out
}

} // verus!
