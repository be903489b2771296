//! Character-level text utilities shared by the sanitizer, the scorer and the
//! snippet builder. Texts are handled as sequences of Unicode scalar values;
//! byte widths are derived from them where a limit is counted in UTF-8 bytes.

use vstd::prelude::*;

verus! {

/// A half-open range `start..end` of character positions.
#[derive(Clone, Copy, Debug, PartialEq, Eq, Structural)]
pub struct Span {
    pub start: usize,
    pub end: usize,
}

/// The lowercase mapping of one character, as the standard library defines it.
pub uninterp spec fn char_lowercase(c: char) -> Seq<char>;

/// The lowercase form of a whole text, as the standard library defines it.
pub uninterp spec fn text_lowercase(s: Seq<char>) -> Seq<char>;

/// Whether a character has the Unicode `White_Space` property.
pub uninterp spec fn char_is_whitespace(c: char) -> bool;

/// Whether a character is alphabetic or numeric in the Unicode sense.
pub uninterp spec fn char_is_alphanumeric(c: char) -> bool;

/// Number of bytes that `c` occupies in UTF-8.
pub open spec fn utf8_width(c: char) -> nat {
    if (c as u32) < 0x80 {
        1
    } else if (c as u32) < 0x800 {
        2
    } else if (c as u32) < 0x1_0000 {
        3
    } else {
        4
    }
}

/// Number of bytes of a text in UTF-8, as the length of a string counts
/// them.
pub open spec fn byte_length(s: Seq<char>) -> usize {
    vstd::utf8::encode_utf8(s).len() as usize
}

/// `needle` occurs in `hay` at position `pos`.
pub open spec fn matches_at(hay: Seq<char>, needle: Seq<char>, pos: int) -> bool {
    &&& 0 <= pos
    &&& pos + needle.len() <= hay.len()
    &&& forall|k: int| 0 <= k < needle.len() ==> hay[pos + k] == #[trigger] needle[k]
}

/// Position of the first occurrence of `needle` in `hay` at or after `from`.
pub open spec fn first_match(hay: Seq<char>, needle: Seq<char>, from: int) -> Option<int>
    decreases hay.len() - from,
{
    if from < 0 || from + needle.len() > hay.len() {
        None
    } else if matches_at(hay, needle, from) {
        Some(from)
    } else {
        first_match(hay, needle, from + 1)
    }
}

/// `needle` occurs somewhere in `hay`.
pub open spec fn contains(hay: Seq<char>, needle: Seq<char>) -> bool {
    exists|p: int| matches_at(hay, needle, p)
}

/// First position at or after `i` that holds no whitespace.
pub open spec fn skip_whitespace(s: Seq<char>, i: int) -> int
    decreases s.len() - i,
{
    if 0 <= i < s.len() && char_is_whitespace(s[i]) {
        skip_whitespace(s, i + 1)
    } else {
        i
    }
}

/// End of the text before `j` once trailing whitespace is removed.
pub open spec fn skip_whitespace_back(s: Seq<char>, j: int) -> int
    decreases j,
{
    if 0 < j <= s.len() && char_is_whitespace(s[j - 1]) {
        skip_whitespace_back(s, j - 1)
    } else {
        j
    }
}

/// The text without leading and trailing whitespace.
pub open spec fn trimmed(s: Seq<char>) -> Seq<char> {
    let a = skip_whitespace(s, 0);
    let b = skip_whitespace_back(s, s.len() as int);
    if a < b {
        s.subrange(a, b)
    } else {
        Seq::empty()
    }
}

/// None of the characters of `extra` occurs in `needle`.
pub open spec fn foreign_to(extra: Seq<char>, needle: Seq<char>) -> bool {
    forall|i: int, k: int|
        0 <= i < extra.len() && 0 <= k < needle.len() ==> #[trigger] extra[i] != #[trigger] needle[k]
}

/// A text that does not hold `needle` does not come to hold it when
/// characters that `needle` lacks are put in front of it or behind it.
pub proof fn lemma_foreign_ends(text: Seq<char>, needle: Seq<char>, front: Seq<char>, back: Seq<char>)
    requires
        needle.len() > 0,
        !contains(text, needle),
        foreign_to(front, needle),
        foreign_to(back, needle),
    ensures
        !contains(front + text + back, needle),
{
    let all = front + text + back;
    if contains(all, needle) {
        let q = choose|q: int| matches_at(all, needle, q);
        if q < front.len() {
            assert(all[q + 0] == needle[0]);
            assert(all[q] == front[q]);
        } else if q + needle.len() > front.len() + text.len() {
            let k = needle.len() - 1;
            assert(all[q + k] == needle[k]);
            assert(all[q + k] == back[q + k - front.len() - text.len()]);
        } else {
            let r = q - front.len();
            assert forall|k: int| 0 <= k < needle.len() implies text[r + k] == #[trigger] needle[k] by {
                assert(all[q + k] == text[r + k]);
            }
            assert(matches_at(text, needle, r));
        }
    }
}

/// A part of a text that does not hold `needle` does not hold it either.
pub proof fn lemma_part_without(text: Seq<char>, needle: Seq<char>, a: int, b: int)
    requires
        0 <= a <= b <= text.len(),
        !contains(text, needle),
    ensures
        !contains(text.subrange(a, b), needle),
{
    let part = text.subrange(a, b);
    if contains(part, needle) {
        let q = choose|q: int| matches_at(part, needle, q);
        assert forall|k: int| 0 <= k < needle.len() implies text[a + q + k] == #[trigger] needle[k] by {
            assert(part[q + k] == text[a + q + k]);
        }
        assert(matches_at(text, needle, a + q));
    }
}

/// Skipping whitespace stops in the text, at a character that is none.
pub proof fn lemma_skip_whitespace(s: Seq<char>, i: int)
    requires
        0 <= i <= s.len(),
    ensures
        i <= skip_whitespace(s, i) <= s.len(),
        skip_whitespace(s, i) < s.len() ==> !char_is_whitespace(s[skip_whitespace(s, i)]),
    decreases s.len() - i,
{
    if i < s.len() && char_is_whitespace(s[i]) {
        lemma_skip_whitespace(s, i + 1);
    }
}

/// Skipping whitespace backwards stops in the text, behind a character
/// that is none.
pub proof fn lemma_skip_whitespace_back(s: Seq<char>, j: int)
    requires
        0 <= j <= s.len(),
    ensures
        0 <= skip_whitespace_back(s, j) <= j,
        skip_whitespace_back(s, j) > 0 ==> !char_is_whitespace(s[skip_whitespace_back(s, j) - 1]),
    decreases j,
{
    if 0 < j && char_is_whitespace(s[j - 1]) {
        lemma_skip_whitespace_back(s, j - 1);
    }
}

/// Trimming a trimmed text changes nothing.
pub proof fn lemma_trimmed_twice(s: Seq<char>)
    ensures
        trimmed(trimmed(s)) == trimmed(s),
{
    let a = skip_whitespace(s, 0);
    let b = skip_whitespace_back(s, s.len() as int);
    lemma_skip_whitespace(s, 0);
    lemma_skip_whitespace_back(s, s.len() as int);
    let t = trimmed(s);
    if a < b {
        assert(t[0] == s[a]);
        assert(t[t.len() - 1] == s[b - 1]);
        assert(skip_whitespace(t, 0) == 0);
        assert(skip_whitespace_back(t, t.len() as int) == t.len());
        assert(t.subrange(0, t.len() as int) =~= t);
    } else {
        assert(t.len() == 0);
        assert(skip_whitespace(t, 0) == 0);
        assert(skip_whitespace_back(t, 0) == 0);
    }
}

/// Maximal runs of `true` in `mask`, scanning from `i` with the run that is
/// open at `i` (if any) and the runs already closed.
pub open spec fn runs_from(mask: Seq<bool>, i: int, open: Option<usize>, done: Seq<Span>) -> Seq<Span>
    decreases mask.len() - i,
{
    if i < 0 || i >= mask.len() {
        match open {
            Some(s) => done.push(Span { start: s, end: mask.len() as usize }),
            None => done,
        }
    } else if mask[i] {
        runs_from(mask, i + 1, if open is None { Some(i as usize) } else { open }, done)
    } else {
        match open {
            Some(s) => runs_from(mask, i + 1, None, done.push(Span { start: s, end: i as usize })),
            None => runs_from(mask, i + 1, None, done),
        }
    }
}

/// The maximal runs of `true` in `mask`, in order.
pub open spec fn runs(mask: Seq<bool>) -> Seq<Span> {
    runs_from(mask, 0, None, Seq::empty())
}

/// The span is a run of `true` that cannot be made longer at either end.
pub open spec fn is_maximal_run(mask: Seq<bool>, span: Span) -> bool {
    &&& span.start < span.end <= mask.len()
    &&& forall|i: int| span.start <= i < span.end ==> #[trigger] mask[i]
    &&& (span.start == 0 || !mask[span.start - 1])
    &&& (span.end == mask.len() || !mask[span.end as int])
}

/// The spans are maximal runs, each lies behind the one before it, and
/// every `true` below `upto` lies in one of them.
pub open spec fn are_runs_up_to(mask: Seq<bool>, spans: Seq<Span>, upto: int) -> bool {
    &&& forall|k: int| 0 <= k < spans.len() ==> is_maximal_run(mask, #[trigger] spans[k])
    &&& forall|k: int| 0 <= k < spans.len() - 1 ==> (#[trigger] spans[k]).end < spans[k + 1].start
    &&& forall|i: int|
        0 <= i < upto && #[trigger] mask[i] ==> exists|k: int|
            0 <= k < spans.len() && (#[trigger] spans[k]).start <= i < spans[k].end
}

proof fn lemma_runs_from(mask: Seq<bool>, i: int, open: Option<usize>, done: Seq<Span>)
    requires
        0 <= i <= mask.len() <= usize::MAX,
        forall|k: int| 0 <= k < done.len() ==> is_maximal_run(mask, #[trigger] done[k]),
        forall|k: int| 0 <= k < done.len() - 1 ==> (#[trigger] done[k]).end < done[k + 1].start,
        forall|k: int| 0 <= k < done.len() ==> (#[trigger] done[k]).end < i,
        match open {
            Some(s) => {
                &&& s < i
                &&& forall|p: int| s <= p < i ==> #[trigger] mask[p]
                &&& (s == 0 || !mask[s - 1])
                &&& forall|k: int| 0 <= k < done.len() ==> (#[trigger] done[k]).end < s
            },
            None => i == 0 || !mask[i - 1],
        },
        forall|p: int|
            0 <= p < i && #[trigger] mask[p] ==> (open is Some && open->0 <= p) || exists|k: int|
                0 <= k < done.len() && (#[trigger] done[k]).start <= p < done[k].end,
    ensures
        are_runs_up_to(mask, runs_from(mask, i, open, done), mask.len() as int),
    decreases mask.len() - i,
{
    let n = mask.len() as int;
    if i >= n {
        match open {
            Some(s) => {
                let last = Span { start: s, end: n as usize };
                let all = done.push(last);
                assert(is_maximal_run(mask, last));
                assert forall|k: int| 0 <= k < all.len() implies is_maximal_run(
                    mask,
                    #[trigger] all[k],
                ) by {
                    if k < done.len() {
                        assert(all[k] == done[k]);
                    }
                }
                assert forall|k: int| 0 <= k < all.len() - 1 implies (#[trigger] all[k]).end
                    < all[k + 1].start by {
                    assert(all[k] == done[k]);
                    if k + 1 < done.len() {
                        assert(all[k + 1] == done[k + 1]);
                    }
                }
                assert forall|p: int| 0 <= p < n && #[trigger] mask[p] implies exists|k: int|
                    0 <= k < all.len() && (#[trigger] all[k]).start <= p < all[k].end by {
                    if s <= p {
                        assert(all[done.len() as int].start <= p < all[done.len() as int].end);
                    } else {
                        let k = choose|k: int|
                            0 <= k < done.len() && (#[trigger] done[k]).start <= p < done[k].end;
                        assert(all[k] == done[k]);
                    }
                }
            },
            None => {},
        }
    } else if mask[i] {
        let next = if open is None { Some(i as usize) } else { open };
        lemma_runs_from(mask, i + 1, next, done);
    } else {
        match open {
            Some(s) => {
                let last = Span { start: s, end: i as usize };
                let all = done.push(last);
                assert(is_maximal_run(mask, last));
                assert forall|k: int| 0 <= k < all.len() implies is_maximal_run(
                    mask,
                    #[trigger] all[k],
                ) by {
                    if k < done.len() {
                        assert(all[k] == done[k]);
                    }
                }
                assert forall|k: int| 0 <= k < all.len() - 1 implies (#[trigger] all[k]).end
                    < all[k + 1].start by {
                    assert(all[k] == done[k]);
                    if k + 1 < done.len() {
                        assert(all[k + 1] == done[k + 1]);
                    }
                }
                assert forall|k: int| 0 <= k < all.len() implies (#[trigger] all[k]).end < i + 1 by {
                    if k < done.len() {
                        assert(all[k] == done[k]);
                    }
                }
                assert forall|p: int| 0 <= p < i + 1 && #[trigger] mask[p] implies exists|k: int|
                    0 <= k < all.len() && (#[trigger] all[k]).start <= p < all[k].end by {
                    if s <= p {
                        assert(all[done.len() as int].start <= p < all[done.len() as int].end);
                    } else {
                        let k = choose|k: int|
                            0 <= k < done.len() && (#[trigger] done[k]).start <= p < done[k].end;
                        assert(all[k] == done[k]);
                    }
                }
                lemma_runs_from(mask, i + 1, None, all);
            },
            None => {
                lemma_runs_from(mask, i + 1, None, done);
            },
        }
    }
}

/// The runs of a mask are its maximal runs of `true`, in their order, and
/// every `true` lies in one of them.
pub proof fn lemma_runs_are_maximal(mask: Seq<bool>)
    requires
        mask.len() <= usize::MAX,
    ensures
        are_runs_up_to(mask, runs(mask), mask.len() as int),
{
    lemma_runs_from(mask, 0, None, Seq::empty());
}

/// The characters that are not whitespace, as a mask.
pub open spec fn non_whitespace_mask(s: Seq<char>) -> Seq<bool> {
    Seq::new(s.len(), |i: int| !char_is_whitespace(s[i]))
}

/// The alphanumeric characters, as a mask.
pub open spec fn alphanumeric_mask(s: Seq<char>) -> Seq<bool> {
    Seq::new(s.len(), |i: int| char_is_alphanumeric(s[i]))
}

/// The whitespace-delimited tokens of a text, as spans.
pub open spec fn token_spans(s: Seq<char>) -> Seq<Span> {
    runs(non_whitespace_mask(s))
}

/// The lowercase form of a text taken character by character.
pub open spec fn lowered_by_char(s: Seq<char>) -> Seq<char>
    decreases s.len(),
{
    if s.len() == 0 {
        Seq::empty()
    } else {
        lowered_by_char(s.drop_last()) + char_lowercase(s.last())
    }
}

/// Calls `String::push`: the string grows by exactly the given character.
#[verifier::external_body]
fn push_char(s: &mut String, c: char)
    ensures
        final(s)@ == old(s)@.push(c),
{
    s.push(c);
}

/// Calls `char::to_lowercase` and collects the characters it yields; the
/// result is named `char_lowercase`.
#[verifier::external_body]
pub(crate) fn lower_char(c: char) -> (out: Vec<char>)
    ensures
        out@ == char_lowercase(c),
{
    c.to_lowercase().collect()
}

/// Calls `str::to_lowercase`; the result is named `text_lowercase`.
#[verifier::external_body]
pub(crate) fn lower_text(s: &str) -> (out: String)
    ensures
        out@ == text_lowercase(s@),
{
    s.to_lowercase()
}

/// Calls `char::is_whitespace`; the result is named `char_is_whitespace`.
#[verifier::external_body]
pub(crate) fn is_whitespace(c: char) -> (b: bool)
    ensures
        b == char_is_whitespace(c),
{
    c.is_whitespace()
}

/// Calls `char::is_alphanumeric`; the result is named `char_is_alphanumeric`.
#[verifier::external_body]
pub(crate) fn is_alphanumeric(c: char) -> (b: bool)
    ensures
        b == char_is_alphanumeric(c),
{
    c.is_alphanumeric()
}

/// Computes the UTF-8 width of one character.
pub fn char_width(c: char) -> (w: usize)
    ensures
        w == utf8_width(c),
        1 <= w <= 4,
{
    let v: u32 = c as u32;
    if v < 0x80 {
        1
    } else if v < 0x800 {
        2
    } else if v < 0x1_0000 {
        3
    } else {
        4
    }
}

/// Collects the characters of a string slice.
pub fn to_chars(s: &str) -> (out: Vec<char>)
    ensures
        out@ == s@,
{
    let mut out: Vec<char> = Vec::new();
    let it = s.chars();
    for c in iter: it
        invariant
            iter.seq() == s@,
            out@ == s@.take(iter.index()),
    {
        out.push(c);
    }
    out
}

/// Builds a string from characters.
pub fn from_chars(v: &Vec<char>) -> (out: String)
    ensures
        out@ == v@,
{
    let mut out = String::new();
    let mut i: usize = 0;
    while i < v.len()
        invariant
            i <= v.len(),
            out@ == v@.take(i as int),
        decreases v.len() - i,
    {
        push_char(&mut out, v[i]);
        i += 1;
    }
    out
}

/// Appends the characters `v[a..b]` to `out`.
pub fn append_range(out: &mut Vec<char>, v: &Vec<char>, a: usize, b: usize)
    requires
        a <= b <= v.len(),
    ensures
        final(out)@ == old(out)@ + v@.subrange(a as int, b as int),
{
    let mut i: usize = a;
    while i < b
        invariant
            a <= i <= b <= v.len(),
            out@ == old(out)@ + v@.subrange(a as int, i as int),
        decreases b - i,
    {
        out.push(v[i]);
        i += 1;
    }
}

/// Copies the characters `v[a..b]`.
pub fn copy_range(v: &Vec<char>, a: usize, b: usize) -> (out: Vec<char>)
    requires
        a <= b <= v.len(),
    ensures
        out@ == v@.subrange(a as int, b as int),
{
    let mut out: Vec<char> = Vec::new();
    append_range(&mut out, v, a, b);
    out
}

/// Tests whether `needle` occurs in `hay` at `pos`.
pub fn occurs_at(hay: &Vec<char>, needle: &Vec<char>, pos: usize) -> (b: bool)
    ensures
        b == matches_at(hay@, needle@, pos as int),
{
    if needle.len() > hay.len() || pos > hay.len() - needle.len() {
        return false;
    }
    let mut k: usize = 0;
    while k < needle.len()
        invariant
            k <= needle.len(),
            pos + needle.len() <= hay.len(),
            forall|j: int| 0 <= j < k ==> hay@[pos + j] == #[trigger] needle@[j],
        decreases needle.len() - k,
    {
        if hay[pos + k] != needle[k] {
            return false;
        }
        k += 1;
    }
    true
}

/// Finds the first occurrence of `needle` in `hay` at or after `from`.
pub fn find_from(hay: &Vec<char>, needle: &Vec<char>, from: usize) -> (r: Option<usize>)
    ensures
        match r {
            Some(p) => {
                &&& first_match(hay@, needle@, from as int) == Some(p as int)
                &&& from <= p
                &&& matches_at(hay@, needle@, p as int)
                &&& forall|q: int| from <= q < p ==> !matches_at(hay@, needle@, q)
            },
            None => {
                &&& first_match(hay@, needle@, from as int) is None
                &&& forall|q: int| from <= q ==> !matches_at(hay@, needle@, q)
            },
        },
{
    if needle.len() > hay.len() {
        return None;
    }
    let last: usize = hay.len() - needle.len();
    let mut i: usize = from;
    while i <= last
        invariant
            from <= i,
            last + needle.len() == hay.len(),
            first_match(hay@, needle@, from as int) == first_match(hay@, needle@, i as int),
            forall|q: int| from <= q < i ==> !matches_at(hay@, needle@, q),
        decreases last + 1 - i,
    {
        if occurs_at(hay, needle, i) {
            return Some(i);
        }
        i += 1;
    }
    None
}

/// Tests whether `needle` occurs anywhere in `hay`.
pub fn contains_chars(hay: &Vec<char>, needle: &Vec<char>) -> (b: bool)
    ensures
        b == contains(hay@, needle@),
{
    match find_from(hay, needle, 0) {
        Some(p) => {
            assert(matches_at(hay@, needle@, p as int));
            true
        },
        None => false,
    }
}

/// Tests whether two texts are the same.
pub fn chars_equal(a: &Vec<char>, b: &Vec<char>) -> (r: bool)
    ensures
        r == (a@ == b@),
{
    if a.len() != b.len() {
        return false;
    }
    let r = occurs_at(a, b, 0);
    proof {
        if r {
            assert(a@ =~= b@);
        }
    }
    r
}

/// Tests whether two strings hold the same text.
pub fn same_text(a: &str, b: &str) -> (r: bool)
    ensures
        r == (a@ == b@),
{
    chars_equal(&to_chars(a), &to_chars(b))
}

/// Tests whether `hay` begins with `prefix`.
pub fn starts_with_chars(hay: &Vec<char>, prefix: &Vec<char>) -> (b: bool)
    ensures
        b == matches_at(hay@, prefix@, 0),
{
    occurs_at(hay, prefix, 0)
}

/// Removes leading and trailing whitespace.
pub fn trim_chars(s: &Vec<char>) -> (out: Vec<char>)
    ensures
        out@ == trimmed(s@),
{
    let mut a: usize = 0;
    while a < s.len() && is_whitespace(s[a])
        invariant
            a <= s.len(),
            skip_whitespace(s@, 0) == skip_whitespace(s@, a as int),
        decreases s.len() - a,
    {
        a += 1;
    }
    let mut b: usize = s.len();
    while b > 0 && is_whitespace(s[b - 1])
        invariant
            b <= s.len(),
            skip_whitespace_back(s@, s.len() as int) == skip_whitespace_back(s@, b as int),
        decreases b,
    {
        b -= 1;
    }
    if a < b {
        copy_range(s, a, b)
    } else {
        Vec::new()
    }
}

/// Collects the maximal runs of `true` in `mask`.
pub fn collect_runs(mask: &Vec<bool>) -> (out: Vec<Span>)
    ensures
        out@ == runs(mask@),
        forall|k: int| 0 <= k < out.len() ==> (#[trigger] out[k]).start < out[k].end <= mask.len(),
{
    let mut out: Vec<Span> = Vec::new();
    let mut open: Option<usize> = None;
    let mut i: usize = 0;
    while i < mask.len()
        invariant
            i <= mask.len(),
            runs(mask@) == runs_from(mask@, i as int, open, out@),
            match open {
                Some(s) => s < i,
                None => true,
            },
            forall|k: int| 0 <= k < out.len() ==> (#[trigger] out[k]).start < out[k].end <= mask.len(),
        decreases mask.len() - i,
    {
        if mask[i] {
            if open.is_none() {
                open = Some(i);
            }
        } else {
            match open {
                Some(s) => {
                    out.push(Span { start: s, end: i });
                    open = None;
                },
                None => {},
            }
        }
        i += 1;
    }
    match open {
        Some(s) => {
            out.push(Span { start: s, end: mask.len() });
        },
        None => {},
    }
    out
}

/// The spans of the whitespace-delimited tokens of `s`.
pub fn split_whitespace_spans(s: &Vec<char>) -> (out: Vec<Span>)
    ensures
        out@ == token_spans(s@),
        forall|k: int| 0 <= k < out.len() ==> (#[trigger] out[k]).start < out[k].end <= s.len(),
{
    let mut mask: Vec<bool> = Vec::new();
    let mut i: usize = 0;
    while i < s.len()
        invariant
            i <= s.len(),
            mask@ == non_whitespace_mask(s@).take(i as int),
        decreases s.len() - i,
    {
        mask.push(!is_whitespace(s[i]));
        i += 1;
    }
    assert(mask@ == non_whitespace_mask(s@));
    collect_runs(&mask)
}

/// Lowercases a text character by character.
pub fn lower_chars(s: &Vec<char>) -> (out: Vec<char>)
    ensures
        out@ == lowered_by_char(s@),
{
    let mut out: Vec<char> = Vec::new();
    let mut i: usize = 0;
    while i < s.len()
        invariant
            i <= s.len(),
            out@ == lowered_by_char(s@.take(i as int)),
        decreases s.len() - i,
    {
        let piece = lower_char(s[i]);
        let mut piece = piece;
        proof {
            assert(s@.take(i + 1).drop_last() == s@.take(i as int));
        }
        out.append(&mut piece);
        i += 1;
    }
    assert(s@.take(s.len() as int) == s@);
    out
}

/// Lowercases a text as a whole.
pub fn lower_whole(s: &Vec<char>) -> (out: Vec<char>)
    ensures
        out@ == text_lowercase(s@),
{
    let owned = from_chars(s);
    let lowered = lower_text(owned.as_str());
    to_chars(lowered.as_str())
}

/// The texts that a list of character vectors stands for.
pub open spec fn views(list: Seq<Vec<char>>) -> Seq<Seq<char>> {
    Seq::new(list.len(), |i: int| list[i]@)
}

/// Marks the alphanumeric characters of `s`.
pub fn alphanumeric_flags(s: &Vec<char>) -> (mask: Vec<bool>)
    ensures
        mask@ == alphanumeric_mask(s@),
{
    let mut mask: Vec<bool> = Vec::new();
    let mut i: usize = 0;
    while i < s.len()
        invariant
            i <= s.len(),
            mask@ == alphanumeric_mask(s@).take(i as int),
        decreases s.len() - i,
    {
        mask.push(is_alphanumeric(s[i]));
        i += 1;
    }
    assert(mask@ == alphanumeric_mask(s@));
    mask
}

/// The spans of the words of `s`: its maximal runs of alphanumeric
/// characters, in order.
pub fn collect_word_spans(s: &Vec<char>) -> (out: Vec<Span>)
    ensures
        out@ == runs(alphanumeric_mask(s@)),
        forall|k: int| 0 <= k < out.len() ==> (#[trigger] out[k]).start < out[k].end <= s.len(),
{
    let mask = alphanumeric_flags(s);
    collect_runs(&mask)
}

} // verus!
