//! Cleaning of note text: what is stored, and what a preview may show. A
//! preview never shows payload lines, inline image references or what is
//! left of them.

use vstd::prelude::*;
use crate::text::{
    append_range, char_is_whitespace, contains, contains_chars, copy_range, find_from,
    first_match, from_chars, is_whitespace, matches_at, occurs_at, skip_whitespace,
    split_whitespace_spans, to_chars, token_spans, trim_chars, trimmed, Span,
};

verus! {

/// Prefix of a line that carries an internal payload.
pub open spec fn payload_prefix() -> Seq<char> {
    "__AABLK1__"@
}

/// Scheme and host of an inline image reference.
pub open spec fn image_scheme() -> Seq<char> {
    "alfred://image/"@
}

/// Opening of an inline reference.
pub open spec fn ref_open() -> Seq<char> {
    "!["@
}

/// What stands between the label and the address of an inline reference.
pub open spec fn ref_middle() -> Seq<char> {
    "]("@
}

/// End of an inline reference.
pub open spec fn ref_close() -> Seq<char> {
    ")"@
}

/// The width suffix of an image reference.
pub open spec fn width_mark() -> Seq<char> {
    "?w="@
}

/// A character that storage keeps: tab, line feed, carriage return, and
/// whatever is neither a control character below the space, nor the
/// replacement character, nor the byte order mark.
pub open spec fn is_storable(c: char) -> bool {
    c == '\n' || c == '\t' || c == '\r' || ((c as u32) >= 0x20 && c != '\u{FFFD}' && c
        != '\u{FEFF}')
}

/// The text with the characters removed that storage does not keep.
pub open spec fn storable(s: Seq<char>) -> Seq<char> {
    s.filter(|c: char| is_storable(c))
}

fn keep_storable(s: &Vec<char>) -> (out: Vec<char>)
    ensures
        out@ == storable(s@),
{
    let mut out: Vec<char> = Vec::new();
    let mut i: usize = 0;
    let ghost pred = |c: char| is_storable(c);
    while i < s.len()
        invariant
            i <= s.len(),
            pred == (|c: char| is_storable(c)),
            out@ == s@.take(i as int).filter(pred),
        decreases s.len() - i,
    {
        let c = s[i];
        proof {
            assert(s@.take(i + 1) == s@.take(i as int) + seq![c]);
            Seq::filter_distributes_over_add(s@.take(i as int), seq![c], pred);
            reveal_with_fuel(Seq::filter, 2);
            assert(seq![c].drop_last() =~= Seq::<char>::empty());
            assert(seq![c].last() == c);
        }
        let v: u32 = c as u32;
        if c == '\n' || c == '\t' || c == '\r' || (v >= 0x20 && c != '\u{FFFD}' && c != '\u{FEFF}') {
            out.push(c);
        }
        i += 1;
    }
    assert(s@.take(s.len() as int) == s@);
    out
}

/// Removes from a title the characters that storage does not keep.
pub fn sanitize_title(title: &str) -> (out: String)
    ensures
        out@ == storable(title@),
{
    let chars = to_chars(title);
    let kept = keep_storable(&chars);
    from_chars(&kept)
}

/// Removes from a note the characters that storage does not keep.
pub fn sanitize_note_for_storage(note: &str) -> (out: String)
    ensures
        out@ == storable(note@),
{
    let chars = to_chars(note);
    let kept = keep_storable(&chars);
    from_chars(&kept)
}

/// End of the content of the line `start..end`: where a line feed ends the
/// line, a carriage return before it belongs to the line ending.
pub open spec fn line_content_end(s: Seq<char>, start: int, end: int) -> int {
    if end < s.len() && start < end && s[end - 1] == '\r' {
        end - 1
    } else {
        end
    }
}

/// A line that carries a payload: after leading whitespace it begins with
/// the payload prefix.
pub open spec fn is_payload_line(line: Seq<char>) -> bool {
    matches_at(line, payload_prefix(), skip_whitespace(line, 0))
}

/// `acc` with the line `start..end` appended behind a line feed, unless the
/// line carries a payload; `first` says that no line was kept yet.
pub open spec fn with_line(s: Seq<char>, start: int, end: int, first: bool, acc: Seq<char>) -> (
    bool,
    Seq<char>,
) {
    let line = s.subrange(start, line_content_end(s, start, end));
    if is_payload_line(line) {
        (first, acc)
    } else if first {
        (false, acc + line)
    } else {
        (false, acc.push('\n') + line)
    }
}

/// The kept lines of the text from `i` on, where the line that `i` lies in
/// began at `start`.
pub open spec fn kept_lines_from(s: Seq<char>, i: int, start: int, first: bool, acc: Seq<char>) -> Seq<
    char,
>
    decreases s.len() - i,
{
    if i < 0 || i >= s.len() {
        if start < s.len() {
            with_line(s, start, s.len() as int, first, acc).1
        } else {
            acc
        }
    } else if s[i] == '\n' {
        let next = with_line(s, start, i, first, acc);
        kept_lines_from(s, i + 1, i + 1, next.0, next.1)
    } else {
        kept_lines_from(s, i + 1, start, first, acc)
    }
}

/// The note without its payload lines: its lines, each taken without its
/// line ending, that carry no payload, joined by line feeds.
pub open spec fn without_payload_lines(s: Seq<char>) -> Seq<char> {
    kept_lines_from(s, 0, 0, true, Seq::empty())
}

fn payload_line(line: &Vec<char>, prefix: &Vec<char>) -> (b: bool)
    requires
        prefix@ == payload_prefix(),
    ensures
        b == is_payload_line(line@),
{
    let mut a: usize = 0;
    while a < line.len() && is_whitespace(line[a])
        invariant
            a <= line.len(),
            skip_whitespace(line@, 0) == skip_whitespace(line@, a as int),
        decreases line.len() - a,
    {
        a += 1;
    }
    occurs_at(line, prefix, a)
}

fn push_line(
    out: &mut Vec<char>,
    note: &Vec<char>,
    start: usize,
    end: usize,
    first: bool,
    prefix: &Vec<char>,
) -> (now_first: bool)
    requires
        prefix@ == payload_prefix(),
        start <= end <= note.len(),
    ensures
        (now_first, final(out)@) == with_line(note@, start as int, end as int, first, old(out)@),
{
    let content_end: usize = if end < note.len() && start < end && note[end - 1] == '\r' {
        end - 1
    } else {
        end
    };
    let line = copy_range(note, start, content_end);
    if payload_line(&line, prefix) {
        first
    } else {
        if !first {
            out.push('\n');
        }
        append_range(out, note, start, content_end);
        false
    }
}

/// Drops the lines that begin with the payload prefix.
pub fn strip_block_payload_lines(note: &Vec<char>) -> (out: Vec<char>)
    ensures
        out@ == without_payload_lines(note@),
{
    let prefix = to_chars("__AABLK1__");
    let mut out: Vec<char> = Vec::new();
    let mut first = true;
    let mut start: usize = 0;
    let mut i: usize = 0;
    while i < note.len()
        invariant
            start <= i <= note.len(),
            prefix@ == payload_prefix(),
            without_payload_lines(note@) == kept_lines_from(
                note@,
                i as int,
                start as int,
                first,
                out@,
            ),
        decreases note.len() - i,
    {
        if note[i] == '\n' {
            first = push_line(&mut out, note, start, i, first, &prefix);
            start = i + 1;
        }
        i += 1;
    }
    if start < note.len() {
        let _ = push_line(&mut out, note, start, note.len(), first, &prefix);
    }
    out
}

/// The text from `cursor` on without its inline image references, appended
/// to `acc`. A reference that is not closed is passed through with the rest
/// of the text; a reference to anything but an image is kept.
pub open spec fn strip_refs_from(s: Seq<char>, cursor: int, acc: Seq<char>) -> Seq<char>
    decreases s.len() - cursor,
{
    let rest = acc + s.subrange(cursor, s.len() as int);
    match first_match(s, ref_open(), cursor) {
        None => rest,
        Some(start) => match first_match(s, ref_middle(), start + 2) {
            None => rest,
            Some(alt_end) => match first_match(s, ref_close(), alt_end + 2) {
                None => rest,
                Some(url_end) => if cursor <= start && start + 2 <= alt_end && alt_end + 2
                    <= url_end < s.len() {
                    if matches_at(s.subrange(alt_end + 2, url_end), image_scheme(), 0) {
                        strip_refs_from(s, url_end + 1, acc + s.subrange(cursor, start))
                    } else {
                        strip_refs_from(s, url_end + 1, acc + s.subrange(cursor, url_end + 1))
                    }
                } else {
                    rest
                },
            },
        },
    }
}

/// The text without its inline image references.
pub open spec fn without_image_refs(s: Seq<char>) -> Seq<char> {
    strip_refs_from(s, 0, Seq::empty())
}

/// Removes the inline references to images.
pub fn strip_inline_image_refs(text: &Vec<char>) -> (out: Vec<char>)
    ensures
        out@ == without_image_refs(text@),
{
    let open = to_chars("![");
    let middle = to_chars("](");
    let close = to_chars(")");
    let scheme = to_chars("alfred://image/");
    proof {
        reveal_strlit("![");
        reveal_strlit("](");
        reveal_strlit(")");
    }
    let mut out: Vec<char> = Vec::new();
    let mut cursor: usize = 0;
    loop
        invariant
            cursor <= text.len(),
            open@ == ref_open(),
            middle@ == ref_middle(),
            close@ == ref_close(),
            scheme@ == image_scheme(),
            open@.len() == 2,
            middle@.len() == 2,
            close@.len() == 1,
            without_image_refs(text@) == strip_refs_from(text@, cursor as int, out@),
        decreases text.len() - cursor,
    {
        let start = match find_from(text, &open, cursor) {
            Some(p) => p,
            None => {
                append_range(&mut out, text, cursor, text.len());
                return out;
            },
        };
        let alt_end = match find_from(text, &middle, start + 2) {
            Some(p) => p,
            None => {
                append_range(&mut out, text, cursor, text.len());
                return out;
            },
        };
        let url_start: usize = alt_end + 2;
        let url_end = match find_from(text, &close, url_start) {
            Some(p) => p,
            None => {
                append_range(&mut out, text, cursor, text.len());
                return out;
            },
        };
        let url = copy_range(text, url_start, url_end);
        if occurs_at(&url, &scheme, 0) {
            append_range(&mut out, text, cursor, start);
        } else {
            append_range(&mut out, text, cursor, url_end + 1);
        }
        cursor = url_end + 1;
    }
}

/// The text from `i` on with each run of whitespace turned into one space,
/// appended to `acc`; `after_space` says that the last character was
/// whitespace.
pub open spec fn collapse_from(s: Seq<char>, i: int, after_space: bool, acc: Seq<char>) -> Seq<
    char,
>
    decreases s.len() - i,
{
    if i < 0 || i >= s.len() {
        acc
    } else if char_is_whitespace(s[i]) {
        collapse_from(
            s,
            i + 1,
            true,
            if after_space {
                acc
            } else {
                acc.push(' ')
            },
        )
    } else {
        collapse_from(s, i + 1, false, acc.push(s[i]))
    }
}

/// The text with each run of whitespace turned into one space, and none at
/// its ends.
pub open spec fn collapsed(s: Seq<char>) -> Seq<char> {
    trimmed(collapse_from(s, 0, false, Seq::empty()))
}

/// Turns each run of whitespace into one space and trims the result.
pub fn collapse_whitespace(text: &Vec<char>) -> (out: Vec<char>)
    ensures
        out@ == collapsed(text@),
{
    let mut out: Vec<char> = Vec::new();
    let mut after_space = false;
    let mut i: usize = 0;
    while i < text.len()
        invariant
            i <= text.len(),
            collapse_from(text@, 0, false, Seq::empty()) == collapse_from(
                text@,
                i as int,
                after_space,
                out@,
            ),
        decreases text.len() - i,
    {
        let c = text[i];
        if is_whitespace(c) {
            if !after_space {
                out.push(' ');
                after_space = true;
            }
        } else {
            out.push(c);
            after_space = false;
        }
        i += 1;
    }
    trim_chars(&out)
}

/// Punctuation that may surround what is left of an image reference.
pub open spec fn is_edge_punctuation(c: char) -> bool {
    c == ',' || c == '.' || c == ';' || c == ':' || c == '(' || c == ')' || c == '[' || c == ']'
        || c == '{' || c == '}' || c == '<' || c == '>' || c == '"' || c == '\''
}

/// First position at or after `i` that holds no edge punctuation.
pub open spec fn skip_punctuation(s: Seq<char>, i: int) -> int
    decreases s.len() - i,
{
    if 0 <= i < s.len() && is_edge_punctuation(s[i]) {
        skip_punctuation(s, i + 1)
    } else {
        i
    }
}

/// End of the text before `j` once trailing edge punctuation is removed.
pub open spec fn skip_punctuation_back(s: Seq<char>, j: int) -> int
    decreases j,
{
    if 0 < j <= s.len() && is_edge_punctuation(s[j - 1]) {
        skip_punctuation_back(s, j - 1)
    } else {
        j
    }
}

/// The token without the punctuation at its ends.
pub open spec fn without_edge_punctuation(s: Seq<char>) -> Seq<char> {
    let a = skip_punctuation(s, 0);
    let b = skip_punctuation_back(s, s.len() as int);
    if a < b {
        s.subrange(a, b)
    } else {
        Seq::empty()
    }
}

/// An ASCII hexadecimal digit.
pub open spec fn is_hex_digit(c: char) -> bool {
    ('0' <= c <= '9') || ('a' <= c <= 'f') || ('A' <= c <= 'F')
}

/// Number of hexadecimal digits among the first `upto` characters.
pub open spec fn hex_digits(s: Seq<char>, upto: int) -> nat
    decreases upto,
{
    if upto <= 0 {
        0
    } else {
        hex_digits(s, upto - 1) + if is_hex_digit(s[upto - 1]) {
            1nat
        } else {
            0nat
        }
    }
}

/// What stands before the width suffix looks like the key of an image: it
/// begins as generated keys do, or is short and holds six hexadecimal
/// digits or more.
pub open spec fn is_key_like(base: Seq<char>) -> bool {
    matches_at(base, "img-"@, 0) || matches_at(base, "pasted-"@, 0) || (hex_digits(
        base,
        base.len() as int,
    ) >= 6 && base.len() <= 24)
}

/// A token that is left of an image reference: it holds the image scheme,
/// or, its edge punctuation aside, a width suffix behind something that
/// looks like an image key.
pub open spec fn is_image_residue(token: Seq<char>) -> bool {
    contains(token, image_scheme()) || {
        let inner = without_edge_punctuation(token);
        match first_match(inner, width_mark(), 0) {
            None => false,
            Some(p) => 0 <= p <= inner.len() && is_key_like(inner.subrange(0, p)),
        }
    }
}

fn edge_punctuation(c: char) -> (b: bool)
    ensures
        b == is_edge_punctuation(c),
{
    c == ',' || c == '.' || c == ';' || c == ':' || c == '(' || c == ')' || c == '[' || c == ']'
        || c == '{' || c == '}' || c == '<' || c == '>' || c == '"' || c == '\''
}

fn trim_edge_punctuation(s: &Vec<char>) -> (out: Vec<char>)
    ensures
        out@ == without_edge_punctuation(s@),
{
    let mut a: usize = 0;
    while a < s.len() && edge_punctuation(s[a])
        invariant
            a <= s.len(),
            skip_punctuation(s@, 0) == skip_punctuation(s@, a as int),
        decreases s.len() - a,
    {
        a += 1;
    }
    let mut b: usize = s.len();
    while b > 0 && edge_punctuation(s[b - 1])
        invariant
            b <= s.len(),
            skip_punctuation_back(s@, s.len() as int) == skip_punctuation_back(s@, b as int),
        decreases b,
    {
        b -= 1;
    }
    if a < b {
        copy_range(s, a, b)
    } else {
        Vec::new()
    }
}

fn count_hex_digits(s: &Vec<char>) -> (n: usize)
    ensures
        n == hex_digits(s@, s.len() as int),
{
    let mut n: usize = 0;
    let mut i: usize = 0;
    while i < s.len()
        invariant
            i <= s.len(),
            n <= i,
            n == hex_digits(s@, i as int),
        decreases s.len() - i,
    {
        let c = s[i];
        if ('0' <= c && c <= '9') || ('a' <= c && c <= 'f') || ('A' <= c && c <= 'F') {
            n += 1;
        }
        i += 1;
    }
    n
}

/// Tells whether a token is left of an image reference.
pub fn looks_like_image_residue(token: &Vec<char>) -> (b: bool)
    ensures
        b == is_image_residue(token@),
{
    let scheme = to_chars("alfred://image/");
    if contains_chars(token, &scheme) {
        return true;
    }
    let inner = trim_edge_punctuation(token);
    let mark = to_chars("?w=");
    let p = match find_from(&inner, &mark, 0) {
        Some(p) => p,
        None => {
            return false;
        },
    };
    let base = copy_range(&inner, 0, p);
    let img = to_chars("img-");
    let pasted = to_chars("pasted-");
    if occurs_at(&base, &img, 0) || occurs_at(&base, &pasted, 0) {
        return true;
    }
    count_hex_digits(&base) >= 6 && base.len() <= 24
}

/// The tokens from the `i`-th on that are no residue, joined by single
/// spaces and appended to `acc`.
pub open spec fn join_kept_tokens(s: Seq<char>, spans: Seq<Span>, i: int, acc: Seq<char>) -> Seq<
    char,
>
    decreases spans.len() - i,
{
    if i < 0 || i >= spans.len() {
        acc
    } else {
        let token = s.subrange(spans[i].start as int, spans[i].end as int);
        if is_image_residue(token) {
            join_kept_tokens(s, spans, i + 1, acc)
        } else if acc.len() == 0 {
            join_kept_tokens(s, spans, i + 1, token)
        } else {
            join_kept_tokens(s, spans, i + 1, acc.push(' ') + token)
        }
    }
}

/// The whitespace-delimited tokens of the text that are no residue of an
/// image reference, joined by single spaces.
pub open spec fn without_image_residue(s: Seq<char>) -> Seq<char> {
    join_kept_tokens(s, token_spans(s), 0, Seq::empty())
}

/// Drops the tokens that are left of image references.
pub fn strip_image_residue_tokens(text: &Vec<char>) -> (out: Vec<char>)
    ensures
        out@ == without_image_residue(text@),
{
    let spans = split_whitespace_spans(text);
    let mut out: Vec<char> = Vec::new();
    let mut i: usize = 0;
    while i < spans.len()
        invariant
            i <= spans.len(),
            spans@ == token_spans(text@),
            forall|k: int|
                0 <= k < spans.len() ==> (#[trigger] spans[k]).start < spans[k].end <= text.len(),
            without_image_residue(text@) == join_kept_tokens(text@, spans@, i as int, out@),
        decreases spans.len() - i,
    {
        let span = spans[i];
        let token = copy_range(text, span.start, span.end);
        if !looks_like_image_residue(&token) {
            if out.len() == 0 {
                assert(Seq::<char>::empty() + token@ =~= token@);
                assert(out@ =~= Seq::<char>::empty());
            } else {
                out.push(' ');
            }
            append_range(&mut out, text, span.start, span.end);
        }
        i += 1;
    }
    out
}

/// The image scheme holds no space.
proof fn lemma_scheme_has_no_space()
    ensures
        image_scheme().len() == 15,
        forall|k: int| 0 <= k < image_scheme().len() ==> #[trigger] image_scheme()[k] != ' ',
{
    reveal_strlit("alfred://image/");
}

/// Two texts without the image scheme, joined by a space, hold no image
/// scheme.
proof fn lemma_joined_without_scheme(left: Seq<char>, right: Seq<char>)
    requires
        !contains(left, image_scheme()),
        !contains(right, image_scheme()),
    ensures
        !contains(left.push(' ') + right, image_scheme()),
{
    lemma_scheme_has_no_space();
    let scheme = image_scheme();
    let joined = left.push(' ') + right;
    let at = left.len() as int;
    assert(joined[at] == ' ');
    if contains(joined, scheme) {
        let q = choose|q: int| matches_at(joined, scheme, q);
        if q + scheme.len() <= at {
            assert forall|k: int| 0 <= k < scheme.len() implies left[q + k] == #[trigger] scheme[k] by {
                assert(joined[q + k] == left[q + k]);
            }
            assert(matches_at(left, scheme, q));
        } else if q > at {
            let r = q - at - 1;
            assert forall|k: int| 0 <= k < scheme.len() implies right[r + k] == #[trigger] scheme[k] by {
                assert(joined[q + k] == right[r + k]);
            }
            assert(matches_at(right, scheme, r));
        } else {
            let k = at - q;
            assert(joined[q + k] == scheme[k]);
        }
    }
}

proof fn lemma_kept_tokens_without_scheme(s: Seq<char>, spans: Seq<Span>, i: int, acc: Seq<char>)
    requires
        0 <= i <= spans.len(),
        !contains(acc, image_scheme()),
    ensures
        !contains(join_kept_tokens(s, spans, i, acc), image_scheme()),
    decreases spans.len() - i,
{
    if i < spans.len() {
        let token = s.subrange(spans[i].start as int, spans[i].end as int);
        if is_image_residue(token) {
            lemma_kept_tokens_without_scheme(s, spans, i + 1, acc);
        } else if acc.len() == 0 {
            lemma_kept_tokens_without_scheme(s, spans, i + 1, token);
        } else {
            lemma_joined_without_scheme(acc, token);
            lemma_kept_tokens_without_scheme(s, spans, i + 1, acc.push(' ') + token);
        }
    }
}

/// What a preview shows of a note never holds the scheme of an image
/// reference, whatever the note holds.
pub proof fn lemma_preview_hides_image_scheme(note: Seq<char>)
    ensures
        !contains(preview_text(note), image_scheme()),
{
    lemma_scheme_has_no_space();
    let cleaned = collapsed(without_image_refs(without_payload_lines(note)));
    let none = Seq::<char>::empty();
    assert(!contains(none, image_scheme())) by {
        if contains(none, image_scheme()) {
            let q = choose|q: int| matches_at(none, image_scheme(), q);
            assert(q + image_scheme().len() <= none.len());
        }
    }
    lemma_kept_tokens_without_scheme(cleaned, token_spans(cleaned), 0, none);
}

/// What a preview shows of a note: the note without payload lines and
/// inline image references, its whitespace collapsed, and without tokens
/// left of image references.
pub open spec fn preview_text(note: Seq<char>) -> Seq<char> {
    without_image_residue(collapsed(without_image_refs(without_payload_lines(note))))
}

/// Cleans a note for previews, on characters.
pub fn sanitize_chars_for_preview(note: &Vec<char>) -> (out: Vec<char>)
    ensures
        out@ == preview_text(note@),
{
    let without_payload = strip_block_payload_lines(note);
    let without_images = strip_inline_image_refs(&without_payload);
    let collapsed = collapse_whitespace(&without_images);
    strip_image_residue_tokens(&collapsed)
}

/// Cleans a note for previews.
pub fn sanitize_note_for_preview(note: &str) -> (out: String)
    ensures
        out@ == preview_text(note@),
{
    let chars = to_chars(note);
    let cleaned = sanitize_chars_for_preview(&chars);
    from_chars(&cleaned)
}

} // verus!
