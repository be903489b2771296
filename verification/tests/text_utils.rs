use alfred_alt::sanitize::{
    collapse_whitespace, looks_like_image_residue, sanitize_note_for_preview,
    strip_block_payload_lines, strip_image_residue_tokens, strip_inline_image_refs,
};
use alfred_alt::snippet::{
    build_field_snippet, build_snippet, build_snippet_with_terms, find_field_match,
    highlight_query_terms, highlight_span, query_terms_of,
};
use alfred_alt::highlight::first_exact_match_position;
use alfred_alt::text::{collect_word_spans, find_from, from_chars, to_chars, Span};

fn run(f: fn(&Vec<char>) -> Vec<char>, input: &str) -> String {
    from_chars(&f(&to_chars(input)))
}

#[test]
fn payload_lines_are_dropped() {
    assert_eq!(run(strip_block_payload_lines, "a\n  __AABLK1__xyz\nb"), "a\nb");
    assert_eq!(run(strip_block_payload_lines, "a\r\nb\n"), "a\nb");
    assert_eq!(run(strip_block_payload_lines, "a\n\nb"), "a\n\nb");
    assert_eq!(run(strip_block_payload_lines, "__AABLK1__only"), "");
    assert_eq!(run(strip_block_payload_lines, "x __AABLK1__kept"), "x __AABLK1__kept");
    assert_eq!(run(strip_block_payload_lines, ""), "");
}

#[test]
fn inline_image_refs_are_removed() {
    assert_eq!(run(strip_inline_image_refs, "a ![i](alfred://image/k?w=3) b"), "a  b");
    assert_eq!(run(strip_inline_image_refs, "a ![i](http://x/y.png) b"), "a ![i](http://x/y.png) b");
    assert_eq!(run(strip_inline_image_refs, "a ![i](alfred://image/k"), "a ![i](alfred://image/k");
    assert_eq!(run(strip_inline_image_refs, "a ![open"), "a ![open");
    assert_eq!(
        run(strip_inline_image_refs, "![a](alfred://image/1)![b](alfred://image/2)end"),
        "end"
    );
    assert_eq!(run(strip_inline_image_refs, "plain"), "plain");
}

#[test]
fn whitespace_is_collapsed() {
    assert_eq!(run(collapse_whitespace, "  a \n\n b\t\tc  "), "a b c");
    assert_eq!(run(collapse_whitespace, " \n "), "");
    assert_eq!(run(collapse_whitespace, "a\u{a0}\u{3000}b"), "a b");
}

#[test]
fn image_residue_is_recognised() {
    let is = |t: &str| looks_like_image_residue(&to_chars(t));
    assert!(is("xxalfred://image/abc"));
    assert!(is("img-1-aaaa?w=360)"));
    assert!(is("(pasted-99?w=1"));
    assert!(is("-387e204f?w=360)"));
    assert!(!is("abc?w=360"));
    assert!(!is("deadbeef"));
    assert!(!is("0123456789abcdef0123456789?w=1"));
    assert!(is("0123456789abcdef01234567?w=1"));
    assert_eq!(run(strip_image_residue_tokens, "keep img-1?w=2 this"), "keep this");
}

#[test]
fn preview_hides_images_and_payloads() {
    assert_eq!(
        sanitize_note_for_preview("a\n__AABLK1__x\n![image](alfred://image/img-1?w=3) b\n"),
        "a b"
    );
}

#[test]
fn first_occurrence_is_found() {
    let hay = to_chars("abcabc");
    assert_eq!(find_from(&hay, &to_chars("bc"), 0), Some(1));
    assert_eq!(find_from(&hay, &to_chars("bc"), 2), Some(4));
    assert_eq!(find_from(&hay, &to_chars("bc"), 5), None);
    assert_eq!(find_from(&hay, &to_chars(""), 6), Some(6));
    assert_eq!(find_from(&hay, &to_chars("abcabcd"), 0), None);
}

#[test]
fn word_spans_are_runs_of_alphanumerics() {
    let spans = collect_word_spans(&to_chars("ab, c1  d!"));
    assert_eq!(
        spans,
        vec![Span { start: 0, end: 2 }, Span { start: 4, end: 6 }, Span { start: 8, end: 9 }]
    );
    assert!(collect_word_spans(&to_chars(" ,. ")).is_empty());
}

#[test]
fn earliest_then_longest_term_wins() {
    let text = to_chars("The Swiftness of swift");
    let terms = query_terms_of(&to_chars("swift swiftness of"));
    assert_eq!(first_exact_match_position(&text, &terms), Some(Span { start: 4, end: 13 }));
    let none = query_terms_of(&to_chars("zebra"));
    assert_eq!(first_exact_match_position(&text, &none), None);
    let m = find_field_match(&text, &terms).unwrap();
    assert!(m.exact);
    let fuzzy = find_field_match(&to_chars("dedektif notlar"), &query_terms_of(&to_chars("ededek")))
        .unwrap();
    assert_eq!((fuzzy.start, fuzzy.end, fuzzy.exact), (0, 8, false));
}

#[test]
fn highlights_follow_case_mappings_that_change_length() {
    let highlighted = highlight_query_terms("İzmir zorlama deneme", &["deneme".into()]);
    assert_eq!(highlighted, "İzmir zorlama **deneme**");
    let dotted = highlight_query_terms("xİy", &["i".into()]);
    assert_eq!(dotted, "x**İ**y");
}

#[test]
fn overlapping_and_touching_highlights_merge() {
    assert_eq!(highlight_query_terms("abcdef", &["abc".into(), "cde".into()]), "**abcde**f");
    assert_eq!(highlight_query_terms("abcdef", &["ab".into(), "cd".into()]), "**abcd**ef");
    assert_eq!(highlight_query_terms("aaaa", &["aa".into()]), "**aaaa**");
    assert_eq!(highlight_query_terms("abc", &["".into(), "x".into()]), "abc");
    assert_eq!(highlight_query_terms("", &["x".into()]), "");
}

#[test]
fn span_highlight_marks_the_range() {
    let text = to_chars("hello world");
    assert_eq!(from_chars(&highlight_span(&text, 6, 11)), "hello **world**");
    assert_eq!(from_chars(&highlight_span(&text, 6, 99)), "hello **world**");
    assert_eq!(from_chars(&highlight_span(&text, 4, 4)), "hello world");
    assert_eq!(from_chars(&highlight_span(&text, 20, 30)), "hello world");
}

#[test]
fn snippet_window_is_cut_with_ellipses() {
    let text = "aaaaaaaaaabbbbbbbbbbccccccccccdddddddddd needle eeeeeeeeeeffffffffffgggggggggghhhhhhhhhh";
    let terms = vec!["needle".to_string()];
    let (source, snippet) = build_field_snippet("note", text, &terms, 24).unwrap();
    assert_eq!(source, "note");
    assert_eq!(snippet, format!("...{}**needle**{}...", &text[17..41], &text[47..71]));
    let (_, wide) = build_field_snippet("subtitle", text, &terms, 32).unwrap();
    assert_eq!(wide, format!("...{}**needle**{}...", &text[9..41], &text[47..79]));
    let (_, whole) = build_field_snippet("keywords", "a needle b", &terms, 32).unwrap();
    assert_eq!(whole, "a **needle** b");
    assert_eq!(build_field_snippet("note", "", &terms, 24), None);
    assert_eq!(build_field_snippet("note", "nothing here", &terms, 24), None);
}

#[test]
fn snippet_window_counts_bytes_and_keeps_characters_whole() {
    let text = "ééééééééééééé needle";
    let terms = vec!["needle".to_string()];
    let (_, snippet) = build_field_snippet("note", text, &terms, 24).unwrap();
    assert_eq!(snippet, "...éééééééééééé **needle**");
    let (_, exact) = build_field_snippet("note", text, &terms, 23).unwrap();
    assert_eq!(exact, "...ééééééééééé **needle**");
}

#[test]
fn snippet_prefers_note_then_subtitle_then_keywords() {
    let terms = vec!["rust".to_string()];
    assert_eq!(
        build_snippet_with_terms("rust", "sub rust", "key rust", "note rust", &terms),
        Some(("note".to_string(), "note **rust**".to_string()))
    );
    assert_eq!(
        build_snippet_with_terms("rust", "sub rust", "key rust", "none", &terms),
        Some(("subtitle".to_string(), "sub **rust**".to_string()))
    );
    assert_eq!(
        build_snippet_with_terms("rust", "", "key rust", "none", &terms),
        Some(("keywords".to_string(), "key **rust**".to_string()))
    );
    assert_eq!(build_snippet_with_terms("rust", "", "", "none", &terms), None);
    assert_eq!(build_snippet_with_terms("rust", "rust", "rust", "rust", &[]), None);
    assert_eq!(build_snippet("t", "", "", "a rust b", "  "), None);
}

#[test]
fn fuzzy_snippet_marks_the_matched_word_only() {
    assert_eq!(
        build_snippet("t", "", "", "dedektif and dedektif", "ededek"),
        Some(("note".to_string(), "**dedektif** and dedektif".to_string()))
    );
    let long = "one two three four five six seven dedektif eight nine ten eleven twelve";
    assert_eq!(
        build_snippet("t", "", "", long, "ededek"),
        Some(("note".to_string(), format!("...{}**dedektif**{}...", &long[10..34], &long[42..66])))
    );
}

#[test]
fn snippet_without_a_visible_highlight_is_dropped() {
    assert_eq!(build_snippet("t", "", "", "![image](alfred://image/deneme-1?w=3)", "deneme"), None);
    assert_eq!(build_snippet("t", "", "", "__AABLK1__deneme", "deneme"), None);
}
