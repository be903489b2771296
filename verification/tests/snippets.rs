use alfred_alt::fuzzy::fuzzy_term_similarity;
use alfred_alt::sanitize::sanitize_note_for_preview;
use alfred_alt::snippet::{build_snippet, highlight_query_terms};

#[test]
fn highlight_query_terms_marks_multiple_case_insensitive_matches() {
    let highlighted = highlight_query_terms("Rust and swift and RUST", &["rust".into()]);
    assert_eq!(highlighted, "**Rust** and swift and **RUST**");
}

#[test]
fn highlight_query_terms_handles_unicode_case_mapping_offsets() {
    let highlighted = highlight_query_terms("zmir zorlama deneme", &["deneme".into()]);
    assert_eq!(highlighted, "zmir zorlama **deneme**");
}

#[test]
fn build_snippet_handles_multi_word_queries_by_term() {
    let result = build_snippet(
        "Launcher",
        "",
        "",
        "Rust and Swift can work together in a search result list preview.",
        "swift work",
    );

    let (source, snippet) = result.expect("snippet should be present");
    assert_eq!(source, "note");
    assert!(snippet.contains("**Swift**"), "snippet was: {snippet}");
    assert!(snippet.contains("**work**"), "snippet was: {snippet}");
}

#[test]
fn build_snippet_omits_title_only_matches() {
    let result = build_snippet(
        "Swift Launcher",
        "",
        "",
        "No matching content here.",
        "swift",
    );
    assert!(result.is_none(), "snippet was: {result:?}");
}

#[test]
fn build_snippet_fuzzy_matches_note_with_typo() {
    let result = build_snippet("serkan", "", "", "dedektif notlar", "ededek");
    let (source, snippet) = result.expect("snippet should be present");
    assert_eq!(source, "note");
    assert!(snippet.contains("**dedektif**"), "snippet was: {snippet}");
}

#[test]
fn fuzzy_similarity_scores_typo_reasonably_high() {
    let fraction = fuzzy_term_similarity("ededek", "dedektif");
    let score = fraction.num as f64 / fraction.den as f64;
    assert!(
        score >= 0.62,
        "expected fuzzy score to clear threshold, got {score}"
    );
}

#[test]
fn sanitize_note_for_preview_removes_inline_image_refs_and_flattens_newlines() {
    let note = "line 1\n![image](alfred://image/img-1-aaaa?w=360)\nline 2";
    let sanitized = sanitize_note_for_preview(note);
    assert_eq!(sanitized, "line 1 line 2");
}

#[test]
fn sanitize_note_for_preview_removes_block_payload_line() {
    let note = "line 1\n__AABLK1__eyJ2ZXJzaW9uIjoxfQ==\nline 2";
    let sanitized = sanitize_note_for_preview(note);
    assert_eq!(sanitized, "line 1 line 2");
}

#[test]
fn sanitize_note_for_preview_drops_image_url_fragments() {
    let note = "...\n-387e204f?w=360)\n\ndeneme\n";
    let sanitized = sanitize_note_for_preview(note);
    assert_eq!(sanitized, "... deneme");
}

#[test]
fn build_snippet_note_preview_keeps_highlight_visible_after_newlines() {
    let result = build_snippet(
        "Search Docs",
        "",
        "",
        "ciddiye almas dsf sdfsdf\n\ndeneme\n\n![image](alfred://image/img-1-aaaa?w=360)",
        "deneme",
    );

    let (source, snippet) = result.expect("snippet should be present");
    assert_eq!(source, "note");
    assert!(snippet.contains("**deneme**"), "snippet was: {snippet}");
    assert!(
        !snippet.contains("alfred://image"),
        "snippet was: {snippet}"
    );
    assert!(!snippet.contains("?w=360"), "snippet was: {snippet}");
    assert!(!snippet.contains('\n'), "snippet was: {snippet}");
}

#[test]
fn build_snippet_note_preview_collapses_large_newline_gaps() {
    let result = build_snippet(
        "Masmavi",
        "",
        "",
        "zorlama\n\n\n\n\n\n\n\n\n\ndeneme",
        "deneme",
    );

    let (source, snippet) = result.expect("snippet should be present");
    assert_eq!(source, "note");
    assert_eq!(snippet, "zorlama **deneme**");
}

#[test]
fn build_snippet_note_preview_handles_spotify_like_images() {
    let note = "asdfasfasdf\n\n![image](alfred://image/img-1770450073-387e204f?w=360)\n![image](alfred://image/img-1770450075-4f23d5c0)\n![image](alfred://image/img-1770450073-387e204f?w=360)\ndeneme\nkiymetli hocam\n";
    let result = build_snippet("Spotify", "", "", note, "eneme");

    let (_source, snippet) = result.expect("snippet should be present");
    assert!(snippet.contains("**eneme**"), "snippet was: {snippet}");
    assert!(!snippet.contains("?w=360"), "snippet was: {snippet}");
    assert!(!snippet.contains("387e204f"), "snippet was: {snippet}");
}
