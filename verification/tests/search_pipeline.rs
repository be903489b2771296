use alfred_alt::fuzzy::{fuzzy_row_score, fuzzy_term_similarity, lengths_are_fuzzy_compatible};
use alfred_alt::search::{
    contains_case_insensitive, matches_by_substring, search, substring_search_rows, IndexHit,
};
use alfred_alt::snippet::{parse_query_terms, query_terms_of};
use alfred_alt::store::{delete_item, insert_item, update_item, Store};
use alfred_alt::text::to_chars;

fn store_with(notes: &[(&str, &str)]) -> Store {
    let mut store = Store::new();
    for (title, note) in notes {
        let id = insert_item(&mut store, title).unwrap();
        update_item(&mut store, id, note, None).unwrap();
    }
    store
}

fn ids(rows: &[alfred_alt::models::SearchResult]) -> Vec<i64> {
    rows.iter().map(|row| row.id).collect()
}

#[test]
fn search_with_no_positive_limit_is_empty() {
    let store = store_with(&[("alpha", "text")]);
    assert!(search(&store, "alpha", 0, &vec![]).is_empty());
    assert!(search(&store, "alpha", -3, &vec![]).is_empty());
    assert!(search(&store, "", 0, &vec![]).is_empty());
}

#[test]
fn search_with_blank_query_lists_by_title() {
    let mut store = store_with(&[("pear", "p"), ("Apple", "a"), ("fig", "f")]);
    store.items[1].subtitle = "fruit".to_string();
    let rows = search(&store, "   ", 2, &vec![]);
    assert_eq!(ids(&rows), vec![2, 3]);
    assert_eq!(rows[0].title, "Apple");
    assert_eq!(rows[0].subtitle, "fruit");
    assert_eq!(rows[0].snippet, None);
    assert_eq!(rows[0].snippet_source, None);
    assert_eq!(ids(&search(&store, "", 10, &vec![])), vec![2, 3, 1]);
}

#[test]
fn search_finds_single_token_by_substring_without_index() {
    let store = store_with(&[
        ("Shopping", "milk and BREAD"),
        ("Bread recipes", "flour"),
        ("Other", "nothing ![image](alfred://image/bread-key?w=3)"),
    ]);
    let rows = search(&store, "bread", 10, &vec![]);
    assert_eq!(ids(&rows), vec![1, 2]);
    assert_eq!(rows[0].snippet.as_deref(), Some("milk and **BREAD**"));
    assert_eq!(rows[0].snippet_source.as_deref(), Some("note"));
    assert_eq!(rows[0].subtitle, "");
    assert_eq!(rows[1].snippet.as_deref(), Some("**Bread** recipes"));
    assert_eq!(rows[1].snippet_source.as_deref(), Some("keywords"));
}

#[test]
fn search_ids_are_unique_and_within_limit() {
    let store = store_with(&[("rust one", "rust"), ("rust two", "rust"), ("rust three", "rust")]);
    let hits = vec![
        IndexHit { id: 2, note_snippet: Some("**rust**".to_string()) },
        IndexHit { id: 2, note_snippet: None },
        IndexHit { id: 77, note_snippet: None },
        IndexHit { id: 1, note_snippet: None },
    ];
    let rows = search(&store, "rust", 10, &hits);
    assert_eq!(ids(&rows), vec![2, 1, 3]);
    assert_eq!(rows[0].snippet.as_deref(), Some("**rust**"));
    assert_eq!(rows[0].snippet_source.as_deref(), Some("note"));
    assert_eq!(rows[1].snippet.as_deref(), Some("**rust**"));
    let capped = search(&store, "rust", 2, &hits);
    assert_eq!(ids(&capped), vec![2, 1]);
    let one = search(&store, "rust", 1, &hits);
    assert_eq!(ids(&one), vec![2]);
}

#[test]
fn substring_stage_needs_every_token() {
    let store = store_with(&[
        ("First", "swift only"),
        ("Second", "swift is far away from the place where the work is done"),
        ("work", "Swift"),
    ]);
    let terms = query_terms_of(&to_chars("swift work"));
    assert!(!matches_by_substring(&store.items[0], &terms));
    assert!(matches_by_substring(&store.items[1], &terms));
    assert!(matches_by_substring(&store.items[2], &terms));
    let mut rows = Vec::new();
    substring_search_rows(&store.items, &terms, 10, &mut rows);
    assert_eq!(ids(&rows), vec![2, 3]);
    let mut capped = Vec::new();
    substring_search_rows(&store.items, &terms, 1, &mut capped);
    assert_eq!(ids(&capped), vec![2]);
}

#[test]
fn search_falls_back_to_fuzzy_matches() {
    let store = store_with(&[
        ("serkan", "dedektif notlar"),
        ("other", "nothing alike"),
        ("dedektif", "title match"),
    ]);
    let rows = search(&store, "ededek", 10, &vec![]);
    assert_eq!(ids(&rows), vec![3, 1]);
    assert_eq!(rows[1].snippet.as_deref(), Some("**dedektif** notlar"));
    assert_eq!(rows[1].snippet_source.as_deref(), Some("note"));
    assert_eq!(rows[0].snippet.as_deref(), Some("**dedektif**"));
    assert_eq!(rows[0].snippet_source.as_deref(), Some("keywords"));
}

#[test]
fn fuzzy_stage_skips_short_terms() {
    let store = store_with(&[("abd", "abd")]);
    assert!(search(&store, "abc", 10, &vec![]).is_empty());
}

#[test]
fn search_skips_deleted_items() {
    let mut store = store_with(&[("rust one", ""), ("rust two", "")]);
    delete_item(&mut store, 1).unwrap();
    let hits = vec![IndexHit { id: 1, note_snippet: None }];
    assert_eq!(ids(&search(&store, "rust", 10, &hits)), vec![2]);
}

#[test]
fn fuzzy_similarity_exact_values() {
    let typo = fuzzy_term_similarity("ededek", "dedektif");
    assert_eq!((typo.num, typo.den), (6520, 9600));
    let same = fuzzy_term_similarity("note", "note");
    assert_eq!((same.num, same.den), (1, 1));
    let inside = fuzzy_term_similarity("note", "notebook");
    assert_eq!((inside.num, inside.den), (96, 100));
    let holds = fuzzy_term_similarity("notebook", "book");
    assert_eq!((holds.num, holds.den), (96, 100));
    let none = fuzzy_term_similarity("", "abc");
    assert_eq!(none.num, 0);
    let apart = fuzzy_term_similarity("abcd", "wxyz");
    assert_eq!((apart.num, apart.den), (15 * 4 * 6, 100 * 6 * 4));
    let repeated = fuzzy_term_similarity("aaab", "baaa");
    assert_eq!((repeated.num, repeated.den), (170 * 2 * 4 + 15 * 4 * 6, 100 * 6 * 4));
}

#[test]
fn fuzzy_similarity_of_single_characters_is_zero_unless_equal() {
    let differ = fuzzy_term_similarity("a", "b");
    assert_eq!(differ.num as f64 / differ.den as f64, 0.0);
    let equal = fuzzy_term_similarity("a", "a");
    assert_eq!(equal.num as f64 / equal.den as f64, 1.0);
    let one_short = fuzzy_term_similarity("a", "xyz");
    assert_eq!(one_short.num, 0);
}

#[test]
fn fuzzy_length_filter() {
    assert!(lengths_are_fuzzy_compatible(4, 8));
    assert!(lengths_are_fuzzy_compatible(8, 4));
    assert!(!lengths_are_fuzzy_compatible(4, 9));
    assert!(lengths_are_fuzzy_compatible(0, 0));
    assert!(lengths_are_fuzzy_compatible(usize::MAX, usize::MAX - 1));
}

#[test]
fn fuzzy_row_score_weights_title_and_note() {
    let terms = query_terms_of(&to_chars("dedektif"));
    let title = fuzzy_row_score(&to_chars("dedektif"), &to_chars("nothing"), &terms);
    assert_eq!((title.num, title.den), (108, 100));
    let note = fuzzy_row_score(&to_chars("nothing"), &to_chars("a dedektif"), &terms);
    assert_eq!((note.num, note.den), (98, 100));
    let neither = fuzzy_row_score(&to_chars("nothing"), &to_chars("here"), &terms);
    assert_eq!(neither.num, 0);
}

#[test]
fn query_terms_are_lowercased_tokens() {
    assert_eq!(parse_query_terms("  SWIFT\tWork \n"), vec!["swift".to_string(), "work".to_string()]);
    assert!(parse_query_terms(" \n ").is_empty());
}

#[test]
fn contains_ignores_case() {
    assert!(contains_case_insensitive("Hello World", "WORLD"));
    assert!(contains_case_insensitive("Hello", ""));
    assert!(!contains_case_insensitive("Hello", "help"));
}

#[test]
fn fuzzy_rows_are_ranked_by_score_then_title_then_id() {
    let store = store_with(&[
        ("zebra", "dedektiv"),
        ("alpha", "dedektiv"),
        ("alpha", "dedektiv"),
        ("dedektiv", ""),
        ("far", "dedektivler"),
        ("none", "unrelated"),
    ]);
    let rows = search(&store, "dedektif", 10, &vec![]);
    assert_eq!(ids(&rows), vec![4, 2, 3, 1, 5]);
    let two = search(&store, "dedektif", 2, &vec![]);
    assert_eq!(ids(&two), vec![4, 2]);
}

#[test]
fn fuzzy_stage_looks_at_the_newest_notes_only() {
    let mut store = Store::new();
    let first = insert_item(&mut store, "dedektiv").unwrap();
    for n in 0..512 {
        insert_item(&mut store, &format!("filler {n}")).unwrap();
    }
    assert!(search(&store, "dedektif", 1, &vec![]).is_empty());
    delete_item(&mut store, 2).unwrap();
    assert_eq!(ids(&search(&store, "dedektif", 1, &vec![])), vec![first]);
}

#[test]
fn search_finds_a_word_inside_a_word_without_index_hits() {
    let store = store_with(&[("Unbelievable", ""), ("Other", "nothing"), ("x", "it is unbeLIEVable")]);
    assert_eq!(ids(&search(&store, "LIEV", 3, &vec![])), vec![1, 3]);
    assert_eq!(ids(&search(&store, "LIEV", 2, &vec![])), vec![1, 3]);
    assert_eq!(ids(&search(&store, "LIEV", 1, &vec![])), vec![1]);
}

#[test]
fn search_takes_any_positive_limit() {
    let store = store_with(&[("rust one", ""), ("rust two", "")]);
    assert_eq!(ids(&search(&store, "rust", i64::MAX, &vec![])), vec![1, 2]);
    assert_eq!(ids(&search(&store, "", i64::MAX, &vec![])), vec![1, 2]);
    assert_eq!(ids(&search(&store, "dedektif", i64::MAX, &vec![])), Vec::<i64>::new());
    assert!(search(&store, "rust", i64::MIN, &vec![]).is_empty());
}

#[test]
fn accepting_half_of_the_multi_token_query_through_search() {
    let store = store_with(&[
        ("First", "swift only"),
        ("Second", "Rust and Swift can work together"),
    ]);
    let rows = search(&store, "swift work", 2, &vec![]);
    assert!(rows.iter().any(|row| row.id == 2));
    assert_eq!(rows[0].id, 2);
}
