use alfred_alt::index_query::{
    build_lucene_query, next_char_boundary, previous_char_boundary, snippet_with_markers,
};
use alfred_alt::text::to_chars;
use alfred_alt::mirror::{
    corrupt_backup_name, get_item_json_path, image_file_name, is_item_json_file_name,
    is_legacy_artifact_name, is_legacy_backup_name, is_stale_image_file, is_stale_item_file,
    item_json_file_name, mirror_image_file_names, mirror_item_file_names, temp_file_name,
};
use alfred_alt::models::NoteImage;
use alfred_alt::paths::save_json_storage_path_setting;
use alfred_alt::persist::{index_documents, load_data, plan_open, IndexDoc, OpenPlan};
use alfred_alt::store::{
    fetch_item, insert_item, load_hotkey_setting, save_hotkey_setting, update_item, Store,
    StoreError,
};
use alfred_alt::text::Span;

fn item_doc(id: Option<i64>, title: &str, note: &str) -> IndexDoc {
    IndexDoc {
        doc_type: "item".to_string(),
        id,
        title: title.to_string(),
        subtitle: String::new(),
        keywords: title.to_string(),
        note: note.to_string(),
        images: vec![NoteImage { image_key: "k".to_string(), bytes: vec![1, 2] }],
        setting_key: None,
        setting_value: String::new(),
    }
}

fn setting_doc(key: Option<&str>, value: &str) -> IndexDoc {
    IndexDoc {
        doc_type: "setting".to_string(),
        id: None,
        title: String::new(),
        subtitle: String::new(),
        keywords: String::new(),
        note: String::new(),
        images: Vec::new(),
        setting_key: key.map(|k| k.to_string()),
        setting_value: value.to_string(),
    }
}

#[test]
fn item_file_names() {
    assert_eq!(item_json_file_name(1), "item-1.json");
    assert_eq!(item_json_file_name(0), "item-0.json");
    assert_eq!(item_json_file_name(120), "item-120.json");
    assert_eq!(item_json_file_name(-45), "item--45.json");
    assert_eq!(item_json_file_name(i64::MAX), "item-9223372036854775807.json");
    assert_eq!(item_json_file_name(i64::MIN), "item--9223372036854775808.json");
}

#[test]
fn item_file_names_are_recognised() {
    assert!(is_item_json_file_name("item-1.json"));
    assert!(is_item_json_file_name("item-anything.json"));
    assert!(is_item_json_file_name("item-.json"));
    assert!(!is_item_json_file_name("item-1.json.tmp"));
    assert!(!is_item_json_file_name("note-1.json"));
    assert!(!is_item_json_file_name("item"));
    assert!(!is_item_json_file_name(""));
}

#[test]
fn image_file_names_escape_bytes() {
    assert_eq!(image_file_name("img-1-aaaa"), "img-1-aaaa.bin");
    assert_eq!(image_file_name("A_b.9"), "A_b.9.bin");
    assert_eq!(image_file_name("a b/c"), "a_20b_2fc.bin");
    assert_eq!(image_file_name("é"), "_c3_a9.bin");
    assert_eq!(image_file_name("\n"), "_0a.bin");
    assert_eq!(image_file_name(""), "image.bin");
}

#[test]
fn mirror_names_follow_the_store() {
    let mut store = Store::new();
    let a = insert_item(&mut store, "a").unwrap();
    let b = insert_item(&mut store, "b").unwrap();
    update_item(
        &mut store,
        b,
        "",
        Some(&[
            NoteImage { image_key: "one".to_string(), bytes: vec![1] },
            NoteImage { image_key: "t w".to_string(), bytes: vec![2] },
        ]),
    )
    .unwrap();
    assert_eq!(mirror_item_file_names(&store), vec!["item-1.json", "item-2.json"]);
    assert!(mirror_image_file_names(&store.items[0]).is_empty());
    assert_eq!(mirror_image_file_names(&store.items[1]), vec!["one.bin", "t_20w.bin"]);
    save_json_storage_path_setting(&mut store, "mirror", None);
    assert_eq!(
        get_item_json_path(&store, a, Some("/work")),
        Ok("/work/mirror/item-1.json".to_string())
    );
    assert_eq!(get_item_json_path(&store, b, None), Ok("mirror/item-2.json".to_string()));
    save_json_storage_path_setting(&mut store, "/data/mirror", None);
    assert_eq!(
        get_item_json_path(&store, a, Some("/work")),
        Ok("/data/mirror/item-1.json".to_string())
    );
    assert_eq!(get_item_json_path(&store, 9, None), Err(StoreError::NotFound));
}

#[test]
fn stale_files_are_told_apart() {
    let expected = vec!["item-1.json".to_string(), "item-3.json".to_string()];
    assert!(!is_stale_item_file("item-1.json", &expected));
    assert!(is_stale_item_file("item-2.json", &expected));
    assert!(!is_stale_item_file("readme.txt", &expected));
    let images = vec!["one.bin".to_string()];
    assert!(!is_stale_image_file("one.bin", &images));
    assert!(is_stale_image_file("two.bin", &images));
    assert!(is_stale_image_file("readme.txt", &images));
}

#[test]
fn legacy_names_are_recognised() {
    for name in [
        "alfred_store.json",
        "alfred_store.json.tmp",
        "alfred.db",
        "alfred.db-wal",
        "alfred.db-shm",
        "alfred_search_index",
    ] {
        assert!(is_legacy_artifact_name(name));
    }
    assert!(!is_legacy_artifact_name("alfred_lucene_index"));
    assert!(is_legacy_backup_name("alfred.db.corrupt.1700000000"));
    assert!(is_legacy_backup_name("alfred_store.json.corrupt.5"));
    assert!(!is_legacy_backup_name("alfred.db"));
    assert!(!is_legacy_backup_name("alfred_lucene_index.corrupt.5"));
}

#[test]
fn backup_and_temp_names() {
    assert_eq!(corrupt_backup_name("/d/index", 1700000000), "/d/index.corrupt.1700000000");
    assert_eq!(corrupt_backup_name("index", 0), "index.corrupt.0");
    assert_eq!(temp_file_name("item-1.json", 42, 99), ".item-1.json.tmp-42-99");
}

#[test]
fn damaged_index_is_moved_aside() {
    assert_eq!(plan_open(false, false, false), OpenPlan::Create);
    assert_eq!(plan_open(false, true, true), OpenPlan::Create);
    assert_eq!(plan_open(true, true, true), OpenPlan::UseExisting);
    assert_eq!(plan_open(true, false, false), OpenPlan::BackupThenCreate);
    assert_eq!(plan_open(true, true, false), OpenPlan::BackupThenCreate);
    assert_eq!(plan_open(true, false, true), OpenPlan::BackupThenCreate);
}

#[test]
fn store_from_fresh_index_is_empty() {
    let store = load_data(&Vec::new());
    assert!(store.items.is_empty());
    assert!(store.settings.is_empty());
    assert_eq!(store.next_item_id, 1);
}

#[test]
fn store_is_rebuilt_from_documents() {
    let docs = vec![
        item_doc(Some(7), "seven", "n7"),
        setting_doc(Some("launcher_hotkey"), "ctrl+K"),
        item_doc(Some(3), "three", "n3"),
        item_doc(None, "no id", ""),
        setting_doc(None, "lost"),
        IndexDoc { doc_type: "other".to_string(), ..item_doc(Some(99), "x", "") },
        item_doc(Some(7), "seven again", "later"),
        setting_doc(Some("launcher_hotkey"), "alt+J"),
    ];
    let store = load_data(&docs);
    assert_eq!(store.items.iter().map(|i| i.id).collect::<Vec<i64>>(), vec![3, 7]);
    assert_eq!(store.next_item_id, 8);
    let seven = fetch_item(&store, 7).unwrap();
    assert_eq!(seven.title, "seven again");
    assert_eq!(seven.note, "later");
    assert_eq!(seven.images.len(), 1);
    assert_eq!(seven.images[0].bytes, vec![1, 2]);
    assert_eq!(load_hotkey_setting(&store), "alt+J");
    assert_eq!(store.settings.len(), 1);
}

#[test]
fn store_from_documents_with_odd_ids() {
    let store = load_data(&vec![item_doc(Some(-4), "neg", ""), item_doc(Some(0), "zero", "")]);
    assert_eq!(store.next_item_id, 1);
    assert_eq!(store.items.len(), 2);
    let top = load_data(&vec![item_doc(Some(i64::MAX), "top", "")]);
    assert_eq!(top.next_item_id, i64::MAX);
}

#[test]
fn documents_round_trip_through_the_index() {
    let mut store = Store::new();
    let a = insert_item(&mut store, "a").unwrap();
    insert_item(&mut store, "b").unwrap();
    update_item(
        &mut store,
        a,
        "text",
        Some(&[NoteImage { image_key: "k".to_string(), bytes: vec![9] }]),
    )
    .unwrap();
    save_hotkey_setting(&mut store, "ctrl+K");
    let docs = index_documents(&store);
    assert_eq!(docs.len(), 3);
    assert_eq!(docs[0].doc_type, "item");
    assert_eq!(docs[0].id, Some(1));
    assert_eq!(docs[0].note, "text");
    assert_eq!(docs[2].doc_type, "setting");
    assert_eq!(docs[2].setting_key.as_deref(), Some("launcher_hotkey"));
    assert_eq!(docs[2].setting_value, "ctrl+K");
    let back = load_data(&docs);
    assert_eq!(back.next_item_id, 3);
    assert_eq!(fetch_item(&back, a).unwrap().note, "text");
    assert_eq!(fetch_item(&back, a).unwrap().images[0].bytes, vec![9]);
    assert_eq!(load_hotkey_setting(&back), "ctrl+K");
}

#[test]
fn index_query_is_built_from_tokens() {
    assert_eq!(build_lucene_query("swift work"), Some("swift* AND work*".to_string()));
    assert_eq!(build_lucene_query("  c++  a_b-c! "), Some("c* AND a_b-c*".to_string()));
    assert_eq!(build_lucene_query("!!! ???"), None);
    assert_eq!(build_lucene_query(""), None);
    let long = "x".repeat(70);
    assert_eq!(build_lucene_query(&long), Some(format!("{}*", "x".repeat(64))));
    let many = "a b c d e f g h i j k l m n";
    assert_eq!(
        build_lucene_query(many),
        Some("a* AND b* AND c* AND d* AND e* AND f* AND g* AND h* AND i* AND j* AND k* AND l*".to_string())
    );
}

#[test]
fn byte_offsets_are_moved_to_character_boundaries() {
    let text = to_chars("aéb€");
    let before: Vec<usize> = (0..9).map(|byte| previous_char_boundary(&text, byte)).collect();
    assert_eq!(before, vec![0, 1, 1, 2, 3, 3, 3, 4, 4]);
    let behind: Vec<usize> = (0..9).map(|byte| next_char_boundary(&text, byte)).collect();
    assert_eq!(behind, vec![0, 1, 2, 2, 3, 4, 4, 4, 4]);
}

#[test]
fn index_fragments_get_markers() {
    let ranges = vec![Span { start: 0, end: 4 }, Span { start: 15, end: 19 }];
    assert_eq!(
        snippet_with_markers("Rust and swift RUST ", &ranges),
        Some("**Rust** and swift **RUST**".to_string())
    );
    let touching = vec![Span { start: 4, end: 6 }, Span { start: 0, end: 4 }, Span { start: 5, end: 7 }];
    assert_eq!(snippet_with_markers("abcdefgh", &touching), Some("**abcdefg**h".to_string()));
    assert_eq!(snippet_with_markers("abc", &Vec::new()), None);
    assert_eq!(snippet_with_markers("", &vec![Span { start: 0, end: 1 }]), None);
    assert_eq!(snippet_with_markers("abc", &vec![Span { start: 2, end: 2 }]), None);
    assert_eq!(snippet_with_markers("abc", &vec![Span { start: 7, end: 9 }]), None);
    assert_eq!(
        snippet_with_markers("aéb", &vec![Span { start: 2, end: 3 }]),
        Some("a**é**b".to_string())
    );
    assert_eq!(
        snippet_with_markers("abc", &vec![Span { start: 1, end: 40 }]),
        Some("a**bc**".to_string())
    );
}
