use alfred_alt::backend::{
    create_item, delete_item, ensure_item_id, get_item, images_of_records, map_store_error,
    normalize_limit, save_hotkey, save_item, search_items, BackendError, ErrorKind,
    ExportItemRecord, NoteImageRecord, SearchResultRecord,
};
use alfred_alt::paths::{
    choose_root_base, default_json_storage_path_string, default_json_storage_root,
    default_root_from, index_path, index_path_in, json_storage_root_from_settings,
    normalize_storage_path, normalize_storage_path_from, plan_storage_path, project_data_dir,
    RootBase, StoragePathPlan, UserPaths,
};
use alfred_alt::backend::get_item_json_path;
use alfred_alt::paths::save_json_storage_path_setting;
use alfred_alt::models::{ExportItem, NoteImage, SearchResult};
use alfred_alt::sanitize::{sanitize_note_for_storage, sanitize_title};
use alfred_alt::store::{fetch_item, load_hotkey_setting, Store, StoreError};

fn kind<T>(r: Result<T, BackendError>) -> Option<ErrorKind> {
    r.err().map(|e| e.kind())
}

#[test]
fn item_ids_must_be_positive() {
    assert!(ensure_item_id(1).is_ok());
    assert!(ensure_item_id(i64::MAX).is_ok());
    assert_eq!(kind(ensure_item_id(0)), Some(ErrorKind::Validation));
    assert_eq!(kind(ensure_item_id(-1)), Some(ErrorKind::Validation));
}

#[test]
fn limits_are_normalized() {
    assert_eq!(normalize_limit(None).unwrap(), 8);
    assert_eq!(normalize_limit(Some(1)).unwrap(), 1);
    assert_eq!(normalize_limit(Some(64)).unwrap(), 64);
    assert_eq!(normalize_limit(Some(65)).unwrap(), 64);
    assert_eq!(normalize_limit(Some(u32::MAX)).unwrap(), 64);
    assert_eq!(kind(normalize_limit(Some(0))), Some(ErrorKind::Validation));
}

#[test]
fn store_errors_map_to_kinds() {
    assert_eq!(map_store_error(StoreError::EmptyTitle).kind(), ErrorKind::Validation);
    assert_eq!(map_store_error(StoreError::TooManyImages).kind(), ErrorKind::Validation);
    assert_eq!(
        map_store_error(StoreError::ImageTooLarge("k".to_string())).kind(),
        ErrorKind::Validation
    );
    assert_eq!(map_store_error(StoreError::IdsExhausted).kind(), ErrorKind::Storage);
    assert_eq!(
        map_store_error(StoreError::ImageTooLarge("img-1".to_string())).message(),
        "validation error: image 'img-1' exceeds 11718 KB storage limit"
    );
    assert_eq!(
        map_store_error(StoreError::TooManyImages).message(),
        "validation error: too many note images (max 24)"
    );
    assert_eq!(
        map_store_error(StoreError::EmptyTitle).message(),
        "validation error: title must not be empty"
    );
    assert_eq!(
        map_store_error(StoreError::IdsExhausted).message(),
        "storage error: no item id is left"
    );
    assert_eq!(map_store_error(StoreError::NotFound).kind(), ErrorKind::NotFound);
    assert_eq!(
        map_store_error(StoreError::NotFound).message(),
        "not found: requested item does not exist"
    );
    assert_eq!(
        BackendError::Validation("title must not be empty".to_string()).message(),
        "validation error: title must not be empty"
    );
    assert_eq!(BackendError::Storage("disk".to_string()).message(), "storage error: disk");
    assert_eq!(BackendError::Storage("disk".to_string()).kind(), ErrorKind::Storage);
}

#[test]
fn titles_and_notes_lose_control_characters() {
    assert_eq!(sanitize_title("a\u{0}b\u{7}c\u{FEFF}d\u{FFFD}e"), "abcde");
    assert_eq!(sanitize_title("tab\tline\nret\r ok"), "tab\tline\nret\r ok");
    assert_eq!(sanitize_note_for_storage("x\u{1b}[0m y\u{1f}"), "x[0m y");
    assert_eq!(sanitize_note_for_storage(""), "");
}

#[test]
fn create_item_cleans_and_checks_the_title() {
    let mut store = Store::new();
    let id = create_item(&mut store, "  My\u{0} note \n").unwrap();
    assert_eq!(id, 1);
    assert_eq!(fetch_item(&store, id).unwrap().title, "My note");
    assert_eq!(kind(create_item(&mut store, " \u{0}\t ")), Some(ErrorKind::Validation));
    assert_eq!(kind(create_item(&mut store, "")), Some(ErrorKind::Validation));
    let long = "x".repeat(10_001);
    assert_eq!(kind(create_item(&mut store, &long)), Some(ErrorKind::Validation));
    let fits = "x".repeat(10_000);
    assert_eq!(create_item(&mut store, &fits).unwrap(), 2);
    assert_eq!(store.items.len(), 2);
}

#[test]
fn get_item_checks_the_id_first() {
    let mut store = Store::new();
    let id = create_item(&mut store, "note").unwrap();
    assert_eq!(get_item(&store, id).unwrap().title, "note");
    assert_eq!(kind(get_item(&store, 0)), Some(ErrorKind::Validation));
    assert_eq!(kind(get_item(&store, 5)), Some(ErrorKind::NotFound));
}

#[test]
fn save_item_checks_and_stores() {
    let mut store = Store::new();
    let id = create_item(&mut store, "note").unwrap();
    let images = vec![NoteImage { image_key: "k".to_string(), bytes: vec![1, 2, 3] }];
    save_item(&mut store, id, "text\u{0} here", &images).unwrap();
    let item = fetch_item(&store, id).unwrap();
    assert_eq!(item.note, "text here");
    assert_eq!(item.images.len(), 1);
    assert_eq!(kind(save_item(&mut store, 0, "x", &images)), Some(ErrorKind::Validation));
    assert_eq!(kind(save_item(&mut store, 9, "x", &images)), Some(ErrorKind::NotFound));
    assert!(save_item(&mut store, 9, "x", &Vec::new()).is_ok());
    let long = "y".repeat(10_000_001);
    assert_eq!(kind(save_item(&mut store, id, &long, &images)), Some(ErrorKind::Validation));
    let many: Vec<NoteImage> =
        (0..25).map(|_| NoteImage { image_key: "k".to_string(), bytes: vec![1] }).collect();
    assert_eq!(kind(save_item(&mut store, id, "x", &many)), Some(ErrorKind::Validation));
    assert_eq!(fetch_item(&store, id).unwrap().note, "text here");
}

#[test]
fn delete_item_checks_the_id_first() {
    let mut store = Store::new();
    let id = create_item(&mut store, "note").unwrap();
    assert_eq!(kind(delete_item(&mut store, -2)), Some(ErrorKind::Validation));
    assert!(delete_item(&mut store, id).is_ok());
    assert_eq!(kind(delete_item(&mut store, id)), Some(ErrorKind::NotFound));
}

#[test]
fn search_items_bounds_query_and_limit() {
    let mut store = Store::new();
    for n in 0..70 {
        create_item(&mut store, &format!("note {n}")).unwrap();
    }
    assert_eq!(search_items(&store, "note", None, &Vec::new()).unwrap().len(), 8);
    assert_eq!(search_items(&store, "note", Some(500), &Vec::new()).unwrap().len(), 64);
    assert_eq!(search_items(&store, "note", Some(3), &Vec::new()).unwrap().len(), 3);
    assert_eq!(kind(search_items(&store, "note", Some(0), &Vec::new())), Some(ErrorKind::Validation));
    let long = format!("{}note", " ".repeat(1024));
    assert_eq!(search_items(&store, &long, Some(3), &Vec::new()).unwrap()[0].snippet, None);
    assert_eq!(search_items(&store, &long, Some(70), &Vec::new()).unwrap().len(), 64);
    let short = format!("{}note", " ".repeat(1020));
    assert_eq!(search_items(&store, &short, Some(70), &Vec::new()).unwrap().len(), 64);
}

#[test]
fn save_hotkey_trims_and_refuses_blank() {
    let mut store = Store::new();
    save_hotkey(&mut store, "  ctrl+K \n").unwrap();
    assert_eq!(load_hotkey_setting(&store), "ctrl+K");
    assert_eq!(kind(save_hotkey(&mut store, "  ")), Some(ErrorKind::Validation));
    assert_eq!(load_hotkey_setting(&store), "ctrl+K");
}

#[test]
fn storage_paths_are_planned() {
    assert!(matches!(plan_storage_path("  ", true), StoragePathPlan::DefaultRoot));
    assert!(matches!(plan_storage_path("~", true), StoragePathPlan::Home));
    assert!(matches!(plan_storage_path(" ~/notes/x ", true), StoragePathPlan::UnderHome(p) if p == "notes/x"));
    assert!(matches!(plan_storage_path("~", false), StoragePathPlan::Literal(p) if p == "~"));
    assert!(matches!(plan_storage_path("~/n", false), StoragePathPlan::Literal(p) if p == "~/n"));
    assert!(matches!(plan_storage_path(" /abs/dir", true), StoragePathPlan::Literal(p) if p == "/abs/dir"));
    assert!(matches!(plan_storage_path("~user", true), StoragePathPlan::Literal(p) if p == "~user"));
}

#[test]
fn default_root_is_chosen_by_what_is_known() {
    let both = Some(UserPaths { home: "/h".to_string(), documents: Some("/h/Docs".to_string()) });
    let home_only = Some(UserPaths { home: "/h".to_string(), documents: None });
    assert_eq!(choose_root_base(&both, true), RootBase::Documents);
    assert_eq!(choose_root_base(&both, false), RootBase::Documents);
    assert_eq!(choose_root_base(&home_only, true), RootBase::Home);
    assert_eq!(choose_root_base(&None, true), RootBase::DataDir);
    assert_eq!(choose_root_base(&None, false), RootBase::Nowhere);
}

#[test]
fn absolute_paths_stay_and_relative_ones_are_joined() {
    assert_eq!(normalize_storage_path(" /abs/dir ", Some("/work")), "/abs/dir");
    assert_eq!(normalize_storage_path("rel/dir", Some("/work")), "/work/rel/dir");
    assert_eq!(normalize_storage_path("rel/dir", None), "rel/dir");
}

fn user(home: &str, documents: Option<&str>) -> Option<UserPaths> {
    Some(UserPaths { home: home.to_string(), documents: documents.map(|d| d.to_string()) })
}

#[test]
fn index_directory_lies_in_the_data_directory() {
    assert_eq!(
        index_path_in(&Some("/data/app".to_string())),
        Some("/data/app/alfred_lucene_index".to_string())
    );
    assert_eq!(index_path_in(&None), None);
    assert_eq!(index_path(), index_path_in(&project_data_dir()));
}

#[test]
fn default_root_follows_the_known_directories() {
    let data = Some("/data/app".to_string());
    assert_eq!(
        default_root_from(&user("/h", Some("/h/Docs")), &data),
        "/h/Docs/AlfredAlternativeData"
    );
    assert_eq!(default_root_from(&user("/h", None), &data), "/h/AlfredAlternativeData");
    assert_eq!(default_root_from(&None, &data), "/data/app/json_storage");
    assert_eq!(default_root_from(&None, &None), "AlfredAlternativeData");
    assert_eq!(default_json_storage_path_string(), default_json_storage_root());
}

#[test]
fn storage_paths_are_normalized_for_the_known_directories() {
    let known = user("/h", Some("/h/Docs"));
    let data = Some("/data/app".to_string());
    let from = |raw: &str, dir: Option<&str>, who: &Option<UserPaths>| {
        normalize_storage_path_from(raw, dir, who, &data)
    };
    assert_eq!(from("  ", Some("/work"), &known), "/h/Docs/AlfredAlternativeData");
    assert_eq!(from("", None, &None), "/data/app/json_storage");
    assert_eq!(from(" ~ ", Some("/work"), &known), "/h");
    assert_eq!(from("~/notes/x", Some("/work"), &known), "/h/notes/x");
    assert_eq!(from("~/notes", Some("/work"), &None), "/work/~/notes");
    assert_eq!(from("~", None, &None), "~");
    assert_eq!(from("/abs/dir", Some("/work"), &known), "/abs/dir");
    assert_eq!(from("rel/dir", Some("/work"), &known), "/work/rel/dir");
    assert_eq!(from("rel/dir", None, &known), "rel/dir");
    assert_eq!(from("~//abs", Some("/work"), &known), "/abs");
    assert_eq!(from("~/x", Some("/work"), &user("rel-home", None)), "/work/rel-home/x");
}

#[test]
fn mirror_root_follows_the_stored_path() {
    let mut store = Store::new();
    assert_eq!(json_storage_root_from_settings(&store, Some("/work")), default_json_storage_root());
    save_json_storage_path_setting(&mut store, "/data/mirror", Some("/work"));
    assert_eq!(json_storage_root_from_settings(&store, Some("/work")), "/data/mirror");
    save_json_storage_path_setting(&mut store, "mirror", None);
    assert_eq!(json_storage_root_from_settings(&store, Some("/work")), "/work/mirror");
    assert_eq!(json_storage_root_from_settings(&store, None), "mirror");
}

#[test]
fn item_json_path_lies_below_the_mirror_root() {
    let mut store = Store::new();
    let id = create_item(&mut store, "note").unwrap();
    save_json_storage_path_setting(&mut store, "/data/mirror", None);
    assert_eq!(
        get_item_json_path(&store, id, Some("/work")).unwrap(),
        "/data/mirror/item-1.json"
    );
    assert_eq!(kind(get_item_json_path(&store, 0, None)), Some(ErrorKind::Validation));
    assert_eq!(kind(get_item_json_path(&store, 9, None)), Some(ErrorKind::NotFound));
}

#[test]
fn create_item_reports_used_up_ids_as_a_storage_failure() {
    let mut store = Store::new();
    store.next_item_id = i64::MAX;
    let failure = create_item(&mut store, "note").unwrap_err();
    assert_eq!(failure.kind(), ErrorKind::Storage);
    assert_eq!(failure.message(), "storage error: no item id is left");
    assert!(store.items.is_empty());
    assert_eq!(kind(create_item(&mut store, " ")), Some(ErrorKind::Validation));
}

#[test]
fn failures_carry_their_messages() {
    let mut store = Store::new();
    let id = create_item(&mut store, "note").unwrap();
    let big = vec![NoteImage { image_key: "shot".to_string(), bytes: vec![0u8; 12_000_001] }];
    assert_eq!(
        save_item(&mut store, id, "x", &big).unwrap_err().message(),
        "validation error: image 'shot' exceeds 11718 KB storage limit"
    );
    assert_eq!(
        save_item(&mut store, 0, "x", &Vec::new()).unwrap_err().message(),
        "validation error: item_id must be a positive integer"
    );
    assert_eq!(
        delete_item(&mut store, 9).unwrap_err().message(),
        "not found: requested item does not exist"
    );
    assert_eq!(
        create_item(&mut store, "").unwrap_err().message(),
        "validation error: title must not be empty"
    );
    assert_eq!(
        save_hotkey(&mut store, " ").unwrap_err().message(),
        "validation error: hotkey must not be empty"
    );
    assert_eq!(
        normalize_limit(Some(0)).unwrap_err().message(),
        "validation error: limit must be at least 1"
    );
}

#[test]
fn backend_changes_keep_the_rest_of_the_store() {
    let mut store = Store::new();
    save_hotkey(&mut store, "ctrl+K").unwrap();
    let a = create_item(&mut store, "a").unwrap();
    let b = create_item(&mut store, "b").unwrap();
    save_item(&mut store, a, "text a", &Vec::new()).unwrap();
    assert_eq!(fetch_item(&store, b).unwrap().note, "");
    assert_eq!(store.next_item_id, 3);
    delete_item(&mut store, a).unwrap();
    assert_eq!(fetch_item(&store, b).unwrap().title, "b");
    assert_eq!(store.items.len(), 1);
    assert_eq!(store.next_item_id, 3);
    assert_eq!(load_hotkey_setting(&store), "ctrl+K");
    save_json_storage_path_setting(&mut store, "/m", None);
    save_hotkey(&mut store, "alt+J").unwrap();
    assert_eq!(json_storage_root_from_settings(&store, None), "/m");
}

#[test]
fn records_carry_the_fields_over() {
    let row = SearchResult {
        id: 4,
        title: "t".to_string(),
        subtitle: "s".to_string(),
        snippet: Some("**x**".to_string()),
        snippet_source: Some("note".to_string()),
    };
    let record = SearchResultRecord::from(row);
    assert_eq!(record.id, 4);
    assert_eq!(record.title, "t");
    assert_eq!(record.subtitle, "s");
    assert_eq!(record.snippet.as_deref(), Some("**x**"));
    assert_eq!(record.snippet_source.as_deref(), Some("note"));
    let image = NoteImageRecord::from(NoteImage { image_key: "k".to_string(), bytes: vec![5] });
    assert_eq!(image.image_key, "k");
    let back = NoteImage::from(image.clone());
    assert_eq!(back.bytes, vec![5]);
    assert_eq!(images_of_records(&vec![image])[0].image_key, "k");
    let export = ExportItemRecord::from(ExportItem {
        id: 1,
        title: "a".to_string(),
        subtitle: "b".to_string(),
        keywords: "c".to_string(),
        note: "d".to_string(),
        image_count: 2,
    });
    assert_eq!((export.id, export.image_count), (1, 2));
    assert_eq!(export.note, "d");
}
