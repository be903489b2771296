use alfred_alt::models::{Item, NoteImage, DEFAULT_HOTKEY, MAX_NOTE_IMAGE_COUNT, MAX_SCREENSHOT_BYTES};
use alfred_alt::search::export_items_snapshot;
use alfred_alt::paths::{
    default_json_storage_root, load_json_storage_path_setting, save_json_storage_path_setting,
};
use alfred_alt::persist::{load_data, IndexDoc};
use alfred_alt::store::{
    delete_item, ensure_seed_data, fetch_item, insert_item, load_hotkey_setting,
    save_hotkey_setting, update_item, Store, StoreError,
};

fn image(key: &str, len: usize) -> NoteImage {
    NoteImage { image_key: key.to_string(), bytes: vec![7u8; len] }
}

#[test]
fn item_new_keeps_texts_and_starts_with_empty_note() {
    let item = Item::new("Title", "Sub", "key words");
    assert_eq!(item.title, "Title");
    assert_eq!(item.subtitle, "Sub");
    assert_eq!(item.keywords, "key words");
    assert_eq!(item.note, "");
}

#[test]
fn ids_start_at_one_and_rise() {
    let mut store = Store::new();
    let a = insert_item(&mut store, "first").unwrap();
    let b = insert_item(&mut store, "second").unwrap();
    let c = insert_item(&mut store, "third").unwrap();
    assert_eq!((a, b, c), (1, 2, 3));
}

#[test]
fn ids_are_not_reused_after_deletion() {
    let mut store = Store::new();
    let a = insert_item(&mut store, "first").unwrap();
    let b = insert_item(&mut store, "second").unwrap();
    delete_item(&mut store, b).unwrap();
    delete_item(&mut store, a).unwrap();
    let c = insert_item(&mut store, "third").unwrap();
    assert_eq!(c, 3);
    assert!(c > a && c > b);
}

#[test]
fn no_id_is_given_out_once_ids_are_used_up() {
    let mut store = Store::new();
    store.next_item_id = i64::MAX - 1;
    let a = insert_item(&mut store, "last").unwrap();
    assert_eq!(a, i64::MAX - 1);
    assert_eq!(store.next_item_id, i64::MAX);
    assert_eq!(insert_item(&mut store, "again"), Err(StoreError::IdsExhausted));
    assert_eq!(insert_item(&mut store, " "), Err(StoreError::EmptyTitle));
    assert_eq!(store.items.len(), 1);
    assert_eq!(store.items[0].title, "last");
    assert_eq!(store.next_item_id, i64::MAX);
    delete_item(&mut store, a).unwrap();
    assert_eq!(insert_item(&mut store, "again"), Err(StoreError::IdsExhausted));
    assert!(store.items.is_empty());
}

#[test]
fn a_note_under_the_highest_id_is_never_overwritten() {
    let doc = IndexDoc {
        doc_type: "item".to_string(),
        id: Some(i64::MAX),
        title: "top".to_string(),
        subtitle: String::new(),
        keywords: String::new(),
        note: "kept".to_string(),
        images: Vec::new(),
        setting_key: None,
        setting_value: String::new(),
    };
    let mut store = load_data(&vec![doc]);
    assert_eq!(insert_item(&mut store, "new"), Err(StoreError::IdsExhausted));
    assert_eq!(store.items.len(), 1);
    assert_eq!(fetch_item(&store, i64::MAX).unwrap().note, "kept");
}

#[test]
fn insert_keeps_the_other_notes_and_the_settings() {
    let mut store = Store::new();
    save_hotkey_setting(&mut store, "ctrl+K");
    let a = insert_item(&mut store, "a").unwrap();
    update_item(&mut store, a, "text", None).unwrap();
    let b = insert_item(&mut store, "b").unwrap();
    assert_eq!(store.items.len(), 2);
    assert_eq!(store.next_item_id, b + 1);
    assert_eq!(fetch_item(&store, a).unwrap().note, "text");
    assert_eq!(load_hotkey_setting(&store), "ctrl+K");
}

#[test]
fn insert_rejects_blank_titles() {
    let mut store = Store::new();
    assert_eq!(insert_item(&mut store, ""), Err(StoreError::EmptyTitle));
    assert_eq!(insert_item(&mut store, " \t\n"), Err(StoreError::EmptyTitle));
    assert_eq!(store.items.len(), 0);
    assert_eq!(store.next_item_id, 1);
}

#[test]
fn insert_then_fetch_round_trips() {
    let mut store = Store::new();
    let id = insert_item(&mut store, "X").unwrap();
    let item = fetch_item(&store, id).unwrap();
    assert_eq!(item.id, id);
    assert_eq!(item.title, "X");
    assert_eq!(item.note, "");
    assert!(item.images.is_empty());
    assert_eq!(store.items[0].keywords, "X");
    assert_eq!(store.items[0].subtitle, "");
}

#[test]
fn fetch_of_missing_item_is_not_found() {
    let store = Store::new();
    assert_eq!(fetch_item(&store, 5).err(), Some(StoreError::NotFound));
}

#[test]
fn update_without_images_keeps_images() {
    let mut store = Store::new();
    let id = insert_item(&mut store, "note").unwrap();
    let images = vec![image("a", 3), image("b", 4)];
    update_item(&mut store, id, "one", Some(&images)).unwrap();
    update_item(&mut store, id, "two", None).unwrap();
    let item = fetch_item(&store, id).unwrap();
    assert_eq!(item.note, "two");
    assert_eq!(item.images.len(), 2);
    assert_eq!(item.images[0].image_key, "a");
    assert_eq!(item.images[0].bytes, vec![7u8; 3]);
    assert_eq!(item.images[1].image_key, "b");
    assert_eq!(item.images[1].bytes, vec![7u8; 4]);
}

#[test]
fn update_with_images_replaces_images() {
    let mut store = Store::new();
    let id = insert_item(&mut store, "note").unwrap();
    update_item(&mut store, id, "one", Some(&[image("a", 3), image("b", 4)])).unwrap();
    update_item(&mut store, id, "two", Some(&[image("c", 1)])).unwrap();
    let item = fetch_item(&store, id).unwrap();
    assert_eq!(item.images.len(), 1);
    assert_eq!(item.images[0].image_key, "c");
    update_item(&mut store, id, "three", Some(&[])).unwrap();
    assert!(fetch_item(&store, id).unwrap().images.is_empty());
}

#[test]
fn update_rejects_too_many_images_and_leaves_item() {
    let mut store = Store::new();
    let id = insert_item(&mut store, "note").unwrap();
    update_item(&mut store, id, "kept", Some(&[image("a", 1)])).unwrap();
    let many: Vec<NoteImage> = (0..MAX_NOTE_IMAGE_COUNT + 1).map(|_| image("k", 1)).collect();
    assert_eq!(update_item(&mut store, id, "new", Some(&many)), Err(StoreError::TooManyImages));
    let item = fetch_item(&store, id).unwrap();
    assert_eq!(item.note, "kept");
    assert_eq!(item.images.len(), 1);
    let most: Vec<NoteImage> = (0..MAX_NOTE_IMAGE_COUNT).map(|_| image("k", 1)).collect();
    assert_eq!(update_item(&mut store, id, "new", Some(&most)), Ok(()));
}

#[test]
fn update_rejects_oversized_image_and_leaves_item() {
    let mut store = Store::new();
    let id = insert_item(&mut store, "note").unwrap();
    update_item(&mut store, id, "kept", None).unwrap();
    let images = vec![image("small", 2), image("big", MAX_SCREENSHOT_BYTES + 1)];
    assert_eq!(
        update_item(&mut store, id, "new", Some(&images)),
        Err(StoreError::ImageTooLarge("big".to_string()))
    );
    let two = vec![image("first", MAX_SCREENSHOT_BYTES + 1), image("second", MAX_SCREENSHOT_BYTES + 2)];
    assert_eq!(
        update_item(&mut store, id, "new", Some(&two)),
        Err(StoreError::ImageTooLarge("first".to_string()))
    );
    let item = fetch_item(&store, id).unwrap();
    assert_eq!(item.note, "kept");
    assert!(item.images.is_empty());
    let fits = vec![image("edge", MAX_SCREENSHOT_BYTES)];
    assert_eq!(update_item(&mut store, id, "new", Some(&fits)), Ok(()));
}

#[test]
fn update_of_missing_item_without_images_does_nothing() {
    let mut store = Store::new();
    insert_item(&mut store, "note").unwrap();
    assert_eq!(update_item(&mut store, 9, "text", None), Ok(()));
    assert_eq!(update_item(&mut store, 9, "text", Some(&[])), Ok(()));
    assert_eq!(store.items.len(), 1);
    assert_eq!(store.items[0].note, "");
}

#[test]
fn update_of_missing_item_with_images_is_not_found() {
    let mut store = Store::new();
    assert_eq!(
        update_item(&mut store, 9, "text", Some(&[image("a", 1)])),
        Err(StoreError::NotFound)
    );
}

#[test]
fn delete_removes_the_item_only() {
    let mut store = Store::new();
    let a = insert_item(&mut store, "a").unwrap();
    let b = insert_item(&mut store, "b").unwrap();
    assert_eq!(delete_item(&mut store, a), Ok(()));
    assert_eq!(fetch_item(&store, a).err(), Some(StoreError::NotFound));
    assert_eq!(fetch_item(&store, b).unwrap().title, "b");
    assert_eq!(delete_item(&mut store, a), Err(StoreError::NotFound));
}

#[test]
fn export_is_sorted_by_lowercase_title_then_id() {
    let mut store = Store::new();
    let b1 = insert_item(&mut store, "banana").unwrap();
    let a = insert_item(&mut store, "Apple").unwrap();
    let b2 = insert_item(&mut store, "Banana").unwrap();
    let c = insert_item(&mut store, "cherry").unwrap();
    update_item(&mut store, a, "text", Some(&[image("x", 1), image("y", 1)])).unwrap();
    let rows = export_items_snapshot(&store);
    let ids: Vec<i64> = rows.iter().map(|row| row.id).collect();
    assert_eq!(ids, vec![a, b1, b2, c]);
    assert_eq!(rows[0].title, "Apple");
    assert_eq!(rows[0].note, "text");
    assert_eq!(rows[0].keywords, "Apple");
    assert_eq!(rows[0].image_count, 2);
    assert_eq!(rows[1].image_count, 0);
}

#[test]
fn export_twice_gives_the_same_rows() {
    let mut store = Store::new();
    for title in ["delta", "Alpha", "charlie", "alpha", "Bravo"] {
        insert_item(&mut store, title).unwrap();
    }
    let first: Vec<(i64, String)> =
        export_items_snapshot(&store).into_iter().map(|row| (row.id, row.title)).collect();
    let second: Vec<(i64, String)> =
        export_items_snapshot(&store).into_iter().map(|row| (row.id, row.title)).collect();
    assert_eq!(first, second);
    assert_eq!(first.iter().map(|row| row.0).collect::<Vec<i64>>(), vec![2, 4, 5, 3, 1]);
}

#[test]
fn hotkey_setting_defaults_and_is_saved() {
    let mut store = Store::new();
    assert_eq!(load_hotkey_setting(&store), DEFAULT_HOTKEY);
    assert_eq!(load_hotkey_setting(&store), "super+Space");
    save_hotkey_setting(&mut store, "ctrl+K");
    assert_eq!(load_hotkey_setting(&store), "ctrl+K");
    save_hotkey_setting(&mut store, "alt+J");
    assert_eq!(load_hotkey_setting(&store), "alt+J");
    assert_eq!(store.settings.len(), 1);
}

#[test]
fn json_path_setting_defaults_and_is_saved_normalized() {
    let mut store = Store::new();
    assert_eq!(load_json_storage_path_setting(&store, Some("/work")), default_json_storage_root());
    save_json_storage_path_setting(&mut store, " /data/mirror ", Some("/work"));
    assert_eq!(store.settings[0].key, "json_storage_path");
    assert_eq!(store.settings[0].value, "/data/mirror");
    assert_eq!(load_json_storage_path_setting(&store, Some("/work")), "/data/mirror");
    save_json_storage_path_setting(&mut store, "rel/dir", Some("/work"));
    assert_eq!(store.settings[0].value, "/work/rel/dir");
    assert_eq!(load_json_storage_path_setting(&store, None), "/work/rel/dir");
    save_json_storage_path_setting(&mut store, "rel/dir", None);
    assert_eq!(store.settings[0].value, "rel/dir");
    assert_eq!(load_json_storage_path_setting(&store, Some("/other")), "/other/rel/dir");
    assert_eq!(store.settings.len(), 1);
    assert_eq!(load_hotkey_setting(&store), "super+Space");
}

#[test]
fn seeding_fills_absent_settings_only() {
    let mut store = Store::new();
    save_hotkey_setting(&mut store, "ctrl+K");
    ensure_seed_data(&mut store, "/home/u/Documents/AlfredAlternativeData");
    assert_eq!(load_hotkey_setting(&store), "ctrl+K");
    assert_eq!(
        load_json_storage_path_setting(&store, None),
        "/home/u/Documents/AlfredAlternativeData"
    );
    ensure_seed_data(&mut store, "/elsewhere");
    assert_eq!(
        load_json_storage_path_setting(&store, None),
        "/home/u/Documents/AlfredAlternativeData"
    );
    let mut fresh = Store::new();
    ensure_seed_data(&mut fresh, "/m");
    assert_eq!(load_hotkey_setting(&fresh), "super+Space");
}
