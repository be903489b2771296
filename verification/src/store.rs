//! The store: the notes by their ids, the settings, and the operations that
//! create, read, change and remove them. The store is the single source of
//! truth; what is written to disk is derived from it.

use vstd::prelude::*;
use crate::models::{
    copy_images, image_views, EditableItem, ImageView, NoteImage, DEFAULT_HOTKEY,
    MAX_NOTE_IMAGE_COUNT, MAX_SCREENSHOT_BYTES,
};
use crate::text::{same_text, to_chars, trim_chars, trimmed};

verus! {

/// Key of the setting that holds the global hotkey.
pub const HOTKEY_SETTING_KEY: &'static str = "launcher_hotkey";

/// Key of the setting that holds the root of the mirror on disk.
pub const JSON_STORAGE_PATH_SETTING_KEY: &'static str = "json_storage_path";

/// Why the store refused an operation.
#[derive(Clone, Debug, PartialEq, Eq)]
pub enum StoreError {
    /// The title is empty once it is trimmed.
    EmptyTitle,
    /// Every id was given out: no note can be created any more.
    IdsExhausted,
    /// More images than a note can hold.
    TooManyImages,
    /// The image with this key has more bytes than an image can hold.
    ImageTooLarge(String),
    /// No note has the given id.
    NotFound,
}

/// What a refusal of the store is.
pub enum Refusal {
    EmptyTitle,
    IdsExhausted,
    TooManyImages,
    ImageTooLarge(Seq<char>),
    NotFound,
}

impl View for StoreError {
    type V = Refusal;

    open spec fn view(&self) -> Refusal {
        match *self {
            StoreError::EmptyTitle => Refusal::EmptyTitle,
            StoreError::IdsExhausted => Refusal::IdsExhausted,
            StoreError::TooManyImages => Refusal::TooManyImages,
            StoreError::ImageTooLarge(key) => Refusal::ImageTooLarge(key@),
            StoreError::NotFound => Refusal::NotFound,
        }
    }
}

/// What an optional refusal is.
pub open spec fn refusal_of(e: Option<StoreError>) -> Option<Refusal> {
    match e {
        Some(err) => Some(err@),
        None => None,
    }
}

/// A note as the store keeps it.
#[derive(Debug, Clone)]
pub struct StoredItem {
    pub id: i64,
    pub title: String,
    pub subtitle: String,
    pub keywords: String,
    pub note: String,
    pub images: Vec<NoteImage>,
}

/// What a stored note is.
pub struct ItemView {
    pub id: i64,
    pub title: Seq<char>,
    pub subtitle: Seq<char>,
    pub keywords: Seq<char>,
    pub note: Seq<char>,
    pub images: Seq<ImageView>,
}

impl View for StoredItem {
    type V = ItemView;

    open spec fn view(&self) -> ItemView {
        ItemView {
            id: self.id,
            title: self.title@,
            subtitle: self.subtitle@,
            keywords: self.keywords@,
            note: self.note@,
            images: image_views(self.images@),
        }
    }
}

/// One setting.
#[derive(Debug, Clone)]
pub struct Setting {
    pub key: String,
    pub value: String,
}

/// What the notes of a store are.
pub open spec fn item_views(items: Seq<StoredItem>) -> Seq<ItemView> {
    Seq::new(items.len(), |i: int| items[i]@)
}

/// What the settings of a store are: pairs of key and value.
pub open spec fn setting_views(settings: Seq<Setting>) -> Seq<(Seq<char>, Seq<char>)> {
    Seq::new(settings.len(), |i: int| (settings[i].key@, settings[i].value@))
}

/// What a store is.
pub struct StoreView {
    pub next_item_id: i64,
    pub settings: Seq<(Seq<char>, Seq<char>)>,
    pub items: Seq<ItemView>,
}

/// Some note of the list has the id.
pub open spec fn has_id(items: Seq<ItemView>, id: i64) -> bool {
    exists|p: int| 0 <= p < items.len() && (#[trigger] items[p]).id == id
}

/// The note of the list with the id.
pub open spec fn lookup(items: Seq<ItemView>, id: i64) -> Option<ItemView> {
    if has_id(items, id) {
        Some(items[choose|p: int| 0 <= p < items.len() && (#[trigger] items[p]).id == id])
    } else {
        None
    }
}

/// The ids rise strictly along the list.
pub open spec fn ids_ascend(items: Seq<ItemView>) -> bool {
    forall|i: int, j: int| 0 <= i < j < items.len() ==> (#[trigger] items[i]).id < (#[trigger] items[j]).id
}

/// Every id of the list is above zero.
pub open spec fn ids_positive(items: Seq<ItemView>) -> bool {
    forall|i: int| 0 <= i < items.len() ==> (#[trigger] items[i]).id > 0
}

/// The note holds no more images than a note can hold, and none with more
/// bytes than an image can hold.
pub open spec fn within_limits(item: ItemView) -> bool {
    item.images.len() <= MAX_NOTE_IMAGE_COUNT && forall|i: int|
        0 <= i < item.images.len() ==> (#[trigger] item.images[i]).bytes.len()
            <= MAX_SCREENSHOT_BYTES
}

/// Every note of the list is within the limits on images.
pub open spec fn all_within_limits(items: Seq<ItemView>) -> bool {
    forall|i: int| 0 <= i < items.len() ==> within_limits(#[trigger] items[i])
}

/// The value stored under a key, if any.
pub open spec fn setting_value(settings: Seq<(Seq<char>, Seq<char>)>, key: Seq<char>) -> Option<
    Seq<char>,
> {
    if exists|p: int| 0 <= p < settings.len() && (#[trigger] settings[p]).0 == key {
        Some(settings[choose|p: int| 0 <= p < settings.len() && (#[trigger] settings[p]).0 == key].1)
    } else {
        None
    }
}

/// No key occurs twice.
pub open spec fn keys_distinct(settings: Seq<(Seq<char>, Seq<char>)>) -> bool {
    forall|i: int, j: int|
        0 <= i < j < settings.len() ==> (#[trigger] settings[i]).0 != (#[trigger] settings[j]).0
}

/// The note that `insert_item` creates.
pub open spec fn fresh_item(id: i64, title: Seq<char>) -> ItemView {
    ItemView {
        id,
        title,
        subtitle: Seq::empty(),
        keywords: title,
        note: Seq::empty(),
        images: Seq::empty(),
    }
}

/// The id after `id`, as far as there is one.
pub open spec fn id_after(id: i64) -> i64 {
    if id < i64::MAX {
        (id + 1) as i64
    } else {
        i64::MAX
    }
}

/// Position of the first image at or behind `from` that has more bytes
/// than an image can hold; the length of the list where there is none.
pub open spec fn first_oversized(list: Seq<ImageView>, from: int) -> int
    decreases list.len() - from,
{
    if from < 0 || from >= list.len() || list[from].bytes.len() > MAX_SCREENSHOT_BYTES {
        from
    } else {
        first_oversized(list, from + 1)
    }
}

/// Why a list of images is refused, if it is: too many of them first, then
/// the first one that is too large, by its key.
pub open spec fn images_refused(images: Option<Seq<ImageView>>) -> Option<Refusal> {
    match images {
        None => None,
        Some(list) => if list.len() > MAX_NOTE_IMAGE_COUNT {
            Some(Refusal::TooManyImages)
        } else if 0 <= first_oversized(list, 0) < list.len() {
            Some(Refusal::ImageTooLarge(list[first_oversized(list, 0)].image_key))
        } else {
            None
        },
    }
}

/// The first oversized image lies behind images that are not oversized.
pub proof fn lemma_first_oversized(list: Seq<ImageView>, from: int)
    requires
        0 <= from <= list.len(),
    ensures
        from <= first_oversized(list, from) <= list.len(),
        forall|j: int|
            from <= j < first_oversized(list, from) ==> (#[trigger] list[j]).bytes.len()
                <= MAX_SCREENSHOT_BYTES,
        first_oversized(list, from) < list.len() ==> list[first_oversized(list, from)].bytes.len()
            > MAX_SCREENSHOT_BYTES,
    decreases list.len() - from,
{
    if from < list.len() && list[from].bytes.len() <= MAX_SCREENSHOT_BYTES {
        lemma_first_oversized(list, from + 1);
    }
}

/// The note that `insert_item` creates, and the store around it: the note
/// gets the next id, which is above every id in the store, and comes
/// behind the notes of the store, which stay as they are, as do the
/// settings; the next id moves up by one.
pub open spec fn inserted(before: StoreView, after: StoreView, title: Seq<char>, id: i64) -> bool {
    &&& trimmed(title).len() > 0
    &&& before.next_item_id < i64::MAX
    &&& id == before.next_item_id
    &&& id > 0
    &&& after.next_item_id == id + 1
    &&& forall|i: int| 0 <= i < before.items.len() ==> (#[trigger] before.items[i]).id < id
    &&& after.items == before.items.push(fresh_item(id, title))
    &&& after.settings == before.settings
}

/// Looking up a list with one more note at its end: the new note under
/// its id, and under every other id what was there before.
pub proof fn lemma_lookup_pushed(items: Seq<ItemView>, item: ItemView, id: i64)
    requires
        ids_ascend(items.push(item)),
    ensures
        ids_ascend(items),
        lookup(items.push(item), id) == (if item.id == id {
            Some(item)
        } else {
            lookup(items, id)
        }),
{
    let after = items.push(item);
    assert forall|i: int, j: int| 0 <= i < j < items.len() implies (#[trigger] items[i]).id < (
    #[trigger] items[j]).id by {
        assert(after[i] == items[i]);
        assert(after[j] == items[j]);
    }
    if item.id == id {
        assert(after[items.len() as int] == item);
        lemma_lookup_at(after, items.len() as int);
    } else if has_id(items, id) {
        let q = choose|q: int| 0 <= q < items.len() && (#[trigger] items[q]).id == id;
        assert(after[q] == items[q]);
        lemma_lookup_at(items, q);
        lemma_lookup_at(after, q);
    } else if has_id(after, id) {
        let q = choose|q: int| 0 <= q < after.len() && (#[trigger] after[q]).id == id;
        assert(q < items.len());
        assert(items[q] == after[q]);
    }
}

/// The images that a caller supplies, if any.
pub open spec fn supplied(images: Option<&[NoteImage]>) -> Option<Seq<ImageView>> {
    match images {
        Some(list) => Some(image_views(list@)),
        None => None,
    }
}

/// The note with its text replaced, and its images where some are supplied.
pub open spec fn updated_item(item: ItemView, note: Seq<char>, images: Option<Seq<ImageView>>) -> ItemView {
    ItemView {
        note,
        images: match images {
            Some(list) => list,
            None => item.images,
        },
        ..item
    }
}

/// The notes and settings of the application.
pub struct Store {
    pub next_item_id: i64,
    pub settings: Vec<Setting>,
    pub items: Vec<StoredItem>,
}

impl View for Store {
    type V = StoreView;

    open spec fn view(&self) -> StoreView {
        StoreView {
            next_item_id: self.next_item_id,
            settings: setting_views(self.settings@),
            items: item_views(self.items@),
        }
    }
}

impl Store {
    /// The notes are held in the order of their ids, no id is at or above
    /// the next one to be given out unless the ids are used up, and no
    /// setting is held twice.
    pub open spec fn wf(&self) -> bool {
        &&& self.next_item_id >= 1
        &&& ids_ascend(self@.items)
        &&& forall|i: int|
            0 <= i < self@.items.len() ==> ((#[trigger] self@.items[i]).id < self.next_item_id
                || self.next_item_id == i64::MAX)
        &&& keys_distinct(self@.settings)
    }

    /// A store without notes and settings.
    pub fn new() -> (store: Store)
        ensures
            store.wf(),
            store@.items.len() == 0,
            store@.settings.len() == 0,
            store.next_item_id == 1,
    {
        Store { next_item_id: 1, settings: Vec::new(), items: Vec::new() }
    }

    /// Position of the note with the id.
    pub fn position_of(&self, id: i64) -> (r: Option<usize>)
        ensures
            match r {
                Some(p) => p < self.items.len() && self@.items[p as int].id == id,
                None => !has_id(self@.items, id),
            },
    {
        let mut i: usize = 0;
        while i < self.items.len()
            invariant
                i <= self.items.len(),
                forall|j: int| 0 <= j < i ==> (#[trigger] self@.items[j]).id != id,
            decreases self.items.len() - i,
        {
            if self.items[i].id == id {
                return Some(i);
            }
            i += 1;
        }
        None
    }

    /// Position of the setting with the key.
    pub fn setting_position(&self, key: &str) -> (r: Option<usize>)
        ensures
            match r {
                Some(p) => p < self.settings.len() && self@.settings[p as int].0 == key@,
                None => forall|j: int|
                    0 <= j < self.settings.len() ==> (#[trigger] self@.settings[j]).0 != key@,
            },
    {
        let mut i: usize = 0;
        while i < self.settings.len()
            invariant
                i <= self.settings.len(),
                forall|j: int| 0 <= j < i ==> (#[trigger] self@.settings[j]).0 != key@,
            decreases self.settings.len() - i,
        {
            if same_text(self.settings[i].key.as_str(), key) {
                return Some(i);
            }
            i += 1;
        }
        None
    }

    /// The value stored under a key.
    pub fn setting(&self, key: &str) -> (r: Option<String>)
        requires
            self.wf(),
        ensures
            text_of_setting(r) == setting_value(self@.settings, key@),
    {
        match self.setting_position(key) {
            Some(p) => {
                proof {
                    lemma_setting_at(self@.settings, p as int);
                }
                Some(self.settings[p].value.clone())
            },
            None => None,
        }
    }

    /// Stores a value under a key, in place of the value that was there.
    pub fn set_setting(&mut self, key: &str, value: &str)
        requires
            old(self).wf(),
        ensures
            final(self).wf(),
            final(self)@.items == old(self)@.items,
            final(self).next_item_id == old(self).next_item_id,
            setting_value(final(self)@.settings, key@) == Some(value@),
            forall|other: Seq<char>|
                other != key@ ==> setting_value(final(self)@.settings, other) == setting_value(
                    old(self)@.settings,
                    other,
                ),
    {
        let entry = Setting { key: key.to_owned(), value: value.to_owned() };
        let ghost before = self@.settings;
        match self.setting_position(key) {
            Some(p) => {
                self.settings.set(p, entry);
                assert(self@.settings =~= before.update(p as int, (key@, value@)));
                assert(self@.items =~= old(self)@.items);
                proof {
                    lemma_setting_at(self@.settings, p as int);
                    assert forall|other: Seq<char>| other != key@ implies setting_value(
                        self@.settings,
                        other,
                    ) == setting_value(before, other) by {
                        lemma_setting_same_elsewhere(before, self@.settings, p as int, other);
                    }
                }
            },
            None => {
                self.settings.push(entry);
                assert(self@.settings =~= before.push((key@, value@)));
                assert(self@.items =~= old(self)@.items);
                proof {
                    lemma_setting_at(self@.settings, before.len() as int);
                    assert forall|other: Seq<char>| other != key@ implies setting_value(
                        self@.settings,
                        other,
                    ) == setting_value(before, other) by {
                        lemma_setting_pushed(before, (key@, value@), other);
                    }
                }
            },
        }
    }
}

/// What an optional setting value is.
pub open spec fn text_of_setting(s: Option<String>) -> Option<Seq<char>> {
    match s {
        Some(t) => Some(t@),
        None => None,
    }
}

/// With distinct keys, the value under the key at `p` is the one at `p`.
pub proof fn lemma_setting_at(settings: Seq<(Seq<char>, Seq<char>)>, p: int)
    requires
        keys_distinct(settings),
        0 <= p < settings.len(),
    ensures
        setting_value(settings, settings[p].0) == Some(settings[p].1),
{
    let key = settings[p].0;
    let q = choose|q: int| 0 <= q < settings.len() && (#[trigger] settings[q]).0 == key;
    assert(q == p) by {
        if q < p {
            assert(settings[q].0 != settings[p].0);
        } else if p < q {
            assert(settings[p].0 != settings[q].0);
        }
    }
}

proof fn lemma_setting_same_elsewhere(
    before: Seq<(Seq<char>, Seq<char>)>,
    after: Seq<(Seq<char>, Seq<char>)>,
    p: int,
    other: Seq<char>,
)
    requires
        keys_distinct(before),
        keys_distinct(after),
        0 <= p < before.len(),
        after.len() == before.len(),
        forall|j: int| 0 <= j < before.len() && j != p ==> after[j] == before[j],
        after[p].0 == before[p].0,
        other != before[p].0,
    ensures
        setting_value(after, other) == setting_value(before, other),
{
    if exists|q: int| 0 <= q < before.len() && (#[trigger] before[q]).0 == other {
        let q = choose|q: int| 0 <= q < before.len() && (#[trigger] before[q]).0 == other;
        assert(after[q].0 == other);
        lemma_setting_at(before, q);
        lemma_setting_at(after, q);
    } else {
        if exists|q: int| 0 <= q < after.len() && (#[trigger] after[q]).0 == other {
            let q = choose|q: int| 0 <= q < after.len() && (#[trigger] after[q]).0 == other;
            assert(before[q].0 == other);
        }
    }
}

proof fn lemma_setting_pushed(
    before: Seq<(Seq<char>, Seq<char>)>,
    entry: (Seq<char>, Seq<char>),
    other: Seq<char>,
)
    requires
        keys_distinct(before),
        keys_distinct(before.push(entry)),
        other != entry.0,
    ensures
        setting_value(before.push(entry), other) == setting_value(before, other),
{
    let after = before.push(entry);
    if exists|q: int| 0 <= q < before.len() && (#[trigger] before[q]).0 == other {
        let q = choose|q: int| 0 <= q < before.len() && (#[trigger] before[q]).0 == other;
        assert(after[q].0 == other);
        lemma_setting_at(before, q);
        lemma_setting_at(after, q);
    } else {
        if exists|q: int| 0 <= q < after.len() && (#[trigger] after[q]).0 == other {
            let q = choose|q: int| 0 <= q < after.len() && (#[trigger] after[q]).0 == other;
            assert(q < before.len());
            assert(before[q].0 == other);
        }
    }
}

/// With rising ids, the note with the id at `p` is the one at `p`.
pub proof fn lemma_lookup_at(items: Seq<ItemView>, p: int)
    requires
        ids_ascend(items),
        0 <= p < items.len(),
    ensures
        lookup(items, items[p].id) == Some(items[p]),
{
    let id = items[p].id;
    let q = choose|q: int| 0 <= q < items.len() && (#[trigger] items[q]).id == id;
    assert(q == p) by {
        if q < p {
            assert(items[q].id < items[p].id);
        } else if p < q {
            assert(items[p].id < items[q].id);
        }
    }
}

/// Creates a note with the given title, an empty text and no images, under
/// the next id. The title must hold more than whitespace, and an id must
/// be left: an id is never given out twice.
pub fn insert_item(store: &mut Store, title: &str) -> (r: Result<i64, StoreError>)
    requires
        old(store).wf(),
    ensures
        final(store).wf(),
        final(store).next_item_id >= old(store).next_item_id,
        ids_positive(old(store)@.items) ==> ids_positive(final(store)@.items),
        all_within_limits(old(store)@.items) ==> all_within_limits(final(store)@.items),
        match r {
            Ok(id) => {
                &&& inserted(old(store)@, final(store)@, title@, id)
                &&& lookup(final(store)@.items, id) == Some(fresh_item(id, title@))
                &&& forall|other: i64|
                    other != id ==> lookup(final(store)@.items, other) == lookup(
                        old(store)@.items,
                        other,
                    )
            },
            Err(e) => {
                &&& final(store)@ == old(store)@
                &&& if trimmed(title@).len() == 0 {
                    e == StoreError::EmptyTitle
                } else {
                    old(store).next_item_id == i64::MAX && e == StoreError::IdsExhausted
                }
            },
        },
{
    let chars = to_chars(title);
    if trim_chars(&chars).len() == 0 {
        return Err(StoreError::EmptyTitle);
    }
    if store.next_item_id == i64::MAX {
        return Err(StoreError::IdsExhausted);
    }
    let id: i64 = store.next_item_id;
    let item = StoredItem {
        id,
        title: title.to_owned(),
        subtitle: String::new(),
        keywords: title.to_owned(),
        note: String::new(),
        images: Vec::new(),
    };
    assert(item@ == fresh_item(id, title@)) by {
        assert(item@.images =~= Seq::empty());
        assert(item@.subtitle =~= Seq::empty());
        assert(item@.note =~= Seq::empty());
    }
    let ghost before = store@.items;
    store.items.push(item);
    store.next_item_id = id + 1;
    proof {
        let after = store@.items;
        let last = after.len() - 1;
        assert(after =~= before.push(fresh_item(id, title@)));
        assert(store@.settings =~= old(store)@.settings);
        assert forall|i: int, j: int| 0 <= i < j < after.len() implies (#[trigger] after[i]).id < (
        #[trigger] after[j]).id by {
            assert(after[i] == before[i]);
            if j < last {
                assert(after[j] == before[j]);
            }
        }
        assert forall|i: int| 0 <= i < after.len() implies ((#[trigger] after[i]).id
            < store.next_item_id || store.next_item_id == i64::MAX) by {
            if i < last {
                assert(after[i] == before[i]);
            }
        }
        assert forall|other: i64| lookup(after, other) == (if other == id {
            Some(fresh_item(id, title@))
        } else {
            lookup(before, other)
        }) by {
            lemma_lookup_pushed(before, fresh_item(id, title@), other);
        }
        if ids_positive(before) {
            assert forall|i: int| 0 <= i < after.len() implies (#[trigger] after[i]).id > 0 by {
                if i < last {
                    assert(after[i] == before[i]);
                }
            }
        }
        if all_within_limits(before) {
            assert forall|i: int| 0 <= i < after.len() implies within_limits(#[trigger] after[i]) by {
                if i < last {
                    assert(after[i] == before[i]);
                }
            }
        }
    }
    Ok(id)
}

/// Reads the note with the id.
pub fn fetch_item(store: &Store, id: i64) -> (r: Result<EditableItem, StoreError>)
    requires
        store.wf(),
    ensures
        match r {
            Ok(item) => {
                &&& lookup(store@.items, id) is Some
                &&& item.id == id
                &&& item.title@ == lookup(store@.items, id)->0.title
                &&& item.note@ == lookup(store@.items, id)->0.note
                &&& image_views(item.images@) == lookup(store@.items, id)->0.images
            },
            Err(e) => e == StoreError::NotFound && !has_id(store@.items, id),
        },
{
    match store.position_of(id) {
        Some(p) => {
            proof {
                lemma_lookup_at(store@.items, p as int);
            }
            let item = &store.items[p];
            Ok(
                EditableItem {
                    id: item.id,
                    title: item.title.clone(),
                    note: item.note.clone(),
                    images: copy_images(item.images.as_slice()),
                },
            )
        },
        None => Err(StoreError::NotFound),
    }
}

/// Checks a list of images against the limits on their number and size.
pub fn check_images(images: Option<&[NoteImage]>) -> (r: Option<StoreError>)
    ensures
        refusal_of(r) == images_refused(supplied(images)),
{
    match images {
        None => None,
        Some(list) => {
            if list.len() > MAX_NOTE_IMAGE_COUNT {
                return Some(StoreError::TooManyImages);
            }
            let ghost views = image_views(list@);
            let mut i: usize = 0;
            while i < list.len()
                invariant
                    i <= list.len(),
                    images == Some(list),
                    views == image_views(list@),
                    list.len() <= MAX_NOTE_IMAGE_COUNT,
                    first_oversized(views, 0) == first_oversized(views, i as int),
                decreases list.len() - i,
            {
                assert(views[i as int] == list[i as int]@);
                if list[i].bytes.len() > MAX_SCREENSHOT_BYTES {
                    return Some(StoreError::ImageTooLarge(list[i].image_key.clone()));
                }
                i += 1;
            }
            None
        },
    }
}

/// Replaces the text of a note, and its images where a list is supplied.
/// The images are checked before anything changes. A note that is gone is
/// left alone without complaint unless images were to be attached to it.
pub fn update_item(store: &mut Store, id: i64, note: &str, images: Option<&[NoteImage]>) -> (r:
    Result<(), StoreError>)
    requires
        old(store).wf(),
    ensures
        final(store).wf(),
        final(store)@.settings == old(store)@.settings,
        final(store).next_item_id == old(store).next_item_id,
        ids_positive(old(store)@.items) ==> ids_positive(final(store)@.items),
        all_within_limits(old(store)@.items) ==> all_within_limits(final(store)@.items),
        match images_refused(supplied(images)) {
            Some(e) => r is Err && r->Err_0@ == e && final(store)@ == old(store)@,
            None => match lookup(old(store)@.items, id) {
                None => {
                    &&& final(store)@ == old(store)@
                    &&& r is Err <==> (images is Some && images->0@.len() > 0)
                    &&& r is Err ==> r->Err_0@ == Refusal::NotFound
                },
                Some(item) => {
                    &&& r is Ok
                    &&& final(store)@.items.len() == old(store)@.items.len()
                    &&& lookup(final(store)@.items, id) == Some(
                        updated_item(item, note@, supplied(images)),
                    )
                    &&& forall|other: i64|
                        other != id ==> lookup(final(store)@.items, other) == lookup(
                            old(store)@.items,
                            other,
                        )
                },
            },
        },
{
    match check_images(images) {
        Some(e) => {
            return Err(e);
        },
        None => {},
    }
    let p = match store.position_of(id) {
        Some(p) => p,
        None => {
            return match images {
                Some(list) => if list.len() > 0 {
                    Err(StoreError::NotFound)
                } else {
                    Ok(())
                },
                None => Ok(()),
            };
        },
    };
    let ghost before = store@.items;
    proof {
        lemma_lookup_at(before, p as int);
    }
    let current = store.items.remove(p);
    let new_images = match images {
        Some(list) => copy_images(list),
        None => current.images,
    };
    let changed = StoredItem {
        id: current.id,
        title: current.title,
        subtitle: current.subtitle,
        keywords: current.keywords,
        note: note.to_owned(),
        images: new_images,
    };
    store.items.insert(p, changed);
    proof {
        let after = store@.items;
        assert(after =~= before.update(p as int, updated_item(before[p as int], note@, supplied(images))));
        assert(store@.settings =~= old(store)@.settings);
        assert(ids_ascend(after)) by {
            assert forall|i: int, j: int| 0 <= i < j < after.len() implies (#[trigger] after[i]).id < (
            #[trigger] after[j]).id by {
                assert(after[i].id == before[i].id);
                assert(after[j].id == before[j].id);
            }
        }
        assert forall|i: int| 0 <= i < after.len() implies ((#[trigger] after[i]).id
            < store.next_item_id || store.next_item_id == i64::MAX) by {
            assert(after[i].id == before[i].id);
        }
        lemma_lookup_at(after, p as int);
        assert forall|other: i64| other != id implies lookup(after, other) == lookup(
            before,
            other,
        ) by {
            lemma_lookup_elsewhere(before, after, p as int, other);
        }
        if ids_positive(before) {
            assert forall|i: int| 0 <= i < after.len() implies (#[trigger] after[i]).id > 0 by {
                assert(after[i].id == before[i].id);
            }
        }
        if all_within_limits(before) {
            assert forall|i: int| 0 <= i < after.len() implies within_limits(#[trigger] after[i]) by {
                if i != p {
                    assert(after[i] == before[i]);
                } else {
                    assert(within_limits(before[p as int]));
                    match supplied(images) {
                        Some(list) => {
                            assert(after[i].images == list);
                            assert(images_refused(Some(list)) is None);
                            lemma_first_oversized(list, 0);
                        },
                        None => {
                            assert(after[i].images == before[p as int].images);
                        },
                    }
                }
            }
        }
    }
    Ok(())
}

proof fn lemma_lookup_elsewhere(before: Seq<ItemView>, after: Seq<ItemView>, p: int, other: i64)
    requires
        ids_ascend(before),
        ids_ascend(after),
        0 <= p < before.len(),
        after.len() == before.len(),
        forall|j: int| 0 <= j < before.len() && j != p ==> after[j] == before[j],
        after[p].id == before[p].id,
        other != before[p].id,
    ensures
        lookup(after, other) == lookup(before, other),
{
    if has_id(before, other) {
        let q = choose|q: int| 0 <= q < before.len() && (#[trigger] before[q]).id == other;
        assert(after[q].id == other);
        lemma_lookup_at(before, q);
        lemma_lookup_at(after, q);
    } else {
        if has_id(after, other) {
            let q = choose|q: int| 0 <= q < after.len() && (#[trigger] after[q]).id == other;
            assert(before[q].id == other);
        }
    }
}

/// Removes the note with the id.
pub fn delete_item(store: &mut Store, id: i64) -> (r: Result<(), StoreError>)
    requires
        old(store).wf(),
    ensures
        final(store).wf(),
        final(store)@.settings == old(store)@.settings,
        final(store).next_item_id == old(store).next_item_id,
        ids_positive(old(store)@.items) ==> ids_positive(final(store)@.items),
        all_within_limits(old(store)@.items) ==> all_within_limits(final(store)@.items),
        match r {
            Ok(_) => {
                &&& has_id(old(store)@.items, id)
                &&& !has_id(final(store)@.items, id)
                &&& final(store)@.items.len() == old(store)@.items.len() - 1
                &&& forall|other: i64|
                    other != id ==> lookup(final(store)@.items, other) == lookup(
                        old(store)@.items,
                        other,
                    )
            },
            Err(e) => {
                &&& e == StoreError::NotFound
                &&& !has_id(old(store)@.items, id)
                &&& final(store)@ == old(store)@
            },
        },
{
    let p = match store.position_of(id) {
        Some(p) => p,
        None => {
            return Err(StoreError::NotFound);
        },
    };
    let ghost before = store@.items;
    let _ = store.items.remove(p);
    proof {
        let after = store@.items;
        assert(after =~= before.remove(p as int));
        assert(store@.settings =~= old(store)@.settings);
        assert forall|i: int, j: int| 0 <= i < j < after.len() implies (#[trigger] after[i]).id < (
        #[trigger] after[j]).id by {
            let bi = if i < p { i } else { i + 1 };
            let bj = if j < p { j } else { j + 1 };
            assert(after[i] == before[bi]);
            assert(after[j] == before[bj]);
            assert(before[bi].id < before[bj].id);
        }
        assert forall|i: int| 0 <= i < after.len() implies ((#[trigger] after[i]).id
            < store.next_item_id || store.next_item_id == i64::MAX) by {
            let bi = if i < p { i } else { i + 1 };
            assert(after[i] == before[bi]);
            assert(before[bi].id < store.next_item_id || store.next_item_id == i64::MAX);
        }
        if ids_positive(before) {
            assert forall|i: int| 0 <= i < after.len() implies (#[trigger] after[i]).id > 0 by {
                let bi = if i < p { i } else { i + 1 };
                assert(after[i] == before[bi]);
            }
        }
        if all_within_limits(before) {
            assert forall|i: int| 0 <= i < after.len() implies within_limits(#[trigger] after[i]) by {
                let bi = if i < p { i } else { i + 1 };
                assert(after[i] == before[bi]);
            }
        }
        assert(!has_id(after, id)) by {
            if has_id(after, id) {
                let q = choose|q: int| 0 <= q < after.len() && (#[trigger] after[q]).id == id;
                let bq = if q < p { q } else { q + 1 };
                assert(after[q] == before[bq]);
                if bq < p {
                    assert(before[bq].id < before[p as int].id);
                } else {
                    assert(before[p as int].id < before[bq].id);
                }
            }
        }
        assert forall|other: i64| other != id implies lookup(after, other) == lookup(
            before,
            other,
        ) by {
            if has_id(before, other) {
                let q = choose|q: int| 0 <= q < before.len() && (#[trigger] before[q]).id == other;
                let aq = if q < p { q } else { q - 1 };
                assert(after[aq] == before[q]);
                lemma_lookup_at(before, q);
                lemma_lookup_at(after, aq);
            } else {
                if has_id(after, other) {
                    let q = choose|q: int| 0 <= q < after.len() && (#[trigger] after[q]).id == other;
                    let bq = if q < p { q } else { q + 1 };
                    assert(after[q] == before[bq]);
                    assert(before[bq].id == other);
                }
            }
        }
    }
    Ok(())
}

/// Reads the hotkey setting; the default where none is stored.
pub fn load_hotkey_setting(store: &Store) -> (r: String)
    requires
        store.wf(),
    ensures
        r@ == match setting_value(store@.settings, HOTKEY_SETTING_KEY@) {
            Some(value) => value,
            None => DEFAULT_HOTKEY@,
        },
{
    match store.setting(HOTKEY_SETTING_KEY) {
        Some(value) => value,
        None => DEFAULT_HOTKEY.to_owned(),
    }
}

/// Stores the hotkey setting.
pub fn save_hotkey_setting(store: &mut Store, value: &str)
    requires
        old(store).wf(),
    ensures
        final(store).wf(),
        final(store)@.items == old(store)@.items,
        final(store).next_item_id == old(store).next_item_id,
        setting_value(final(store)@.settings, HOTKEY_SETTING_KEY@) == Some(value@),
        forall|other: Seq<char>|
            other != HOTKEY_SETTING_KEY@ ==> setting_value(final(store)@.settings, other)
                == setting_value(old(store)@.settings, other),
{
    store.set_setting(HOTKEY_SETTING_KEY, value);
}

/// Seeds the settings that are absent: the hotkey with its default, the
/// root of the mirror with the given path. Settings that are there stay.
pub fn ensure_seed_data(store: &mut Store, default_json_path: &str)
    requires
        old(store).wf(),
    ensures
        final(store).wf(),
        final(store)@.items == old(store)@.items,
        final(store).next_item_id == old(store).next_item_id,
        setting_value(final(store)@.settings, HOTKEY_SETTING_KEY@) == Some(
            match setting_value(old(store)@.settings, HOTKEY_SETTING_KEY@) {
                Some(value) => value,
                None => DEFAULT_HOTKEY@,
            },
        ),
        setting_value(final(store)@.settings, JSON_STORAGE_PATH_SETTING_KEY@) == Some(
            match setting_value(old(store)@.settings, JSON_STORAGE_PATH_SETTING_KEY@) {
                Some(value) => value,
                None => default_json_path@,
            },
        ),
        forall|other: Seq<char>|
            other != HOTKEY_SETTING_KEY@ && other != JSON_STORAGE_PATH_SETTING_KEY@
                ==> setting_value(final(store)@.settings, other) == setting_value(
                old(store)@.settings,
                other,
            ),
{
    proof {
        reveal_strlit("launcher_hotkey");
        reveal_strlit("json_storage_path");
        assert(HOTKEY_SETTING_KEY@ != JSON_STORAGE_PATH_SETTING_KEY@) by {
            assert(HOTKEY_SETTING_KEY@.len() != JSON_STORAGE_PATH_SETTING_KEY@.len());
        }
    }
    let hotkey = load_hotkey_setting(store);
    store.set_setting(HOTKEY_SETTING_KEY, hotkey.as_str());
    let path = match store.setting(JSON_STORAGE_PATH_SETTING_KEY) {
        Some(value) => value,
        None => default_json_path.to_owned(),
    };
    store.set_setting(JSON_STORAGE_PATH_SETTING_KEY, path.as_str());
}

} // verus!
