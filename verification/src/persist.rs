//! The store as documents of the full-text index: what is written on every
//! change, and how a store is rebuilt from the documents found at startup.

use vstd::prelude::*;
use crate::models::{copy_images, image_views, ImageView, NoteImage};
use crate::store::{
    has_id, id_after, ids_ascend, item_views, keys_distinct, lemma_lookup_at,
    lemma_lookup_pushed, lookup,
    setting_value, ItemView, Store, StoredItem,
};
use crate::text::same_text;

verus! {

/// Kind of the documents that hold notes.
pub const DOC_TYPE_ITEM: &'static str = "item";

/// Kind of the documents that hold settings.
pub const DOC_TYPE_SETTING: &'static str = "setting";

/// What to do with the index directory at startup.
#[derive(Clone, Copy, Debug, PartialEq, Eq, Structural)]
pub enum OpenPlan {
    /// The index opened and has the expected fields: use it.
    UseExisting,
    /// The directory is there but unusable: move it aside, then create a
    /// fresh index in its place.
    BackupThenCreate,
    /// No directory: create a fresh index.
    Create,
}

/// Decides what to do with the index directory: a directory that does not
/// open, or opens without the expected fields, is moved aside, so that the
/// store always starts.
pub fn plan_open(exists: bool, opens: bool, fields_resolve: bool) -> (plan: OpenPlan)
    ensures
        plan == (if !exists {
            OpenPlan::Create
        } else if opens && fields_resolve {
            OpenPlan::UseExisting
        } else {
            OpenPlan::BackupThenCreate
        }),
{
    if !exists {
        OpenPlan::Create
    } else if opens && fields_resolve {
        OpenPlan::UseExisting
    } else {
        OpenPlan::BackupThenCreate
    }
}

/// A document of the index, with the fields that the store reads. A field
/// that a document lacks is empty, or absent where that matters.
#[derive(Debug, Clone)]
pub struct IndexDoc {
    pub doc_type: String,
    pub id: Option<i64>,
    pub title: String,
    pub subtitle: String,
    pub keywords: String,
    pub note: String,
    pub images: Vec<NoteImage>,
    pub setting_key: Option<String>,
    pub setting_value: String,
}

/// What a document is.
pub struct DocView {
    pub doc_type: Seq<char>,
    pub id: Option<i64>,
    pub title: Seq<char>,
    pub subtitle: Seq<char>,
    pub keywords: Seq<char>,
    pub note: Seq<char>,
    pub images: Seq<ImageView>,
    pub setting_key: Option<Seq<char>>,
    pub setting_value: Seq<char>,
}

impl View for IndexDoc {
    type V = DocView;

    open spec fn view(&self) -> DocView {
        DocView {
            doc_type: self.doc_type@,
            id: self.id,
            title: self.title@,
            subtitle: self.subtitle@,
            keywords: self.keywords@,
            note: self.note@,
            images: image_views(self.images@),
            setting_key: match self.setting_key {
                Some(k) => Some(k@),
                None => None,
            },
            setting_value: self.setting_value@,
        }
    }
}

/// What a list of documents is.
pub open spec fn doc_views(docs: Seq<IndexDoc>) -> Seq<DocView> {
    Seq::new(docs.len(), |i: int| docs[i]@)
}

/// The note that a document holds, if it holds one: a document of the kind
/// of notes with an id.
pub open spec fn doc_item(doc: DocView) -> Option<ItemView> {
    if doc.doc_type == DOC_TYPE_ITEM@ && doc.id is Some {
        Some(
            ItemView {
                id: doc.id->0,
                title: doc.title,
                subtitle: doc.subtitle,
                keywords: doc.keywords,
                note: doc.note,
                images: doc.images,
            },
        )
    } else {
        None
    }
}

/// The setting that a document holds, if it holds one: a document of the
/// kind of settings with a key.
pub open spec fn doc_setting(doc: DocView) -> Option<(Seq<char>, Seq<char>)> {
    if doc.doc_type == DOC_TYPE_SETTING@ && doc.setting_key is Some {
        Some((doc.setting_key->0, doc.setting_value))
    } else {
        None
    }
}

/// The note with the id that the documents hold: the last of them wins.
pub open spec fn loaded_item(docs: Seq<DocView>, id: i64) -> Option<ItemView>
    decreases docs.len(),
{
    if docs.len() == 0 {
        None
    } else {
        match doc_item(docs.last()) {
            Some(item) => if item.id == id {
                Some(item)
            } else {
                loaded_item(docs.drop_last(), id)
            },
            None => loaded_item(docs.drop_last(), id),
        }
    }
}

/// The value under the key that the documents hold: the last of them wins.
pub open spec fn loaded_setting(docs: Seq<DocView>, key: Seq<char>) -> Option<Seq<char>>
    decreases docs.len(),
{
    if docs.len() == 0 {
        None
    } else {
        match doc_setting(docs.last()) {
            Some(pair) => if pair.0 == key {
                Some(pair.1)
            } else {
                loaded_setting(docs.drop_last(), key)
            },
            None => loaded_setting(docs.drop_last(), key),
        }
    }
}

/// The next id after the documents were read: one more than the highest id
/// seen, and 1 at least.
pub open spec fn loaded_next_id(docs: Seq<DocView>) -> i64
    decreases docs.len(),
{
    if docs.len() == 0 {
        1
    } else {
        let rest = loaded_next_id(docs.drop_last());
        match doc_item(docs.last()) {
            Some(item) => if id_after(item.id) > rest {
                id_after(item.id)
            } else {
                rest
            },
            None => rest,
        }
    }
}

/// Puts a note into the list at the place of its id, in place of the note
/// that had the id.
pub fn put_item(items: &mut Vec<StoredItem>, item: StoredItem)
    requires
        ids_ascend(item_views(old(items)@)),
    ensures
        ids_ascend(item_views(final(items)@)),
        lookup(item_views(final(items)@), item.id) == Some(item@),
        forall|other: i64|
            other != item.id ==> lookup(item_views(final(items)@), other) == lookup(
                item_views(old(items)@),
                other,
            ),
        forall|i: int|
            0 <= i < final(items).len() ==> (#[trigger] item_views(final(items)@)[i]) == item@
                || has_id(item_views(old(items)@), item_views(final(items)@)[i].id),
{
    let ghost before = item_views(items@);
    let id = item.id;
    let mut p: usize = 0;
    while p < items.len() && items[p].id < id
        invariant
            p <= items.len(),
            items@ == old(items)@,
            before == item_views(items@),
            forall|j: int| 0 <= j < p ==> (#[trigger] before[j]).id < id,
        decreases items.len() - p,
    {
        p += 1;
    }
    let ghost shown = item@;
    let replace = p < items.len() && items[p].id == id;
    if replace {
        items.set(p, item);
    } else {
        items.insert(p, item);
    }
    proof {
        let after = item_views(items@);
        if replace {
            assert(after =~= before.update(p as int, shown));
            assert forall|i: int, j: int| 0 <= i < j < after.len() implies (#[trigger] after[i]).id < (
            #[trigger] after[j]).id by {
                assert(after[i].id == before[i].id);
                assert(after[j].id == before[j].id);
            }
            lemma_lookup_at(after, p as int);
            assert forall|other: i64| other != id implies lookup(after, other) == lookup(
                before,
                other,
            ) by {
                if has_id(before, other) {
                    let q = choose|q: int| 0 <= q < before.len() && (#[trigger] before[q]).id == other;
                    assert(after[q] == before[q]);
                    lemma_lookup_at(before, q);
                    lemma_lookup_at(after, q);
                } else if has_id(after, other) {
                    let q = choose|q: int| 0 <= q < after.len() && (#[trigger] after[q]).id == other;
                    assert(before[q].id == other);
                }
            }
            assert forall|i: int| 0 <= i < after.len() implies (#[trigger] after[i]) == shown
                || has_id(before, after[i].id) by {
                if i != p {
                    assert(after[i] == before[i]);
                }
            }
        } else {
            assert(after =~= before.insert(p as int, shown));
            assert forall|i: int, j: int| 0 <= i < j < after.len() implies (#[trigger] after[i]).id < (
            #[trigger] after[j]).id by {
                let bi = if i < p { i } else { i - 1 };
                let bj = if j < p { j } else { j - 1 };
                if i != p {
                    assert(after[i] == before[bi]);
                }
                if j != p {
                    assert(after[j] == before[bj]);
                }
                if i == p {
                    assert(before[p as int].id >= id);
                    assert(before[p as int].id != id);
                    if bj > p {
                        assert(before[p as int].id < before[bj].id);
                    }
                } else if j == p {
                    assert(before[bi].id < id);
                } else {
                    assert(before[bi].id < before[bj].id);
                }
            }
            lemma_lookup_at(after, p as int);
            assert forall|other: i64| other != id implies lookup(after, other) == lookup(
                before,
                other,
            ) by {
                if has_id(before, other) {
                    let q = choose|q: int| 0 <= q < before.len() && (#[trigger] before[q]).id == other;
                    let aq = if q < p { q } else { q + 1 };
                    assert(after[aq] == before[q]);
                    lemma_lookup_at(before, q);
                    lemma_lookup_at(after, aq);
                } else if has_id(after, other) {
                    let q = choose|q: int| 0 <= q < after.len() && (#[trigger] after[q]).id == other;
                    let bq = if q < p { q } else { q - 1 };
                    assert(after[q] == before[bq]);
                    assert(before[bq].id == other);
                }
            }
            assert forall|i: int| 0 <= i < after.len() implies (#[trigger] after[i]) == shown
                || has_id(before, after[i].id) by {
                let bi = if i < p { i } else { i - 1 };
                if i != p {
                    assert(after[i] == before[bi]);
                }
            }
        }
    }
}

/// Rebuilds the store from the documents of the index. Documents of
/// another kind, notes without an id and settings without a key are passed
/// over; of two documents for one id or key the later one wins.
pub fn load_data(docs: &Vec<IndexDoc>) -> (store: Store)
    ensures
        store.wf(),
        store.next_item_id == loaded_next_id(doc_views(docs@)),
        forall|id: i64| lookup(store@.items, id) == loaded_item(doc_views(docs@), id),
        forall|key: Seq<char>|
            setting_value(store@.settings, key) == loaded_setting(doc_views(docs@), key),
{
    let mut store = Store::new();
    let ghost all = doc_views(docs@);
    let mut k: usize = 0;
    proof {
        assert(all.take(0) =~= Seq::empty());
        assert forall|id: i64| lookup(store@.items, id) == loaded_item(all.take(0), id) by {}
        assert forall|key: Seq<char>| setting_value(store@.settings, key) == loaded_setting(
            all.take(0),
            key,
        ) by {}
    }
    while k < docs.len()
        invariant
            k <= docs.len(),
            all == doc_views(docs@),
            store.wf(),
            store.next_item_id == loaded_next_id(all.take(k as int)),
            forall|id: i64| lookup(store@.items, id) == loaded_item(all.take(k as int), id),
            forall|key: Seq<char>|
                setting_value(store@.settings, key) == loaded_setting(all.take(k as int), key),
        decreases docs.len() - k,
    {
        let doc = &docs[k];
        proof {
            assert(all.take(k + 1).drop_last() =~= all.take(k as int));
            assert(all.take(k + 1).last() == doc@);
        }
        let ghost before = store@;
        if same_text(doc.doc_type.as_str(), DOC_TYPE_ITEM) {
            proof {
                reveal_strlit("item");
                reveal_strlit("setting");
                assert(DOC_TYPE_ITEM@ != DOC_TYPE_SETTING@) by {
                    assert(DOC_TYPE_ITEM@.len() != DOC_TYPE_SETTING@.len());
                }
            }
            match doc.id {
                Some(id) => {
                    let item = StoredItem {
                        id,
                        title: doc.title.clone(),
                        subtitle: doc.subtitle.clone(),
                        keywords: doc.keywords.clone(),
                        note: doc.note.clone(),
                        images: copy_images(doc.images.as_slice()),
                    };
                    assert(Some(item@) == doc_item(doc@));
                    let mut items = store.items;
                    put_item(&mut items, item);
                    let next = if id < i64::MAX { id + 1 } else { i64::MAX };
                    let next_item_id = if next > store.next_item_id {
                        next
                    } else {
                        store.next_item_id
                    };
                    store = Store { next_item_id, settings: store.settings, items };
                    proof {
                        assert(store@.settings == before.settings);
                        assert forall|i: int| 0 <= i < store@.items.len() implies ((
                        #[trigger] store@.items[i]).id < store.next_item_id
                            || store.next_item_id == i64::MAX) by {
                            if store@.items[i] == item@ {
                            } else {
                                let w = choose|w: int|
                                    0 <= w < before.items.len() && (#[trigger] before.items[w]).id
                                        == store@.items[i].id;
                                assert(before.items[w].id < before.next_item_id
                                    || before.next_item_id == i64::MAX);
                            }
                        }
                    }
                },
                None => {},
            }
        } else if same_text(doc.doc_type.as_str(), DOC_TYPE_SETTING) {
            proof {
                reveal_strlit("item");
                reveal_strlit("setting");
                assert(DOC_TYPE_ITEM@ != DOC_TYPE_SETTING@) by {
                    assert(DOC_TYPE_ITEM@.len() != DOC_TYPE_SETTING@.len());
                }
            }
            match &doc.setting_key {
                Some(key) => {
                    store.set_setting(key.as_str(), doc.setting_value.as_str());
                },
                None => {},
            }
        }
        k += 1;
    }
    assert(all.take(docs.len() as int) =~= all);
    store
}

/// The document that holds a note.
pub open spec fn item_doc(item: ItemView) -> DocView {
    DocView {
        doc_type: DOC_TYPE_ITEM@,
        id: Some(item.id),
        title: item.title,
        subtitle: item.subtitle,
        keywords: item.keywords,
        note: item.note,
        images: item.images,
        setting_key: None,
        setting_value: Seq::empty(),
    }
}

/// The document that holds a setting.
pub open spec fn setting_doc(pair: (Seq<char>, Seq<char>)) -> DocView {
    DocView {
        doc_type: DOC_TYPE_SETTING@,
        id: None,
        title: Seq::empty(),
        subtitle: Seq::empty(),
        keywords: Seq::empty(),
        note: Seq::empty(),
        images: Seq::empty(),
        setting_key: Some(pair.0),
        setting_value: pair.1,
    }
}

/// The documents of a store: one for each note, then one for each setting.
pub open spec fn store_docs(items: Seq<ItemView>, settings: Seq<(Seq<char>, Seq<char>)>) -> Seq<
    DocView,
> {
    Seq::new(items.len(), |i: int| item_doc(items[i])) + Seq::new(
        settings.len(),
        |i: int| setting_doc(settings[i]),
    )
}

proof fn lemma_kinds_differ()
    ensures
        DOC_TYPE_ITEM@ != DOC_TYPE_SETTING@,
{
    reveal_strlit("item");
    reveal_strlit("setting");
    assert(DOC_TYPE_ITEM@.len() != DOC_TYPE_SETTING@.len());
}

proof fn lemma_setting_value_pushed(
    settings: Seq<(Seq<char>, Seq<char>)>,
    entry: (Seq<char>, Seq<char>),
    key: Seq<char>,
)
    requires
        keys_distinct(settings.push(entry)),
    ensures
        keys_distinct(settings),
        setting_value(settings.push(entry), key) == (if entry.0 == key {
            Some(entry.1)
        } else {
            setting_value(settings, key)
        }),
{
    let after = settings.push(entry);
    assert forall|i: int, j: int| 0 <= i < j < settings.len() implies (#[trigger] settings[i]).0 != (
    #[trigger] settings[j]).0 by {
        assert(after[i] == settings[i]);
        assert(after[j] == settings[j]);
    }
    if entry.0 == key {
        assert(after[settings.len() as int] == entry);
        crate::store::lemma_setting_at(after, settings.len() as int);
    } else if exists|q: int| 0 <= q < settings.len() && (#[trigger] settings[q]).0 == key {
        let q = choose|q: int| 0 <= q < settings.len() && (#[trigger] settings[q]).0 == key;
        assert(after[q] == settings[q]);
        crate::store::lemma_setting_at(settings, q);
        crate::store::lemma_setting_at(after, q);
    } else if exists|q: int| 0 <= q < after.len() && (#[trigger] after[q]).0 == key {
        let q = choose|q: int| 0 <= q < after.len() && (#[trigger] after[q]).0 == key;
        assert(q < settings.len());
        assert(settings[q] == after[q]);
    }
}

proof fn lemma_item_docs_load(items: Seq<ItemView>, id: i64, key: Seq<char>)
    requires
        ids_ascend(items),
    ensures
        loaded_item(store_docs(items, Seq::empty()), id) == lookup(items, id),
        loaded_setting(store_docs(items, Seq::empty()), key) is None,
        forall|i: int|
            0 <= i < items.len() ==> id_after((#[trigger] items[i]).id) <= loaded_next_id(
                store_docs(items, Seq::empty()),
            ),
        loaded_next_id(store_docs(items, Seq::empty())) == 1 || exists|i: int|
            0 <= i < items.len() && loaded_next_id(store_docs(items, Seq::empty())) == id_after(
                (#[trigger] items[i]).id,
            ),
    decreases items.len(),
{
    lemma_kinds_differ();
    let docs = store_docs(items, Seq::empty());
    if items.len() == 0 {
        assert(docs =~= Seq::empty());
    } else {
        let rest = items.drop_last();
        let last = items.last();
        assert(items =~= rest.push(last));
        lemma_lookup_pushed(rest, last, id);
        lemma_item_docs_load(rest, id, key);
        assert(docs.drop_last() =~= store_docs(rest, Seq::empty()));
        assert(docs.last() == item_doc(last));
        assert(doc_item(item_doc(last)) == Some(last));
        assert(doc_setting(item_doc(last)) is None);
        let before = loaded_next_id(store_docs(rest, Seq::empty()));
        assert forall|i: int| 0 <= i < items.len() implies id_after((#[trigger] items[i]).id)
            <= loaded_next_id(docs) by {
            if i < rest.len() {
                assert(rest[i] == items[i]);
            }
        }
        if loaded_next_id(docs) != 1 {
            if loaded_next_id(docs) == before {
                let w = choose|i: int|
                    0 <= i < rest.len() && before == id_after((#[trigger] rest[i]).id);
                assert(items[w] == rest[w]);
            } else {
                assert(loaded_next_id(docs) == id_after(items[items.len() - 1].id));
            }
        }
    }
}

proof fn lemma_store_docs_load(
    items: Seq<ItemView>,
    settings: Seq<(Seq<char>, Seq<char>)>,
    id: i64,
    key: Seq<char>,
)
    requires
        ids_ascend(items),
        keys_distinct(settings),
    ensures
        loaded_item(store_docs(items, settings), id) == lookup(items, id),
        loaded_setting(store_docs(items, settings), key) == setting_value(settings, key),
        loaded_next_id(store_docs(items, settings)) == loaded_next_id(
            store_docs(items, Seq::empty()),
        ),
    decreases settings.len(),
{
    lemma_kinds_differ();
    let docs = store_docs(items, settings);
    if settings.len() == 0 {
        assert(settings =~= Seq::empty());
        lemma_item_docs_load(items, id, key);
    } else {
        let rest = settings.drop_last();
        let last = settings.last();
        assert(settings =~= rest.push(last));
        lemma_setting_value_pushed(rest, last, key);
        lemma_store_docs_load(items, rest, id, key);
        assert(docs.drop_last() =~= store_docs(items, rest));
        assert(docs.last() == setting_doc(last));
        assert(doc_item(setting_doc(last)) is None);
        assert(doc_setting(setting_doc(last)) == Some(last));
    }
}

/// What is written to the index is what is read from it: a store rebuilt
/// from the documents of a store holds the same note under every id and
/// the same value under every key. Its next id is one more than the
/// highest id that a note still has, and never above the next id of the
/// store that was written.
pub proof fn lemma_documents_round_trip(store: Store)
    requires
        store.wf(),
    ensures
        forall|id: i64|
            loaded_item(store_docs(store@.items, store@.settings), id) == lookup(
                store@.items,
                id,
            ),
        forall|key: Seq<char>|
            loaded_setting(store_docs(store@.items, store@.settings), key) == setting_value(
                store@.settings,
                key,
            ),
        1 <= loaded_next_id(store_docs(store@.items, store@.settings)) <= store.next_item_id,
        forall|i: int|
            0 <= i < store@.items.len() ==> id_after((#[trigger] store@.items[i]).id)
                <= loaded_next_id(store_docs(store@.items, store@.settings)),
{
    let items = store@.items;
    let settings = store@.settings;
    assert forall|id: i64| loaded_item(store_docs(items, settings), id) == lookup(items, id) by {
        lemma_store_docs_load(items, settings, id, Seq::empty());
    }
    assert forall|key: Seq<char>| loaded_setting(store_docs(items, settings), key)
        == setting_value(settings, key) by {
        lemma_store_docs_load(items, settings, 0, key);
    }
    lemma_store_docs_load(items, settings, 0, Seq::empty());
    lemma_item_docs_load(items, 0, Seq::empty());
    let next = loaded_next_id(store_docs(items, Seq::empty()));
    if next != 1 {
        let w = choose|i: int| 0 <= i < items.len() && next == id_after((#[trigger] items[i]).id);
        assert(items[w].id < store.next_item_id || store.next_item_id == i64::MAX);
    }
    lemma_next_id_at_least_one(store_docs(items, Seq::empty()));
}

proof fn lemma_next_id_at_least_one(docs: Seq<DocView>)
    ensures
        loaded_next_id(docs) >= 1,
    decreases docs.len(),
{
    if docs.len() > 0 {
        lemma_next_id_at_least_one(docs.drop_last());
    }
}

/// Lists the documents that the index holds after a rebuild: the whole
/// index is written anew from them on every change.
pub fn index_documents(store: &Store) -> (docs: Vec<IndexDoc>)
    ensures
        doc_views(docs@) == store_docs(store@.items, store@.settings),
{
    let mut docs: Vec<IndexDoc> = Vec::new();
    let mut i: usize = 0;
    while i < store.items.len()
        invariant
            i <= store.items.len(),
            docs.len() == i,
            forall|j: int| 0 <= j < i ==> (#[trigger] docs[j])@ == item_doc(store@.items[j]),
        decreases store.items.len() - i,
    {
        let item = &store.items[i];
        let doc = IndexDoc {
            doc_type: DOC_TYPE_ITEM.to_owned(),
            id: Some(item.id),
            title: item.title.clone(),
            subtitle: item.subtitle.clone(),
            keywords: item.keywords.clone(),
            note: item.note.clone(),
            images: copy_images(item.images.as_slice()),
            setting_key: None,
            setting_value: String::new(),
        };
        assert(doc@ =~= item_doc(store@.items[i as int])) by {
            assert(doc@.setting_value =~= Seq::empty());
        }
        docs.push(doc);
        i += 1;
    }
    let n = store.items.len();
    let mut s: usize = 0;
    while s < store.settings.len()
        invariant
            s <= store.settings.len(),
            n == store.items.len(),
            docs.len() == n + s,
            forall|j: int| 0 <= j < n ==> (#[trigger] docs[j])@ == item_doc(store@.items[j]),
            forall|j: int|
                0 <= j < s ==> (#[trigger] docs[n + j])@ == setting_doc(store@.settings[j]),
        decreases store.settings.len() - s,
    {
        let entry = &store.settings[s];
        let doc = IndexDoc {
            doc_type: DOC_TYPE_SETTING.to_owned(),
            id: None,
            title: String::new(),
            subtitle: String::new(),
            keywords: String::new(),
            note: String::new(),
            images: Vec::new(),
            setting_key: Some(entry.key.clone()),
            setting_value: entry.value.clone(),
        };
        assert(doc@ =~= setting_doc(store@.settings[s as int])) by {
            assert(doc@.title =~= Seq::empty());
            assert(doc@.subtitle =~= Seq::empty());
            assert(doc@.keywords =~= Seq::empty());
            assert(doc@.note =~= Seq::empty());
            assert(doc@.images =~= Seq::empty());
        }
        docs.push(doc);
        s += 1;
    }
    proof {
        let expected = store_docs(store@.items, store@.settings);
        assert(expected.len() == docs.len());
        assert forall|i: int| 0 <= i < docs.len() implies doc_views(docs@)[i] == expected[i] by {
            if i < n {
                assert(docs[i]@ == item_doc(store@.items[i]));
            } else {
                let j = i - n;
                assert(docs[n + j]@ == setting_doc(store@.settings[j]));
            }
        }
        assert(doc_views(docs@) =~= expected);
    }
    docs
}

} // verus!
