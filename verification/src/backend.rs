//! The operations as a user interface calls them: each checks what it is
//! given, works on the store and reports a failure by its kind.

use vstd::prelude::*;
use vstd::string::StringSliceAdditionalSpecFns;
use crate::models::{image_views, result_views, EditableItem, ExportItem, NoteImage, SearchResult};
use crate::mirror::is_item_json_path;
use crate::paths::given_dir;
use crate::sanitize::{sanitize_note_for_storage, sanitize_title, storable};
use crate::search::{hit_views, search, search_rows, IndexHit};
use crate::store::{
    delete_item as delete_stored_item, fetch_item, has_id, images_refused, insert_item, lookup,
    inserted, save_hotkey_setting, setting_value, update_item, Refusal, Store, StoreError,
    HOTKEY_SETTING_KEY, JSON_STORAGE_PATH_SETTING_KEY,
};
use crate::text::{
    byte_length, copy_range, from_chars, lemma_trimmed_twice, to_chars, trim_chars, trimmed,
};

verus! {

/// Rows of a search where the caller names no limit.
pub const DEFAULT_SEARCH_LIMIT: u32 = 8;

/// Most rows of a search.
pub const MAX_SEARCH_LIMIT: u32 = 64;

/// Most characters of a query that are looked at where the query is longer
/// than as many bytes.
pub const MAX_QUERY_LENGTH: usize = 1024;

/// Most bytes of a title.
pub const MAX_TITLE_LENGTH: usize = 10_000;

/// Most bytes of a note.
pub const MAX_NOTE_LENGTH: usize = 10_000_000;

/// A failure as the user interface sees it.
#[derive(Debug)]
pub enum BackendError {
    /// The caller can mend the input.
    Validation(String),
    /// No note has the id.
    NotFound(String),
    /// The store could not be read or written.
    Storage(String),
}

/// A row of a search, for the user interface.
#[derive(Debug, Clone)]
pub struct SearchResultRecord {
    pub id: i64,
    pub title: String,
    pub subtitle: String,
    pub snippet: Option<String>,
    pub snippet_source: Option<String>,
}

/// An image of a note, for the user interface.
#[derive(Debug, Clone)]
pub struct NoteImageRecord {
    pub image_key: String,
    pub bytes: Vec<u8>,
}

/// A note in the editor, for the user interface.
#[derive(Debug, Clone)]
pub struct EditableItemRecord {
    pub id: i64,
    pub title: String,
    pub note: String,
    pub images: Vec<NoteImageRecord>,
}

/// A row of an export, for the user interface.
#[derive(Debug, Clone)]
pub struct ExportItemRecord {
    pub id: i64,
    pub title: String,
    pub subtitle: String,
    pub keywords: String,
    pub note: String,
    pub image_count: i64,
}

/// A deleted note in the list of the archive, for the user interface.
#[derive(Debug, Clone)]
pub struct DeletedItemRecord {
    pub archive_key: String,
    pub id: i64,
    pub title: String,
    pub deleted_at_unix_seconds: i64,
    pub image_count: i64,
}

/// A deleted note with its text, for the user interface.
#[derive(Debug, Clone)]
pub struct DeletedItemPreviewRecord {
    pub archive_key: String,
    pub id: i64,
    pub title: String,
    pub note: String,
    pub deleted_at_unix_seconds: i64,
    pub image_count: i64,
}

impl From<SearchResult> for SearchResultRecord {
    fn from(value: SearchResult) -> (out: Self) {
        SearchResultRecord {
            id: value.id,
            title: value.title,
            subtitle: value.subtitle,
            snippet: value.snippet,
            snippet_source: value.snippet_source,
        }
    }
}

impl vstd::std_specs::convert::FromSpecImpl<SearchResult> for SearchResultRecord {
    open spec fn obeys_from_spec() -> bool {
        true
    }

    open spec fn from_spec(value: SearchResult) -> Self {
        SearchResultRecord {
            id: value.id,
            title: value.title,
            subtitle: value.subtitle,
            snippet: value.snippet,
            snippet_source: value.snippet_source,
        }
    }
}

impl From<NoteImage> for NoteImageRecord {
    fn from(value: NoteImage) -> (out: Self) {
        NoteImageRecord { image_key: value.image_key, bytes: value.bytes }
    }
}

impl vstd::std_specs::convert::FromSpecImpl<NoteImage> for NoteImageRecord {
    open spec fn obeys_from_spec() -> bool {
        true
    }

    open spec fn from_spec(value: NoteImage) -> Self {
        NoteImageRecord { image_key: value.image_key, bytes: value.bytes }
    }
}

impl From<NoteImageRecord> for NoteImage {
    fn from(value: NoteImageRecord) -> (out: Self) {
        NoteImage { image_key: value.image_key, bytes: value.bytes }
    }
}

impl vstd::std_specs::convert::FromSpecImpl<NoteImageRecord> for NoteImage {
    open spec fn obeys_from_spec() -> bool {
        true
    }

    open spec fn from_spec(value: NoteImageRecord) -> Self {
        NoteImage { image_key: value.image_key, bytes: value.bytes }
    }
}

impl From<ExportItem> for ExportItemRecord {
    fn from(value: ExportItem) -> (out: Self) {
        ExportItemRecord {
            id: value.id,
            title: value.title,
            subtitle: value.subtitle,
            keywords: value.keywords,
            note: value.note,
            image_count: value.image_count,
        }
    }
}

impl vstd::std_specs::convert::FromSpecImpl<ExportItem> for ExportItemRecord {
    open spec fn obeys_from_spec() -> bool {
        true
    }

    open spec fn from_spec(value: ExportItem) -> Self {
        ExportItemRecord {
            id: value.id,
            title: value.title,
            subtitle: value.subtitle,
            keywords: value.keywords,
            note: value.note,
            image_count: value.image_count,
        }
    }
}

/// The images of a note as records, in their order.
pub open spec fn record_views(records: Seq<NoteImageRecord>) -> Seq<crate::models::ImageView> {
    Seq::new(
        records.len(),
        |i: int| crate::models::ImageView { image_key: records[i].image_key@, bytes: records[i].bytes@ },
    )
}

/// Turns a note of the editor into its record.
pub fn editable_record(value: EditableItem) -> (out: EditableItemRecord)
    ensures
        out.id == value.id,
        out.title@ == value.title@,
        out.note@ == value.note@,
        record_views(out.images@) == image_views(value.images@),
{
    let mut images: Vec<NoteImageRecord> = Vec::new();
    let mut i: usize = 0;
    while i < value.images.len()
        invariant
            i <= value.images.len(),
            images.len() == i,
            forall|j: int|
                0 <= j < i ==> (#[trigger] images[j]).image_key@ == value.images[j].image_key@
                    && images[j].bytes@ == value.images[j].bytes@,
        decreases value.images.len() - i,
    {
        let copy = crate::models::copy_image(&value.images[i]);
        images.push(NoteImageRecord { image_key: copy.image_key, bytes: copy.bytes });
        i += 1;
    }
    assert(record_views(images@) =~= image_views(value.images@));
    EditableItemRecord { id: value.id, title: value.title, note: value.note, images }
}

/// Turns the records of images into images.
pub fn images_of_records(records: &Vec<NoteImageRecord>) -> (out: Vec<NoteImage>)
    ensures
        image_views(out@) == record_views(records@),
{
    let mut out: Vec<NoteImage> = Vec::new();
    let mut i: usize = 0;
    while i < records.len()
        invariant
            i <= records.len(),
            out.len() == i,
            forall|j: int|
                0 <= j < i ==> (#[trigger] out[j]).image_key@ == records[j].image_key@
                    && out[j].bytes@ == records[j].bytes@,
        decreases records.len() - i,
    {
        let as_image = NoteImage {
            image_key: records[i].image_key.clone(),
            bytes: crate::models::copy_bytes(&records[i].bytes),
        };
        out.push(as_image);
        i += 1;
    }
    assert(image_views(out@) =~= record_views(records@));
    out
}

/// The kind of a failure.
#[derive(Clone, Copy, Debug, PartialEq, Eq, Structural)]
pub enum ErrorKind {
    Validation,
    NotFound,
    Storage,
}

/// The kind of the failure.
pub open spec fn kind_of(e: BackendError) -> ErrorKind {
    match e {
        BackendError::Validation(_) => ErrorKind::Validation,
        BackendError::NotFound(_) => ErrorKind::NotFound,
        BackendError::Storage(_) => ErrorKind::Storage,
    }
}

impl BackendError {
    /// Tells the kind of the failure.
    pub fn kind(&self) -> (k: ErrorKind)
        ensures
            k == kind_of(*self),
    {
        match self {
            BackendError::Validation(_) => ErrorKind::Validation,
            BackendError::NotFound(_) => ErrorKind::NotFound,
            BackendError::Storage(_) => ErrorKind::Storage,
        }
    }

    /// The message of the failure, behind the name of its kind.
    pub fn message(&self) -> (text: String)
        ensures
            text@ == match *self {
                BackendError::Validation(m) => "validation error: "@ + m@,
                BackendError::NotFound(m) => "not found: "@ + m@,
                BackendError::Storage(m) => "storage error: "@ + m@,
            },
    {
        let (head, tail) = match self {
            BackendError::Validation(m) => ("validation error: ", m),
            BackendError::NotFound(m) => ("not found: ", m),
            BackendError::Storage(m) => ("storage error: ", m),
        };
        let mut out = to_chars(head);
        let rest = to_chars(tail.as_str());
        crate::text::append_range(&mut out, &rest, 0, rest.len());
        assert(rest@.subrange(0, rest.len() as int) =~= rest@);
        from_chars(&out)
    }
}

/// The message that the failure carries.
pub open spec fn message_of(e: BackendError) -> Seq<char> {
    match e {
        BackendError::Validation(m) => m@,
        BackendError::NotFound(m) => m@,
        BackendError::Storage(m) => m@,
    }
}

/// The kind under which a refusal of the store is reported: what the
/// caller can mend is a matter of validation, an id that is not there is
/// not found, and a store without ids left is a matter of storage.
pub open spec fn store_error_kind(e: Refusal) -> ErrorKind {
    match e {
        Refusal::NotFound => ErrorKind::NotFound,
        Refusal::IdsExhausted => ErrorKind::Storage,
        _ => ErrorKind::Validation,
    }
}

/// The message with which a refusal of the store is reported.
pub open spec fn store_error_message(e: Refusal) -> Seq<char> {
    match e {
        Refusal::EmptyTitle => "title must not be empty"@,
        Refusal::IdsExhausted => "no item id is left"@,
        Refusal::TooManyImages => "too many note images (max 24)"@,
        Refusal::ImageTooLarge(key) => "image '"@ + key + "' exceeds 11718 KB storage limit"@,
        Refusal::NotFound => "requested item does not exist"@,
    }
}

/// Reports a refusal of the store to the user interface.
pub fn map_store_error(e: StoreError) -> (out: BackendError)
    ensures
        kind_of(out) == store_error_kind(e@),
        message_of(out) == store_error_message(e@),
{
    match e {
        StoreError::EmptyTitle => BackendError::Validation("title must not be empty".to_owned()),
        StoreError::IdsExhausted => BackendError::Storage("no item id is left".to_owned()),
        StoreError::TooManyImages => BackendError::Validation(
            "too many note images (max 24)".to_owned(),
        ),
        StoreError::ImageTooLarge(key) => {
            let mut text = to_chars("image '");
            let name = to_chars(key.as_str());
            let tail = to_chars("' exceeds 11718 KB storage limit");
            crate::text::append_range(&mut text, &name, 0, name.len());
            crate::text::append_range(&mut text, &tail, 0, tail.len());
            assert(name@.subrange(0, name.len() as int) =~= name@);
            assert(tail@.subrange(0, tail.len() as int) =~= tail@);
            BackendError::Validation(from_chars(&text))
        },
        StoreError::NotFound => BackendError::NotFound("requested item does not exist".to_owned()),
    }
}

/// Accepts the ids that a note can have: those above zero.
pub fn ensure_item_id(item_id: i64) -> (r: Result<(), BackendError>)
    ensures
        r is Ok <==> item_id > 0,
        r is Err ==> kind_of(r->Err_0) == ErrorKind::Validation && message_of(r->Err_0)
            == "item_id must be a positive integer"@,
{
    if item_id <= 0 {
        return Err(BackendError::Validation("item_id must be a positive integer".to_owned()));
    }
    Ok(())
}

/// The limit of a search: the default where none is given, no more than
/// the most that a search returns, and never zero.
pub fn normalize_limit(limit: Option<u32>) -> (r: Result<u32, BackendError>)
    ensures
        match limit {
            Some(n) => if n == 0 {
                r is Err && kind_of(r->Err_0) == ErrorKind::Validation && message_of(r->Err_0)
                    == "limit must be at least 1"@
            } else if n > MAX_SEARCH_LIMIT {
                r == Ok::<u32, BackendError>(MAX_SEARCH_LIMIT)
            } else {
                r == Ok::<u32, BackendError>(n)
            },
            None => r == Ok::<u32, BackendError>(DEFAULT_SEARCH_LIMIT),
        },
{
    let limit = match limit {
        Some(n) => n,
        None => DEFAULT_SEARCH_LIMIT,
    };
    if limit == 0 {
        return Err(BackendError::Validation("limit must be at least 1".to_owned()));
    }
    Ok(if limit > MAX_SEARCH_LIMIT { MAX_SEARCH_LIMIT } else { limit })
}

/// The part of a query that is looked at: the query itself, or its first
/// characters where it is longer than the most bytes that are looked at.
pub open spec fn query_in_bounds(query: Seq<char>) -> Seq<char> {
    if byte_length(query) > MAX_QUERY_LENGTH && query.len() > MAX_QUERY_LENGTH {
        query.take(MAX_QUERY_LENGTH as int)
    } else {
        query
    }
}

/// Cuts a query down to the part that is looked at.
pub fn bound_query(query: &str) -> (r: String)
    ensures
        r@ == query_in_bounds(query@),
{
    if query.len() > MAX_QUERY_LENGTH {
        let chars = to_chars(query);
        if chars.len() > MAX_QUERY_LENGTH {
            let cut = copy_range(&chars, 0, MAX_QUERY_LENGTH);
            assert(cut@ =~= query@.take(MAX_QUERY_LENGTH as int));
            from_chars(&cut)
        } else {
            query.to_owned()
        }
    } else {
        query.to_owned()
    }
}

/// Answers a query of the user interface.
pub fn search_items(store: &Store, query: &str, limit: Option<u32>, hits: &Vec<IndexHit>) -> (r:
    Result<Vec<SearchResult>, BackendError>)
    requires
        store.wf(),
    ensures
        match r {
            Ok(rows) => (limit is None || limit->0 > 0) && result_views(rows@) == search_rows(
                store@.items,
                query_in_bounds(query@),
                (match limit {
                    Some(n) => if n > MAX_SEARCH_LIMIT {
                        MAX_SEARCH_LIMIT
                    } else {
                        n
                    },
                    None => DEFAULT_SEARCH_LIMIT,
                }) as i64,
                hit_views(hits@),
            ),
            Err(e) => limit == Some(0u32) && kind_of(e) == ErrorKind::Validation,
        },
{
    let bounded = bound_query(query);
    let limit = match normalize_limit(limit) {
        Ok(n) => n,
        Err(e) => {
            return Err(e);
        },
    };
    Ok(search(store, bounded.as_str(), limit as i64, hits))
}

/// The title under which a note is created: what storage keeps of it,
/// trimmed.
pub open spec fn clean_title(title: Seq<char>) -> Seq<char> {
    trimmed(storable(title))
}

/// Whether a title is accepted: it is not empty and not too long.
pub open spec fn title_accepted(title: Seq<char>) -> bool {
    clean_title(title).len() > 0 && byte_length(clean_title(title)) <= MAX_TITLE_LENGTH
}

/// Creates a note for the user interface, under the title as storage
/// keeps it, trimmed. The other notes and the settings stay as they are.
pub fn create_item(store: &mut Store, title: &str) -> (r: Result<i64, BackendError>)
    requires
        old(store).wf(),
    ensures
        final(store).wf(),
        match r {
            Ok(id) => {
                &&& title_accepted(title@)
                &&& inserted(old(store)@, final(store)@, clean_title(title@), id)
                &&& lookup(final(store)@.items, id) == Some(
                    crate::store::fresh_item(id, clean_title(title@)),
                )
                &&& forall|other: i64|
                    other != id ==> lookup(final(store)@.items, other) == lookup(
                        old(store)@.items,
                        other,
                    )
            },
            Err(e) => {
                &&& final(store)@ == old(store)@
                &&& if clean_title(title@).len() == 0 {
                    kind_of(e) == ErrorKind::Validation && message_of(e)
                        == "title must not be empty"@
                } else if !title_accepted(title@) {
                    kind_of(e) == ErrorKind::Validation && message_of(e)
                        == "title exceeds maximum length"@
                } else {
                    old(store).next_item_id == i64::MAX && kind_of(e) == ErrorKind::Storage
                        && message_of(e) == "no item id is left"@
                }
            },
        },
{
    let kept = sanitize_title(title);
    let chars = trim_chars(&to_chars(kept.as_str()));
    if chars.len() == 0 {
        return Err(BackendError::Validation("title must not be empty".to_owned()));
    }
    let cut = from_chars(&chars);
    proof {
        lemma_trimmed_twice(storable(title@));
    }
    if cut.as_str().len() > MAX_TITLE_LENGTH {
        return Err(BackendError::Validation("title exceeds maximum length".to_owned()));
    }
    match insert_item(store, cut.as_str()) {
        Ok(id) => Ok(id),
        Err(e) => Err(map_store_error(e)),
    }
}

/// Reads a note for the user interface.
pub fn get_item(store: &Store, item_id: i64) -> (r: Result<EditableItem, BackendError>)
    requires
        store.wf(),
    ensures
        match r {
            Ok(item) => {
                &&& item_id > 0
                &&& lookup(store@.items, item_id) is Some
                &&& item.id == item_id
                &&& item.title@ == lookup(store@.items, item_id)->0.title
                &&& item.note@ == lookup(store@.items, item_id)->0.note
                &&& image_views(item.images@) == lookup(store@.items, item_id)->0.images
            },
            Err(e) => if item_id <= 0 {
                kind_of(e) == ErrorKind::Validation && message_of(e)
                    == "item_id must be a positive integer"@
            } else {
                kind_of(e) == ErrorKind::NotFound && message_of(e) == store_error_message(
                    Refusal::NotFound,
                ) && !has_id(store@.items, item_id)
            },
        },
{
    match ensure_item_id(item_id) {
        Ok(_) => {},
        Err(e) => {
            return Err(e);
        },
    }
    match fetch_item(store, item_id) {
        Ok(item) => Ok(item),
        Err(e) => Err(map_store_error(e)),
    }
}

/// Whether a save is refused before the store is asked: the id is not
/// above zero, or the note is too long.
pub open spec fn save_refused(item_id: i64, note: Seq<char>) -> bool {
    item_id <= 0 || byte_length(note) > MAX_NOTE_LENGTH
}

/// Saves the text and the images of a note for the user interface. The
/// other notes, the settings and the next id stay as they are.
pub fn save_item(store: &mut Store, item_id: i64, note: &str, images: &Vec<NoteImage>) -> (r: Result<
    (),
    BackendError,
>)
    requires
        old(store).wf(),
    ensures
        final(store).wf(),
        final(store)@.settings == old(store)@.settings,
        final(store).next_item_id == old(store).next_item_id,
        if save_refused(item_id, note@) {
            &&& r is Err
            &&& kind_of(r->Err_0) == ErrorKind::Validation
            &&& message_of(r->Err_0) == (if item_id <= 0 {
                "item_id must be a positive integer"@
            } else {
                "note exceeds maximum length"@
            })
            &&& final(store)@ == old(store)@
        } else {
            match images_refused(Some(image_views(images@))) {
                Some(e) => {
                    &&& r is Err
                    &&& kind_of(r->Err_0) == ErrorKind::Validation
                    &&& message_of(r->Err_0) == store_error_message(e)
                    &&& final(store)@ == old(store)@
                },
                None => match lookup(old(store)@.items, item_id) {
                    None => {
                        &&& final(store)@ == old(store)@
                        &&& r is Err <==> images.len() > 0
                        &&& r is Err ==> kind_of(r->Err_0) == ErrorKind::NotFound && message_of(
                            r->Err_0,
                        ) == store_error_message(Refusal::NotFound)
                    },
                    Some(item) => {
                        &&& r is Ok
                        &&& final(store)@.items.len() == old(store)@.items.len()
                        &&& lookup(final(store)@.items, item_id) == Some(
                            crate::store::updated_item(
                                item,
                                storable(note@),
                                Some(image_views(images@)),
                            ),
                        )
                        &&& forall|other: i64|
                            other != item_id ==> lookup(final(store)@.items, other) == lookup(
                                old(store)@.items,
                                other,
                            )
                    },
                },
            }
        },
{
    match ensure_item_id(item_id) {
        Ok(_) => {},
        Err(e) => {
            return Err(e);
        },
    }
    if note.len() > MAX_NOTE_LENGTH {
        return Err(BackendError::Validation("note exceeds maximum length".to_owned()));
    }
    let kept = sanitize_note_for_storage(note);
    match update_item(store, item_id, kept.as_str(), Some(images.as_slice())) {
        Ok(_) => Ok(()),
        Err(e) => Err(map_store_error(e)),
    }
}

/// Removes a note for the user interface. The other notes, the settings
/// and the next id stay as they are.
pub fn delete_item(store: &mut Store, item_id: i64) -> (r: Result<(), BackendError>)
    requires
        old(store).wf(),
    ensures
        final(store).wf(),
        final(store)@.settings == old(store)@.settings,
        final(store).next_item_id == old(store).next_item_id,
        match r {
            Ok(_) => {
                &&& item_id > 0
                &&& has_id(old(store)@.items, item_id)
                &&& !has_id(final(store)@.items, item_id)
                &&& final(store)@.items.len() == old(store)@.items.len() - 1
                &&& forall|other: i64|
                    other != item_id ==> lookup(final(store)@.items, other) == lookup(
                        old(store)@.items,
                        other,
                    )
            },
            Err(e) => {
                &&& final(store)@ == old(store)@
                &&& if item_id <= 0 {
                    kind_of(e) == ErrorKind::Validation && message_of(e)
                        == "item_id must be a positive integer"@
                } else {
                    kind_of(e) == ErrorKind::NotFound && message_of(e) == store_error_message(
                        Refusal::NotFound,
                    ) && !has_id(old(store)@.items, item_id)
                }
            },
        },
{
    match ensure_item_id(item_id) {
        Ok(_) => {},
        Err(e) => {
            return Err(e);
        },
    }
    match delete_stored_item(store, item_id) {
        Ok(_) => Ok(()),
        Err(e) => Err(map_store_error(e)),
    }
}

/// Stores the hotkey for the user interface: trimmed, and refused where
/// nothing is left of it. The notes, the next id and the other settings
/// stay as they are.
pub fn save_hotkey(store: &mut Store, hotkey: &str) -> (r: Result<(), BackendError>)
    requires
        old(store).wf(),
    ensures
        final(store).wf(),
        final(store)@.items == old(store)@.items,
        final(store).next_item_id == old(store).next_item_id,
        forall|other: Seq<char>|
            other != HOTKEY_SETTING_KEY@ ==> setting_value(final(store)@.settings, other)
                == setting_value(old(store)@.settings, other),
        match r {
            Ok(_) => trimmed(hotkey@).len() > 0 && setting_value(
                final(store)@.settings,
                HOTKEY_SETTING_KEY@,
            ) == Some(trimmed(hotkey@)),
            Err(e) => {
                &&& trimmed(hotkey@).len() == 0
                &&& kind_of(e) == ErrorKind::Validation
                &&& message_of(e) == "hotkey must not be empty"@
                &&& final(store)@ == old(store)@
            },
        },
{
    let cut = trim_chars(&to_chars(hotkey));
    if cut.len() == 0 {
        return Err(BackendError::Validation("hotkey must not be empty".to_owned()));
    }
    save_hotkey_setting(store, from_chars(&cut).as_str());
    Ok(())
}

/// Resolves the path of the file that mirrors a note, for the user
/// interface.
pub fn get_item_json_path(store: &Store, item_id: i64, working_dir: Option<&str>) -> (r: Result<
    String,
    BackendError,
>)
    requires
        store.wf(),
    ensures
        match r {
            Ok(path) => {
                &&& item_id > 0
                &&& has_id(store@.items, item_id)
                &&& is_item_json_path(
                    path@,
                    setting_value(store@.settings, JSON_STORAGE_PATH_SETTING_KEY@),
                    given_dir(working_dir),
                    item_id,
                )
            },
            Err(e) => if item_id <= 0 {
                kind_of(e) == ErrorKind::Validation && message_of(e)
                    == "item_id must be a positive integer"@
            } else {
                kind_of(e) == ErrorKind::NotFound && message_of(e) == store_error_message(
                    Refusal::NotFound,
                ) && !has_id(store@.items, item_id)
            },
        },
{
    match ensure_item_id(item_id) {
        Ok(_) => {},
        Err(e) => {
            return Err(e);
        },
    }
    match crate::mirror::get_item_json_path(store, item_id, working_dir) {
        Ok(path) => Ok(path),
        Err(e) => Err(map_store_error(e)),
    }
}

} // verus!
