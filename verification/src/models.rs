//! The values that the store keeps and hands out.

use vstd::prelude::*;

verus! {

/// Most images that a note can hold.
pub const MAX_NOTE_IMAGE_COUNT: usize = 24;

/// Most bytes that one image can hold.
pub const MAX_SCREENSHOT_BYTES: usize = 12_000_000;

/// The hotkey that a fresh store is seeded with.
pub const DEFAULT_HOTKEY: &'static str = "super+Space";

/// A note as a caller describes it before it is stored.
#[derive(Debug, Clone)]
pub struct Item {
    pub title: String,
    pub subtitle: String,
    pub keywords: String,
    pub note: String,
}

impl Item {
    /// A note with the given texts and an empty body.
    pub fn new(title: &str, subtitle: &str, keywords: &str) -> (item: Item)
        ensures
            item.title@ == title@,
            item.subtitle@ == subtitle@,
            item.keywords@ == keywords@,
            item.note@.len() == 0,
    {
        Item {
            title: title.to_owned(),
            subtitle: subtitle.to_owned(),
            keywords: keywords.to_owned(),
            note: String::new(),
        }
    }
}

/// An image attached to a note.
#[derive(Debug, Clone)]
pub struct NoteImage {
    pub image_key: String,
    pub bytes: Vec<u8>,
}

/// What an image is: its key and its bytes.
pub struct ImageView {
    pub image_key: Seq<char>,
    pub bytes: Seq<u8>,
}

impl View for NoteImage {
    type V = ImageView;

    open spec fn view(&self) -> ImageView {
        ImageView { image_key: self.image_key@, bytes: self.bytes@ }
    }
}

/// What a list of images is.
pub open spec fn image_views(images: Seq<NoteImage>) -> Seq<ImageView> {
    Seq::new(images.len(), |i: int| images[i]@)
}

/// A note as an editor receives it.
#[derive(Debug, Clone)]
pub struct EditableItem {
    pub id: i64,
    pub title: String,
    pub note: String,
    pub images: Vec<NoteImage>,
}

/// One row of a search response.
#[derive(Debug, Clone)]
pub struct SearchResult {
    pub id: i64,
    pub title: String,
    pub subtitle: String,
    pub snippet: Option<String>,
    pub snippet_source: Option<String>,
}

/// What a row of a search response is.
pub struct ResultView {
    pub id: i64,
    pub title: Seq<char>,
    pub subtitle: Seq<char>,
    pub snippet: Option<Seq<char>>,
    pub snippet_source: Option<Seq<char>>,
}

/// What an optional text is.
pub open spec fn text_of(s: Option<String>) -> Option<Seq<char>> {
    match s {
        Some(t) => Some(t@),
        None => None,
    }
}

impl View for SearchResult {
    type V = ResultView;

    open spec fn view(&self) -> ResultView {
        ResultView {
            id: self.id,
            title: self.title@,
            subtitle: self.subtitle@,
            snippet: text_of(self.snippet),
            snippet_source: text_of(self.snippet_source),
        }
    }
}

/// What a list of rows is.
pub open spec fn result_views(rows: Seq<SearchResult>) -> Seq<ResultView> {
    Seq::new(rows.len(), |i: int| rows[i]@)
}

/// One row of a bulk export.
#[derive(Debug, Clone)]
pub struct ExportItem {
    pub id: i64,
    pub title: String,
    pub subtitle: String,
    pub keywords: String,
    pub note: String,
    pub image_count: i64,
}

/// What a row of an export is.
pub struct ExportView {
    pub id: i64,
    pub title: Seq<char>,
    pub subtitle: Seq<char>,
    pub keywords: Seq<char>,
    pub note: Seq<char>,
    pub image_count: i64,
}

impl View for ExportItem {
    type V = ExportView;

    open spec fn view(&self) -> ExportView {
        ExportView {
            id: self.id,
            title: self.title@,
            subtitle: self.subtitle@,
            keywords: self.keywords@,
            note: self.note@,
            image_count: self.image_count,
        }
    }
}

/// What a list of export rows is.
pub open spec fn export_views(rows: Seq<ExportItem>) -> Seq<ExportView> {
    Seq::new(rows.len(), |i: int| rows[i]@)
}

/// What the hotkey listener tells the application.
#[derive(Debug, Clone, Copy)]
pub enum AppMessage {
    ToggleLauncher,
}

/// Copies bytes.
pub fn copy_bytes(bytes: &Vec<u8>) -> (out: Vec<u8>)
    ensures
        out@ == bytes@,
{
    let mut out: Vec<u8> = Vec::new();
    let mut i: usize = 0;
    while i < bytes.len()
        invariant
            i <= bytes.len(),
            out@ == bytes@.take(i as int),
        decreases bytes.len() - i,
    {
        out.push(bytes[i]);
        i += 1;
    }
    assert(bytes@.take(bytes.len() as int) == bytes@);
    out
}

/// Copies an image.
pub fn copy_image(image: &NoteImage) -> (out: NoteImage)
    ensures
        out@ == image@,
{
    NoteImage { image_key: image.image_key.clone(), bytes: copy_bytes(&image.bytes) }
}

/// Copies a list of images.
pub fn copy_images(images: &[NoteImage]) -> (out: Vec<NoteImage>)
    ensures
        image_views(out@) == image_views(images@),
{
    let mut out: Vec<NoteImage> = Vec::new();
    let mut i: usize = 0;
    while i < images.len()
        invariant
            i <= images.len(),
            out.len() == i,
            forall|j: int| 0 <= j < i ==> (#[trigger] out[j])@ == images[j]@,
        decreases images.len() - i,
    {
        out.push(copy_image(&images[i]));
        i += 1;
    }
    assert(image_views(out@) =~= image_views(images@));
    out
}

} // verus!
