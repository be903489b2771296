//! The names of the files on disk: the mirror of the notes with one file
//! for each note and each image, the temporary files of atomic writes, and
//! what earlier versions left behind.

use vstd::prelude::*;
use vstd::string::StringSliceAdditionalSpecFns;
use crate::snippet::texts;
use crate::paths::{
    given_dir, is_root_for_setting, join_path, joined_path, json_storage_root_from_settings,
};
use crate::store::{
    has_id, setting_value, Store, StoreError, StoredItem, JSON_STORAGE_PATH_SETTING_KEY,
};
use crate::text::{append_range, from_chars, matches_at, occurs_at, same_text, to_chars};

verus! {

/// The decimal digit for a value below ten.
pub open spec fn digit_char(d: int) -> char {
    if d == 0 {
        '0'
    } else if d == 1 {
        '1'
    } else if d == 2 {
        '2'
    } else if d == 3 {
        '3'
    } else if d == 4 {
        '4'
    } else if d == 5 {
        '5'
    } else if d == 6 {
        '6'
    } else if d == 7 {
        '7'
    } else if d == 8 {
        '8'
    } else {
        '9'
    }
}

/// The decimal digits of a number, without leading zeros.
pub open spec fn decimal(n: nat) -> Seq<char>
    decreases n,
{
    if n < 10 {
        seq![digit_char(n as int)]
    } else {
        decimal(n / 10).push(digit_char((n % 10) as int))
    }
}

/// The decimal text of an id, with a minus sign where it is negative.
pub open spec fn id_text(id: i64) -> Seq<char> {
    if id < 0 {
        seq!['-'] + decimal((-id) as nat)
    } else {
        decimal(id as nat)
    }
}

/// The name of the file that mirrors the note with the id.
pub open spec fn item_file_name_of(id: i64) -> Seq<char> {
    "item-"@ + id_text(id) + ".json"@
}

/// A name as the files of notes have it.
pub open spec fn is_item_file(name: Seq<char>) -> bool {
    matches_at(name, "item-"@, 0) && matches_at(name, ".json"@, name.len() - ".json"@.len())
}

fn digit_of(d: u64) -> (c: char)
    requires
        d < 10,
    ensures
        c == digit_char(d as int),
{
    if d == 0 {
        '0'
    } else if d == 1 {
        '1'
    } else if d == 2 {
        '2'
    } else if d == 3 {
        '3'
    } else if d == 4 {
        '4'
    } else if d == 5 {
        '5'
    } else if d == 6 {
        '6'
    } else if d == 7 {
        '7'
    } else if d == 8 {
        '8'
    } else {
        '9'
    }
}

/// Writes a number in decimal digits.
pub fn decimal_digits(n: u64) -> (out: Vec<char>)
    ensures
        out@ == decimal(n as nat),
    decreases n,
{
    if n < 10 {
        let mut out: Vec<char> = Vec::new();
        out.push(digit_of(n));
        assert(out@ =~= seq![digit_char(n as int)]);
        out
    } else {
        let mut out = decimal_digits(n / 10);
        out.push(digit_of(n % 10));
        out
    }
}

fn push_text(out: &mut Vec<char>, s: &str)
    ensures
        final(out)@ == old(out)@ + s@,
{
    let chars = to_chars(s);
    append_range(out, &chars, 0, chars.len());
    assert(chars@.subrange(0, chars.len() as int) =~= chars@);
}

fn push_chars(out: &mut Vec<char>, chars: &Vec<char>)
    ensures
        final(out)@ == old(out)@ + chars@,
{
    append_range(out, chars, 0, chars.len());
    assert(chars@.subrange(0, chars.len() as int) =~= chars@);
}

/// Names the file that mirrors the note with the id.
pub fn item_json_file_name(item_id: i64) -> (name: String)
    ensures
        name@ == item_file_name_of(item_id),
{
    let mut out: Vec<char> = Vec::new();
    push_text(&mut out, "item-");
    let digits = if item_id < 0 {
        out.push('-');
        let magnitude: u64 = if item_id == i64::MIN {
            0x8000_0000_0000_0000
        } else {
            (-item_id) as u64
        };
        decimal_digits(magnitude)
    } else {
        decimal_digits(item_id as u64)
    };
    push_chars(&mut out, &digits);
    push_text(&mut out, ".json");
    assert(out@ =~= item_file_name_of(item_id));
    from_chars(&out)
}

/// Tells whether a file name is that of a mirrored note.
pub fn is_item_json_file_name(name: &str) -> (b: bool)
    ensures
        b == is_item_file(name@),
{
    let chars = to_chars(name);
    let prefix = to_chars("item-");
    let suffix = to_chars(".json");
    if chars.len() < suffix.len() {
        return false;
    }
    occurs_at(&chars, &prefix, 0) && occurs_at(&chars, &suffix, chars.len() - suffix.len())
}

/// A byte that a file name takes as it is: an ASCII letter or digit, a
/// hyphen, an underscore or a dot.
pub open spec fn is_plain_byte(b: u8) -> bool {
    (0x30 <= b <= 0x39) || (0x41 <= b <= 0x5a) || (0x61 <= b <= 0x7a) || b == 0x2d || b == 0x5f
        || b == 0x2e
}

/// The lowercase hexadecimal digit for a value below sixteen.
pub open spec fn hex_char(d: int) -> char {
    if d < 10 {
        digit_char(d)
    } else if d == 10 {
        'a'
    } else if d == 11 {
        'b'
    } else if d == 12 {
        'c'
    } else if d == 13 {
        'd'
    } else if d == 14 {
        'e'
    } else {
        'f'
    }
}

/// A byte as a file name holds it: as it is where it is plain, else as an
/// underscore and its two hexadecimal digits.
pub open spec fn escaped_byte(b: u8) -> Seq<char> {
    if is_plain_byte(b) {
        seq![b as char]
    } else {
        seq!['_', hex_char(b as int / 16), hex_char(b as int % 16)]
    }
}

/// The first `upto` bytes, escaped.
pub open spec fn escaped(bytes: Seq<u8>, upto: int) -> Seq<char>
    decreases upto,
{
    if upto <= 0 {
        Seq::empty()
    } else {
        escaped(bytes, upto - 1) + escaped_byte(bytes[upto - 1])
    }
}

/// The name of the file that holds the image with the key: the UTF-8 bytes
/// of the key, escaped, and the extension; a fixed name for the empty key.
pub open spec fn image_file_name_of(key: Seq<char>) -> Seq<char> {
    let bytes = vstd::utf8::encode_utf8(key);
    if bytes.len() == 0 {
        "image.bin"@
    } else {
        escaped(bytes, bytes.len() as int) + ".bin"@
    }
}

fn hex_of(d: u8) -> (c: char)
    requires
        d < 16,
    ensures
        c == hex_char(d as int),
{
    if d < 10 {
        digit_of(d as u64)
    } else if d == 10 {
        'a'
    } else if d == 11 {
        'b'
    } else if d == 12 {
        'c'
    } else if d == 13 {
        'd'
    } else if d == 14 {
        'e'
    } else {
        'f'
    }
}

/// Names the file that holds the image with the key.
pub fn image_file_name(image_key: &str) -> (name: String)
    ensures
        name@ == image_file_name_of(image_key@),
{
    let bytes = image_key.as_bytes();
    if bytes.len() == 0 {
        return "image.bin".to_owned();
    }
    let mut out: Vec<char> = Vec::new();
    let mut i: usize = 0;
    while i < bytes.len()
        invariant
            i <= bytes.len(),
            out@ == escaped(bytes@, i as int),
        decreases bytes.len() - i,
    {
        let b: u8 = bytes[i];
        let ghost before = out@;
        if (0x30 <= b && b <= 0x39) || (0x41 <= b && b <= 0x5a) || (0x61 <= b && b <= 0x7a) || b
            == 0x2d || b == 0x5f || b == 0x2e {
            out.push(b as char);
            assert(out@ =~= before + escaped_byte(b));
        } else {
            out.push('_');
            out.push(hex_of(b / 16));
            out.push(hex_of(b % 16));
            assert(out@ =~= before + escaped_byte(b));
        }
        i += 1;
    }
    push_text(&mut out, ".bin");
    from_chars(&out)
}

/// The names of the files that mirror the notes of the store.
pub fn mirror_item_file_names(store: &Store) -> (names: Vec<String>)
    ensures
        texts(names@) == Seq::new(
            store@.items.len(),
            |i: int| item_file_name_of(store@.items[i].id),
        ),
{
    let mut names: Vec<String> = Vec::new();
    let mut i: usize = 0;
    while i < store.items.len()
        invariant
            i <= store.items.len(),
            names.len() == i,
            forall|j: int| 0 <= j < i ==> (#[trigger] names[j])@ == item_file_name_of(store@.items[j].id),
        decreases store.items.len() - i,
    {
        names.push(item_json_file_name(store.items[i].id));
        i += 1;
    }
    assert(texts(names@) =~= Seq::new(
        store@.items.len(),
        |i: int| item_file_name_of(store@.items[i].id),
    ));
    names
}

/// The names of the files that hold the images of a note.
pub fn mirror_image_file_names(item: &StoredItem) -> (names: Vec<String>)
    ensures
        texts(names@) == Seq::new(
            item@.images.len(),
            |i: int| image_file_name_of(item@.images[i].image_key),
        ),
{
    let mut names: Vec<String> = Vec::new();
    let mut i: usize = 0;
    while i < item.images.len()
        invariant
            i <= item.images.len(),
            names.len() == i,
            forall|j: int|
                0 <= j < i ==> (#[trigger] names[j])@ == image_file_name_of(
                    item@.images[j].image_key,
                ),
        decreases item.images.len() - i,
    {
        names.push(image_file_name(item.images[i].image_key.as_str()));
        i += 1;
    }
    assert(texts(names@) =~= Seq::new(
        item@.images.len(),
        |i: int| image_file_name_of(item@.images[i].image_key),
    ));
    names
}

/// The path is that of the file that mirrors the note with the id: the
/// name of the file joined to the root of the mirror that the settings
/// name.
pub open spec fn is_item_json_path(
    path: Seq<char>,
    stored: Option<Seq<char>>,
    working_dir: Option<Seq<char>>,
    id: i64,
) -> bool {
    exists|root: Seq<char>|
        is_root_for_setting(root, stored, working_dir) && path == #[trigger] joined_path(
            root,
            item_file_name_of(id),
        )
}

/// Resolves the path of the file that mirrors a note of the store; fails
/// where no note has the id.
pub fn get_item_json_path(store: &Store, id: i64, working_dir: Option<&str>) -> (r: Result<
    String,
    StoreError,
>)
    requires
        store.wf(),
    ensures
        match r {
            Ok(path) => has_id(store@.items, id) && is_item_json_path(
                path@,
                setting_value(store@.settings, JSON_STORAGE_PATH_SETTING_KEY@),
                given_dir(working_dir),
                id,
            ),
            Err(e) => e == StoreError::NotFound && !has_id(store@.items, id),
        },
{
    match store.position_of(id) {
        Some(p) => {
            assert(store@.items[p as int].id == id);
            let root = json_storage_root_from_settings(store, working_dir);
            let name = item_json_file_name(id);
            Ok(join_path(root.as_str(), name.as_str()))
        },
        None => Err(StoreError::NotFound),
    }
}

/// Tells whether a list of names holds the name.
pub fn names_contain(names: &Vec<String>, name: &str) -> (b: bool)
    ensures
        b == texts(names@).contains(name@),
{
    let mut i: usize = 0;
    while i < names.len()
        invariant
            i <= names.len(),
            forall|j: int| 0 <= j < i ==> (#[trigger] texts(names@)[j]) != name@,
        decreases names.len() - i,
    {
        if same_text(names[i].as_str(), name) {
            assert(texts(names@)[i as int] == name@);
            return true;
        }
        i += 1;
    }
    false
}

/// Tells whether a file of the mirror root is to be removed: it has the
/// name of a mirrored note, and no note of the store is mirrored under it.
pub fn is_stale_item_file(name: &str, expected: &Vec<String>) -> (b: bool)
    ensures
        b == (is_item_file(name@) && !texts(expected@).contains(name@)),
{
    is_item_json_file_name(name) && !names_contain(expected, name)
}

/// Tells whether a file of the image directory is to be removed: no image
/// of the store is held under its name.
pub fn is_stale_image_file(name: &str, expected: &Vec<String>) -> (b: bool)
    ensures
        b == !texts(expected@).contains(name@),
{
    !names_contain(expected, name)
}

/// A name that an earlier storage format left in the data directory.
pub open spec fn is_legacy_name(name: Seq<char>) -> bool {
    name == "alfred_store.json"@ || name == "alfred_store.json.tmp"@ || name == "alfred.db"@
        || name == "alfred.db-wal"@ || name == "alfred.db-shm"@ || name == "alfred_search_index"@
}

/// Tells whether an entry of the data directory is left from an earlier
/// storage format and is to be removed.
pub fn is_legacy_artifact_name(name: &str) -> (b: bool)
    ensures
        b == is_legacy_name(name@),
{
    same_text(name, "alfred_store.json") || same_text(name, "alfred_store.json.tmp") || same_text(
        name,
        "alfred.db",
    ) || same_text(name, "alfred.db-wal") || same_text(name, "alfred.db-shm") || same_text(
        name,
        "alfred_search_index",
    )
}

/// Tells whether a file of the data directory is a stale backup of damaged
/// storage of an earlier format.
pub fn is_legacy_backup_name(name: &str) -> (b: bool)
    ensures
        b == (matches_at(name@, "alfred.db.corrupt."@, 0) || matches_at(
            name@,
            "alfred_store.json.corrupt."@,
            0,
        )),
{
    let chars = to_chars(name);
    occurs_at(&chars, &to_chars("alfred.db.corrupt."), 0) || occurs_at(
        &chars,
        &to_chars("alfred_store.json.corrupt."),
        0,
    )
}

/// Names the place to which damaged storage is moved: its path, a marker
/// and the time in seconds.
pub fn corrupt_backup_name(path: &str, stamp: u64) -> (name: String)
    ensures
        name@ == path@ + ".corrupt."@ + decimal(stamp as nat),
{
    let mut out = to_chars(path);
    push_text(&mut out, ".corrupt.");
    push_chars(&mut out, &decimal_digits(stamp));
    from_chars(&out)
}

/// Names the temporary file that an atomic write of `file_name` goes to
/// before it is renamed.
pub fn temp_file_name(file_name: &str, pid: u32, stamp: u64) -> (name: String)
    ensures
        name@ == "."@ + file_name@ + ".tmp-"@ + decimal(pid as nat) + "-"@ + decimal(stamp as nat),
{
    let mut out: Vec<char> = Vec::new();
    push_text(&mut out, ".");
    push_text(&mut out, file_name);
    push_text(&mut out, ".tmp-");
    push_chars(&mut out, &decimal_digits(pid as u64));
    push_text(&mut out, "-");
    push_chars(&mut out, &decimal_digits(stamp));
    assert(out@ =~= "."@ + file_name@ + ".tmp-"@ + decimal(pid as nat) + "-"@ + decimal(
        stamp as nat,
    ));
    from_chars(&out)
}

} // verus!
