//! What holds of the store across its operations.

use vstd::prelude::*;
use crate::models::{export_views, image_views, EditableItem, ExportItem, ImageView,
    MAX_NOTE_IMAGE_COUNT, MAX_SCREENSHOT_BYTES};
use crate::ranking::{
    in_rank_order, insert_by_rank, insert_pos, lemma_insert_keeps_order, lemma_insert_pos,
    RankedView,
};
use crate::fuzzy::{has_fuzzy_term, row_score, threshold};
use crate::models::ResultView;
use crate::sanitize::preview_text;
use crate::search::{
    row_ids_distinct, candidates_from, export_rows, lemma_insert_positions, listing, listing_entry, listing_from,
    positions_distinct, positions_in, result_row, row_has_id, scan_limit, search_rows,
    substring_match, with_fuzzy_rows, with_hits, with_substring_rows, HitView,
};
use crate::snippet::query_terms;
use crate::text::{
    char_is_whitespace, contains, is_maximal_run, lemma_runs_are_maximal, non_whitespace_mask,
    text_lowercase, token_spans,
};
use crate::store::{
    ids_ascend, fresh_item, has_id, images_refused, inserted, lemma_first_oversized, lookup, updated_item,
    ItemView, Store, StoreView,
};

verus! {

/// While ids are left, the id that the next note gets is above zero and
/// above the id of every note in the store, so that no note has it.
pub proof fn lemma_next_id_is_unused(store: Store)
    requires
        store.wf(),
        store.next_item_id < i64::MAX,
    ensures
        store.next_item_id > 0,
        forall|i: int|
            0 <= i < store@.items.len() ==> (#[trigger] store@.items[i]).id < store.next_item_id,
        !has_id(store@.items, store.next_item_id),
{
    if has_id(store@.items, store.next_item_id) {
        let p = choose|p: int|
            0 <= p < store@.items.len() && (#[trigger] store@.items[p]).id == store.next_item_id;
        assert(store@.items[p].id < store.next_item_id);
    }
}

/// A note that is created gets an id above zero that no note of the store
/// has, above the id of every note in it, and the next id lies above it.
pub proof fn lemma_inserted_id_is_new(before: Store, after: Store, title: Seq<char>, id: i64)
    requires
        before.wf(),
        inserted(before@, after@, title, id),
    ensures
        id > 0,
        !has_id(before@.items, id),
        forall|i: int| 0 <= i < before@.items.len() ==> (#[trigger] before@.items[i]).id < id,
        after.next_item_id > id,
        after@.items.len() == before@.items.len() + 1,
        forall|i: int| 0 <= i < before@.items.len() ==> after@.items[i] == before@.items[i],
        after@.items[before@.items.len() as int] == fresh_item(id, title),
{
    if has_id(before@.items, id) {
        let p = choose|p: int| 0 <= p < before@.items.len() && (#[trigger] before@.items[p]).id == id;
        assert(before@.items[p].id < id);
    }
}

/// Ids rise in the order of creation: of two notes that are created one
/// after the other, the later one gets the higher id, as long as the next
/// id did not fall in between. No operation of the store lets it fall.
pub proof fn lemma_ids_rise(
    first_before: Store,
    first_after: Store,
    first_title: Seq<char>,
    first: i64,
    later_before: Store,
    later_after: Store,
    later_title: Seq<char>,
    later: i64,
)
    requires
        inserted(first_before@, first_after@, first_title, first),
        later_before.next_item_id >= first_after.next_item_id,
        inserted(later_before@, later_after@, later_title, later),
    ensures
        0 < first < later,
{
}

/// The next id never falls from one state of the store to the next.
pub open spec fn next_id_never_falls(history: Seq<StoreView>) -> bool {
    forall|i: int|
        0 <= i < history.len() - 1 ==> (#[trigger] history[i + 1]).next_item_id
            >= history[i].next_item_id
}

proof fn lemma_next_id_along(history: Seq<StoreView>, i: int, j: int)
    requires
        next_id_never_falls(history),
        0 <= i <= j < history.len(),
    ensures
        history[j].next_item_id >= history[i].next_item_id,
    decreases j - i,
{
    if i < j {
        lemma_next_id_along(history, i, j - 1);
        assert(history[(j - 1) + 1].next_item_id >= history[j - 1].next_item_id);
    }
}

/// No id comes back: along any history of a store in which the next id
/// never falls, as it does under no operation, a note that is created
/// later gets a higher id than every note created before, whatever was
/// changed or deleted in between.
pub proof fn lemma_ids_never_come_back(
    history: Seq<StoreView>,
    i: int,
    first_title: Seq<char>,
    first: i64,
    j: int,
    later_title: Seq<char>,
    later: i64,
)
    requires
        next_id_never_falls(history),
        0 <= i < j < history.len() - 1,
        inserted(history[i], history[i + 1], first_title, first),
        inserted(history[j], history[j + 1], later_title, later),
    ensures
        0 < first < later,
{
    lemma_next_id_along(history, i + 1, j);
}

/// An update without images leaves the images of the note as they are; an
/// update with images replaces them with exactly those. Either way the
/// text is replaced and the rest of the note stays.
pub proof fn lemma_update_images(item: ItemView, note: Seq<char>, images: Seq<ImageView>)
    ensures
        updated_item(item, note, None).images == item.images,
        updated_item(item, note, Some(images)).images == images,
        updated_item(item, note, None).note == note,
        updated_item(item, note, Some(images)).note == note,
        updated_item(item, note, Some(images)).id == item.id,
        updated_item(item, note, Some(images)).title == item.title,
{
}

/// A list of images is refused exactly when it holds more images than a
/// note can hold, or an image with more bytes than an image can hold.
pub proof fn lemma_refused_images(images: Seq<ImageView>)
    ensures
        images_refused(Some(images)) is Some <==> (images.len() > MAX_NOTE_IMAGE_COUNT || exists|
            i: int,
        |
            0 <= i < images.len() && (#[trigger] images[i]).bytes.len() > MAX_SCREENSHOT_BYTES),
        images_refused(None) is None,
{
    lemma_first_oversized(images, 0);
}

/// A note that was just created reads back with its title, an empty text
/// and no images.
pub proof fn lemma_insert_then_fetch(items: Seq<ItemView>, id: i64, title: Seq<char>, read: EditableItem)
    requires
        lookup(items, id) == Some(fresh_item(id, title)),
        read.id == id,
        read.title@ == lookup(items, id)->0.title,
        read.note@ == lookup(items, id)->0.note,
        image_views(read.images@) == lookup(items, id)->0.images,
    ensures
        read.title@ == title,
        read.note@.len() == 0,
        read.images@.len() == 0,
{
    assert(image_views(read.images@).len() == 0);
}

/// Two exports of one store, with no change in between, hold the same rows
/// in the same order.
pub proof fn lemma_export_repeats(store: Store, first: Seq<ExportItem>, second: Seq<ExportItem>)
    requires
        export_views(first) == export_rows(store@.items),
        export_views(second) == export_rows(store@.items),
    ensures
        export_views(first) == export_views(second),
{
}

/// Every entry is the one under which the note at its position is listed.
pub open spec fn entries_match(list: Seq<RankedView>, items: Seq<ItemView>) -> bool {
    forall|i: int|
        0 <= i < list.len() ==> 0 <= (#[trigger] list[i]).pos < items.len() && list[i]
            == listing_entry(items, list[i].pos as int)
}

proof fn lemma_listing_from(items: Seq<ItemView>, k: int, acc: Seq<RankedView>)
    requires
        0 <= k <= items.len(),
        items.len() <= usize::MAX,
        acc.len() == k,
        positions_in(acc, 0, k),
        positions_distinct(acc),
        entries_match(acc, items),
        in_rank_order(acc),
    ensures
        listing_from(items, k, acc).len() == items.len(),
        positions_distinct(listing_from(items, k, acc)),
        entries_match(listing_from(items, k, acc), items),
        in_rank_order(listing_from(items, k, acc)),
    decreases items.len() - k,
{
    if k < items.len() {
        let c = listing_entry(items, k);
        lemma_insert_pos(acc, c, 0);
        let p = insert_pos(acc, c, 0);
        let next = insert_by_rank(acc, c);
        lemma_insert_positions(acc, p, c, 0, k);
        lemma_insert_keeps_order(acc, c);
        assert forall|i: int| 0 <= i < next.len() implies 0 <= (#[trigger] next[i]).pos < k + 1
            && next[i] == listing_entry(items, next[i].pos as int) by {
            if i < p {
                assert(next[i] == acc[i]);
            } else if i > p {
                assert(next[i] == acc[i - 1]);
            }
        }
        lemma_listing_from(items, k + 1, next);
    }
}

/// The listing holds every note of the store once, each under its
/// lowercased title and its id, and is in order: no entry ranks before the
/// one in front of it, so titles rise and, where they agree, ids.
pub proof fn lemma_listing_in_order(items: Seq<ItemView>)
    requires
        items.len() <= usize::MAX,
    ensures
        listing(items).len() == items.len(),
        positions_distinct(listing(items)),
        entries_match(listing(items), items),
        in_rank_order(listing(items)),
{
    lemma_listing_from(items, 0, Seq::empty());
}

/// The row shows a note of the store: its id and its title.
pub open spec fn row_of_store(items: Seq<ItemView>, row: ResultView) -> bool {
    exists|p: int|
        0 <= p < items.len() && (#[trigger] items[p]).id == row.id && items[p].title == row.title
}

/// Every row shows a note of the store.
pub open spec fn rows_of_store(items: Seq<ItemView>, rows: Seq<ResultView>) -> bool {
    forall|i: int| 0 <= i < rows.len() ==> row_of_store(items, #[trigger] rows[i])
}

proof fn lemma_pushed_row_of_store(items: Seq<ItemView>, rows: Seq<ResultView>, row: ResultView)
    requires
        rows_of_store(items, rows),
        row_of_store(items, row),
    ensures
        rows_of_store(items, rows.push(row)),
{
    let after = rows.push(row);
    assert forall|i: int| 0 <= i < after.len() implies row_of_store(items, #[trigger] after[i]) by {
        if i < rows.len() {
            assert(after[i] == rows[i]);
        }
    }
}

proof fn lemma_hits_of_store(
    items: Seq<ItemView>,
    terms: Seq<Seq<char>>,
    hits: Seq<HitView>,
    limit: int,
    k: int,
    acc: Seq<ResultView>,
)
    requires
        0 <= k <= hits.len(),
        rows_of_store(items, acc),
    ensures
        rows_of_store(items, with_hits(items, terms, hits, limit, k, acc)),
    decreases hits.len() - k,
{
    if k < hits.len() && acc.len() < limit {
        match lookup(items, hits[k].id) {
            Some(item) => {
                if row_has_id(acc, hits[k].id) {
                    lemma_hits_of_store(items, terms, hits, limit, k + 1, acc);
                } else {
                    let p = choose|p: int|
                        0 <= p < items.len() && (#[trigger] items[p]).id == hits[k].id;
                    let row = result_row(item, terms, hits[k].note_snippet);
                    assert(items[p].id == row.id && items[p].title == row.title);
                    lemma_pushed_row_of_store(items, acc, row);
                    lemma_hits_of_store(items, terms, hits, limit, k + 1, acc.push(row));
                }
            },
            None => {
                lemma_hits_of_store(items, terms, hits, limit, k + 1, acc);
            },
        }
    }
}

proof fn lemma_substring_rows_of_store(
    items: Seq<ItemView>,
    terms: Seq<Seq<char>>,
    limit: int,
    k: int,
    acc: Seq<ResultView>,
)
    requires
        0 <= k <= items.len(),
        rows_of_store(items, acc),
    ensures
        rows_of_store(items, with_substring_rows(items, terms, limit, k, acc)),
    decreases items.len() - k,
{
    if k < items.len() && acc.len() < limit {
        if !row_has_id(acc, items[k].id) && substring_match(items[k], terms) {
            let row = result_row(items[k], terms, None);
            assert(items[k].id == row.id && items[k].title == row.title);
            lemma_pushed_row_of_store(items, acc, row);
            lemma_substring_rows_of_store(items, terms, limit, k + 1, acc.push(row));
        } else {
            lemma_substring_rows_of_store(items, terms, limit, k + 1, acc);
        }
    }
}

proof fn lemma_candidates_in_store(
    items: Seq<ItemView>,
    terms: Seq<Seq<char>>,
    seen: Seq<ResultView>,
    count: int,
    j: int,
    acc: Seq<RankedView>,
)
    requires
        0 <= j <= items.len() <= usize::MAX,
        positions_in(acc, 0, items.len() as int),
    ensures
        positions_in(candidates_from(items, terms, seen, count, j, acc), 0, items.len() as int),
    decreases items.len() - j,
{
    if j < count && j < items.len() {
        let pos = items.len() - 1 - j;
        let score = row_score(items[pos].title, preview_text(items[pos].note), terms);
        if row_has_id(seen, items[pos].id) || !score.at_least(threshold()) {
            lemma_candidates_in_store(items, terms, seen, count, j + 1, acc);
        } else {
            let c = RankedView { score, title: items[pos].title, id: items[pos].id, pos: pos as usize };
            lemma_insert_pos(acc, c, 0);
            let p = insert_pos(acc, c, 0);
            let next = insert_by_rank(acc, c);
            assert forall|i: int| 0 <= i < next.len() implies 0 <= (#[trigger] next[i]).pos
                < items.len() by {
                if i < p {
                    assert(next[i] == acc[i]);
                } else if i > p {
                    assert(next[i] == acc[i - 1]);
                }
            }
            lemma_candidates_in_store(items, terms, seen, count, j + 1, next);
        }
    }
}

/// A query of one word has one term: the word in lowercase.
pub proof fn lemma_single_token_terms(query: Seq<char>)
    requires
        0 < query.len() <= usize::MAX,
        forall|i: int| 0 <= i < query.len() ==> !char_is_whitespace(#[trigger] query[i]),
    ensures
        query_terms(query) == seq![text_lowercase(query)],
{
    let mask = non_whitespace_mask(query);
    let spans = token_spans(query);
    lemma_runs_are_maximal(mask);
    assert(mask[0]);
    let k = choose|k: int| 0 <= k < spans.len() && (#[trigger] spans[k]).start <= 0 < spans[k].end;
    assert forall|j: int| 0 <= j < spans.len() implies (#[trigger] spans[j]).start == 0 && spans[j].end
        == query.len() by {
        assert(is_maximal_run(mask, spans[j]));
        if spans[j].start != 0 {
            assert(mask[spans[j].start - 1]);
        }
        if spans[j].end != query.len() {
            assert(mask[spans[j].end as int]);
        }
    }
    if spans.len() > 1 {
        let first: int = 0;
        assert(spans[first].end < spans[first + 1].start);
    }
    assert(spans.len() == 1);
    assert(query.subrange(0, query.len() as int) =~= query);
    assert(query_terms(query) =~= seq![text_lowercase(query)]);
}

/// For a query of one word, a note matches by substring exactly when its
/// title or its preview text holds the word, both taken in lowercase.
pub proof fn lemma_single_token_match(query: Seq<char>, item: ItemView)
    requires
        0 < query.len() <= usize::MAX,
        forall|i: int| 0 <= i < query.len() ==> !char_is_whitespace(#[trigger] query[i]),
    ensures
        substring_match(item, query_terms(query)) <==> (contains(
            text_lowercase(item.title),
            text_lowercase(query),
        ) || contains(text_lowercase(preview_text(item.note)), text_lowercase(query))),
{
    lemma_single_token_terms(query);
    let terms = query_terms(query);
    assert(terms[0] == text_lowercase(query));
}

/// The rows for the notes from the `k`-th on that match the terms by
/// substring and are not among the rows seen, in the order of the store.
pub open spec fn matching_rows(
    items: Seq<ItemView>,
    terms: Seq<Seq<char>>,
    seen: Seq<ResultView>,
    k: int,
) -> Seq<ResultView>
    decreases items.len() - k,
{
    if k < 0 || k >= items.len() {
        Seq::empty()
    } else if !row_has_id(seen, items[k].id) && substring_match(items[k], terms) {
        seq![result_row(items[k], terms, None)] + matching_rows(items, terms, seen, k + 1)
    } else {
        matching_rows(items, terms, seen, k + 1)
    }
}

/// The first `n` rows, or all of them where there are no more.
pub open spec fn first_rows(rows: Seq<ResultView>, n: int) -> Seq<ResultView> {
    if 0 <= n < rows.len() {
        rows.take(n)
    } else {
        rows
    }
}

proof fn lemma_substring_rows_from(
    items: Seq<ItemView>,
    terms: Seq<Seq<char>>,
    limit: int,
    k: int,
    seen: Seq<ResultView>,
    added: Seq<ResultView>,
)
    requires
        ids_ascend(items),
        0 <= k <= items.len(),
        seen.len() + added.len() <= limit,
        forall|i: int|
            0 <= i < added.len() ==> exists|p: int|
                0 <= p < k && (#[trigger] items[p]).id == (#[trigger] added[i]).id,
    ensures
        with_substring_rows(items, terms, limit, k, seen + added) == seen + first_rows(
            added + matching_rows(items, terms, seen, k),
            limit - seen.len(),
        ),
    decreases items.len() - k,
{
    let acc = seen + added;
    let rest = matching_rows(items, terms, seen, k);
    let room = limit - seen.len();
    if k >= items.len() {
        assert(added + rest =~= added);
    } else if acc.len() >= limit {
        assert((added + rest).take(room) =~= added);
        assert(first_rows(added + rest, room) =~= added);
    } else {
        let id = items[k].id;
        assert(row_has_id(acc, id) == row_has_id(seen, id)) by {
            if row_has_id(acc, id) {
                let i = choose|i: int| 0 <= i < acc.len() && (#[trigger] acc[i]).id == id;
                if i >= seen.len() {
                    let a = i - seen.len();
                    assert(acc[i] == added[a]);
                    let p = choose|p: int| 0 <= p < k && (#[trigger] items[p]).id == added[a].id;
                    assert(items[p].id < items[k].id);
                } else {
                    assert(acc[i] == seen[i]);
                }
            }
            if row_has_id(seen, id) {
                let i = choose|i: int| 0 <= i < seen.len() && (#[trigger] seen[i]).id == id;
                assert(acc[i].id == id);
            }
        }
        if !row_has_id(acc, id) && substring_match(items[k], terms) {
            let row = result_row(items[k], terms, None);
            let more = added.push(row);
            assert forall|i: int| 0 <= i < more.len() implies exists|p: int|
                0 <= p < k + 1 && (#[trigger] items[p]).id == (#[trigger] more[i]).id by {
                if i < added.len() {
                    assert(more[i] == added[i]);
                    let p = choose|p: int| 0 <= p < k && (#[trigger] items[p]).id == added[i].id;
                    assert(0 <= p < k + 1 && items[p].id == more[i].id);
                } else {
                    assert(items[k].id == more[i].id);
                }
            }
            lemma_substring_rows_from(items, terms, limit, k + 1, seen, more);
            assert(acc.push(row) =~= seen + more);
            assert(more + matching_rows(items, terms, seen, k + 1) =~= added + rest);
        } else {
            assert forall|i: int| 0 <= i < added.len() implies exists|p: int|
                0 <= p < k + 1 && (#[trigger] items[p]).id == (#[trigger] added[i]).id by {
                let p = choose|p: int| 0 <= p < k && (#[trigger] items[p]).id == added[i].id;
                assert(0 <= p < k + 1 && items[p].id == added[i].id);
            }
            lemma_substring_rows_from(items, terms, limit, k + 1, seen, added);
        }
    }
}

/// The substring stage adds, in the order of the store, the rows of the
/// notes that match the terms and are not among the rows so far, as many
/// as the limit leaves room for, and nothing else.
pub proof fn lemma_substring_rows_are_first_matches(
    items: Seq<ItemView>,
    terms: Seq<Seq<char>>,
    limit: int,
    seen: Seq<ResultView>,
)
    requires
        ids_ascend(items),
        seen.len() <= limit,
    ensures
        with_substring_rows(items, terms, limit, 0, seen) == seen + first_rows(
            matching_rows(items, terms, seen, 0),
            limit - seen.len(),
        ),
{
    let none = Seq::<ResultView>::empty();
    lemma_substring_rows_from(items, terms, limit, 0, seen, none);
    assert(seen + none =~= seen);
    assert(none + matching_rows(items, terms, seen, 0) =~= matching_rows(items, terms, seen, 0));
}

/// An answer with rows for different notes of the store, and at least as
/// many rows as the store has notes, holds a row for every note.
pub proof fn lemma_full_answer_holds_every_note(items: Seq<ItemView>, rows: Seq<ResultView>)
    requires
        ids_ascend(items),
        row_ids_distinct(rows),
        rows_of_store(items, rows),
        rows.len() >= items.len(),
    ensures
        forall|p: int| 0 <= p < items.len() ==> row_has_id(rows, (#[trigger] items[p]).id),
{
    let shown = Seq::new(rows.len(), |i: int| rows[i].id);
    let held = Seq::new(items.len(), |i: int| items[i].id);
    assert(shown.no_duplicates()) by {
        assert forall|i: int, j: int|
            0 <= i < shown.len() && 0 <= j < shown.len() && i != j implies shown[i] != shown[j] by {
            if i < j {
                assert(rows[i].id != rows[j].id);
            } else {
                assert(rows[j].id != rows[i].id);
            }
        }
    }
    assert(held.no_duplicates()) by {
        assert forall|i: int, j: int|
            0 <= i < held.len() && 0 <= j < held.len() && i != j implies held[i] != held[j] by {
            if i < j {
                assert(items[i].id < items[j].id);
            } else {
                assert(items[j].id < items[i].id);
            }
        }
    }
    shown.unique_seq_to_set();
    held.unique_seq_to_set();
    vstd::seq_lib::seq_to_set_is_finite(shown);
    vstd::seq_lib::seq_to_set_is_finite(held);
    assert(shown.to_set().subset_of(held.to_set())) by {
        assert forall|id: i64| shown.to_set().contains(id) implies held.to_set().contains(id) by {
            let i = choose|i: int| 0 <= i < shown.len() && shown[i] == id;
            assert(row_of_store(items, rows[i]));
            let p = choose|p: int|
                0 <= p < items.len() && (#[trigger] items[p]).id == rows[i].id && items[p].title
                    == rows[i].title;
            assert(held[p] == id);
        }
    }
    vstd::set_lib::lemma_len_subset(shown.to_set(), held.to_set());
    vstd::set_lib::lemma_subset_equality(shown.to_set(), held.to_set());
    assert forall|p: int| 0 <= p < items.len() implies row_has_id(rows, (#[trigger] items[p]).id) by {
        assert(held[p] == items[p].id);
        assert(held.to_set().contains(items[p].id));
        assert(shown.to_set().contains(items[p].id));
        let i = choose|i: int| 0 <= i < shown.len() && shown[i] == items[p].id;
        assert(rows[i].id == items[p].id);
    }
}

/// Every row of an answer shows a note of the store, under its id and its
/// title.
pub proof fn lemma_search_rows_show_notes(
    items: Seq<ItemView>,
    query: Seq<char>,
    limit: i64,
    hits: Seq<HitView>,
)
    requires
        items.len() <= usize::MAX,
    ensures
        rows_of_store(items, search_rows(items, query, limit, hits)),
{
    let terms = query_terms(query);
    let rows = search_rows(items, query, limit, hits);
    if limit <= 0 {
    } else if terms.len() == 0 {
        lemma_listing_in_order(items);
        assert forall|i: int| 0 <= i < rows.len() implies row_of_store(items, #[trigger] rows[i]) by {
            let p = listing(items)[i].pos as int;
            assert(items[p].id == rows[i].id && items[p].title == rows[i].title);
        }
    } else {
        let first = with_hits(items, terms, hits, limit as int, 0, Seq::empty());
        lemma_hits_of_store(items, terms, hits, limit as int, 0, Seq::empty());
        let second = with_substring_rows(items, terms, limit as int, 0, first);
        lemma_substring_rows_of_store(items, terms, limit as int, 0, first);
        if second.len() >= limit || !has_fuzzy_term(terms) {
        } else {
            let remaining = limit - second.len();
            let ranked = candidates_from(
                items,
                terms,
                second,
                scan_limit(remaining),
                0,
                Seq::empty(),
            );
            lemma_candidates_in_store(items, terms, second, scan_limit(remaining), 0, Seq::empty());
            assert forall|i: int| 0 <= i < rows.len() implies row_of_store(
                items,
                #[trigger] rows[i],
            ) by {
                if i < second.len() {
                    assert(rows[i] == second[i]);
                } else {
                    let p = ranked[i - second.len()].pos as int;
                    assert(items[p].id == rows[i].id && items[p].title == rows[i].title);
                }
            }
        }
    }
}

} // verus!
