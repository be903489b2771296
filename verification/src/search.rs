//! The query pipeline: rows that the index found first, then notes that
//! hold every term of the query, then notes with a word that resembles a
//! term; and the listing in the order of the titles.

use vstd::prelude::*;
use crate::fuzzy::{
    fuzzy_row_score, has_fuzzy_term, row_score, term_is_fuzzy, threshold, zero_score, Score,
    FUZZY_QUERY_TERM_MAX_CHARS, FUZZY_QUERY_TERM_MIN_CHARS,
};
use crate::models::{
    export_views, result_views, text_of, ExportItem, ExportView, ResultView, SearchResult,
};
use crate::ranking::{insert_by_rank, insert_ranked, ranked_views, scores_wf, Ranked, RankedView};
use crate::sanitize::{preview_text, sanitize_chars_for_preview};
use crate::snippet::{query_terms, query_terms_of, snippet_for_terms, snippet_of};
use crate::store::{ids_ascend, item_views, lookup, lemma_lookup_at, ItemView, Store, StoredItem};
use crate::text::{
    contains, contains_chars, lower_text, lower_whole, text_lowercase, to_chars, views,
};

verus! {

/// A row that the full-text index found: the id of a note, and the
/// highlighted fragment of its text where the index produced one.
#[derive(Debug, Clone)]
pub struct IndexHit {
    pub id: i64,
    pub note_snippet: Option<String>,
}

/// What a row of the index is.
pub struct HitView {
    pub id: i64,
    pub note_snippet: Option<Seq<char>>,
}

impl View for IndexHit {
    type V = HitView;

    open spec fn view(&self) -> HitView {
        HitView { id: self.id, note_snippet: text_of(self.note_snippet) }
    }
}

/// What a list of rows of the index is.
pub open spec fn hit_views(hits: Seq<IndexHit>) -> Seq<HitView> {
    Seq::new(hits.len(), |i: int| hits[i]@)
}

/// Some row has the id.
pub open spec fn row_has_id(rows: Seq<ResultView>, id: i64) -> bool {
    exists|i: int| 0 <= i < rows.len() && (#[trigger] rows[i]).id == id
}

/// No two rows have the same id.
pub open spec fn row_ids_distinct(rows: Seq<ResultView>) -> bool {
    forall|i: int, j: int| 0 <= i < j < rows.len() ==> (#[trigger] rows[i]).id != (#[trigger] rows[j]).id
}

/// The row of a note in the answer to a query: the fragment that the index
/// highlighted where there is one, else the snippet built from the note.
pub open spec fn result_row(item: ItemView, terms: Seq<Seq<char>>, preferred: Option<Seq<char>>) -> ResultView {
    let found = match preferred {
        Some(s) => Some(("note"@, s)),
        None => snippet_of(item.subtitle, item.keywords, item.note, terms),
    };
    ResultView {
        id: item.id,
        title: item.title,
        subtitle: Seq::empty(),
        snippet: match found {
            Some(pair) => Some(pair.1),
            None => None,
        },
        snippet_source: match found {
            Some(pair) => Some(pair.0),
            None => None,
        },
    }
}

/// The row of a note in the listing.
pub open spec fn plain_row(item: ItemView) -> ResultView {
    ResultView {
        id: item.id,
        title: item.title,
        subtitle: item.subtitle,
        snippet: None,
        snippet_source: None,
    }
}

/// The row of a note in an export.
pub open spec fn export_row(item: ItemView) -> ExportView {
    ExportView {
        id: item.id,
        title: item.title,
        subtitle: item.subtitle,
        keywords: item.keywords,
        note: item.note,
        image_count: item.images.len() as i64,
    }
}

/// The entry under which a note is listed: its lowercased title, its id.
pub open spec fn listing_entry(items: Seq<ItemView>, k: int) -> RankedView {
    RankedView {
        score: zero_score(),
        title: text_lowercase(items[k].title),
        id: items[k].id,
        pos: k as usize,
    }
}

/// The listing after the notes from `k` on were put in.
pub open spec fn listing_from(items: Seq<ItemView>, k: int, acc: Seq<RankedView>) -> Seq<RankedView>
    decreases items.len() - k,
{
    if k < 0 || k >= items.len() {
        acc
    } else {
        listing_from(items, k + 1, insert_by_rank(acc, listing_entry(items, k)))
    }
}

/// The notes in the order of their lowercased titles, and of their ids
/// where titles agree.
pub open spec fn listing(items: Seq<ItemView>) -> Seq<RankedView> {
    listing_from(items, 0, Seq::empty())
}

/// Every position lies in `lo..hi`.
pub open spec fn positions_in(list: Seq<RankedView>, lo: int, hi: int) -> bool {
    forall|i: int| 0 <= i < list.len() ==> lo <= (#[trigger] list[i]).pos < hi
}

/// No position occurs twice.
pub open spec fn positions_distinct(list: Seq<RankedView>) -> bool {
    forall|i: int, j: int| 0 <= i < j < list.len() ==> (#[trigger] list[i]).pos != (#[trigger] list[j]).pos
}

/// A ranking whose positions differ and lie in a range keeps positions
/// that differ when an entry with a position outside the range is put in.
pub proof fn lemma_insert_positions(list: Seq<RankedView>, p: int, c: RankedView, lo: int, hi: int)
    requires
        0 <= p <= list.len(),
        positions_distinct(list),
        positions_in(list, lo, hi),
        !(lo <= c.pos < hi),
    ensures
        positions_distinct(list.insert(p, c)),
        forall|i: int|
            0 <= i < list.len() + 1 ==> ((#[trigger] list.insert(p, c)[i]) == c || (lo
                <= list.insert(p, c)[i].pos < hi)),
{
    let after = list.insert(p, c);
    assert forall|i: int| 0 <= i < after.len() implies ((#[trigger] after[i]) == c || (lo
        <= after[i].pos < hi)) by {
        if i < p {
            assert(after[i] == list[i]);
        } else if i > p {
            assert(after[i] == list[i - 1]);
        }
    }
    assert forall|i: int, j: int| 0 <= i < j < after.len() implies (#[trigger] after[i]).pos != (
    #[trigger] after[j]).pos by {
        let bi = if i < p { i } else { i - 1 };
        let bj = if j < p { j } else { j - 1 };
        if i != p {
            assert(after[i] == list[bi]);
        }
        if j != p {
            assert(after[j] == list[bj]);
        }
        if i != p && j != p {
            assert(list[bi].pos != list[bj].pos);
        }
    }
}

/// Puts the notes in the order of the listing.
pub fn ordered_items_for_listing(items: &Vec<StoredItem>) -> (order: Vec<Ranked>)
    ensures
        ranked_views(order@) == listing(item_views(items@)),
        order.len() == items.len(),
        positions_in(ranked_views(order@), 0, items.len() as int),
        positions_distinct(ranked_views(order@)),
{
    let mut order: Vec<Ranked> = Vec::new();
    let mut k: usize = 0;
    assert(ranked_views(order@) =~= Seq::empty());
    while k < items.len()
        invariant
            k <= items.len(),
            order.len() == k,
            listing(item_views(items@)) == listing_from(
                item_views(items@),
                k as int,
                ranked_views(order@),
            ),
            scores_wf(ranked_views(order@)),
            positions_in(ranked_views(order@), 0, k as int),
            positions_distinct(ranked_views(order@)),
        decreases items.len() - k,
    {
        let item = &items[k];
        let lowered = lower_text(item.title.as_str());
        let entry = Ranked {
            score: Score { num: 0, den: 1 },
            title: to_chars(lowered.as_str()),
            id: item.id,
            pos: k,
        };
        assert(entry@ == listing_entry(item_views(items@), k as int));
        let ghost before = ranked_views(order@);
        let p = insert_ranked(&mut order, entry);
        proof {
            assert(ranked_views(order@) =~= before.insert(p as int, entry@));
            lemma_insert_positions(before, p as int, entry@, 0, k as int);
        }
        k += 1;
    }
    order
}

/// The rows of an export: all notes in the order of the listing.
pub open spec fn export_rows(items: Seq<ItemView>) -> Seq<ExportView> {
    Seq::new(items.len(), |i: int| export_row(items[listing(items)[i].pos as int]))
}

/// Lists all notes for an export, in the order of their lowercased titles
/// and, where titles agree, of their ids.
pub fn export_items_snapshot(store: &Store) -> (rows: Vec<ExportItem>)
    requires
        store.wf(),
    ensures
        export_views(rows@) == export_rows(store@.items),
{
    let order = ordered_items_for_listing(&store.items);
    let mut rows: Vec<ExportItem> = Vec::new();
    let mut i: usize = 0;
    while i < order.len()
        invariant
            i <= order.len(),
            rows.len() == i,
            order.len() == store.items.len(),
            ranked_views(order@) == listing(store@.items),
            positions_in(ranked_views(order@), 0, store.items.len() as int),
            forall|j: int|
                0 <= j < i ==> (#[trigger] rows[j])@ == export_row(
                    store@.items[listing(store@.items)[j].pos as int],
                ),
        decreases order.len() - i,
    {
        assert(ranked_views(order@)[i as int].pos == order[i as int].pos);
        let item = &store.items[order[i].pos];
        assert(item@ == store@.items[order[i as int].pos as int]);
        rows.push(
            ExportItem {
                id: item.id,
                title: item.title.clone(),
                subtitle: item.subtitle.clone(),
                keywords: item.keywords.clone(),
                note: item.note.clone(),
                image_count: export_count(item.images.len()),
            },
        );
        i += 1;
    }
    assert(export_views(rows@) =~= export_rows(store@.items));
    rows
}

fn export_count(n: usize) -> (c: i64)
    ensures
        c == n as i64,
{
    n as i64
}

/// A note matches the terms by substring: its lowercased title or its
/// lowercased preview text holds each of them.
pub open spec fn substring_match(item: ItemView, terms: Seq<Seq<char>>) -> bool {
    forall|k: int|
        0 <= k < terms.len() ==> (contains(text_lowercase(item.title), #[trigger] terms[k])
            || contains(text_lowercase(preview_text(item.note)), terms[k]))
}

/// The rows after the rows of the index from the `k`-th on were taken in:
/// each names a note of the store and an id that no earlier row has, until
/// the limit is reached.
pub open spec fn with_hits(
    items: Seq<ItemView>,
    terms: Seq<Seq<char>>,
    hits: Seq<HitView>,
    limit: int,
    k: int,
    acc: Seq<ResultView>,
) -> Seq<ResultView>
    decreases hits.len() - k,
{
    if k < 0 || k >= hits.len() || acc.len() >= limit {
        acc
    } else {
        match lookup(items, hits[k].id) {
            Some(item) => if row_has_id(acc, hits[k].id) {
                with_hits(items, terms, hits, limit, k + 1, acc)
            } else {
                with_hits(
                    items,
                    terms,
                    hits,
                    limit,
                    k + 1,
                    acc.push(result_row(item, terms, hits[k].note_snippet)),
                )
            },
            None => with_hits(items, terms, hits, limit, k + 1, acc),
        }
    }
}

/// The rows after the notes from the `k`-th on were scanned in the order of
/// their ids: each note that matches by substring and is not yet among the
/// rows is added, until the limit is reached.
pub open spec fn with_substring_rows(
    items: Seq<ItemView>,
    terms: Seq<Seq<char>>,
    limit: int,
    k: int,
    acc: Seq<ResultView>,
) -> Seq<ResultView>
    decreases items.len() - k,
{
    if k < 0 || k >= items.len() || acc.len() >= limit {
        acc
    } else if !row_has_id(acc, items[k].id) && substring_match(items[k], terms) {
        with_substring_rows(items, terms, limit, k + 1, acc.push(result_row(items[k], terms, None)))
    } else {
        with_substring_rows(items, terms, limit, k + 1, acc)
    }
}

/// How many of the newest notes the fuzzy stage looks at.
pub open spec fn scan_limit(remaining: int) -> int {
    if remaining >= 32 {
        2048
    } else if remaining >= 8 {
        remaining * 64
    } else {
        512
    }
}

/// The ranking of the fuzzy candidates after the `j`-th newest note and
/// those behind it, up to `count` notes, were scored: a note enters with
/// its score when it is not among the rows and its score is accepted.
pub open spec fn candidates_from(
    items: Seq<ItemView>,
    terms: Seq<Seq<char>>,
    seen: Seq<ResultView>,
    count: int,
    j: int,
    acc: Seq<RankedView>,
) -> Seq<RankedView>
    decreases items.len() - j,
{
    if j < 0 || j >= count || j >= items.len() {
        acc
    } else {
        let pos = items.len() - 1 - j;
        let score = row_score(items[pos].title, preview_text(items[pos].note), terms);
        if row_has_id(seen, items[pos].id) || !score.at_least(threshold()) {
            candidates_from(items, terms, seen, count, j + 1, acc)
        } else {
            candidates_from(
                items,
                terms,
                seen,
                count,
                j + 1,
                insert_by_rank(
                    acc,
                    RankedView { score, title: items[pos].title, id: items[pos].id, pos: pos as usize },
                ),
            )
        }
    }
}

/// The rows with the best fuzzy candidates behind them, as far as the limit
/// leaves room and a term takes part in fuzzy matching.
pub open spec fn with_fuzzy_rows(
    items: Seq<ItemView>,
    terms: Seq<Seq<char>>,
    limit: int,
    acc: Seq<ResultView>,
) -> Seq<ResultView> {
    if acc.len() >= limit || !has_fuzzy_term(terms) {
        acc
    } else {
        let remaining = limit - acc.len();
        let ranked = candidates_from(items, terms, acc, scan_limit(remaining), 0, Seq::empty());
        let taken = if ranked.len() < remaining {
            ranked.len() as int
        } else {
            remaining
        };
        acc + Seq::new(taken as nat, |i: int| result_row(items[ranked[i].pos as int], terms, None))
    }
}

/// The answer to a query: nothing for a limit that is not positive; the
/// listing, cut at the limit, for a query without terms; else the rows of
/// the three stages.
pub open spec fn search_rows(items: Seq<ItemView>, query: Seq<char>, limit: i64, hits: Seq<HitView>) -> Seq<
    ResultView,
> {
    let terms = query_terms(query);
    if limit <= 0 {
        Seq::empty()
    } else if terms.len() == 0 {
        Seq::new(
            if items.len() < limit {
                items.len()
            } else {
                limit as nat
            },
            |i: int| plain_row(items[listing(items)[i].pos as int]),
        )
    } else {
        with_fuzzy_rows(
            items,
            terms,
            limit as int,
            with_substring_rows(
                items,
                terms,
                limit as int,
                0,
                with_hits(items, terms, hits, limit as int, 0, Seq::empty()),
            ),
        )
    }
}

/// Tells whether a row has the id.
pub fn rows_have_id(rows: &Vec<SearchResult>, id: i64) -> (b: bool)
    ensures
        b == row_has_id(result_views(rows@), id),
{
    let mut i: usize = 0;
    while i < rows.len()
        invariant
            i <= rows.len(),
            forall|j: int| 0 <= j < i ==> (#[trigger] result_views(rows@)[j]).id != id,
        decreases rows.len() - i,
    {
        if rows[i].id == id {
            assert(result_views(rows@)[i as int].id == id);
            return true;
        }
        i += 1;
    }
    false
}

/// Builds the row of a note in the answer to a query.
pub fn map_search_item(item: &StoredItem, terms: &Vec<Vec<char>>, preferred_snippet: Option<String>) -> (row:
    SearchResult)
    ensures
        row@ == result_row(item@, views(terms@), text_of(preferred_snippet)),
{
    let found = match preferred_snippet {
        Some(s) => Some(("note".to_owned(), s)),
        None => snippet_for_terms(
            &to_chars(item.subtitle.as_str()),
            &to_chars(item.keywords.as_str()),
            &to_chars(item.note.as_str()),
            terms,
        ),
    };
    let row = match found {
        Some(pair) => SearchResult {
            id: item.id,
            title: item.title.clone(),
            subtitle: String::new(),
            snippet: Some(pair.1),
            snippet_source: Some(pair.0),
        },
        None => SearchResult {
            id: item.id,
            title: item.title.clone(),
            subtitle: String::new(),
            snippet: None,
            snippet_source: None,
        },
    };
    assert(row@.subtitle =~= Seq::empty());
    row
}

/// Tells whether the lowercase of one text holds the lowercase of another.
pub fn contains_case_insensitive(text: &str, needle: &str) -> (b: bool)
    ensures
        b == contains(text_lowercase(text@), text_lowercase(needle@)),
{
    let hay = lower_text(text);
    let pin = lower_text(needle);
    contains_chars(&to_chars(hay.as_str()), &to_chars(pin.as_str()))
}

/// Tells whether a note matches the terms by substring.
pub fn matches_by_substring(item: &StoredItem, terms: &Vec<Vec<char>>) -> (b: bool)
    ensures
        b == substring_match(item@, views(terms@)),
{
    let title = to_chars(lower_text(item.title.as_str()).as_str());
    let cleaned = sanitize_chars_for_preview(&to_chars(item.note.as_str()));
    let note = lower_whole(&cleaned);
    let mut k: usize = 0;
    while k < terms.len()
        invariant
            k <= terms.len(),
            title@ == text_lowercase(item@.title),
            note@ == text_lowercase(preview_text(item@.note)),
            forall|j: int|
                0 <= j < k ==> (contains(title@, #[trigger] views(terms@)[j]) || contains(
                    note@,
                    views(terms@)[j],
                )),
        decreases terms.len() - k,
    {
        assert(views(terms@)[k as int] == terms[k as int]@);
        if !contains_chars(&title, &terms[k]) && !contains_chars(&note, &terms[k]) {
            return false;
        }
        k += 1;
    }
    true
}

proof fn lemma_pushed_row(rows: Seq<ResultView>, row: ResultView)
    requires
        row_ids_distinct(rows),
        !row_has_id(rows, row.id),
    ensures
        row_ids_distinct(rows.push(row)),
        forall|id: i64| row_has_id(rows, id) ==> row_has_id(rows.push(row), id),
        row_has_id(rows.push(row), row.id),
{
    let after = rows.push(row);
    assert forall|i: int, j: int| 0 <= i < j < after.len() implies (#[trigger] after[i]).id != (
    #[trigger] after[j]).id by {
        if j == rows.len() {
            assert(after[i] == rows[i]);
            if rows[i].id == row.id {
                assert(row_has_id(rows, row.id));
            }
        } else {
            assert(after[i] == rows[i]);
            assert(after[j] == rows[j]);
        }
    }
    assert forall|id: i64| row_has_id(rows, id) implies row_has_id(after, id) by {
        let w = choose|i: int| 0 <= i < rows.len() && (#[trigger] rows[i]).id == id;
        assert(after[w].id == id);
    }
    assert(after[rows.len() as int].id == row.id);
}

fn opt_copy(s: &Option<String>) -> (r: Option<String>)
    ensures
        text_of(r) == text_of(*s),
{
    match s {
        Some(t) => Some(t.clone()),
        None => None,
    }
}

/// Takes in the rows that the index found.
pub fn add_index_hits(
    store: &Store,
    terms: &Vec<Vec<char>>,
    hits: &Vec<IndexHit>,
    limit: u64,
    rows: &mut Vec<SearchResult>,
)
    requires
        store.wf(),
        row_ids_distinct(result_views(old(rows)@)),
        old(rows).len() <= limit,
    ensures
        result_views(final(rows)@) == with_hits(
            store@.items,
            views(terms@),
            hit_views(hits@),
            limit as int,
            0,
            result_views(old(rows)@),
        ),
        row_ids_distinct(result_views(final(rows)@)),
        final(rows).len() <= limit,
{
    let mut k: usize = 0;
    while k < hits.len() && (rows.len() as u64) < limit
        invariant
            k <= hits.len(),
            store.wf(),
            rows.len() <= limit,
            row_ids_distinct(result_views(rows@)),
            with_hits(
                store@.items,
                views(terms@),
                hit_views(hits@),
                limit as int,
                0,
                result_views(old(rows)@),
            ) == with_hits(
                store@.items,
                views(terms@),
                hit_views(hits@),
                limit as int,
                k as int,
                result_views(rows@),
            ),
        decreases hits.len() - k,
    {
        let hit = &hits[k];
        assert(hit_views(hits@)[k as int] == hit@);
        match store.position_of(hit.id) {
            Some(p) => {
                proof {
                    lemma_lookup_at(store@.items, p as int);
                }
                if !rows_have_id(rows, hit.id) {
                    let row = map_search_item(&store.items[p], terms, opt_copy(&hit.note_snippet));
                    let ghost before = result_views(rows@);
                    rows.push(row);
                    proof {
                        assert(result_views(rows@) =~= before.push(row@));
                        lemma_pushed_row(before, row@);
                    }
                }
            },
            None => {},
        }
        k += 1;
    }
}

/// Adds the notes that match the terms by substring, in the order of their
/// ids.
pub fn substring_search_rows(
    items: &Vec<StoredItem>,
    terms: &Vec<Vec<char>>,
    limit: u64,
    rows: &mut Vec<SearchResult>,
)
    requires
        row_ids_distinct(result_views(old(rows)@)),
        old(rows).len() <= limit,
    ensures
        result_views(final(rows)@) == with_substring_rows(
            item_views(items@),
            views(terms@),
            limit as int,
            0,
            result_views(old(rows)@),
        ),
        row_ids_distinct(result_views(final(rows)@)),
        final(rows).len() <= limit,
        forall|id: i64|
            row_has_id(result_views(old(rows)@), id) ==> row_has_id(result_views(final(rows)@), id),
        final(rows).len() < limit ==> forall|p: int|
            0 <= p < items.len() && substring_match(#[trigger] item_views(items@)[p], views(terms@))
                ==> row_has_id(result_views(final(rows)@), item_views(items@)[p].id),
{
    let mut k: usize = 0;
    while k < items.len() && (rows.len() as u64) < limit
        invariant
            k <= items.len(),
            rows.len() <= limit,
            row_ids_distinct(result_views(rows@)),
            with_substring_rows(
                item_views(items@),
                views(terms@),
                limit as int,
                0,
                result_views(old(rows)@),
            ) == with_substring_rows(
                item_views(items@),
                views(terms@),
                limit as int,
                k as int,
                result_views(rows@),
            ),
            forall|id: i64|
                row_has_id(result_views(old(rows)@), id) ==> row_has_id(result_views(rows@), id),
            forall|p: int|
                0 <= p < k && substring_match(#[trigger] item_views(items@)[p], views(terms@))
                    ==> row_has_id(result_views(rows@), item_views(items@)[p].id),
        decreases items.len() - k,
    {
        let item = &items[k];
        assert(item_views(items@)[k as int] == item@);
        if !rows_have_id(rows, item.id) && matches_by_substring(item, terms) {
            let row = map_search_item(item, terms, None);
            let ghost before = result_views(rows@);
            rows.push(row);
            proof {
                assert(result_views(rows@) =~= before.push(row@));
                lemma_pushed_row(before, row@);
            }
        }
        k += 1;
    }
}

/// Tells whether a term takes part in fuzzy matching.
pub fn any_fuzzy_term(terms: &Vec<Vec<char>>) -> (b: bool)
    ensures
        b == has_fuzzy_term(views(terms@)),
{
    let mut k: usize = 0;
    while k < terms.len()
        invariant
            k <= terms.len(),
            forall|j: int| 0 <= j < k ==> !term_is_fuzzy(#[trigger] views(terms@)[j]),
        decreases terms.len() - k,
    {
        assert(views(terms@)[k as int] == terms[k as int]@);
        if terms[k].len() >= FUZZY_QUERY_TERM_MIN_CHARS && terms[k].len()
            <= FUZZY_QUERY_TERM_MAX_CHARS {
            return true;
        }
        k += 1;
    }
    false
}

/// Adds the best of the notes that hold a word resembling a term, looking
/// at the newest notes only.
pub fn fuzzy_search_rows(
    items: &Vec<StoredItem>,
    terms: &Vec<Vec<char>>,
    limit: u64,
    rows: &mut Vec<SearchResult>,
)
    requires
        ids_ascend(item_views(items@)),
        row_ids_distinct(result_views(old(rows)@)),
        old(rows).len() <= limit,
    ensures
        result_views(final(rows)@) == with_fuzzy_rows(
            item_views(items@),
            views(terms@),
            limit as int,
            result_views(old(rows)@),
        ),
        row_ids_distinct(result_views(final(rows)@)),
        final(rows).len() <= limit,
        forall|id: i64|
            row_has_id(result_views(old(rows)@), id) ==> row_has_id(result_views(final(rows)@), id),
{
    if rows.len() as u64 >= limit || !any_fuzzy_term(terms) {
        return ;
    }
    let remaining: u64 = limit - rows.len() as u64;
    let scan: usize = if remaining >= 32 {
        2048
    } else if remaining >= 8 {
        (remaining * 64) as usize
    } else {
        512
    };
    let ghost seen = result_views(rows@);
    let ghost all = item_views(items@);
    let mut ranked: Vec<Ranked> = Vec::new();
    let mut j: usize = 0;
    assert(ranked_views(ranked@) =~= Seq::empty());
    while j < scan && j < items.len()
        invariant
            j <= items.len(),
            all == item_views(items@),
            seen == result_views(rows@),
            scan == scan_limit(remaining as int),
            candidates_from(all, views(terms@), seen, scan as int, 0, Seq::empty())
                == candidates_from(all, views(terms@), seen, scan as int, j as int, ranked_views(ranked@)),
            scores_wf(ranked_views(ranked@)),
            positions_in(ranked_views(ranked@), items.len() - j, items.len() as int),
            positions_distinct(ranked_views(ranked@)),
            forall|i: int|
                0 <= i < ranked.len() ==> !row_has_id(
                    seen,
                    all[(#[trigger] ranked_views(ranked@)[i]).pos as int].id,
                ),
        decreases items.len() - j,
    {
        let pos: usize = items.len() - 1 - j;
        let item = &items[pos];
        assert(all[pos as int] == item@);
        if !rows_have_id(rows, item.id) {
            let title = to_chars(item.title.as_str());
            let cleaned = sanitize_chars_for_preview(&to_chars(item.note.as_str()));
            let score = fuzzy_row_score(&title, &cleaned, terms);
            if score.is_accepted() {
                let entry = Ranked { score, title, id: item.id, pos };
                let ghost before = ranked_views(ranked@);
                let p = insert_ranked(&mut ranked, entry);
                proof {
                    let after = ranked_views(ranked@);
                    assert(after =~= before.insert(p as int, entry@));
                    lemma_insert_positions(
                        before,
                        p as int,
                        entry@,
                        items.len() - j,
                        items.len() as int,
                    );
                    assert forall|i: int| 0 <= i < after.len() implies !row_has_id(
                        seen,
                        all[(#[trigger] after[i]).pos as int].id,
                    ) by {
                        if i < p {
                            assert(after[i] == before[i]);
                        } else if i > p {
                            assert(after[i] == before[i - 1]);
                        }
                    }
                }
            }
        }
        j += 1;
    }
    let taken: usize = if (ranked.len() as u64) < remaining {
        ranked.len()
    } else {
        remaining as usize
    };
    let ghost cands = ranked_views(ranked@);
    let mut i: usize = 0;
    while i < taken
        invariant
            i <= taken <= ranked.len(),
            taken <= remaining,
            remaining + seen.len() == limit,
            all == item_views(items@),
            ids_ascend(all),
            cands == ranked_views(ranked@),
            positions_in(cands, 0, items.len() as int),
            positions_distinct(cands),
            row_ids_distinct(seen),
            forall|k: int| 0 <= k < cands.len() ==> !row_has_id(seen, all[(#[trigger] cands[k]).pos as int].id),
            rows.len() == seen.len() + i,
            result_views(rows@) == seen + Seq::new(
                i as nat,
                |k: int| result_row(all[cands[k].pos as int], views(terms@), None),
            ),
        decreases taken - i,
    {
        assert(cands[i as int].pos == ranked[i as int].pos);
        let item = &items[ranked[i].pos];
        assert(all[cands[i as int].pos as int] == item@);
        let row = map_search_item(item, terms, None);
        let ghost before = result_views(rows@);
        rows.push(row);
        i += 1;
        assert(result_views(rows@) =~= seen + Seq::new(
            i as nat,
            |k: int| result_row(all[cands[k].pos as int], views(terms@), None),
        )) by {
            assert(result_views(rows@) =~= before.push(row@));
        }
    }
    proof {
        let added = Seq::new(
            taken as nat,
            |k: int| result_row(all[cands[k].pos as int], views(terms@), None),
        );
        let after = seen + added;
        assert forall|a: int, b: int| 0 <= a < b < after.len() implies (#[trigger] after[a]).id != (
        #[trigger] after[b]).id by {
            if b < seen.len() {
            } else if a < seen.len() {
                let kb = b - seen.len();
                assert(after[b].id == all[cands[kb].pos as int].id);
                if after[a].id == after[b].id {
                    assert(seen[a].id == after[b].id);
                    assert(row_has_id(seen, after[b].id));
                }
            } else {
                let ka = a - seen.len();
                let kb = b - seen.len();
                assert(cands[ka].pos != cands[kb].pos);
                let pa = cands[ka].pos as int;
                let pb = cands[kb].pos as int;
                if pa < pb {
                    assert(all[pa].id < all[pb].id);
                } else {
                    assert(all[pb].id < all[pa].id);
                }
            }
        }
        assert forall|id: i64| row_has_id(seen, id) implies row_has_id(after, id) by {
            let w = choose|w: int| 0 <= w < seen.len() && (#[trigger] seen[w]).id == id;
            assert(after[w].id == id);
        }
    }
}

/// Answers a query with at most `limit` rows, each for another note.
/// `hits` are the rows that the full-text index found for the query, best
/// first. Whatever the index found, a note that holds every term of the
/// query in its title or its preview text is in the answer, unless the
/// limit cut the answer short.
pub fn search(store: &Store, query: &str, limit: i64, hits: &Vec<IndexHit>) -> (rows: Vec<SearchResult>)
    requires
        store.wf(),
    ensures
        result_views(rows@) == search_rows(store@.items, query@, limit, hit_views(hits@)),
        rows.len() <= (if limit > 0 { limit as int } else { 0 }),
        row_ids_distinct(result_views(rows@)),
        query_terms(query@).len() > 0 && (rows.len() < limit || store@.items.len() <= limit)
            ==> forall|p: int|
            0 <= p < store@.items.len() && substring_match(
                #[trigger] store@.items[p],
                query_terms(query@),
            ) ==> row_has_id(result_views(rows@), store@.items[p].id),
{
    let mut rows: Vec<SearchResult> = Vec::new();
    assert(result_views(rows@) =~= Seq::empty());
    if limit <= 0 {
        return rows;
    }
    let cap: u64 = limit as u64;
    let terms = query_terms_of(&to_chars(query));
    if terms.len() == 0 {
        let order = ordered_items_for_listing(&store.items);
        let shown: usize = if (order.len() as u64) < cap { order.len() } else { cap as usize };
        let ghost list = listing(store@.items);
        let mut i: usize = 0;
        while i < shown
            invariant
                i <= shown <= order.len(),
                order.len() == store.items.len(),
                rows.len() == i,
                list == listing(store@.items),
                ranked_views(order@) == list,
                positions_in(list, 0, store.items.len() as int),
                forall|j: int|
                    0 <= j < i ==> (#[trigger] rows[j])@ == plain_row(
                        store@.items[list[j].pos as int],
                    ),
            decreases shown - i,
        {
            assert(list[i as int].pos == order[i as int].pos);
            let item = &store.items[order[i].pos];
            assert(item@ == store@.items[order[i as int].pos as int]);
            rows.push(
                SearchResult {
                    id: item.id,
                    title: item.title.clone(),
                    subtitle: item.subtitle.clone(),
                    snippet: None,
                    snippet_source: None,
                },
            );
            i += 1;
        }
        proof {
            let items = store@.items;
            let out = result_views(rows@);
            assert(out =~= search_rows(items, query@, limit, hit_views(hits@)));
            assert forall|a: int, b: int| 0 <= a < b < out.len() implies (#[trigger] out[a]).id != (
            #[trigger] out[b]).id by {
                let pa = list[a].pos as int;
                let pb = list[b].pos as int;
                assert(list[a].pos != list[b].pos);
                assert(out[a] == rows[a]@);
                assert(out[b] == rows[b]@);
                if pa < pb {
                    assert(items[pa].id < items[pb].id);
                } else {
                    assert(items[pb].id < items[pa].id);
                }
            }
        }
        return rows;
    }
    add_index_hits(store, &terms, hits, cap, &mut rows);
    substring_search_rows(&store.items, &terms, cap, &mut rows);
    fuzzy_search_rows(&store.items, &terms, cap, &mut rows);
    proof {
        if rows.len() >= limit && store@.items.len() <= limit {
            crate::laws::lemma_search_rows_show_notes(
                store@.items,
                query@,
                limit,
                hit_views(hits@),
            );
            crate::laws::lemma_full_answer_holds_every_note(store@.items, result_views(rows@));
        }
    }
    rows
}

} // verus!
