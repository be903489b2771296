//! The order in which notes are listed and fuzzy matches are ranked: by
//! score from high to low, then by title, then by id.

use vstd::prelude::*;
use crate::fuzzy::Score;

verus! {

/// A note in a ranking: its score, the title it is ordered by, its id and
/// its position in the store.
pub struct Ranked {
    pub score: Score,
    pub title: Vec<char>,
    pub id: i64,
    pub pos: usize,
}

/// What an entry of a ranking is.
pub struct RankedView {
    pub score: Score,
    pub title: Seq<char>,
    pub id: i64,
    pub pos: usize,
}

impl View for Ranked {
    type V = RankedView;

    open spec fn view(&self) -> RankedView {
        RankedView { score: self.score, title: self.title@, id: self.id, pos: self.pos }
    }
}

/// What a ranking is.
pub open spec fn ranked_views(list: Seq<Ranked>) -> Seq<RankedView> {
    Seq::new(list.len(), |i: int| list[i]@)
}

/// `a` stands before `b` in the order of their characters, compared from
/// position `i` on.
pub open spec fn text_before_from(a: Seq<char>, b: Seq<char>, i: int) -> bool
    decreases a.len() - i,
{
    if i < 0 || i >= b.len() {
        false
    } else if i >= a.len() {
        true
    } else if a[i] != b[i] {
        (a[i] as u32) < (b[i] as u32)
    } else {
        text_before_from(a, b, i + 1)
    }
}

/// `a` stands before `b` in the order of their characters.
pub open spec fn text_before(a: Seq<char>, b: Seq<char>) -> bool {
    text_before_from(a, b, 0)
}

/// `a` ranks before `b`: by the higher score, then the earlier title, then
/// the lower id.
pub open spec fn ranks_before(a: RankedView, b: RankedView) -> bool {
    a.score.above(b.score) || (a.score.same_value(b.score) && (text_before(a.title, b.title) || (
    a.title == b.title && a.id < b.id)))
}

/// The first position from `p` on whose entry `c` ranks before.
pub open spec fn insert_pos(list: Seq<RankedView>, c: RankedView, p: int) -> int
    decreases list.len() - p,
{
    if p < 0 || p >= list.len() || ranks_before(c, list[p]) {
        p
    } else {
        insert_pos(list, c, p + 1)
    }
}

/// The ranking with `c` put before the first entry that it ranks before.
pub open spec fn insert_by_rank(list: Seq<RankedView>, c: RankedView) -> Seq<RankedView> {
    list.insert(insert_pos(list, c, 0), c)
}

/// All scores of the ranking can be compared.
pub open spec fn scores_wf(list: Seq<RankedView>) -> bool {
    forall|i: int| 0 <= i < list.len() ==> (#[trigger] list[i]).score.wf()
}

/// No entry ranks before the entry in front of it.
pub open spec fn in_rank_order(list: Seq<RankedView>) -> bool {
    forall|i: int| 0 <= i < list.len() - 1 ==> !ranks_before(#[trigger] list[i + 1], list[i])
}

/// Of two texts at most one stands before the other, and none before
/// itself.
pub proof fn lemma_text_before_one_way(a: Seq<char>, b: Seq<char>, i: int)
    requires
        0 <= i,
    ensures
        text_before_from(a, b, i) ==> !text_before_from(b, a, i),
        !text_before_from(a, a, i),
    decreases a.len() - i,
{
    if i < a.len() {
        lemma_text_before_one_way(a, a, i + 1);
        if i < b.len() && a[i] == b[i] {
            lemma_text_before_one_way(a, b, i + 1);
        }
    }
}

/// Of two entries at most one ranks before the other.
pub proof fn lemma_ranks_one_way(a: RankedView, b: RankedView)
    ensures
        ranks_before(a, b) ==> !ranks_before(b, a),
{
    lemma_text_before_one_way(a.title, b.title, 0);
    lemma_text_before_one_way(b.title, a.title, 0);
    lemma_text_before_one_way(a.title, a.title, 0);
}

/// The place at which an entry is put lies in the ranking, behind every
/// entry that it does not rank before and in front of one that it does.
pub proof fn lemma_insert_pos(list: Seq<RankedView>, c: RankedView, p: int)
    requires
        0 <= p <= list.len(),
    ensures
        p <= insert_pos(list, c, p) <= list.len(),
        forall|i: int| p <= i < insert_pos(list, c, p) ==> !ranks_before(c, #[trigger] list[i]),
        insert_pos(list, c, p) < list.len() ==> ranks_before(c, list[insert_pos(list, c, p)]),
    decreases list.len() - p,
{
    if p < list.len() && !ranks_before(c, list[p]) {
        lemma_insert_pos(list, c, p + 1);
    }
}

/// A ranking in order stays in order when an entry is put in.
pub proof fn lemma_insert_keeps_order(list: Seq<RankedView>, c: RankedView)
    requires
        in_rank_order(list),
    ensures
        in_rank_order(insert_by_rank(list, c)),
        insert_by_rank(list, c).len() == list.len() + 1,
{
    lemma_insert_pos(list, c, 0);
    let p = insert_pos(list, c, 0);
    let after = list.insert(p, c);
    assert forall|i: int| 0 <= i < after.len() - 1 implies !ranks_before(
        #[trigger] after[i + 1],
        after[i],
    ) by {
        if i + 1 < p {
            assert(after[i] == list[i]);
            assert(after[i + 1] == list[i + 1]);
        } else if i + 1 == p {
            assert(after[i] == list[i]);
            assert(after[i + 1] == c);
            assert(!ranks_before(c, list[i]));
        } else if i == p {
            assert(after[i] == c);
            assert(after[i + 1] == list[p]);
            lemma_ranks_one_way(c, list[p]);
        } else {
            assert(after[i] == list[i - 1]);
            assert(after[i + 1] == list[i]);
            assert(!ranks_before(list[(i - 1) + 1], list[i - 1]));
        }
    }
}

/// Tells whether `a` stands before `b` in the order of their characters.
pub fn text_is_before(a: &Vec<char>, b: &Vec<char>) -> (r: bool)
    ensures
        r == text_before(a@, b@),
{
    let mut i: usize = 0;
    while i < a.len() && i < b.len()
        invariant
            i <= a.len(),
            i <= b.len(),
            text_before(a@, b@) == text_before_from(a@, b@, i as int),
            forall|j: int| 0 <= j < i ==> a@[j] == b@[j],
        decreases a.len() - i,
    {
        if a[i] != b[i] {
            return (a[i] as u32) < (b[i] as u32);
        }
        i += 1;
    }
    i < b.len()
}

/// Tells whether two texts are the same.
fn text_is_same(a: &Vec<char>, b: &Vec<char>) -> (r: bool)
    ensures
        r == (a@ == b@),
{
    crate::text::chars_equal(a, b)
}

/// Tells whether `a` ranks before `b`.
pub fn is_ranked_before(a: &Ranked, b: &Ranked) -> (r: bool)
    requires
        a.score.wf(),
        b.score.wf(),
    ensures
        r == ranks_before(a@, b@),
{
    if a.score.is_above(&b.score) {
        return true;
    }
    if b.score.is_above(&a.score) {
        return false;
    }
    if text_is_before(&a.title, &b.title) {
        return true;
    }
    text_is_same(&a.title, &b.title) && a.id < b.id
}

/// Puts `c` into the ranking and tells where.
pub fn insert_ranked(list: &mut Vec<Ranked>, c: Ranked) -> (p: usize)
    requires
        scores_wf(ranked_views(old(list)@)),
        c.score.wf(),
    ensures
        p <= old(list).len(),
        final(list)@ == old(list)@.insert(p as int, c),
        ranked_views(final(list)@) == insert_by_rank(ranked_views(old(list)@), c@),
        scores_wf(ranked_views(final(list)@)),
{
    let ghost before = ranked_views(list@);
    let mut p: usize = 0;
    let mut found = false;
    while p < list.len() && !found
        invariant
            p <= list.len(),
            list@ == old(list)@,
            before == ranked_views(list@),
            scores_wf(before),
            c.score.wf(),
            insert_pos(before, c@, 0) == insert_pos(before, c@, p as int),
            found ==> p < list.len() && ranks_before(c@, before[p as int]),
        decreases list.len() - p + (if found { 0int } else { 1int }),
    {
        assert(before[p as int] == list[p as int]@);
        assert(before[p as int].score.wf());
        if is_ranked_before(&c, &list[p]) {
            found = true;
        } else {
            p += 1;
        }
    }
    let ghost shown = c@;
    list.insert(p, c);
    proof {
        assert(ranked_views(list@) =~= before.insert(p as int, shown));
        assert forall|i: int| 0 <= i < list.len() implies (#[trigger] ranked_views(list@)[i]).score.wf() by {
            if i < p {
                assert(ranked_views(list@)[i] == before[i]);
            } else if i > p {
                assert(ranked_views(list@)[i] == before[i - 1]);
            }
        }
    }
    p
}

} // verus!
