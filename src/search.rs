use vstd::prelude::*;
use crate::distance::Distance;
use crate::ingest::clone_url;
use crate::searcher::SearchResult as Hit;

verus! {

broadcast use vstd::seq_lib::group_to_multiset_ensures;

/// A row of the content store.
#[derive(Clone, Debug)]
pub struct ContentItem {
    pub id: u64,
    pub title: String,
    pub text: String,
    pub source_name: String,
    pub source_url: Option<String>,
    pub created_at: String,
}

/// One entry of a search answer: a row joined with its distance to the query.
#[derive(Clone, Debug)]
pub struct SearchResult {
    pub key: u64,
    pub title: String,
    pub text: String,
    pub url: Option<String>,
    pub distance: Distance,
}

/// The distance that the hits give for `id`; where a key occurs twice, the
/// later occurrence counts.
pub open spec fn distance_for(hits: Seq<Hit>, id: u64) -> Option<Distance>
    decreases hits.len(),
{
    if hits.len() == 0 {
        None
    } else if hits.last().key == id {
        Some(hits.last().distance)
    } else {
        distance_for(hits.drop_last(), id)
    }
}

pub open spec fn enrich(row: ContentItem, d: Distance) -> SearchResult {
    SearchResult {
        key: row.id,
        title: row.title,
        text: row.text,
        url: row.source_url,
        distance: d,
    }
}

/// The rows that have a hit, in row order, each with its distance. Rows
/// without a hit, and hits without a row, are left out.
pub open spec fn joined(hits: Seq<Hit>, rows: Seq<ContentItem>) -> Seq<SearchResult>
    decreases rows.len(),
{
    if rows.len() == 0 {
        Seq::empty()
    } else {
        let prev = joined(hits, rows.drop_last());
        match distance_for(hits, rows.last().id) {
            Some(d) => prev.push(enrich(rows.last(), d)),
            None => prev,
        }
    }
}

/// `a` may stand before `b`: a smaller distance, or an equal one and a key
/// no larger.
pub open spec fn ranks_before(a: SearchResult, b: SearchResult) -> bool {
    a.distance.key() < b.distance.key() || (a.distance.key() == b.distance.key() && a.key
        <= b.key)
}

pub open spec fn ranked(s: Seq<SearchResult>) -> bool {
    forall|i: int, j: int| 0 <= i < j < s.len() ==> ranks_before(#[trigger] s[i], #[trigger] s[j])
}

/// No two entries share a key unless they are the same entry.
pub open spec fn keys_distinct(s: Seq<SearchResult>) -> bool {
    forall|i: int, j: int|
        0 <= i < s.len() && 0 <= j < s.len() && #[trigger] s[i].key == #[trigger] s[j].key
            ==> s[i] == s[j]
}

pub open spec fn ids_distinct(rows: Seq<ContentItem>) -> bool {
    forall|i: int, j: int|
        0 <= i < rows.len() && 0 <= j < rows.len() && i != j ==> #[trigger] rows[i].id
            != #[trigger] rows[j].id
}

/// What a search answers: the joined rows, ranked.
pub open spec fn is_answer(hits: Seq<Hit>, rows: Seq<ContentItem>, r: Seq<SearchResult>) -> bool {
    &&& r.to_multiset() == joined(hits, rows).to_multiset()
    &&& ranked(r)
}

/// The keys to fetch from the content store for a list of hits.
pub fn hit_keys(hits: &Vec<Hit>) -> (r: Vec<u64>)
    ensures
        r@ == hits@.map_values(|h: Hit| h.key),
{
    let mut out: Vec<u64> = Vec::new();
    let mut i: usize = 0;
    while i < hits.len()
        invariant
            i <= hits.len(),
            out@ == hits@.take(i as int).map_values(|h: Hit| h.key),
        decreases hits.len() - i,
    {
        out.push(hits[i].key);
        i = i + 1;
        assert(out@ =~= hits@.take(i as int).map_values(|h: Hit| h.key));
    }
    assert(hits@.take(i as int) =~= hits@);
    out
}

pub open spec fn has_row(rows: Seq<ContentItem>, id: u64) -> bool {
    exists|i: int| 0 <= i < rows.len() && #[trigger] rows[i].id == id
}

/// The keys of the hits that no row matches, in hit order.
pub open spec fn unmatched(hits: Seq<Hit>, rows: Seq<ContentItem>) -> Seq<u64>
    decreases hits.len(),
{
    if hits.len() == 0 {
        Seq::empty()
    } else {
        let prev = unmatched(hits.drop_last(), rows);
        if has_row(rows, hits.last().key) {
            prev
        } else {
            prev.push(hits.last().key)
        }
    }
}

fn row_exists(rows: &Vec<ContentItem>, id: u64) -> (r: bool)
    ensures
        r == has_row(rows@, id),
{
    let mut i: usize = 0;
    while i < rows.len()
        invariant
            i <= rows.len(),
            forall|j: int| 0 <= j < i ==> rows@[j].id != id,
        decreases rows.len() - i,
    {
        if rows[i].id == id {
            return true;
        }
        i = i + 1;
    }
    false
}

/// The hits whose key the content store has no row for: an inconsistency
/// between the two stores, which a search reports and then skips.
pub fn unmatched_hits(hits: &Vec<Hit>, rows: &Vec<ContentItem>) -> (r: Vec<u64>)
    ensures
        r@ == unmatched(hits@, rows@),
{
    let mut out: Vec<u64> = Vec::new();
    let mut i: usize = 0;
    assert(hits@.take(0) =~= Seq::<Hit>::empty());
    while i < hits.len()
        invariant
            i <= hits.len(),
            out@ == unmatched(hits@.take(i as int), rows@),
        decreases hits.len() - i,
    {
        assert(hits@.take(i + 1).drop_last() =~= hits@.take(i as int));
        assert(hits@.take(i + 1).last() == hits@[i as int]);
        if !row_exists(rows, hits[i].key) {
            out.push(hits[i].key);
        }
        i = i + 1;
    }
    assert(hits@.take(i as int) =~= hits@);
    out
}

/// Looks up the distance of `id` among the hits.
pub fn distance_of(hits: &Vec<Hit>, id: u64) -> (r: Option<Distance>)
    ensures
        r == distance_for(hits@, id),
{
    let mut i: usize = hits.len();
    assert(hits@.take(i as int) =~= hits@);
    while i > 0
        invariant
            i <= hits.len(),
            distance_for(hits@, id) == distance_for(hits@.take(i as int), id),
        decreases i,
    {
        assert(hits@.take(i as int).drop_last() =~= hits@.take(i - 1));
        if hits[i - 1].key == id {
            return Some(hits[i - 1].distance);
        }
        i = i - 1;
    }
    None
}

fn precedes(a: &SearchResult, b: &SearchResult) -> (r: bool)
    ensures
        r == ranks_before(*a, *b),
{
    let ka = a.distance.sort_key();
    let kb = b.distance.sort_key();
    ka < kb || (ka == kb && a.key <= b.key)
}

proof fn lemma_insert_multiset<A>(s: Seq<A>, p: int, e: A)
    requires
        0 <= p <= s.len(),
    ensures
        s.insert(p, e).to_multiset() == s.to_multiset().insert(e),
{
    let a = s.take(p);
    let b = s.skip(p);
    assert(s =~= a + b);
    assert(s.insert(p, e) =~= a.push(e) + b);
    vstd::seq_lib::lemma_multiset_commutative(a, b);
    vstd::seq_lib::lemma_multiset_commutative(a.push(e), b);
    assert(s.insert(p, e).to_multiset() =~= s.to_multiset().insert(e));
}

/// Puts `e` into a ranked list after every entry that may stand before it.
fn insert_ranked(out: &mut Vec<SearchResult>, e: SearchResult)
    requires
        ranked(old(out)@),
    ensures
        ranked(final(out)@),
        final(out)@.to_multiset() == old(out)@.to_multiset().insert(e),
{
    let mut p: usize = 0;
    while p < out.len() && precedes(&out[p], &e)
        invariant
            p <= out.len(),
            forall|j: int| 0 <= j < p ==> ranks_before(#[trigger] out@[j], e),
        decreases out.len() - p,
    {
        p = p + 1;
    }
    let ghost before = out@;
    proof {
        lemma_insert_multiset(before, p as int, e);
        before.insert_ensures(p as int, e);
    }
    out.insert(p, e);
    assert(out@ == before.insert(p as int, e));
    assert forall|i: int, j: int| 0 <= i < j < out@.len() implies ranks_before(
        #[trigger] out@[i],
        #[trigger] out@[j],
    ) by {
        if j < p {
        } else if j == p {
        } else if i < p {
            assert(out@[j] == before[j - 1]);
            assert(ranks_before(before[i], e));
            assert(!ranks_before(before[p as int], e));
            assert(ranks_before(before[p as int], before[j - 1]) || p as int == j - 1);
        } else if i == p {
            assert(out@[j] == before[j - 1]);
            assert(!ranks_before(before[p as int], e));
            assert(ranks_before(before[p as int], before[j - 1]) || p as int == j - 1);
        } else {
            assert(out@[i] == before[i - 1]);
            assert(out@[j] == before[j - 1]);
        }
    }
}

/// Joins the rows fetched for a search with the hits' distances and ranks
/// them: nearest first, ties by ascending key. A row with no hit is left out,
/// and so is a hit whose row the store no longer has.
pub fn merge_hits(hits: &Vec<Hit>, rows: &Vec<ContentItem>) -> (r: Vec<SearchResult>)
    ensures
        is_answer(hits@, rows@, r@),
        forall|i: int, j: int|
            0 <= i < j < r@.len() ==> (#[trigger] r@[i]).distance.key() <= (#[trigger] r@[
                j
            ]).distance.key(),
{
    let mut out: Vec<SearchResult> = Vec::new();
    let mut i: usize = 0;
    assert(rows@.take(0) =~= Seq::<ContentItem>::empty());
    while i < rows.len()
        invariant
            i <= rows.len(),
            ranked(out@),
            out@.to_multiset() == joined(hits@, rows@.take(i as int)).to_multiset(),
        decreases rows.len() - i,
    {
        let row = &rows[i];
        assert(rows@.take(i + 1).drop_last() =~= rows@.take(i as int));
        assert(rows@.take(i + 1).last() == rows@[i as int]);
        match distance_of(hits, row.id) {
            Some(d) => {
                let e = SearchResult {
                    key: row.id,
                    title: row.title.clone(),
                    text: row.text.clone(),
                    url: clone_url(&row.source_url),
                    distance: d,
                };
                assert(e == enrich(rows@[i as int], d));
                insert_ranked(&mut out, e);
            },
            None => {},
        }
        i = i + 1;
    }
    assert(rows@.take(i as int) =~= rows@);
    assert forall|i: int, j: int| 0 <= i < j < out@.len() implies (#[trigger] out@[i]).distance.key()
        <= (#[trigger] out@[j]).distance.key() by {
        assert(ranks_before(out@[i], out@[j]));
    }
    out
}

proof fn lemma_joined_entry(hits: Seq<Hit>, rows: Seq<ContentItem>, k: int)
    requires
        0 <= k < joined(hits, rows).len(),
    ensures
        exists|m: int|
            0 <= m < rows.len() && #[trigger] rows[m].id == joined(hits, rows)[k].key
                && distance_for(hits, rows[m].id) == Some(joined(hits, rows)[k].distance)
                && joined(hits, rows)[k] == enrich(rows[m], joined(hits, rows)[k].distance),
    decreases rows.len(),
{
    let prev = joined(hits, rows.drop_last());
    let n = rows.len() - 1;
    if k < prev.len() {
        lemma_joined_entry(hits, rows.drop_last(), k);
        let m = choose|m: int|
            0 <= m < rows.drop_last().len() && #[trigger] rows.drop_last()[m].id == prev[k].key
                && distance_for(hits, rows.drop_last()[m].id) == Some(prev[k].distance) && prev[k]
                == enrich(rows.drop_last()[m], prev[k].distance);
        assert(rows[m] == rows.drop_last()[m]);
    } else {
        assert(rows[n] == rows.last());
    }
}

proof fn lemma_joined_keys_distinct(hits: Seq<Hit>, rows: Seq<ContentItem>)
    requires
        ids_distinct(rows),
    ensures
        keys_distinct(joined(hits, rows)),
{
    let s = joined(hits, rows);
    assert forall|i: int, j: int|
        0 <= i < s.len() && 0 <= j < s.len() && #[trigger] s[i].key == #[trigger] s[j].key
            implies s[i] == s[j] by {
        lemma_joined_entry(hits, rows, i);
        lemma_joined_entry(hits, rows, j);
        let mi = choose|m: int|
            0 <= m < rows.len() && #[trigger] rows[m].id == s[i].key && distance_for(
                hits,
                rows[m].id,
            ) == Some(s[i].distance) && s[i] == enrich(rows[m], s[i].distance);
        let mj = choose|m: int|
            0 <= m < rows.len() && #[trigger] rows[m].id == s[j].key && distance_for(
                hits,
                rows[m].id,
            ) == Some(s[j].distance) && s[j] == enrich(rows[m], s[j].distance);
        assert(mi == mj);
    }
}

/// Two ranked lists of the same entries, whose keys tell entries apart,
/// are the same list.
proof fn lemma_ranked_unique(a: Seq<SearchResult>, b: Seq<SearchResult>)
    requires
        ranked(a),
        ranked(b),
        a.to_multiset() == b.to_multiset(),
        keys_distinct(a),
    ensures
        a == b,
    decreases a.len(),
{
    assert(a.len() == a.to_multiset().len());
    assert(b.len() == b.to_multiset().len());
    if a.len() == 0 {
        assert(a =~= b);
    } else {
        assert(a.contains(a[0]));
        assert(b.to_multiset().count(a[0]) > 0);
        assert(b.contains(a[0]));
        let j = choose|j: int| 0 <= j < b.len() && b[j] == a[0];
        assert(ranks_before(b[0], a[0])) by {
            if j > 0 {
                assert(ranks_before(b[0], b[j]));
            }
        }
        assert(b.contains(b[0]));
        assert(a.to_multiset().count(b[0]) > 0);
        assert(a.contains(b[0]));
        let k = choose|k: int| 0 <= k < a.len() && a[k] == b[0];
        assert(ranks_before(a[0], b[0])) by {
            if k > 0 {
                assert(ranks_before(a[0], a[k]));
            }
        }
        assert(a[0].key == a[k].key);
        assert(a[0] == b[0]);
        assert(a.remove(0) =~= a.drop_first());
        assert(b.remove(0) =~= b.drop_first());
        assert(a.remove(0).to_multiset() == a.to_multiset().remove(a[0]));
        assert(b.remove(0).to_multiset() == b.to_multiset().remove(b[0]));
        assert(ranked(a.drop_first())) by {
            assert forall|i: int, j: int| 0 <= i < j < a.drop_first().len() implies ranks_before(
                #[trigger] a.drop_first()[i],
                #[trigger] a.drop_first()[j],
            ) by {
                assert(ranks_before(a[i + 1], a[j + 1]));
            }
        }
        assert(ranked(b.drop_first())) by {
            assert forall|i: int, j: int| 0 <= i < j < b.drop_first().len() implies ranks_before(
                #[trigger] b.drop_first()[i],
                #[trigger] b.drop_first()[j],
            ) by {
                assert(ranks_before(b[i + 1], b[j + 1]));
            }
        }
        assert(keys_distinct(a.drop_first())) by {
            assert forall|i: int, j: int|
                0 <= i < a.drop_first().len() && 0 <= j < a.drop_first().len()
                    && #[trigger] a.drop_first()[i].key == #[trigger] a.drop_first()[j].key
                    implies a.drop_first()[i] == a.drop_first()[j] by {
                assert(a[i + 1].key == a[j + 1].key);
            }
        }
        lemma_ranked_unique(a.drop_first(), b.drop_first());
        assert forall|i: int| 0 <= i < a.len() implies a[i] == b[i] by {
            if i > 0 {
                assert(a[i] == a.drop_first()[i - 1]);
                assert(b[i] == b.drop_first()[i - 1]);
            }
        }
        assert(a =~= b);
    }
}

/// A search answer is a function of the hits and the rows: two searches over
/// the same committed state (the same hits, and rows whose ids are distinct,
/// as the store's are) answer with the same list, in the same order.
pub proof fn lemma_answer_unique(
    hits: Seq<Hit>,
    rows: Seq<ContentItem>,
    a: Seq<SearchResult>,
    b: Seq<SearchResult>,
)
    requires
        ids_distinct(rows),
        is_answer(hits, rows, a),
        is_answer(hits, rows, b),
    ensures
        a == b,
{
    let s = joined(hits, rows);
    lemma_joined_keys_distinct(hits, rows);
    assert forall|i: int, j: int|
        0 <= i < a.len() && 0 <= j < a.len() && #[trigger] a[i].key == #[trigger] a[j].key
            implies a[i] == a[j] by {
        assert(a.contains(a[i]));
        assert(a.contains(a[j]));
        assert(s.to_multiset().count(a[i]) > 0);
        assert(s.to_multiset().count(a[j]) > 0);
        assert(s.contains(a[i]));
        assert(s.contains(a[j]));
        let x = choose|x: int| 0 <= x < s.len() && s[x] == a[i];
        let y = choose|y: int| 0 <= y < s.len() && s[y] == a[j];
        assert(s[x].key == s[y].key);
    }
    lemma_ranked_unique(a, b);
}

} // verus!
