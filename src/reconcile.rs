use vstd::prelude::*;

verus! {

broadcast use vstd::seq_lib::group_filter_ensures;

/// The ids of `ids` that `other` lacks, in the order of `ids`.
pub open spec fn absent_from(ids: Seq<u64>, other: Seq<u64>) -> Seq<u64> {
    ids.filter(|id: u64| !other.contains(id))
}

fn holds(ids: &Vec<u64>, id: u64) -> (r: bool)
    ensures
        r == ids@.contains(id),
{
    let mut i: usize = 0;
    while i < ids.len()
        invariant
            i <= ids.len(),
            forall|j: int| 0 <= j < i ==> ids@[j] != id,
        decreases ids.len() - i,
    {
        if ids[i] == id {
            return true;
        }
        i = i + 1;
    }
    false
}

fn difference(ids: &Vec<u64>, other: &Vec<u64>) -> (r: Vec<u64>)
    ensures
        r@ == absent_from(ids@, other@),
{
    let mut out: Vec<u64> = Vec::new();
    let mut i: usize = 0;
    assert(ids@.take(0) =~= Seq::<u64>::empty());
    while i < ids.len()
        invariant
            i <= ids.len(),
            out@ == absent_from(ids@.take(i as int), other@),
        decreases ids.len() - i,
    {
        let id = ids[i];
        proof {
            assert(ids@.take(i + 1) =~= ids@.take(i as int).push(id));
            ids@.take(i as int).lemma_filter_push(id, |x: u64| !other@.contains(x));
        }
        if !holds(other, id) {
            out.push(id);
        }
        i = i + 1;
    }
    assert(ids@.take(i as int) =~= ids@);
    out
}

/// The rows of the content store that have no entry in the vector index:
/// these are re-embedded and added at startup.
pub fn missing_from_index(store_ids: &Vec<u64>, index_ids: &Vec<u64>) -> (r: Vec<u64>)
    ensures
        r@ == absent_from(store_ids@, index_ids@),
{
    difference(store_ids, index_ids)
}

/// The index entries with no row in the content store: no search can return
/// them, so they are only reported.
pub fn orphaned_in_index(index_ids: &Vec<u64>, store_ids: &Vec<u64>) -> (r: Vec<u64>)
    ensures
        r@ == absent_from(index_ids@, store_ids@),
{
    difference(index_ids, store_ids)
}

/// Reconciliation restores key equality: once the ids missing from the index
/// are added to it, every id of the store has an index entry, and no id that
/// the index already held is added a second time.
pub proof fn lemma_reconciliation_covers_store(store_ids: Seq<u64>, index_ids: Seq<u64>)
    ensures
        forall|id: u64| #[trigger]
            store_ids.contains(id) ==> (index_ids + absent_from(store_ids, index_ids)).contains(
                id,
            ),
        forall|id: u64| #[trigger]
            absent_from(store_ids, index_ids).contains(id) ==> !index_ids.contains(id),
{
    let pred = |x: u64| !index_ids.contains(x);
    let added = absent_from(store_ids, index_ids);
    assert forall|id: u64| #[trigger] store_ids.contains(id) implies (index_ids + added).contains(
        id,
    ) by {
        if index_ids.contains(id) {
            let k = choose|k: int| 0 <= k < index_ids.len() && index_ids[k] == id;
            assert((index_ids + added)[k] == id);
        } else {
            let k = choose|k: int| 0 <= k < store_ids.len() && store_ids[k] == id;
            store_ids.lemma_filter_contains_rev(pred, id);
            let m = choose|m: int| 0 <= m < added.len() && added[m] == id;
            assert((index_ids + added)[index_ids.len() + m] == id);
        }
    }
    assert forall|id: u64| #[trigger] added.contains(id) implies !index_ids.contains(id) by {
        let m = choose|m: int| 0 <= m < added.len() && added[m] == id;
        assert(pred(added[m]));
    }
}

} // verus!
