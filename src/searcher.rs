use vstd::prelude::*;
use crate::distance::Distance;
use crate::errors::ServiceError;

verus! {

/// How many neighbours a search asks the index for.
pub const TOP_K: usize = 10;

/// Capacity that a grown index is given at the least.
pub const MIN_RESERVE: usize = 100;

/// One neighbour reported by the index: a key and its distance to the query.
#[derive(Clone, Copy, Debug, PartialEq, Eq, Structural)]
pub struct SearchResult {
    pub key: u64,
    pub distance: Distance,
}

/// The searcher worker's replies.
pub enum SearchResponse {
    SearchResult { results: Vec<SearchResult> },
    IndexResult,
}

/// The index's answer, key `i` paired with distance `i`, as far as both go.
pub open spec fn paired(keys: Seq<u64>, bits: Seq<u32>) -> Seq<SearchResult> {
    Seq::new(
        if keys.len() <= bits.len() { keys.len() } else { bits.len() },
        |i: int| SearchResult { key: keys[i], distance: Distance { bits: bits[i] } },
    )
}

/// Pairs the keys that the index returned with their distances (as raw bits).
pub fn pair_hits(keys: &Vec<u64>, distance_bits: &Vec<u32>) -> (r: Vec<SearchResult>)
    ensures
        r@ == paired(keys@, distance_bits@),
{
    let n: usize = if keys.len() <= distance_bits.len() {
        keys.len()
    } else {
        distance_bits.len()
    };
    let mut out: Vec<SearchResult> = Vec::new();
    let mut i: usize = 0;
    while i < n
        invariant
            i <= n,
            n <= keys.len(),
            n <= distance_bits.len(),
            n == paired(keys@, distance_bits@).len(),
            out@ == paired(keys@, distance_bits@).take(i as int),
        decreases n - i,
    {
        out.push(SearchResult { key: keys[i], distance: Distance::from_bits(distance_bits[i]) });
        i = i + 1;
        assert(out@ =~= paired(keys@, distance_bits@).take(i as int));
    }
    assert(out@ =~= paired(keys@, distance_bits@));
    out
}

/// The capacity to reserve before an add: none while there is room, else
/// `max(100, 2 * capacity)`.
pub open spec fn growth(capacity: nat, size: nat) -> Option<nat> {
    if capacity <= size {
        Some(if 2 * capacity < MIN_RESERVE { MIN_RESERVE as nat } else { 2 * capacity })
    } else {
        None
    }
}

/// Decides whether the index must grow before it takes one more entry, and to
/// what capacity.
pub fn reserve_target(capacity: usize, size: usize) -> (r: Option<usize>)
    requires
        capacity <= usize::MAX / 2,
    ensures
        r matches Some(c) ==> growth(capacity as nat, size as nat) == Some(c as nat),
        r is None ==> growth(capacity as nat, size as nat) is None,
{
    if capacity <= size {
        let doubled: usize = 2 * capacity;
        if doubled < MIN_RESERVE {
            Some(MIN_RESERVE)
        } else {
            Some(doubled)
        }
    } else {
        None
    }
}

/// Whatever the sizes, a grown index has room for the next entry.
pub proof fn lemma_growth_makes_room(capacity: nat, size: nat)
    requires
        size <= capacity,
    ensures
        growth(capacity, size) matches Some(c) ==> c > size,
        growth(capacity, size) is None ==> capacity > size,
{
}

/// What the searcher does with an `Index` message: reserve first if `reserve`
/// holds a capacity, then add and save.
#[derive(Clone, Copy, Debug, PartialEq, Eq, Structural)]
pub struct IndexPlan {
    pub reserve: Option<usize>,
}

/// Checks a vector against the index's dimensionality and decides on growth.
pub fn plan_index(capacity: usize, size: usize, vector_len: usize, dimensions: usize) -> (r: Result<
    IndexPlan,
    ServiceError,
>)
    requires
        capacity <= usize::MAX / 2,
    ensures
        vector_len != dimensions <==> r == Err::<IndexPlan, ServiceError>(
            ServiceError::DimensionMismatch,
        ),
        r matches Ok(p) ==> (match p.reserve {
            Some(c) => growth(capacity as nat, size as nat) == Some(c as nat),
            None => growth(capacity as nat, size as nat) is None,
        }),
        vector_len == dimensions ==> r is Ok,
{
    if vector_len != dimensions {
        return Err(ServiceError::DimensionMismatch);
    }
    Ok(IndexPlan { reserve: reserve_target(capacity, size) })
}

} // verus!
