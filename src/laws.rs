//! Properties of the index that hold across operations, stated over the
//! contracts of `add`, `delete` and `search`.

use vstd::prelude::*;
use crate::cosine::{cosine, dot_prefix, norm_sq};
use crate::store::{IndexError, SearchResult, WasmVectorStore};

verus! {

/// Every identifier with a vector has metadata, and the other way round: the
/// two mappings of a well-formed index (the only kind that `new`, `add` and
/// `delete` produce) have the same identifiers.
pub proof fn lemma_mappings_in_lockstep<M>(s: WasmVectorStore<M>)
    requires
        s.wf(),
    ensures
        s.vector_map().dom() == s.metadata_map().dom(),
{
    assert(s.vector_map().dom() =~= s@.dom());
    assert(s.metadata_map().dom() =~= s@.dom());
}

/// Once a vector of length `D` has been inserted into an empty index, an
/// insertion of a vector of another length fails with `DimensionMismatch`
/// and leaves the index unchanged, and so does a query of another length.
pub proof fn lemma_dimension_lock<M>(
    s0: WasmVectorStore<M>,
    id: Seq<char>,
    v: Seq<i8>,
    m: M,
    r1: Result<(), IndexError>,
    s1: WasmVectorStore<M>,
    id2: Seq<char>,
    w: Seq<i8>,
    m2: M,
    r2: Result<(), IndexError>,
    s2: WasmVectorStore<M>,
    q: Seq<i8>,
    k: usize,
    r3: Result<Vec<SearchResult>, IndexError>,
)
    requires
        s0@.len() == 0,
        s0.dim() is None,
        WasmVectorStore::add_post(s0, id, v, m, r1, s1),
        w.len() != v.len(),
        WasmVectorStore::add_post(s1, id2, w, m2, r2, s2),
        q.len() != v.len(),
        WasmVectorStore::search_post(s1, q, k, r3),
    ensures
        r1 is Ok,
        r2 matches Err(IndexError::DimensionMismatch { expected, found }) && expected == v.len()
            && found == w.len(),
        s2@ == s1@,
        s2.dim() == s1.dim(),
        r3 matches Err(IndexError::DimensionMismatch { expected, found }) && expected == v.len()
            && found == q.len(),
{
}

/// The locked dimension never changes: neither a successful insertion nor a
/// deletion alters it.
pub proof fn lemma_dimension_stays<M>(
    s: WasmVectorStore<M>,
    id: Seq<char>,
    v: Seq<i8>,
    m: M,
    r1: Result<(), IndexError>,
    s1: WasmVectorStore<M>,
    id2: Seq<char>,
    r2: bool,
    s2: WasmVectorStore<M>,
)
    requires
        s.dim() is Some,
        WasmVectorStore::add_post(s, id, v, m, r1, s1),
        WasmVectorStore::delete_post(s, id2, r2, s2),
    ensures
        s1.dim() == s.dim(),
        s2.dim() == s.dim(),
{
}

/// Deleting an identifier that is not present returns false and leaves the
/// index as it was.
pub proof fn lemma_delete_absent<M>(s: WasmVectorStore<M>, id: Seq<char>, r: bool, s1: WasmVectorStore<M>)
    requires
        !s@.contains_key(id),
        WasmVectorStore::delete_post(s, id, r, s1),
    ensures
        !r,
        s1@ == s@,
        s1.dim() == s.dim(),
{
    assert(s@.remove(id) =~= s@);
}

/// Deleting a present identifier twice in a row returns true, then false.
pub proof fn lemma_delete_twice<M>(
    s0: WasmVectorStore<M>,
    id: Seq<char>,
    r1: bool,
    s1: WasmVectorStore<M>,
    r2: bool,
    s2: WasmVectorStore<M>,
)
    requires
        s0@.contains_key(id),
        WasmVectorStore::delete_post(s0, id, r1, s1),
        WasmVectorStore::delete_post(s1, id, r2, s2),
    ensures
        r1,
        !r2,
        s2@ == s1@,
{
    assert(s1@.remove(id) =~= s1@);
}

/// Inserting one identifier twice keeps only the second vector and metadata.
pub proof fn lemma_replace<M>(
    s0: WasmVectorStore<M>,
    id: Seq<char>,
    v1: Seq<i8>,
    m1: M,
    r1: Result<(), IndexError>,
    s1: WasmVectorStore<M>,
    v2: Seq<i8>,
    m2: M,
    r2: Result<(), IndexError>,
    s2: WasmVectorStore<M>,
)
    requires
        WasmVectorStore::add_post(s0, id, v1, m1, r1, s1),
        WasmVectorStore::add_post(s1, id, v2, m2, r2, s2),
        r1 is Ok,
        r2 is Ok,
    ensures
        s2@.contains_key(id),
        s2@[id] == (v2, m2),
        s2@ == s0@.insert(id, (v2, m2)),
{
    assert(s0@.insert(id, (v1, m1)).insert(id, (v2, m2)) =~= s0@.insert(id, (v2, m2)));
}

/// A search of an empty index returns an empty sequence, whatever `k`, as
/// long as the query does not contradict a dimension locked earlier.
pub proof fn lemma_search_empty<M>(
    s: WasmVectorStore<M>,
    q: Seq<i8>,
    k: usize,
    r: Result<Vec<SearchResult>, IndexError>,
)
    requires
        s@.len() == 0,
        s.dim() matches Some(d) ==> d == q.len(),
        WasmVectorStore::search_post(s, q, k, r),
    ensures
        r matches Ok(v) && v@.len() == 0,
{
}

/// Asking for more results than there are entries returns every entry.
pub proof fn lemma_search_all<M>(
    s: WasmVectorStore<M>,
    q: Seq<i8>,
    k: usize,
    r: Result<Vec<SearchResult>, IndexError>,
)
    requires
        k >= s@.len(),
        r is Ok,
        WasmVectorStore::search_post(s, q, k, r),
    ensures
        r.unwrap()@.len() == s@.len(),
{
}

/// A query of all zeros scores exactly zero, `(0, 1)`, against any vector.
pub proof fn lemma_zero_query(q: Seq<i8>, v: Seq<i8>)
    requires
        forall|i: int| 0 <= i < q.len() ==> q[i] == 0,
    ensures
        cosine(q, v) == (0int, 1int),
{
    lemma_zero_prefix(q, q.len() as int);
    assert(norm_sq(q) * norm_sq(v) == 0);
}

proof fn lemma_zero_prefix(q: Seq<i8>, n: int)
    requires
        0 <= n <= q.len(),
        forall|i: int| 0 <= i < q.len() ==> q[i] == 0,
    ensures
        dot_prefix(q, q, n) == 0,
    decreases n,
{
    if n > 0 {
        lemma_zero_prefix(q, n - 1);
    }
}

} // verus!
