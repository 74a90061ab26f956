//! The similarity index: entries keyed by identifier, each holding an
//! integer embedding and caller-defined metadata, searched by exact cosine
//! similarity.

use vstd::prelude::*;
use crate::cosine::{Score, cosine, cosine_similarity, MAX_DIMENSION};
use crate::order::str_eq;
use vstd::set_lib::{set_int_range, lemma_int_range, lemma_map_size};
use crate::ranking::{ranks_before, ranked_ahead, lemma_ranks_transitive, lemma_ranks_total};

verus! {

/// Why an operation on the index was refused.
#[derive(Clone, Copy, Debug, PartialEq, Eq, Structural)]
pub enum IndexError {
    /// A vector's length differs from the dimension the index is locked to.
    DimensionMismatch { expected: usize, found: usize },
}

/// One stored entry.
pub struct Entry<M> {
    pub id: String,
    pub vector: Vec<i8>,
    pub metadata: M,
}

/// One ranked search result: an identifier and its cosine with the query.
#[derive(Debug)]
pub struct SearchResult {
    pub id: String,
    pub score: Score,
}

/// An exact (brute-force) cosine-similarity index.
///
/// Its model is a map from identifier to `(vector, metadata)`, together with
/// the dimension that the first insertion fixed, if any.
pub struct WasmVectorStore<M> {
    entries: Vec<Entry<M>>,
    dimension: Option<usize>,
    model: Ghost<Map<Seq<char>, (Seq<i8>, M)>>,
}

/// Candidate `j` is either still waiting in `cands` or already in `picked`.
spec fn accounted_for(cands: Seq<(usize, Score)>, picked: Seq<int>, j: int) -> bool {
    (exists|c: int| 0 <= c < cands.len() && cands[c].0 == j) || (exists|i: int|
        0 <= i < picked.len() && picked[i] == j)
}

impl<M> View for WasmVectorStore<M> {
    type V = Map<Seq<char>, (Seq<i8>, M)>;

    closed spec fn view(&self) -> Map<Seq<char>, (Seq<i8>, M)> {
        self.model@
    }
}

impl<M> WasmVectorStore<M> {
    /// The dimension every stored and queried vector must have, once fixed.
    pub closed spec fn dim(&self) -> Option<usize> {
        self.dimension
    }

    /// The mapping from identifier to vector.
    pub open spec fn vector_map(&self) -> Map<Seq<char>, Seq<i8>> {
        self@.map_values(|e: (Seq<i8>, M)| e.0)
    }

    /// The mapping from identifier to metadata.
    pub open spec fn metadata_map(&self) -> Map<Seq<char>, M> {
        self@.map_values(|e: (Seq<i8>, M)| e.1)
    }

    /// The index is well formed: one entry per identifier, every entry
    /// reflected in the model and the other way round, and all vectors of
    /// the locked dimension.
    pub closed spec fn wf(&self) -> bool {
        &&& forall|i: int|
            0 <= i < self.entries@.len() ==> #[trigger] self.model@.contains_key(self.entries@[i].id@)
                && self.model@[self.entries@[i].id@] == (
                self.entries@[i].vector@,
                self.entries@[i].metadata,
            )
        &&& forall|k: Seq<char>|
            #[trigger] self.model@.contains_key(k) ==> exists|i: int|
                0 <= i < self.entries@.len() && self.entries@[i].id@ == k
        &&& forall|i: int, j: int|
            0 <= i < self.entries@.len() && 0 <= j < self.entries@.len() && i != j
                ==> self.entries@[i].id@ != self.entries@[j].id@
        &&& match self.dimension {
            Some(d) => d <= MAX_DIMENSION && forall|i: int|
                0 <= i < self.entries@.len() ==> (#[trigger] self.entries@[i]).vector@.len() == d,
            None => self.entries@.len() == 0,
        }
    }

    /// An empty index with no dimension fixed yet.
    pub fn new() -> (r: Self)
        ensures
            r.wf(),
            r@ == Map::<Seq<char>, (Seq<i8>, M)>::empty(),
            r.dim() is None,
    {
        WasmVectorStore { entries: Vec::new(), dimension: None, model: Ghost(Map::empty()) }
    }

    /// An empty index whose dimension is configured up front.
    pub fn with_dimension(dimension: usize) -> (r: Self)
        requires
            dimension <= MAX_DIMENSION,
        ensures
            r.wf(),
            r@ == Map::<Seq<char>, (Seq<i8>, M)>::empty(),
            r.dim() == Some(dimension),
    {
        WasmVectorStore { entries: Vec::new(), dimension: Some(dimension), model: Ghost(Map::empty()) }
    }

    /// The number of entries.
    pub fn len(&self) -> (r: usize)
        requires
            self.wf(),
        ensures
            r == self@.len(),
    {
        proof {
            self.lemma_len();
        }
        self.entries.len()
    }

    proof fn lemma_len(&self)
        requires
            self.wf(),
        ensures
            self.entries@.len() == self@.len(),
    {
        let ids = set_int_range(0, self.entries@.len() as int);
        let f = |i: int| self.entries@[i].id@;
        assert(self@.dom() =~= ids.map(f)) by {
            assert forall|k: Seq<char>| self@.dom().contains(k) implies ids.map(f).contains(k) by {
                let i = choose|i: int| 0 <= i < self.entries@.len() && self.entries@[i].id@ == k;
                assert(ids.contains(i));
            }
            assert forall|k: Seq<char>| ids.map(f).contains(k) implies self@.dom().contains(k) by {
                let i = choose|i: int| ids.contains(i) && f(i) == k;
                assert(self.model@.contains_key(self.entries@[i].id@));
            }
        }
        lemma_int_range(0, self.entries@.len() as int);
        lemma_map_size(ids, self@.dom(), f);
    }

    /// The dimension the index is locked to, if any.
    pub fn dimension(&self) -> (r: Option<usize>)
        ensures
            r == self.dim(),
    {
        self.dimension
    }

    fn position(&self, id: &str) -> (r: Option<usize>)
        requires
            self.wf(),
        ensures
            r is Some ==> r.unwrap() < self.entries@.len() && self.entries@[r.unwrap() as int].id@
                == id@,
            r is None ==> !self@.contains_key(id@),
    {
        let mut i: usize = 0;
        while i < self.entries.len()
            invariant
                self.wf(),
                i <= self.entries@.len(),
                forall|j: int| 0 <= j < i ==> self.entries@[j].id@ != id@,
            decreases self.entries@.len() - i,
        {
            if str_eq(self.entries[i].id.as_str(), id) {
                return Some(i);
            }
            i = i + 1;
        }
        None
    }

    /// What `add` of `id`, `vector` and `metadata` on `pre` returns (`r`) and
    /// leaves (`post`): a vector whose length differs from the locked
    /// dimension is refused and changes nothing; otherwise the entry is
    /// stored, replacing any under the same identifier, and the dimension is
    /// that vector's length.
    pub open spec fn add_post(
        pre: Self,
        id: Seq<char>,
        vector: Seq<i8>,
        metadata: M,
        r: Result<(), IndexError>,
        post: Self,
    ) -> bool {
        match pre.dim() {
            Some(d) if d != vector.len() => {
                &&& r matches Err(IndexError::DimensionMismatch { expected, found }) && expected == d
                    && found == vector.len()
                &&& post@ == pre@
                &&& post.dim() == pre.dim()
            },
            _ => {
                &&& r is Ok
                &&& post@ == pre@.insert(id, (vector, metadata))
                &&& post.dim() matches Some(d) && d == vector.len()
            },
        }
    }

    /// What `delete` of `id` on `pre` returns and leaves: whether `id` was
    /// present, and the index without it; the dimension stays.
    pub open spec fn delete_post(pre: Self, id: Seq<char>, r: bool, post: Self) -> bool {
        &&& r == pre@.contains_key(id)
        &&& post@ == pre@.remove(id)
        &&& post.dim() == pre.dim()
    }

    /// What `search` for `q` with `k` on `s` returns: a refusal when `q`'s
    /// length differs from the locked dimension, else the ranked top `k`.
    pub open spec fn search_post(s: Self, q: Seq<i8>, k: usize, r: Result<Vec<SearchResult>, IndexError>) -> bool {
        match s.dim() {
            Some(d) if d != q.len() => r matches Err(IndexError::DimensionMismatch { expected, found })
                && expected == d && found == q.len(),
            _ => r is Ok && Self::is_top_k(s@, q, k as nat, r.unwrap()@),
        }
    }

    /// Looks up the vector and metadata stored under `id`.
    pub fn get(&self, id: &str) -> (r: Option<(&Vec<i8>, &M)>)
        requires
            self.wf(),
        ensures
            r is None <==> !self@.contains_key(id@),
            r is Some ==> self@[id@] == (r.unwrap().0@, *r.unwrap().1),
    {
        match self.position(id) {
            Some(i) => {
                let e = &self.entries[i];
                assert(self.model@.contains_key(self.entries@[i as int].id@));
                Some((&e.vector, &e.metadata))
            },
            None => None,
        }
    }

    /// Stores `vector` and `metadata` under `id`, replacing what was stored
    /// there. The first insertion fixes the dimension of the index; a vector
    /// of another length is refused and the index left as it was.
    pub fn add(&mut self, id: &str, vector: Vec<i8>, metadata: M) -> (r: Result<(), IndexError>)
        requires
            old(self).wf(),
            vector@.len() <= MAX_DIMENSION,
        ensures
            final(self).wf(),
            Self::add_post(*old(self), id@, vector@, metadata, r, *final(self)),
    {
        let n = vector.len();
        if let Some(d) = self.dimension {
            if d != n {
                return Err(IndexError::DimensionMismatch { expected: d, found: n });
            }
        }
        let ghost value = (vector@, metadata);
        let ghost old_entries = self.entries@;
        let entry = Entry { id: id.to_owned(), vector, metadata };
        match self.position(id) {
            Some(i) => {
                self.entries.set(i, entry);
                proof {
                    assert forall|j: int| 0 <= j < self.entries@.len() && j != i implies self.entries@[j]
                        == old_entries[j] by {}
                }
            },
            None => {
                self.entries.push(entry);
            },
        }
        self.dimension = Some(n);
        self.model = Ghost(self.model@.insert(id@, value));
        proof {
            assert forall|k: Seq<char>| #[trigger] self.model@.contains_key(k) implies exists|j: int|
                0 <= j < self.entries@.len() && self.entries@[j].id@ == k by {
                if k != id@ {
                    let j = choose|j: int| 0 <= j < old_entries.len() && old_entries[j].id@ == k;
                    assert(self.entries@[j].id@ == k);
                } else {
                    let j = if self.entries@.len() > old_entries.len() { old_entries.len() as int } else {
                        choose|j: int| 0 <= j < old_entries.len() && old_entries[j].id@ == id@ };
                    assert(self.entries@[j].id@ == k);
                }
            }
        }
        Ok(())
    }

    /// Removes the entry stored under `id`; tells whether there was one.
    /// The dimension of the index stays as it was.
    pub fn delete(&mut self, id: &str) -> (r: bool)
        requires
            old(self).wf(),
        ensures
            final(self).wf(),
            Self::delete_post(*old(self), id@, r, *final(self)),
    {
        match self.position(id) {
            Some(i) => {
                let ghost old_entries = self.entries@;
                self.entries.remove(i);
                self.model = Ghost(self.model@.remove(id@));
                proof {
                    assert forall|j: int| 0 <= j < self.entries@.len() implies #[trigger] self.entries@[j]
                        == old_entries[if j < i { j } else { j + 1 }] by {}
                    assert forall|k: Seq<char>| #[trigger] self.model@.contains_key(k) implies exists|j: int|
                        0 <= j < self.entries@.len() && self.entries@[j].id@ == k by {
                        let j = choose|j: int| 0 <= j < old_entries.len() && old_entries[j].id@ == k;
                        assert(j != i);
                        if j < i {
                            assert(self.entries@[j].id@ == k);
                        } else {
                            assert(self.entries@[j - 1].id@ == k);
                        }
                    }
                }
                true
            },
            None => {
                assert(self.model@.remove(id@) =~= self.model@);
                false
            },
        }
    }

    /// Whether `r` is the ranked answer to a search for `q` over the entries
    /// `m`, asking for `k` results: the `min(k, |m|)` entries with the highest
    /// cosine, highest first, ties broken by ascending identifier.
    pub open spec fn is_top_k(m: Map<Seq<char>, (Seq<i8>, M)>, q: Seq<i8>, k: nat, r: Seq<SearchResult>) -> bool {
        &&& r.len() == if k < m.len() { k } else { m.len() }
        &&& forall|i: int| #![trigger r[i]]
            0 <= i < r.len() ==> m.contains_key(r[i].id@) && r[i].score@ == cosine(q, m[r[i].id@].0)
        &&& forall|i: int, j: int|
            0 <= i < j < r.len() ==> ranks_before(r[i].id@, r[i].score@, r[j].id@, r[j].score@)
        &&& forall|key: Seq<char>, i: int|
            #![trigger m.contains_key(key), r[i]]
            m.contains_key(key) && 0 <= i < r.len() && !(exists|j: int| 0 <= j < r.len() && r[j].id@ == key)
                ==> ranks_before(r[i].id@, r[i].score@, key, cosine(q, m[key].0))
    }

    /// The `k` entries most similar to `query` by cosine, most similar first;
    /// among equal scores the smaller identifier comes first. Fewer than `k`
    /// come back when the index holds fewer. A query whose length differs
    /// from the locked dimension is refused.
    #[verifier::loop_isolation(false)]
    pub fn search(&self, query: &Vec<i8>, k: usize) -> (r: Result<Vec<SearchResult>, IndexError>)
        requires
            self.wf(),
        ensures
            Self::search_post(*self, query@, k, r),
    {
        if let Some(d) = self.dimension {
            if d != query.len() {
                return Err(IndexError::DimensionMismatch { expected: d, found: query.len() });
            }
        }
        proof {
            self.lemma_len();
        }
        let n = self.entries.len();
        let ghost q = query@;
        let ghost es = self.entries@;
        let mut cands: Vec<(usize, Score)> = Vec::new();
        let mut i: usize = 0;
        while i < n
            invariant
                self.wf(),
                n == es.len(),
                es == self.entries@,
                q == query@,
                i <= n,
                n > 0 ==> self.dimension == Some(query.len()),
                cands@.len() == i,
                forall|c: int| #![trigger cands@[c]]
                    0 <= c < i ==> cands@[c].0 == c && cands@[c].1.wf() && cands@[c].1@ == cosine(
                        q,
                        es[c].vector@,
                    ),
            decreases n - i,
        {
            let s = cosine_similarity(query, &self.entries[i].vector);
            cands.push((i, s));
            i = i + 1;
        }
        let limit = if k < n { k } else { n };
        let mut result: Vec<SearchResult> = Vec::new();
        let ghost mut picked: Seq<int> = Seq::empty();
        assert forall|j: int| 0 <= j < n implies #[trigger] accounted_for(cands@, picked, j) by {
            assert(cands@[j].0 == j);
        }
        while result.len() < limit
            invariant
                self.wf(),
                n == es.len(),
                es == self.entries@,
                q == query@,
                limit <= n,
                result@.len() <= limit,
                cands@.len() + result@.len() == n,
                picked.len() == result@.len(),
                forall|c: int| #![trigger cands@[c]]
                    0 <= c < cands@.len() ==> cands@[c].0 < n && cands@[c].1.wf() && cands@[c].1@
                        == cosine(q, es[cands@[c].0 as int].vector@),
                forall|c1: int, c2: int|
                    0 <= c1 < cands@.len() && 0 <= c2 < cands@.len() && c1 != c2 ==> cands@[c1].0
                        != cands@[c2].0,
                forall|i: int| 0 <= i < picked.len() ==> 0 <= #[trigger] picked[i] < n,
                forall|i: int| #![trigger result@[i]]
                    0 <= i < result@.len() ==> result@[i].id@ == es[picked[i]].id@
                        && result@[i].score.wf() && result@[i].score@ == cosine(q, es[picked[i]].vector@),
                forall|j: int| 0 <= j < n ==> #[trigger] accounted_for(cands@, picked, j),
                forall|i: int, j: int|
                    0 <= i < j < result@.len() ==> ranks_before(
                        result@[i].id@,
                        result@[i].score@,
                        result@[j].id@,
                        result@[j].score@,
                    ),
                forall|i: int, c: int|
                    0 <= i < result@.len() && 0 <= c < cands@.len() ==> ranks_before(
                        result@[i].id@,
                        result@[i].score@,
                        es[cands@[c].0 as int].id@,
                        cands@[c].1@,
                    ),
            decreases limit - result@.len(),
        {
            let mut b: usize = 0;
            let mut j: usize = 1;
            while j < cands.len()
                invariant
                    self.wf(),
                    n == es.len(),
                    es == self.entries@,
                    cands@.len() > 0,
                    b < j <= cands@.len(),
                    forall|c: int| #![trigger cands@[c]]
                        0 <= c < cands@.len() ==> cands@[c].0 < n && cands@[c].1.wf(),
                    forall|c1: int, c2: int|
                        0 <= c1 < cands@.len() && 0 <= c2 < cands@.len() && c1 != c2 ==> cands@[c1].0
                            != cands@[c2].0,
                    forall|c: int|
                        0 <= c < j && c != b ==> ranks_before(
                            es[cands@[b as int].0 as int].id@,
                            cands@[b as int].1@,
                            es[cands@[c].0 as int].id@,
                            cands@[c].1@,
                        ),
                decreases cands@.len() - j,
            {
                let cj = cands[j].0;
                let cb = cands[b].0;
                let ahead = ranked_ahead(
                    self.entries[cj].id.as_str(),
                    &cands[j].1,
                    self.entries[cb].id.as_str(),
                    &cands[b].1,
                );
                proof {
                    let idj = es[cj as int].id@;
                    let idb = es[cb as int].id@;
                    assert(idj != idb);
                    lemma_ranks_total(idj, cands@[j as int].1@, idb, cands@[b as int].1@);
                    if ahead {
                        assert forall|c: int| 0 <= c < j + 1 && c != j implies ranks_before(
                            idj,
                            cands@[j as int].1@,
                            es[cands@[c].0 as int].id@,
                            cands@[c].1@,
                        ) by {
                            if c != b {
                                lemma_ranks_transitive(
                                    idj,
                                    cands@[j as int].1@,
                                    idb,
                                    cands@[b as int].1@,
                                    es[cands@[c].0 as int].id@,
                                    cands@[c].1@,
                                );
                            }
                        }
                    }
                }
                if ahead {
                    b = j;
                }
                j = j + 1;
            }
            let ghost old_cands = cands@;
            let ghost old_result = result@;
            let (idx, score) = cands.remove(b);
            let id = self.entries[idx].id.clone();
            result.push(SearchResult { id, score });
            let ghost old_picked = picked;
            proof {
                picked = picked.push(idx as int);
                assert(old_cands[b as int] == (idx, score));
                assert forall|i: int| #![trigger result@[i]]
                    0 <= i < result@.len() implies result@[i].id@ == es[picked[i]].id@
                        && result@[i].score.wf() && result@[i].score@ == cosine(q, es[picked[i]].vector@) by {
                    if i < old_result.len() {
                        assert(result@[i] == old_result[i]);
                        assert(picked[i] == old_picked[i]);
                    }
                }
                assert forall|i: int| 0 <= i < picked.len() implies 0 <= #[trigger] picked[i] < n by {
                    if i < old_picked.len() {
                        assert(picked[i] == old_picked[i]);
                    }
                }
                assert forall|c: int| 0 <= c < cands@.len() implies #[trigger] cands@[c] == old_cands[if c
                    < b { c } else { c + 1 }] by {}
                assert forall|jj: int| 0 <= jj < n implies #[trigger] accounted_for(cands@, picked, jj) by {
                    assert(accounted_for(old_cands, old_picked, jj));
                    if exists|i: int| 0 <= i < old_picked.len() && old_picked[i] == jj {
                        let i = choose|i: int| 0 <= i < old_picked.len() && old_picked[i] == jj;
                        assert(picked[i] == jj);
                    } else {
                        let c = choose|c: int| 0 <= c < old_cands.len() && old_cands[c].0 == jj;
                        if c == b {
                            assert(picked[old_result.len() as int] == jj);
                        } else if c < b {
                            assert(cands@[c].0 == jj);
                        } else {
                            assert(cands@[c - 1].0 == jj);
                        }
                    }
                }
            }
        }
        proof {
            let m = self@;
            let r = result@;
            assert forall|i: int| #![trigger r[i]]
                0 <= i < r.len() implies m.contains_key(r[i].id@) && r[i].score@ == cosine(q, m[r[i].id@].0) by {
                assert(result@[i].id@ == es[picked[i]].id@);
                assert(self.model@.contains_key(es[picked[i]].id@));
            }
            assert forall|key: Seq<char>, i: int|
                #![trigger m.contains_key(key), r[i]]
                m.contains_key(key) && 0 <= i < r.len() && !(exists|j: int| 0 <= j < r.len() && r[j].id@ == key)
                    implies ranks_before(r[i].id@, r[i].score@, key, cosine(q, m[key].0)) by {
                let e = choose|e: int| 0 <= e < es.len() && es[e].id@ == key;
                assert(self.model@.contains_key(es[e].id@));
                assert(accounted_for(cands@, picked, e));
                if exists|p: int| 0 <= p < picked.len() && picked[p] == e {
                    let p = choose|p: int| 0 <= p < picked.len() && picked[p] == e;
                    assert(r[p].id@ == key);
                } else {
                    let c = choose|c: int| 0 <= c < cands@.len() && cands@[c].0 == e;
                    assert(cands@[c].0 == e);
                }
            }
        }
        Ok(result)
    }
}

} // verus!
