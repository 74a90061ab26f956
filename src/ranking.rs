//! The order in which search results are ranked: higher cosine first, and
//! among equal cosines, the identifier that comes first lexicographically.

use vstd::prelude::*;
use crate::cosine::{Score, score_lt, score_eq, score_less, score_equal, lemma_score_order};
use crate::order::{lex_lt, str_lt, lemma_lex_transitive, lemma_lex_total};

verus! {

/// Whether the entry `(a_id, a)` is ranked ahead of `(b_id, b)`.
pub open spec fn ranks_before(a_id: Seq<char>, a: (int, int), b_id: Seq<char>, b: (int, int)) -> bool {
    score_lt(b, a) || (score_eq(a, b) && lex_lt(a_id, b_id))
}

/// Ranking is transitive.
pub proof fn lemma_ranks_transitive(
    a_id: Seq<char>,
    a: (int, int),
    b_id: Seq<char>,
    b: (int, int),
    c_id: Seq<char>,
    c: (int, int),
)
    requires
        a.1 > 0,
        b.1 > 0,
        c.1 > 0,
        ranks_before(a_id, a, b_id, b),
        ranks_before(b_id, b, c_id, c),
    ensures
        ranks_before(a_id, a, c_id, c),
{
    lemma_score_order(c, b, a);
    lemma_score_order(a, b, c);
    if score_eq(a, b) && score_eq(b, c) {
        lemma_lex_transitive(a_id, b_id, c_id);
    }
}

/// Of two entries with distinct identifiers, one is ranked ahead of the other.
pub proof fn lemma_ranks_total(a_id: Seq<char>, a: (int, int), b_id: Seq<char>, b: (int, int))
    requires
        a_id != b_id,
    ensures
        ranks_before(a_id, a, b_id, b) || ranks_before(b_id, b, a_id, a),
{
    lemma_lex_total(a_id, b_id);
}

/// Whether the entry `(a_id, a)` is ranked ahead of `(b_id, b)`.
pub fn ranked_ahead(a_id: &str, a: &Score, b_id: &str, b: &Score) -> (r: bool)
    requires
        a.wf(),
        b.wf(),
    ensures
        r == ranks_before(a_id@, a@, b_id@, b@),
{
    if score_less(b, a) {
        true
    } else if score_equal(a, b) {
        str_lt(a_id, b_id)
    } else {
        false
    }
}

} // verus!
