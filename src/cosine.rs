//! Exact cosine similarity between integer embeddings.
//!
//! A score is kept as the pair `(dot, norms)` and stands for the real number
//! `dot / sqrt(norms)`; scores are compared exactly, without rounding.

use vstd::prelude::*;

verus! {

/// The largest dimension an embedding may have; it keeps every intermediate
/// product of an exact comparison within 128 bits.
pub const MAX_DIMENSION: usize = 65536;

/// Sum of `a[i] * b[i]` over the first `n` positions.
pub open spec fn dot_prefix(a: Seq<i8>, b: Seq<i8>, n: int) -> int
    decreases n,
{
    if n <= 0 {
        0
    } else {
        dot_prefix(a, b, n - 1) + a[n - 1] * b[n - 1]
    }
}

/// Dot product of two vectors of the same length.
pub open spec fn dot(a: Seq<i8>, b: Seq<i8>) -> int {
    dot_prefix(a, b, a.len() as int)
}

/// Squared Euclidean length.
pub open spec fn norm_sq(a: Seq<i8>) -> int {
    dot(a, a)
}

/// The cosine of `q` and `v` as `(num, den)`, standing for the real number
/// `num / sqrt(den)`: `num` is the dot product and `den` the product of the
/// squared lengths. Where either vector has zero magnitude the cosine is
/// undefined; it is then taken to be zero, as `(0, 1)`.
pub open spec fn cosine(q: Seq<i8>, v: Seq<i8>) -> (int, int) {
    if norm_sq(q) * norm_sq(v) == 0 {
        (0, 1)
    } else {
        (dot(q, v), norm_sq(q) * norm_sq(v))
    }
}

/// A similarity score standing for `dot / sqrt(norms)`.
/// A vector of zero magnitude scores exactly zero: `dot == 0`, `norms == 1`.
#[derive(Clone, Copy, Debug, PartialEq, Eq, Structural)]
pub struct Score {
    pub dot: i64,
    pub norms: u64,
}

impl View for Score {
    type V = (int, int);

    open spec fn view(&self) -> (int, int) {
        (self.dot as int, self.norms as int)
    }
}

impl Score {

    /// Bounds that every score of vectors within `MAX_DIMENSION` meets.
    pub open spec fn wf(self) -> bool {
        &&& 0 < self.norms <= 0x1000_0000_0000_0000
        &&& -0x4000_0000 <= self.dot <= 0x4000_0000
    }
}

/// `x * |x|`: squaring that keeps the sign.
pub open spec fn signed_sq(x: int) -> int {
    if x >= 0 {
        x * x
    } else {
        -(x * x)
    }
}

/// The real value of `a` is below that of `b`:
/// `a.dot / sqrt(a.norms) < b.dot / sqrt(b.norms)`, both sides squared with
/// their signs kept and multiplied by the two (positive) denominators.
pub open spec fn score_lt(a: (int, int), b: (int, int)) -> bool {
    signed_sq(a.0) * b.1 < signed_sq(b.0) * a.1
}

/// The real values of `a` and `b` are equal.
pub open spec fn score_eq(a: (int, int), b: (int, int)) -> bool {
    signed_sq(a.0) * b.1 == signed_sq(b.0) * a.1
}

proof fn lemma_cross(xa: int, na: int, xb: int, nb: int, xc: int, nc: int)
    requires
        na > 0,
        nb > 0,
        nc > 0,
    ensures
        xa * nb <= xb * na && xb * nc <= xc * nb ==> xa * nc <= xc * na,
        xa * nb < xb * na && xb * nc <= xc * nb ==> xa * nc < xc * na,
        xa * nb <= xb * na && xb * nc < xc * nb ==> xa * nc < xc * na,
{
    assert(xa * nb <= xb * na && xb * nc <= xc * nb ==> xa * nc <= xc * na) by (nonlinear_arith)
        requires
            na > 0,
            nb > 0,
            nc > 0,
    {
        if xa * nb <= xb * na && xb * nc <= xc * nb {
            assert(xa * nb * nc <= xb * na * nc);
            assert(xb * nc * na <= xc * nb * na);
            assert(nb * (xa * nc) <= nb * (xc * na));
        }
    }
    assert(xa * nb < xb * na && xb * nc <= xc * nb ==> xa * nc < xc * na) by (nonlinear_arith)
        requires
            na > 0,
            nb > 0,
            nc > 0,
    {
        if xa * nb < xb * na && xb * nc <= xc * nb {
            assert(xa * nb * nc < xb * na * nc);
            assert(xb * nc * na <= xc * nb * na);
            assert(nb * (xa * nc) < nb * (xc * na));
        }
    }
    assert(xa * nb <= xb * na && xb * nc < xc * nb ==> xa * nc < xc * na) by (nonlinear_arith)
        requires
            na > 0,
            nb > 0,
            nc > 0,
    {
        if xa * nb <= xb * na && xb * nc < xc * nb {
            assert(xa * nb * nc <= xb * na * nc);
            assert(xb * nc * na < xc * nb * na);
            assert(nb * (xa * nc) < nb * (xc * na));
        }
    }
}

/// Comparing real values of scores is a total preorder: `score_lt` is
/// transitive, also through equal scores, and `score_eq` is transitive.
pub proof fn lemma_score_order(a: (int, int), b: (int, int), c: (int, int))
    requires
        a.1 > 0,
        b.1 > 0,
        c.1 > 0,
    ensures
        score_lt(a, b) && score_lt(b, c) ==> score_lt(a, c),
        score_lt(a, b) && score_eq(b, c) ==> score_lt(a, c),
        score_eq(a, b) && score_lt(b, c) ==> score_lt(a, c),
        score_eq(a, b) && score_eq(b, c) ==> score_eq(a, c),
{
    let xa = signed_sq(a.0);
    let xb = signed_sq(b.0);
    let xc = signed_sq(c.0);
    lemma_cross(xa, a.1, xb, b.1, xc, c.1);
    lemma_cross(xc, c.1, xb, b.1, xa, a.1);
}

proof fn lemma_i8_product(a: i8, b: i8)
    ensures
        -16384 <= a * b <= 16384,
        0 <= a * a <= 16384,
{
    assert(-16384 <= a * b <= 16384) by (nonlinear_arith)
        requires
            -128 <= a <= 127,
            -128 <= b <= 127,
    ;
    assert(0 <= a * a <= 16384) by (nonlinear_arith)
        requires
            -128 <= a <= 127,
    ;
}

/// Cosine similarity of two vectors of one dimension. Either vector having
/// zero magnitude gives the score zero.
pub fn cosine_similarity(a: &Vec<i8>, b: &Vec<i8>) -> (r: Score)
    requires
        a@.len() == b@.len(),
        a@.len() <= MAX_DIMENSION,
    ensures
        r@ == cosine(a@, b@),
        r.wf(),
{
    let n = a.len();
    let mut d: i64 = 0;
    let mut na: i64 = 0;
    let mut nb: i64 = 0;
    let mut i: usize = 0;
    while i < n
        invariant
            n == a@.len(),
            n == b@.len(),
            n <= MAX_DIMENSION,
            i <= n,
            d == dot_prefix(a@, b@, i as int),
            na == dot_prefix(a@, a@, i as int),
            nb == dot_prefix(b@, b@, i as int),
            -16384 * i <= d <= 16384 * i,
            0 <= na <= 16384 * i,
            0 <= nb <= 16384 * i,
        decreases n - i,
    {
        let x = a[i];
        let y = b[i];
        proof {
            lemma_i8_product(x, y);
            lemma_i8_product(y, y);
        }
        d = d + (x as i64) * (y as i64);
        na = na + (x as i64) * (x as i64);
        nb = nb + (y as i64) * (y as i64);
        i = i + 1;
    }
    if na == 0 || nb == 0 {
        assert(na * nb == 0) by (nonlinear_arith)
            requires
                na == 0 || nb == 0,
        ;
        Score { dot: 0, norms: 1 }
    } else {
        assert(0 < na * nb <= 0x1000_0000_0000_0000) by (nonlinear_arith)
            requires
                0 < na <= 0x4000_0000,
                0 < nb <= 0x4000_0000,
        ;
        Score { dot: d, norms: (na as u64) * (nb as u64) }
    }
}

/// Whether `a` has a strictly lower real value than `b`.
pub fn score_less(a: &Score, b: &Score) -> (r: bool)
    requires
        a.wf(),
        b.wf(),
    ensures
        r == score_lt(a@, b@),
{
    let (sa, sb) = signed_products(a, b);
    sa < sb
}

/// Whether `a` and `b` have the same real value.
pub fn score_equal(a: &Score, b: &Score) -> (r: bool)
    requires
        a.wf(),
        b.wf(),
    ensures
        r == score_eq(a@, b@),
{
    let (sa, sb) = signed_products(a, b);
    sa == sb
}

fn signed_products(a: &Score, b: &Score) -> (r: (i128, i128))
    requires
        a.wf(),
        b.wf(),
    ensures
        r.0 == signed_sq(a.dot as int) * b.norms,
        r.1 == signed_sq(b.dot as int) * a.norms,
{
    let da = a.dot as i128;
    let db = b.dot as i128;
    assert(0 <= da * da <= 0x1000_0000_0000_0000) by (nonlinear_arith)
        requires
            -0x4000_0000 <= da <= 0x4000_0000,
    ;
    assert(0 <= db * db <= 0x1000_0000_0000_0000) by (nonlinear_arith)
        requires
            -0x4000_0000 <= db <= 0x4000_0000,
    ;
    let qa = if da >= 0 { da * da } else { -(da * da) };
    let qb = if db >= 0 { db * db } else { -(db * db) };
    assert(-0x100_0000_0000_0000_0000_0000_0000_0000 <= qa * (b.norms as i128) <= 0x100_0000_0000_0000_0000_0000_0000_0000) by (nonlinear_arith)
        requires
            -0x1000_0000_0000_0000 <= qa <= 0x1000_0000_0000_0000,
            0 < b.norms <= 0x1000_0000_0000_0000,
    ;
    assert(-0x100_0000_0000_0000_0000_0000_0000_0000 <= qb * (a.norms as i128) <= 0x100_0000_0000_0000_0000_0000_0000_0000) by (nonlinear_arith)
        requires
            -0x1000_0000_0000_0000 <= qb <= 0x1000_0000_0000_0000,
            0 < a.norms <= 0x1000_0000_0000_0000,
    ;
    (qa * (b.norms as i128), qb * (a.norms as i128))
}

} // verus!
