//! Exact integer representation of cosine-similarity scores.
//!
//! The similarity of a query vector `q` and a document vector `d` is
//! `dot(q, d) / (sqrt(norm_sq(q)) * sqrt(norm_sq(d)))`, defined as zero
//! when either norm is zero.  All vector components are bytes, so every
//! dot product is a non-negative integer and the three integers
//! `(dot, norm_sq(q), norm_sq(d))` determine the similarity exactly.
//! Comparing two scores needs no square roots: for non-zero scores,
//! `sim(a) >= sim(b)` holds iff
//! `a.dot^2 * b.query_norm_sq * b.doc_norm_sq >= b.dot^2 * a.query_norm_sq * a.doc_norm_sq`.

use vstd::prelude::*;
use crate::EMBEDDING_SIZE;

verus! {

/// A cosine-similarity score in exact integer form.
#[derive(Clone, Copy, Debug, PartialEq, Eq, Structural)]
pub struct Score {
    /// Dot product of the query vector and the document vector.
    pub dot: u32,
    /// Squared Euclidean norm of the query vector.
    pub query_norm_sq: u32,
    /// Squared Euclidean norm of the document vector.
    pub doc_norm_sq: u32,
}

/// Dot product of two equal-length byte vectors, as an unbounded integer.
pub open spec fn dot_spec(a: Seq<u8>, b: Seq<u8>) -> int
    decreases a.len(),
{
    if a.len() == 0 || b.len() == 0 {
        0
    } else {
        dot_spec(a.drop_last(), b.drop_last()) + a.last() * b.last()
    }
}

/// Squared Euclidean norm of a byte vector.
pub open spec fn norm_sq_spec(a: Seq<u8>) -> int {
    dot_spec(a, a)
}

/// The exact score of document vector `d` against query vector `q`.
///
/// Faithful (no truncation in the casts) whenever both vectors are no
/// longer than [`EMBEDDING_SIZE`]; see [`lemma_dot_bounds`].
pub open spec fn score_of(q: Seq<u8>, d: Seq<u8>) -> Score {
    Score {
        dot: dot_spec(q, d) as u32,
        query_norm_sq: norm_sq_spec(q) as u32,
        doc_norm_sq: norm_sq_spec(d) as u32,
    }
}

/// A score whose similarity value is zero: the vectors are orthogonal,
/// or one of them has norm zero (scored as zero by definition rather
/// than dividing by zero).
pub open spec fn score_is_zero(s: Score) -> bool {
    s.dot == 0 || s.query_norm_sq == 0 || s.doc_norm_sq == 0
}

/// Exact comparison `sim(a) >= sim(b)`.
///
/// Every score of byte vectors is non-negative, so a zero score is
/// minimal; non-zero scores are compared by cross-multiplying and
/// squaring, which preserves the order of the positive similarities.
pub open spec fn score_ge(a: Score, b: Score) -> bool {
    if score_is_zero(b) {
        true
    } else if score_is_zero(a) {
        false
    } else {
        a.dot * a.dot * b.query_norm_sq * b.doc_norm_sq
            >= b.dot * b.dot * a.query_norm_sq * a.doc_norm_sq
    }
}

/// Exact comparison `sim(a) > sim(b)`.
pub open spec fn score_gt(a: Score, b: Score) -> bool {
    score_ge(a, b) && !score_ge(b, a)
}

/// Bounds on the dot product of equal-length byte vectors.
pub proof fn lemma_dot_bounds(a: Seq<u8>, b: Seq<u8>)
    requires
        a.len() == b.len(),
    ensures
        0 <= dot_spec(a, b) <= a.len() * 255 * 255,
    decreases a.len(),
{
    if a.len() == 0 {
    } else {
        lemma_dot_bounds(a.drop_last(), b.drop_last());
        assert(0 <= a.last() * b.last() <= 255 * 255) by (nonlinear_arith)
            requires
                0 <= a.last() <= 255,
                0 <= b.last() <= 255,
        ;
        assert((a.len() - 1) * 255 * 255 + 255 * 255 == a.len() * 255 * 255) by (nonlinear_arith);
    }
}

/// `score_ge` is reflexive.
pub proof fn lemma_score_ge_refl(a: Score)
    ensures
        score_ge(a, a),
{
}

/// `score_ge` is total: any two scores are comparable.
pub proof fn lemma_score_ge_total(a: Score, b: Score)
    ensures
        score_ge(a, b) || score_ge(b, a),
{
}

/// A score that is not strictly greater is less than or equal.
pub proof fn lemma_score_not_gt(a: Score, b: Score)
    requires
        !score_gt(a, b),
    ensures
        score_ge(b, a),
{
    lemma_score_ge_total(a, b);
}

/// `score_ge` is transitive.
pub proof fn lemma_score_ge_trans(a: Score, b: Score, c: Score)
    requires
        score_ge(a, b),
        score_ge(b, c),
    ensures
        score_ge(a, c),
{
    if score_is_zero(c) {
    } else if score_is_zero(b) {
        // score_ge(b, c) is false for a zero b and non-zero c
        assert(false);
    } else if score_is_zero(a) {
        // score_ge(a, b) is false for a zero a and non-zero b
        assert(false);
    } else {
        assert(a.dot * a.dot * c.query_norm_sq * c.doc_norm_sq
            >= c.dot * c.dot * a.query_norm_sq * a.doc_norm_sq) by (nonlinear_arith)
            requires
                a.dot * a.dot * b.query_norm_sq * b.doc_norm_sq
                    >= b.dot * b.dot * a.query_norm_sq * a.doc_norm_sq,
                b.dot * b.dot * c.query_norm_sq * c.doc_norm_sq
                    >= c.dot * c.dot * b.query_norm_sq * b.doc_norm_sq,
                a.dot >= 1,
                b.dot >= 1,
                c.dot >= 1,
                a.query_norm_sq >= 1,
                a.doc_norm_sq >= 1,
                b.query_norm_sq >= 1,
                b.doc_norm_sq >= 1,
                c.query_norm_sq >= 1,
                c.doc_norm_sq >= 1,
        ;
        assert(score_ge(a, c));
    }
}

/// Every dot product of a byte vector with itself matches its squared
/// norm, so a vector scored against itself has `dot^2` equal to the
/// product of the two norms: the exact form of a similarity of one.
pub proof fn lemma_self_similarity(v: Seq<u8>)
    requires
        v.len() <= EMBEDDING_SIZE,
    ensures
        score_of(v, v).dot == score_of(v, v).query_norm_sq,
        score_of(v, v).dot == score_of(v, v).doc_norm_sq,
        (score_of(v, v).dot as int) * (score_of(v, v).dot as int)
            == (score_of(v, v).query_norm_sq as int) * (score_of(v, v).doc_norm_sq as int),
        norm_sq_spec(v) > 0 ==> !score_is_zero(score_of(v, v)),
{
    lemma_dot_bounds(v, v);
    assert(v.len() * 255 * 255 <= 768 * 255 * 255) by (nonlinear_arith)
        requires
            v.len() <= 768,
    ;
}

/// Cauchy-Schwarz: the squared dot product never exceeds the product
/// of the squared norms, so no similarity exceeds one.
#[verifier::rlimit(30)]
pub proof fn lemma_cauchy_schwarz(a: Seq<u8>, b: Seq<u8>)
    requires
        a.len() == b.len(),
    ensures
        dot_spec(a, b) * dot_spec(a, b) <= norm_sq_spec(a) * norm_sq_spec(b),
    decreases a.len(),
{
    if a.len() == 0 {
    } else {
        let ap = a.drop_last();
        let bp = b.drop_last();
        lemma_cauchy_schwarz(ap, bp);
        lemma_dot_bounds(ap, bp);
        lemma_dot_bounds(ap, ap);
        lemma_dot_bounds(bp, bp);
        let d: int = dot_spec(ap, bp);
        let na: int = norm_sq_spec(ap);
        let nb: int = norm_sq_spec(bp);
        let x: int = a.last() as int;
        let y: int = b.last() as int;
        assert(dot_spec(a, b) == d + x * y);
        assert(norm_sq_spec(a) == na + x * x);
        assert(norm_sq_spec(b) == nb + y * y);
        // (na*y^2 + nb*x^2)^2 exceeds 4*na*nb*x^2*y^2 by the square of a difference
        assert((na * y * y + nb * x * x) * (na * y * y + nb * x * x) >= 4 * (na * nb) * (x * y) * (
        x * y)) by (nonlinear_arith);
        // replace na*nb by the smaller d*d under the non-negative factor (x*y)^2
        assert(4 * (na * nb) * (x * y) * (x * y) >= 4 * (d * d) * (x * y) * (x * y))
            by (nonlinear_arith)
            requires
                na * nb >= d * d,
                x >= 0,
                y >= 0,
        ;
        // both sides are non-negative, so the order of squares gives the order
        assert(na * y * y + nb * x * x >= 2 * d * (x * y)) by (nonlinear_arith)
            requires
                (na * y * y + nb * x * x) * (na * y * y + nb * x * x) >= 4 * (d * d) * (x * y) * (x
                    * y),
                na * y * y + nb * x * x >= 0,
                d >= 0,
                x >= 0,
                y >= 0,
        ;
        assert((d + x * y) * (d + x * y) == d * d + 2 * d * (x * y) + (x * y) * (x * y))
            by (nonlinear_arith);
        assert((na + x * x) * (nb + y * y) == na * nb + na * y * y + nb * x * x + (x * x) * (y * y))
            by (nonlinear_arith);
        assert((x * y) * (x * y) == (x * x) * (y * y)) by (nonlinear_arith);
    }
}

/// A non-zero vector scored against itself ranks at least as high as
/// it does against any other vector: the self-similarity of one is
/// maximal.
pub proof fn lemma_self_similarity_maximal(v: Seq<u8>, d: Seq<u8>)
    requires
        v.len() == d.len(),
        v.len() <= EMBEDDING_SIZE,
    ensures
        score_ge(score_of(v, v), score_of(v, d)),
{
    let s = score_of(v, v);
    let t = score_of(v, d);
    lemma_dot_bounds(v, v);
    lemma_dot_bounds(v, d);
    lemma_dot_bounds(d, d);
    assert(v.len() * 255 * 255 <= 768 * 255 * 255) by (nonlinear_arith)
        requires
            v.len() <= 768,
    ;
    lemma_cauchy_schwarz(v, d);
    if !score_is_zero(t) {
        let nn: int = norm_sq_spec(v);
        let bb: int = norm_sq_spec(d);
        let dd: int = dot_spec(v, d);
        assert(s.dot == nn && s.query_norm_sq == nn && s.doc_norm_sq == nn);
        assert(t.dot == dd && t.query_norm_sq == nn && t.doc_norm_sq == bb);
        assert(nn * nn * nn * bb >= dd * dd * nn * nn) by (nonlinear_arith)
            requires
                dd * dd <= nn * bb,
                nn >= 1,
                bb >= 1,
                dd >= 0,
        ;
        assert(score_ge(s, t));
    }
}

/// Scoring any query against an all-zero vector yields a zero score.
pub proof fn lemma_zero_vector_similarity(q: Seq<u8>, z: Seq<u8>)
    requires
        q.len() == z.len(),
        forall|i: int| 0 <= i < z.len() ==> z[i] == 0,
    ensures
        dot_spec(q, z) == 0,
        norm_sq_spec(z) == 0,
        score_is_zero(score_of(q, z)),
    decreases z.len(),
{
    if z.len() == 0 {
    } else {
        lemma_zero_vector_similarity(q.drop_last(), z.drop_last());
        lemma_zero_vector_similarity(z.drop_last(), z.drop_last());
        assert(z.last() == 0);
    }
}

/// Compute the exact score of document vector `vec2` against query
/// vector `vec1`.
pub fn cosine_similarity(vec1: &Vec<u8>, vec2: &Vec<u8>) -> (s: Score)
    requires
        vec1@.len() == vec2@.len(),
        vec1@.len() <= EMBEDDING_SIZE,
    ensures
        s == score_of(vec1@, vec2@),
{
    let n = vec1.len();
    let mut dot: u32 = 0;
    let mut n1: u32 = 0;
    let mut n2: u32 = 0;
    let mut i: usize = 0;
    while i < n
        invariant
            i <= n,
            n == vec1@.len(),
            n == vec2@.len(),
            n <= EMBEDDING_SIZE,
            dot == dot_spec(vec1@.take(i as int), vec2@.take(i as int)),
            n1 == norm_sq_spec(vec1@.take(i as int)),
            n2 == norm_sq_spec(vec2@.take(i as int)),
        decreases n - i,
    {
        proof {
            lemma_dot_bounds(vec1@.take(i as int), vec2@.take(i as int));
            lemma_dot_bounds(vec1@.take(i as int), vec1@.take(i as int));
            lemma_dot_bounds(vec2@.take(i as int), vec2@.take(i as int));
            assert(i * 255 * 255 <= 768 * 255 * 255) by (nonlinear_arith)
                requires
                    0 <= i <= 768,
            ;
        }
        let a = vec1[i];
        let b = vec2[i];
        proof {
            assert(0 <= (a as int) * (b as int) <= 255 * 255) by (nonlinear_arith)
                requires
                    0 <= a <= 255,
                    0 <= b <= 255,
            ;
            assert(0 <= (a as int) * (a as int) <= 255 * 255) by (nonlinear_arith)
                requires
                    0 <= a <= 255,
            ;
            assert(0 <= (b as int) * (b as int) <= 255 * 255) by (nonlinear_arith)
                requires
                    0 <= b <= 255,
            ;
        }
        dot = dot + (a as u32) * (b as u32);
        n1 = n1 + (a as u32) * (a as u32);
        n2 = n2 + (b as u32) * (b as u32);
        i = i + 1;
        proof {
            assert(vec1@.take(i as int).drop_last() =~= vec1@.take(i as int - 1));
            assert(vec2@.take(i as int).drop_last() =~= vec2@.take(i as int - 1));
            assert(vec1@.take(i as int).last() == vec1@[i as int - 1]);
            assert(vec2@.take(i as int).last() == vec2@[i as int - 1]);
        }
    }
    proof {
        assert(vec1@.take(n as int) =~= vec1@);
        assert(vec2@.take(n as int) =~= vec2@);
        lemma_dot_bounds(vec1@, vec2@);
        lemma_dot_bounds(vec1@, vec1@);
        lemma_dot_bounds(vec2@, vec2@);
        assert(n * 255 * 255 <= 768 * 255 * 255) by (nonlinear_arith)
            requires
                0 <= n <= 768,
        ;
    }
    Score { dot, query_norm_sq: n1, doc_norm_sq: n2 }
}

/// Bounds that let the four-factor comparison products be computed in
/// 128-bit arithmetic without overflow.
proof fn lemma_prod4_bound(x: int, y: int, z: int, w: int)
    requires
        0 <= x < 0x1_0000_0000,
        0 <= y < 0x1_0000_0000,
        0 <= z < 0x1_0000_0000,
        0 <= w < 0x1_0000_0000,
    ensures
        0 <= x * y <= 0xFFFF_FFFF * 0xFFFF_FFFF,
        0 <= x * y * z <= 0xFFFF_FFFF * 0xFFFF_FFFF * 0xFFFF_FFFF,
        0 <= x * y * z * w <= u128::MAX,
{
    assert(0 <= x * y <= 0xFFFF_FFFF * 0xFFFF_FFFF) by (nonlinear_arith)
        requires
            0 <= x <= 0xFFFF_FFFF,
            0 <= y <= 0xFFFF_FFFF,
    ;
    assert(0 <= x * y * z <= 0xFFFF_FFFF * 0xFFFF_FFFF * 0xFFFF_FFFF) by (nonlinear_arith)
        requires
            0 <= x * y <= 0xFFFF_FFFF * 0xFFFF_FFFF,
            0 <= z <= 0xFFFF_FFFF,
    ;
    assert(0 <= x * y * z * w <= 0xFFFF_FFFF * 0xFFFF_FFFF * 0xFFFF_FFFF * 0xFFFF_FFFF)
        by (nonlinear_arith)
        requires
            0 <= x * y * z <= 0xFFFF_FFFF * 0xFFFF_FFFF * 0xFFFF_FFFF,
            0 <= w <= 0xFFFF_FFFF,
    ;
}

/// Decide `score_ge(*a, *b)` exactly, in 128-bit integer arithmetic.
pub fn score_cmp_ge(a: &Score, b: &Score) -> (r: bool)
    ensures
        r == score_ge(*a, *b),
{
    if b.dot == 0 || b.query_norm_sq == 0 || b.doc_norm_sq == 0 {
        true
    } else if a.dot == 0 || a.query_norm_sq == 0 || a.doc_norm_sq == 0 {
        false
    } else {
        proof {
            lemma_prod4_bound(
                a.dot as int,
                a.dot as int,
                b.query_norm_sq as int,
                b.doc_norm_sq as int,
            );
            lemma_prod4_bound(
                b.dot as int,
                b.dot as int,
                a.query_norm_sq as int,
                a.doc_norm_sq as int,
            );
        }
        let lhs: u128 = (a.dot as u128) * (a.dot as u128) * (b.query_norm_sq as u128)
            * (b.doc_norm_sq as u128);
        let rhs: u128 = (b.dot as u128) * (b.dot as u128) * (a.query_norm_sq as u128)
            * (a.doc_norm_sq as u128);
        lhs >= rhs
    }
}

/// Decide `score_gt(*a, *b)` exactly.
pub fn score_cmp_gt(a: &Score, b: &Score) -> (r: bool)
    ensures
        r == score_gt(*a, *b),
{
    let ge = score_cmp_ge(a, b);
    let le = score_cmp_ge(b, a);
    ge && !le
}

} // verus!
