//! Integer vector arithmetic for embeddings: dot products, squared norms,
//! and an exact representation of cosine-similarity scores.

use vstd::prelude::*;

verus! {

/// Largest embedding dimensionality a store will accept.
///
/// Together with the `i16` component range this keeps every dot product
/// below `2^42`, so all score comparisons fit comfortably in `i128`.
pub const MAX_DIM: usize = 4096;

/// Dot product of two integer vectors of equal length.
pub open spec fn dot(a: Seq<int>, b: Seq<int>) -> int
    decreases a.len(),
{
    if a.len() == 0 || b.len() == 0 {
        0
    } else {
        a.last() * b.last() + dot(a.drop_last(), b.drop_last())
    }
}

/// Squared Euclidean norm of an integer vector.
pub open spec fn norm_sq(a: Seq<int>) -> int {
    dot(a, a)
}

/// The mathematical contents of an embedding vector.
pub open spec fn embedding_view(v: Seq<i16>) -> Seq<int> {
    v.map_values(|x: i16| x as int)
}

/// Computes the dot product of two equal-length `i16` vectors.
pub fn dot_i16(a: &Vec<i16>, b: &Vec<i16>) -> (r: i64)
    requires
        a@.len() == b@.len(),
        a@.len() <= MAX_DIM,
    ensures
        r == dot(embedding_view(a@), embedding_view(b@)),
{
    let mut r: i64 = 0;
    let mut i: usize = 0;
    while i < a.len()
        invariant
            0 <= i <= a@.len(),
            a@.len() == b@.len(),
            a@.len() <= MAX_DIM,
            r == dot(embedding_view(a@).take(i as int), embedding_view(b@).take(i as int)),
            -(i as int) * 0x4000_0000 <= r <= (i as int) * 0x4000_0000,
        decreases a@.len() - i,
    {
        proof {
            lemma_dot_take_step(embedding_view(a@), embedding_view(b@), i as int);
            assert(-0x4000_0000 <= a@[i as int] * b@[i as int] <= 0x4000_0000) by (nonlinear_arith)
                requires
                    -0x8000 <= a@[i as int] <= 0x7fff,
                    -0x8000 <= b@[i as int] <= 0x7fff,
            ;
        }
        r = r + (a[i] as i64) * (b[i] as i64);
        i = i + 1;
    }
    proof {
        assert(embedding_view(a@).take(a@.len() as int) =~= embedding_view(a@));
        assert(embedding_view(b@).take(b@.len() as int) =~= embedding_view(b@));
    }
    r
}

/// One step of the running dot product: extending both prefixes by one
/// element adds the product of the new pair.
proof fn lemma_dot_take_step(a: Seq<int>, b: Seq<int>, i: int)
    requires
        a.len() == b.len(),
        0 <= i < a.len(),
    ensures
        dot(a.take(i + 1), b.take(i + 1)) == dot(a.take(i), b.take(i)) + a[i] * b[i],
{
    assert(a.take(i + 1).drop_last() =~= a.take(i));
    assert(b.take(i + 1).drop_last() =~= b.take(i));
    assert(a.take(i + 1).last() == a[i]);
    assert(b.take(i + 1).last() == b[i]);
}

/// A vector's dot product with itself is never negative.
pub proof fn lemma_norm_sq_nonneg(a: Seq<int>)
    ensures
        norm_sq(a) >= 0,
    decreases a.len(),
{
    if a.len() > 0 {
        lemma_norm_sq_nonneg(a.drop_last());
        assert(a.last() * a.last() >= 0) by (nonlinear_arith);
    }
}

/// Bound on a dot product of vectors whose components lie in the `i16` range.
pub proof fn lemma_dot_bound(a: Seq<int>, b: Seq<int>)
    requires
        a.len() == b.len(),
        forall|i: int| 0 <= i < a.len() ==> -0x8000 <= #[trigger] a[i] <= 0x7fff,
        forall|i: int| 0 <= i < b.len() ==> -0x8000 <= #[trigger] b[i] <= 0x7fff,
    ensures
        -(a.len() as int) * 0x4000_0000 <= dot(a, b) <= (a.len() as int) * 0x4000_0000,
    decreases a.len(),
{
    if a.len() > 0 {
        lemma_dot_bound(a.drop_last(), b.drop_last());
        assert(-0x4000_0000 <= a.last() * b.last() <= 0x4000_0000) by (nonlinear_arith)
            requires
                -0x8000 <= a.last() <= 0x7fff,
                -0x8000 <= b.last() <= 0x7fff,
        ;
    }
}

/// The components of an embedding vector lie in the `i16` range.
pub proof fn lemma_embedding_components_bounded(v: Seq<i16>)
    ensures
        forall|i: int|
            0 <= i < embedding_view(v).len() ==> -0x8000 <= #[trigger] embedding_view(v)[i]
                <= 0x7fff,
{
}

/// An exact representation of a cosine-similarity score.
///
/// The cosine of the angle between vectors `a` and `b` is
/// `dot / sqrt(norm_a * norm_b)`. Degenerate inputs (a length mismatch or a
/// zero-magnitude vector) are represented with `norm_a == norm_b == 0` and
/// stand for a score of exactly zero.
#[derive(Clone, Copy, Debug, PartialEq, Eq, Structural)]
pub struct Score {
    /// Dot product of the two vectors.
    pub dot: i64,
    /// Squared norm of the first (stored document) vector.
    pub norm_a: u64,
    /// Squared norm of the second (query) vector.
    pub norm_b: u64,
}

/// Magnitude bound that every score built from bounded embeddings meets.
pub open spec fn score_wf(s: Score) -> bool {
    &&& -0x400_0000_0000 <= s.dot <= 0x400_0000_0000
    &&& s.norm_a <= 0x400_0000_0000
    &&& s.norm_b <= 0x400_0000_0000
}

/// The score that `cosine_similarity` returns for the given vectors.
pub open spec fn score_of(a: Seq<int>, b: Seq<int>) -> Score {
    if a.len() != b.len() || norm_sq(a) == 0 || norm_sq(b) == 0 {
        Score { dot: 0, norm_a: 0, norm_b: 0 }
    } else {
        Score { dot: dot(a, b) as i64, norm_a: norm_sq(a) as u64, norm_b: norm_sq(b) as u64 }
    }
}

/// A score stands for exactly zero when one of its inputs was degenerate.
pub open spec fn degenerate(s: Score) -> bool {
    s.norm_a == 0 || s.norm_b == 0
}

/// Numerator of the score once degenerate scores are normalised to `0/1`.
pub open spec fn key_dot(s: Score) -> int {
    if degenerate(s) {
        0
    } else {
        s.dot as int
    }
}

/// Squared denominator of the score once degenerate scores are normalised.
pub open spec fn key_norm(s: Score) -> int {
    if degenerate(s) {
        1
    } else {
        s.norm_a as int
    }
}

/// Exact comparison of two scores that were computed against the same query
/// vector: `s1`'s value is at most `s2`'s.
///
/// For a common query norm the order of `dot / sqrt(norm_a)` is the order of
/// the cosines, and comparing those square roots exactly is comparing the
/// signs and then the squared cross products.
pub open spec fn score_le(s1: Score, s2: Score) -> bool {
    let d1 = key_dot(s1);
    let n1 = key_norm(s1);
    let d2 = key_dot(s2);
    let n2 = key_norm(s2);
    if d1 < 0 {
        d2 >= 0 || d1 * d1 * n2 >= d2 * d2 * n1
    } else {
        d2 >= 0 && d1 * d1 * n2 <= d2 * d2 * n1
    }
}

/// Two scores of equal value.
pub open spec fn score_eq(s1: Score, s2: Score) -> bool {
    score_le(s1, s2) && score_le(s2, s1)
}

/// The score is exactly one: the vectors point in the same direction.
pub open spec fn is_unit_score(s: Score) -> bool {
    !degenerate(s) && s.dot > 0 && s.dot * s.dot == s.norm_a * s.norm_b
}

/// Any two scores are comparable under `score_le`.
pub proof fn lemma_score_le_total(s1: Score, s2: Score)
    ensures
        score_le(s1, s2) || score_le(s2, s1),
{
}

proof fn lemma_mul_mono(a: int, b: int, c: int, d: int)
    by (nonlinear_arith)
    requires
        0 <= a <= b,
        0 <= c <= d,
    ensures
        a * c <= b * d,
{
}

proof fn lemma_mul_cancel(k: int, x: int, y: int)
    by (nonlinear_arith)
    requires
        k > 0,
        k * x <= k * y,
    ensures
        x <= y,
{
}

/// `score_le` is transitive.
pub proof fn lemma_score_le_trans(s1: Score, s2: Score, s3: Score)
    requires
        score_le(s1, s2),
        score_le(s2, s3),
    ensures
        score_le(s1, s3),
{
    let d1 = key_dot(s1);
    let n1 = key_norm(s1);
    let d2 = key_dot(s2);
    let n2 = key_norm(s2);
    let d3 = key_dot(s3);
    let n3 = key_norm(s3);
    if d2 >= 0 {
        if d1 < 0 {
            // s3 is nonnegative because s2 <= s3 forces d3 >= 0.
            assert(d3 >= 0);
        } else {
            // All three nonnegative: multiply the two squared inequalities.
            assert(d1 * d1 * n3 <= d3 * d3 * n1) by {
                if d2 == 0 {
                    // d1^2 * n2 <= 0 and n2 >= 1 force d1 == 0.
                    assert(d2 * d2 * n1 == 0) by (nonlinear_arith)
                        requires
                            d2 == 0,
                    ;
                    assert(d1 == 0) by (nonlinear_arith)
                        requires
                            d1 >= 0,
                            n2 >= 1,
                            d1 * d1 * n2 <= 0,
                    ;
                    assert(d1 * d1 * n3 == 0) by (nonlinear_arith)
                        requires
                            d1 == 0,
                    ;
                    assert(0 <= d3 * d3 * n1) by (nonlinear_arith)
                        requires
                            n1 >= 1,
                    ;
                } else {
                    assert(d1 * d1 * n2 >= 0) by (nonlinear_arith)
                        requires
                            n2 >= 1,
                    ;
                    assert(d2 * d2 * n3 >= 0) by (nonlinear_arith)
                        requires
                            n3 >= 1,
                    ;
                    lemma_mul_mono(d1 * d1 * n2, d2 * d2 * n1, d2 * d2 * n3, d3 * d3 * n2);
                    assert((d1 * d1 * n2) * (d2 * d2 * n3) == (d2 * d2 * n2) * (d1 * d1 * n3))
                        by (nonlinear_arith);
                    assert((d2 * d2 * n1) * (d3 * d3 * n2) == (d2 * d2 * n2) * (d3 * d3 * n1))
                        by (nonlinear_arith);
                    assert(d2 * d2 * n2 > 0) by (nonlinear_arith)
                        requires
                            d2 > 0,
                            n2 >= 1,
                    ;
                    lemma_mul_cancel(d2 * d2 * n2, d1 * d1 * n3, d3 * d3 * n1);
                }
            };
        }
    } else {
        // d2 < 0 forces d1 < 0.
        assert(d1 < 0);
        if d3 >= 0 {
        } else {
            assert(d1 * d1 * n3 >= d3 * d3 * n1) by {
                assert(d2 * d2 * n1 >= 0) by (nonlinear_arith)
                    requires
                        n1 >= 1,
                ;
                assert(d3 * d3 * n2 >= 0) by (nonlinear_arith)
                    requires
                        n2 >= 1,
                ;
                lemma_mul_mono(d2 * d2 * n1, d1 * d1 * n2, d3 * d3 * n2, d2 * d2 * n3);
                assert((d1 * d1 * n2) * (d2 * d2 * n3) == (d2 * d2 * n2) * (d1 * d1 * n3))
                    by (nonlinear_arith);
                assert((d2 * d2 * n1) * (d3 * d3 * n2) == (d2 * d2 * n2) * (d3 * d3 * n1))
                    by (nonlinear_arith);
                assert(d2 * d2 * n2 > 0) by (nonlinear_arith)
                    requires
                        d2 < 0,
                        n2 >= 1,
                ;
                lemma_mul_cancel(d2 * d2 * n2, d3 * d3 * n1, d1 * d1 * n3);
            };
        }
    }
}

/// The quadratic form `(l*a_i - u*b_i)^2` summed over the components is
/// never negative.
proof fn lemma_quadratic_form_nonneg(a: Seq<int>, b: Seq<int>, l: int, u: int)
    requires
        a.len() == b.len(),
    ensures
        l * l * norm_sq(a) - 2 * l * u * dot(a, b) + u * u * norm_sq(b) >= 0,
    decreases a.len(),
{
    if a.len() == 0 {
    } else {
        lemma_quadratic_form_nonneg(a.drop_last(), b.drop_last(), l, u);
        let x = a.last();
        let y = b.last();
        let na = norm_sq(a.drop_last());
        let nb = norm_sq(b.drop_last());
        let c = dot(a.drop_last(), b.drop_last());
        assert(l * l * (x * x + na) - 2 * l * u * (x * y + c) + u * u * (y * y + nb) >= 0)
            by (nonlinear_arith)
            requires
                l * l * na - 2 * l * u * c + u * u * nb >= 0,
        ;
    }
}

/// A zero-magnitude vector is orthogonal to everything.
proof fn lemma_zero_norm_zero_dot(a: Seq<int>, b: Seq<int>)
    requires
        a.len() == b.len(),
        norm_sq(a) == 0,
    ensures
        dot(a, b) == 0,
    decreases a.len(),
{
    if a.len() > 0 {
        lemma_norm_sq_nonneg(a.drop_last());
        assert(a.last() == 0 && norm_sq(a.drop_last()) == 0) by (nonlinear_arith)
            requires
                a.last() * a.last() + norm_sq(a.drop_last()) == 0,
                norm_sq(a.drop_last()) >= 0,
        ;
        lemma_zero_norm_zero_dot(a.drop_last(), b.drop_last());
        assert(a.last() * b.last() == 0) by (nonlinear_arith)
            requires
                a.last() == 0,
        ;
    }
}

/// Cauchy–Schwarz: the square of a dot product never exceeds the product
/// of the squared norms — so no cosine exceeds one in magnitude.
pub proof fn lemma_cauchy_schwarz(a: Seq<int>, b: Seq<int>)
    requires
        a.len() == b.len(),
    ensures
        dot(a, b) * dot(a, b) <= norm_sq(a) * norm_sq(b),
{
    let aa = norm_sq(a);
    let bb = norm_sq(b);
    let c = dot(a, b);
    lemma_norm_sq_nonneg(a);
    lemma_norm_sq_nonneg(b);
    if aa == 0 {
        lemma_zero_norm_zero_dot(a, b);
        assert(c * c <= aa * bb) by (nonlinear_arith)
            requires
                c == 0,
                aa == 0,
        ;
    } else {
        lemma_quadratic_form_nonneg(a, b, c, aa);
        assert(c * c <= aa * bb) by (nonlinear_arith)
            requires
                aa > 0,
                c * c * aa - 2 * c * aa * c + aa * aa * bb >= 0,
        ;
    }
}

/// No well-formed embedding scores above the query's score against
/// itself: every cosine is at most one.
pub proof fn lemma_score_le_unit(d: Seq<int>, q: Seq<int>)
    requires
        d.len() <= MAX_DIM,
        q.len() <= MAX_DIM,
        forall|i: int| 0 <= i < d.len() ==> -0x8000 <= #[trigger] d[i] <= 0x7fff,
        forall|i: int| 0 <= i < q.len() ==> -0x8000 <= #[trigger] q[i] <= 0x7fff,
    ensures
        score_le(score_of(d, q), score_of(q, q)),
{
    let s = score_of(d, q);
    let unit = score_of(q, q);
    lemma_norm_sq_nonneg(q);
    lemma_norm_sq_nonneg(d);
    lemma_dot_bound(q, q);
    assert((q.len() as int) * 0x4000_0000 <= 0x400_0000_0000) by (nonlinear_arith)
        requires
            q.len() <= 4096,
    ;
    if norm_sq(q) == 0 {
        // both scores are degenerate and stand for zero
        assert(score_le(s, unit));
    } else {
        let nq = norm_sq(q);
        assert(key_dot(unit) == nq && key_norm(unit) == nq);
        if d.len() != q.len() || norm_sq(d) == 0 {
            assert(key_dot(s) == 0 && key_norm(s) == 1);
            assert(0 * 0 * nq <= nq * nq * 1) by (nonlinear_arith)
                requires
                    nq >= 0,
            ;
        } else {
            lemma_dot_bound(d, q);
            lemma_dot_bound(d, d);
            assert((d.len() as int) * 0x4000_0000 <= 0x400_0000_0000) by (nonlinear_arith)
                requires
                    d.len() <= 4096,
            ;
            let c = dot(d, q);
            let ad = norm_sq(d);
            assert(key_dot(s) == c && key_norm(s) == ad);
            if c >= 0 {
                lemma_cauchy_schwarz(d, q);
                assert(c * c * nq <= nq * nq * ad) by (nonlinear_arith)
                    requires
                        nq >= 0,
                        c * c <= ad * nq,
                ;
            }
        }
    }
}

/// Decides `score_le` for two well-formed scores of one query.
pub fn score_le_exec(s1: &Score, s2: &Score) -> (r: bool)
    requires
        score_wf(*s1),
        score_wf(*s2),
    ensures
        r == score_le(*s1, *s2),
{
    let d1: i128 = if s1.norm_a == 0 || s1.norm_b == 0 {
        0
    } else {
        s1.dot as i128
    };
    let n1: i128 = if s1.norm_a == 0 || s1.norm_b == 0 {
        1
    } else {
        s1.norm_a as i128
    };
    let d2: i128 = if s2.norm_a == 0 || s2.norm_b == 0 {
        0
    } else {
        s2.dot as i128
    };
    let n2: i128 = if s2.norm_a == 0 || s2.norm_b == 0 {
        1
    } else {
        s2.norm_a as i128
    };
    proof {
        lemma_key_products_bounded(d1 as int, n2 as int);
        lemma_key_products_bounded(d2 as int, n1 as int);
    }
    if d1 < 0 {
        d2 >= 0 || d1 * d1 * n2 >= d2 * d2 * n1
    } else {
        d2 >= 0 && d1 * d1 * n2 <= d2 * d2 * n1
    }
}

proof fn lemma_key_products_bounded(d: int, n: int)
    by (nonlinear_arith)
    requires
        -0x400_0000_0000 <= d <= 0x400_0000_0000,
        1 <= n <= 0x400_0000_0000,
    ensures
        0 <= d * d <= 0x10_0000_0000_0000_0000_0000,
        0 <= d * d * n <= 0x4000_0000_0000_0000_0000_0000_0000_0000,
{
}

/// Computes the squared norm of an embedding vector.
pub fn norm_sq_i16(a: &Vec<i16>) -> (r: u64)
    requires
        a@.len() <= MAX_DIM,
    ensures
        r == norm_sq(embedding_view(a@)),
        r <= 0x400_0000_0000,
{
    proof {
        lemma_norm_sq_nonneg(embedding_view(a@));
        lemma_embedding_components_bounded(a@);
        lemma_dot_bound(embedding_view(a@), embedding_view(a@));
        assert((a@.len() as int) * 0x4000_0000 <= 0x400_0000_0000) by (nonlinear_arith)
            requires
                a@.len() <= 4096,
        ;
    }
    let d = dot_i16(a, a);
    d as u64
}

/// Computes the exact cosine-similarity score of two embedding vectors.
///
/// A length mismatch or a zero-magnitude vector yields the zero score
/// rather than an error, so a malformed embedding cannot abort a search.
pub fn cosine_similarity(a: &Vec<i16>, b: &Vec<i16>) -> (r: Score)
    requires
        a@.len() <= MAX_DIM,
        b@.len() <= MAX_DIM,
    ensures
        r == score_of(embedding_view(a@), embedding_view(b@)),
        score_wf(r),
{
    if a.len() != b.len() {
        return Score { dot: 0, norm_a: 0, norm_b: 0 };
    }
    let na = norm_sq_i16(a);
    let nb = norm_sq_i16(b);
    if na == 0 || nb == 0 {
        return Score { dot: 0, norm_a: 0, norm_b: 0 };
    }
    proof {
        lemma_embedding_components_bounded(a@);
        lemma_embedding_components_bounded(b@);
        lemma_dot_bound(embedding_view(a@), embedding_view(b@));
        assert((a@.len() as int) * 0x4000_0000 <= 0x400_0000_0000) by (nonlinear_arith)
            requires
                a@.len() <= 4096,
        ;
    }
    let d = dot_i16(a, b);
    Score { dot: d, norm_a: na, norm_b: nb }
}

} // verus!
