use vstd::prelude::*;

use crate::error::MatchError;

verus! {

/// The square of a difference of two samples, as a mathematical integer.
pub open spec fn sq_diff(x: i32, y: i32) -> int {
    (x - y) * (x - y)
}

/// Sum over the common positions of `(a[i] - b[i])^2`, as a mathematical
/// integer (no overflow).
pub open spec fn sq_dist(a: Seq<i32>, b: Seq<i32>) -> int
    decreases a.len(),
{
    if a.len() == 0 || b.len() == 0 {
        0
    } else {
        sq_dist(a.drop_last(), b.drop_last()) + sq_diff(a.last(), b.last())
    }
}

/// What comparing `a` with `b` yields: the distance when the lengths agree
/// and it fits in an `i32`, the reason otherwise.
pub open spec fn distance_outcome(a: Seq<i32>, b: Seq<i32>) -> Result<int, MatchError> {
    if a.len() != b.len() {
        Err(MatchError::LengthMismatch)
    } else if sq_dist(a, b) > i32::MAX {
        Err(MatchError::Overflow)
    } else {
        Ok(sq_dist(a, b))
    }
}

/// A sum of squares is never negative.
pub proof fn lemma_sq_dist_nonneg(a: Seq<i32>, b: Seq<i32>)
    ensures
        sq_dist(a, b) >= 0,
    decreases a.len(),
{
    if a.len() != 0 && b.len() != 0 {
        lemma_sq_dist_nonneg(a.drop_last(), b.drop_last());
        assert(sq_diff(a.last(), b.last()) >= 0) by (nonlinear_arith);
    }
}

/// Extending both vectors by one sample never decreases the sum, so a sum
/// over a prefix is at most the sum over the whole.
proof fn lemma_sq_dist_prefix_le(a: Seq<i32>, b: Seq<i32>, i: int)
    requires
        a.len() == b.len(),
        0 <= i <= a.len(),
    ensures
        sq_dist(a.subrange(0, i), b.subrange(0, i)) <= sq_dist(a, b),
    decreases a.len() - i,
{
    if i < a.len() {
        lemma_sq_dist_prefix_le(a, b, i + 1);
        let a1 = a.subrange(0, i + 1);
        let b1 = b.subrange(0, i + 1);
        assert(a1.drop_last() =~= a.subrange(0, i));
        assert(b1.drop_last() =~= b.subrange(0, i));
        assert(sq_diff(a1.last(), b1.last()) >= 0) by (nonlinear_arith);
    } else {
        assert(a.subrange(0, i) =~= a);
        assert(b.subrange(0, i) =~= b);
    }
}

/// The distance is symmetric: comparing `a` with `b` gives what comparing
/// `b` with `a` gives, the same sum or the same error.
pub proof fn lemma_distance_symmetric(a: Seq<i32>, b: Seq<i32>)
    ensures
        sq_dist(a, b) == sq_dist(b, a),
        distance_outcome(a, b) == distance_outcome(b, a),
    decreases a.len(),
{
    if a.len() != 0 && b.len() != 0 {
        lemma_distance_symmetric(a.drop_last(), b.drop_last());
        assert(sq_diff(a.last(), b.last()) == sq_diff(b.last(), a.last())) by (nonlinear_arith);
    }
}

/// A vector is at distance zero from itself.
pub proof fn lemma_distance_identity(a: Seq<i32>)
    ensures
        sq_dist(a, a) == 0,
        distance_outcome(a, a) == Ok::<int, MatchError>(0),
    decreases a.len(),
{
    if a.len() != 0 {
        lemma_distance_identity(a.drop_last());
    }
}

/// Sum of squared differences of two integer vectors, accumulated in index
/// order with checked `i32` arithmetic.
///
/// Fails with `LengthMismatch` when the lengths differ, and with `Overflow`
/// when the exact sum exceeds `i32::MAX` (any intermediate overflow implies
/// that, since every term is non-negative).
pub fn elementwise_squared_difference_i32(a: &[i32], b: &[i32]) -> (r: Result<i32, MatchError>)
    ensures
        match r {
            Ok(d) => distance_outcome(a@, b@) == Ok::<int, MatchError>(d as int),
            Err(e) => distance_outcome(a@, b@) == Err::<int, MatchError>(e),
        },
{
    if a.len() != b.len() {
        return Err(MatchError::LengthMismatch);
    }
    let n = a.len();
    let mut acc: i32 = 0;
    let mut i: usize = 0;
    while i < n
        invariant
            n == a@.len(),
            n == b@.len(),
            i <= n,
            acc as int == sq_dist(a@.subrange(0, i as int), b@.subrange(0, i as int)),
        decreases n - i,
    {
        let x = a[i];
        let y = b[i];
        proof {
            let a1 = a@.subrange(0, i + 1);
            let b1 = b@.subrange(0, i + 1);
            assert(a1.drop_last() =~= a@.subrange(0, i as int));
            assert(b1.drop_last() =~= b@.subrange(0, i as int));
            assert(sq_dist(a1, b1) == acc + sq_diff(x, y));
            lemma_sq_dist_prefix_le(a@, b@, i + 1);
            lemma_sq_dist_nonneg(a@.subrange(0, i as int), b@.subrange(0, i as int));
        }
        let d = match x.checked_sub(y) {
            Some(d) => d,
            None => {
                assert(sq_diff(x, y) > i32::MAX) by (nonlinear_arith)
                    requires
                        x - y > i32::MAX || x - y < i32::MIN,
                ;
                return Err(MatchError::Overflow);
            },
        };
        let s = match d.checked_mul(d) {
            Some(s) => s,
            None => {
                assert(sq_diff(x, y) > i32::MAX) by (nonlinear_arith)
                    requires
                        d == x - y,
                        d * d > i32::MAX || d * d < i32::MIN,
                ;
                return Err(MatchError::Overflow);
            },
        };
        acc = match acc.checked_add(s) {
            Some(t) => t,
            None => {
                return Err(MatchError::Overflow);
            },
        };
        i = i + 1;
    }
    proof {
        assert(a@.subrange(0, n as int) =~= a@);
        assert(b@.subrange(0, n as int) =~= b@);
    }
    Ok(acc)
}

} // verus!
