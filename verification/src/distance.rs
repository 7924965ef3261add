//! Distance between vectors.
//!
//! A vector is a fixed-length sequence of `i32` components. The distance
//! between two equal-length vectors is the exact squared Euclidean distance,
//! a `u128`: with 32-bit components and at most `usize::MAX` of them the sum
//! of squared differences never overflows 128 bits, so no rounding or
//! saturation is involved and the ordering of distances is total.

use vstd::arithmetic::mul::lemma_mul_inequality;
use vstd::prelude::*;

verus! {

/// A vector of fixed-point components.
pub type Vector = Vec<i32>;

/// The square of an integer.
pub open spec fn sq(x: int) -> int {
    x * x
}

/// Squared Euclidean distance over the first `n` components of `a` and `b`.
pub open spec fn dist_sq_to(a: Seq<i32>, b: Seq<i32>, n: int) -> int
    decreases n,
{
    if n <= 0 {
        0
    } else {
        dist_sq_to(a, b, n - 1) + sq(a[n - 1] - b[n - 1])
    }
}

/// Squared Euclidean distance between two equal-length vectors.
pub open spec fn dist_sq(a: Seq<i32>, b: Seq<i32>) -> int {
    dist_sq_to(a, b, a.len() as int)
}

/// The largest possible squared difference of two `i32` components:
/// `(u32::MAX)^2`.
pub const MAX_COMPONENT_SQ: u128 = 0xFFFF_FFFE_0000_0001;

/// The square of a difference of `i32` components is at most
/// `MAX_COMPONENT_SQ`.
pub proof fn lemma_sq_diff_bound(x: i32, y: i32)
    ensures
        0 <= sq(x - y) <= MAX_COMPONENT_SQ,
{
    let d = x - y;
    assert(0 <= d * d <= 0xFFFF_FFFE_0000_0001) by (nonlinear_arith)
        requires
            -0xFFFF_FFFF <= d <= 0xFFFF_FFFF,
    ;
}

/// A prefix sum of `n` squared differences lies within
/// `[0, n * MAX_COMPONENT_SQ]`.
pub proof fn lemma_dist_sq_to_bounds(a: Seq<i32>, b: Seq<i32>, n: int)
    requires
        0 <= n,
    ensures
        0 <= dist_sq_to(a, b, n) <= n * MAX_COMPONENT_SQ,
    decreases n,
{
    if n > 0 {
        lemma_dist_sq_to_bounds(a, b, n - 1);
        lemma_sq_diff_bound(a[n - 1], b[n - 1]);
        assert((n - 1) * MAX_COMPONENT_SQ + MAX_COMPONENT_SQ == n * MAX_COMPONENT_SQ)
            by (nonlinear_arith);
    }
}

/// Exact squared Euclidean distance between two equal-length vectors.
pub fn distance(a: &Vector, b: &Vector) -> (r: u128)
    requires
        a@.len() == b@.len(),
    ensures
        r == dist_sq(a@, b@),
{
    let n = a.len();
    let mut sum: u128 = 0;
    let mut i: usize = 0;
    while i < n
        invariant
            i <= n,
            n == a@.len() == b@.len(),
            sum == dist_sq_to(a@, b@, i as int),
            0 <= sum,
        decreases n - i,
    {
        let ghost di: int = a@[i as int] - b@[i as int];
        let d: i64 = (a[i] as i64) - (b[i] as i64);
        proof {
            assert(0 <= di * di <= 0xFFFF_FFFE_0000_0001) by (nonlinear_arith)
                requires
                    -0xFFFF_FFFF <= di <= 0xFFFF_FFFF,
            ;
        }
        let s: i128 = (d as i128) * (d as i128);
        proof {
            lemma_dist_sq_to_bounds(a@, b@, i as int);
            lemma_dist_sq_to_bounds(a@, b@, i + 1);
            lemma_mul_inequality(i + 1, 0xFFFF_FFFF_FFFF_FFFF, MAX_COMPONENT_SQ as int);
        }
        sum = sum + (s as u128);
        i = i + 1;
    }
    sum
}

/// Squared Euclidean distance is symmetric.
pub proof fn lemma_dist_sq_to_sym(a: Seq<i32>, b: Seq<i32>, n: int)
    ensures
        dist_sq_to(a, b, n) == dist_sq_to(b, a, n),
    decreases n,
{
    if n > 0 {
        lemma_dist_sq_to_sym(a, b, n - 1);
        let x = a[n - 1] - b[n - 1];
        let y = b[n - 1] - a[n - 1];
        assert(x * x == y * y) by (nonlinear_arith)
            requires
                x == -y,
        ;
    }
}

/// The distance between two equal-length vectors reads the same from either
/// side.
pub proof fn lemma_dist_sq_sym(a: Seq<i32>, b: Seq<i32>)
    requires
        a.len() == b.len(),
    ensures
        dist_sq(a, b) == dist_sq(b, a),
{
    lemma_dist_sq_to_sym(a, b, a.len() as int);
}

/// An exact copy of a vector.
pub fn vector_copy(v: &Vector) -> (r: Vector)
    ensures
        r@ == v@,
{
    let n = v.len();
    let mut r: Vector = Vec::new();
    proof {
        assert(r@ =~= v@.take(0));
    }
    let mut k: usize = 0;
    while k < n
        invariant
            k <= n,
            n == v@.len(),
            r@ == v@.take(k as int),
        decreases n - k,
    {
        r.push(v[k]);
        proof {
            assert(r@ =~= v@.take(k as int + 1));
        }
        k = k + 1;
    }
    proof {
        assert(r@ =~= v@);
    }
    r
}

} // verus!
