//! Fixed-point arithmetic and the Euclidean distance between feature vectors.

use vstd::prelude::*;

verus! {

/// One unit in fixed point: the real number `x` is held as `x * SCALE`.
pub const SCALE: i64 = 1_000_000;

/// `root` is the integer part of the square root of `value`.
pub open spec fn is_sqrt_floor(root: int, value: int) -> bool {
    0 <= root && root * root <= value < (root + 1) * (root + 1)
}

/// The integer part of the square root of `value`, for `value >= 0`.
pub open spec fn sqrt_floor(value: int) -> int {
    choose|root: int| is_sqrt_floor(root, value)
}

/// The sum of the squared differences of two vectors of equal length: the
/// square of their Euclidean distance.
pub open spec fn squared_distance(a: Seq<i64>, b: Seq<i64>) -> int
    recommends
        a.len() == b.len(),
    decreases a.len(),
{
    if a.len() == 0 {
        0
    } else {
        squared_distance(a.drop_last(), b.drop_last()) + (a.last() - b.last()) * (a.last()
            - b.last())
    }
}

/// The Euclidean distance of two vectors, rounded down to a whole number of
/// fixed-point steps.
pub open spec fn distance(a: Seq<i64>, b: Seq<i64>) -> int {
    sqrt_floor(squared_distance(a, b))
}

/// A number has at most one integer square root.
pub proof fn lemma_sqrt_floor_unique(r1: int, r2: int, value: int)
    requires
        is_sqrt_floor(r1, value),
        is_sqrt_floor(r2, value),
    ensures
        r1 == r2,
{
    if r1 < r2 {
        assert((r1 + 1) * (r1 + 1) <= r2 * r2) by (nonlinear_arith)
            requires
                0 <= r1,
                r1 + 1 <= r2,
        ;
    } else if r2 < r1 {
        assert((r2 + 1) * (r2 + 1) <= r1 * r1) by (nonlinear_arith)
            requires
                0 <= r2,
                r2 + 1 <= r1,
        ;
    }
}

/// Whatever satisfies `is_sqrt_floor` is `sqrt_floor`.
pub proof fn lemma_sqrt_floor_is(root: int, value: int)
    requires
        is_sqrt_floor(root, value),
    ensures
        sqrt_floor(value) == root,
{
    lemma_sqrt_floor_unique(root, sqrt_floor(value), value);
}

/// The square root is monotone: a larger value has no smaller root.
pub proof fn lemma_sqrt_floor_monotone(r1: int, v1: int, r2: int, v2: int)
    requires
        is_sqrt_floor(r1, v1),
        is_sqrt_floor(r2, v2),
        v1 <= v2,
    ensures
        r1 <= r2,
{
    if r2 < r1 {
        assert((r2 + 1) * (r2 + 1) <= r1 * r1) by (nonlinear_arith)
            requires
                0 <= r2,
                r2 + 1 <= r1,
        ;
    }
}

/// Extending both vectors by one coordinate adds that coordinate's squared
/// difference.
pub proof fn lemma_squared_distance_step(a: Seq<i64>, b: Seq<i64>, k: int)
    requires
        0 <= k < a.len(),
        k < b.len(),
    ensures
        squared_distance(a.take(k + 1), b.take(k + 1)) == squared_distance(a.take(k), b.take(k))
            + (a[k] - b[k]) * (a[k] - b[k]),
{
    assert(a.take(k + 1).drop_last() =~= a.take(k));
    assert(b.take(k + 1).drop_last() =~= b.take(k));
}

/// The squared distance over a prefix never exceeds the squared distance
/// over the whole vectors.
pub proof fn lemma_squared_distance_prefix(a: Seq<i64>, b: Seq<i64>, k: int)
    requires
        a.len() == b.len(),
        0 <= k <= a.len(),
    ensures
        squared_distance(a.take(k), b.take(k)) <= squared_distance(a, b),
    decreases a.len() - k,
{
    if k == a.len() {
        assert(a.take(k) =~= a);
        assert(b.take(k) =~= b);
    } else {
        lemma_squared_distance_step(a, b, k);
        lemma_squared_distance_prefix(a, b, k + 1);
        let d = a[k] - b[k];
        assert(d * d >= 0) by (nonlinear_arith);
    }
}

/// The distance from a vector to itself is zero.
pub proof fn lemma_distance_to_self(v: Seq<i64>)
    ensures
        squared_distance(v, v) == 0,
        distance(v, v) == 0,
    decreases v.len(),
{
    if v.len() > 0 {
        lemma_distance_to_self(v.drop_last());
    }
    assert(is_sqrt_floor(0, 0));
    lemma_sqrt_floor_is(0, 0);
}

/// The integer part of the square root of `value`.
pub fn integer_sqrt(value: u128) -> (root: u64)
    ensures
        is_sqrt_floor(root as int, value as int),
        root == sqrt_floor(value as int),
{
    let mut low: u128 = 0;
    let mut high: u128 = 0x1_0000_0000_0000_0000;
    assert(value < high * high) by (nonlinear_arith)
        requires
            high == 0x1_0000_0000_0000_0000,
            value <= u128::MAX,
    ;
    while high - low > 1
        invariant
            low < high <= 0x1_0000_0000_0000_0000,
            low * low <= value < high * high,
        decreases high - low,
    {
        let middle: u128 = low + (high - low) / 2;
        assert(middle * middle <= 0xffff_ffff_ffff_ffff * 0xffff_ffff_ffff_ffff) by (nonlinear_arith)
            requires
                0 <= middle <= 0xffff_ffff_ffff_ffff,
        ;
        if middle * middle <= value {
            low = middle;
        } else {
            high = middle;
        }
    }
    proof {
        lemma_sqrt_floor_is(low as int, value as int);
    }
    low as u64
}

/// The Euclidean distance between two feature vectors of equal length,
/// rounded down to a whole number of fixed-point steps.
///
/// A distance too large for 64 bits, which is the case exactly when the sum
/// of squares does not fit 128 bits, comes back as `u64::MAX`.
pub fn euclidean_distance(a: Vec<i64>, b: Vec<i64>) -> (d: u64)
    requires
        a.len() == b.len(),
    ensures
        squared_distance(a@, b@) <= u128::MAX ==> is_sqrt_floor(
            d as int,
            squared_distance(a@, b@),
        ) && d == distance(a@, b@),
        squared_distance(a@, b@) > u128::MAX ==> d == u64::MAX,
        a@ == b@ ==> d == 0,
{
    proof {
        if a@ == b@ {
            lemma_distance_to_self(a@);
        }
    }
    match squared_sum(&a, &b) {
        Some(total) => integer_sqrt(total),
        None => u64::MAX,
    }
}

/// The sum of the squared differences of two vectors of equal length, or
/// `None` when it does not fit 128 bits.
pub fn squared_sum(a: &Vec<i64>, b: &Vec<i64>) -> (sum: Option<u128>)
    requires
        a.len() == b.len(),
    ensures
        match sum {
            Some(total) => total == squared_distance(a@, b@),
            None => squared_distance(a@, b@) > u128::MAX,
        },
{
    let mut total: u128 = 0;
    let mut k: usize = 0;
    while k < a.len()
        invariant
            k <= a.len(),
            a.len() == b.len(),
            total == squared_distance(a@.take(k as int), b@.take(k as int)),
        decreases a.len() - k,
    {
        let gap: u128 = if a[k] >= b[k] {
            (a[k] as i128 - b[k] as i128) as u128
        } else {
            (b[k] as i128 - a[k] as i128) as u128
        };
        proof {
            lemma_squared_distance_step(a@, b@, k as int);
            lemma_squared_distance_prefix(a@, b@, k as int + 1);
            let d = a@[k as int] - b@[k as int];
            assert(gap * gap == d * d) by (nonlinear_arith)
                requires
                    gap == d || gap == -d,
            ;
            assert(gap * gap <= 0xffff_ffff_ffff_ffff * 0xffff_ffff_ffff_ffff) by (nonlinear_arith)
                requires
                    0 <= gap <= 0xffff_ffff_ffff_ffff,
            ;
        }
        match total.checked_add(gap * gap) {
            Some(next) => {
                total = next;
            },
            None => {
                return None;
            },
        }
        k += 1;
    }
    proof {
        assert(a@.take(k as int) =~= a@);
        assert(b@.take(k as int) =~= b@);
    }
    Some(total)
}

} // verus!
