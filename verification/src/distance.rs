use vstd::prelude::*;
use crate::record::Record;
use crate::record::FEATURE_COUNT;

verus! {

/// Sum of the squared differences of the first `n` coordinates of `a` and `b`.
pub open spec fn squared_distance_upto(a: Seq<int>, b: Seq<int>, n: nat) -> int
    decreases n,
{
    if n == 0 {
        0
    } else {
        squared_distance_upto(a, b, (n - 1) as nat) + (a[n - 1] - b[n - 1]) * (a[n - 1] - b[n - 1])
    }
}

/// The square of the Euclidean distance between two feature vectors of equal length.
pub open spec fn squared_distance(a: Seq<int>, b: Seq<int>) -> int
    recommends
        a.len() == b.len(),
{
    squared_distance_upto(a, b, a.len())
}

/// A distance is never negative.
pub proof fn lemma_distance_nonnegative(a: Seq<int>, b: Seq<int>)
    ensures
        squared_distance(a, b) >= 0,
{
    lemma_upto_nonnegative(a, b, a.len());
}

/// A distance does not depend on the order of its two arguments.
pub proof fn lemma_distance_symmetric(a: Seq<int>, b: Seq<int>)
    requires
        a.len() == b.len(),
    ensures
        squared_distance(a, b) == squared_distance(b, a),
{
    lemma_upto_symmetric(a, b, a.len());
}

/// The distance is zero exactly between vectors that agree in every coordinate;
/// in particular every vector is at distance zero from itself.
pub proof fn lemma_distance_zero_iff_equal(a: Seq<int>, b: Seq<int>)
    requires
        a.len() == b.len(),
    ensures
        squared_distance(a, b) == 0 <==> a == b,
        squared_distance(a, a) == 0,
{
    lemma_upto_zero_iff_agree(a, b, a.len());
    lemma_upto_zero_iff_agree(a, a, a.len());
    if squared_distance(a, b) == 0 {
        assert(a =~= b);
    }
}

/// The laws of distance for records: the distance between two records is the
/// same in both directions and never negative, it is zero exactly when the
/// records agree in every feature, and so every record is at distance zero
/// from itself.
pub proof fn lemma_record_distance_laws(a: Record, b: Record)
    ensures
        squared_distance(a@.features, b@.features) == squared_distance(b@.features, a@.features),
        squared_distance(a@.features, b@.features) >= 0,
        squared_distance(a@.features, a@.features) == 0,
        squared_distance(a@.features, b@.features) == 0 <==> a@.features == b@.features,
{
    lemma_distance_symmetric(a@.features, b@.features);
    lemma_distance_nonnegative(a@.features, b@.features);
    lemma_distance_zero_iff_equal(a@.features, b@.features);
}

proof fn lemma_upto_nonnegative(a: Seq<int>, b: Seq<int>, n: nat)
    ensures
        squared_distance_upto(a, b, n) >= 0,
    decreases n,
{
    if n > 0 {
        lemma_upto_nonnegative(a, b, (n - 1) as nat);
        let d = a[n - 1] - b[n - 1];
        assert(d * d >= 0) by (nonlinear_arith);
    }
}

proof fn lemma_upto_symmetric(a: Seq<int>, b: Seq<int>, n: nat)
    ensures
        squared_distance_upto(a, b, n) == squared_distance_upto(b, a, n),
    decreases n,
{
    if n > 0 {
        lemma_upto_symmetric(a, b, (n - 1) as nat);
        let d = a[n - 1] - b[n - 1];
        let e = b[n - 1] - a[n - 1];
        assert(d * d == e * e) by (nonlinear_arith)
            requires
                e == -d,
        ;
    }
}

proof fn lemma_upto_zero_iff_agree(a: Seq<int>, b: Seq<int>, n: nat)
    ensures
        squared_distance_upto(a, b, n) == 0 <==> (forall|c: int| 0 <= c < n ==> a[c] == b[c]),
    decreases n,
{
    if n > 0 {
        lemma_upto_zero_iff_agree(a, b, (n - 1) as nat);
        lemma_upto_nonnegative(a, b, (n - 1) as nat);
        let d = a[n - 1] - b[n - 1];
        assert(d * d >= 0 && (d * d == 0 <==> d == 0)) by (nonlinear_arith);
        if squared_distance_upto(a, b, n) == 0 {
            assert forall|c: int| 0 <= c < n implies a[c] == b[c] by {
                if c < n - 1 {
                }
            }
        }
    }
}

/// Every term of the sum is bounded when the coordinates are 32-bit integers.
proof fn lemma_upto_bounded(a: Seq<int>, b: Seq<int>, n: nat)
    requires
        forall|c: int| 0 <= c < n ==> i32::MIN <= #[trigger] a[c] <= i32::MAX,
        forall|c: int| 0 <= c < n ==> i32::MIN <= #[trigger] b[c] <= i32::MAX,
    ensures
        0 <= squared_distance_upto(a, b, n) <= n * 0x1_0000_0000_0000_0000,
    decreases n,
{
    if n > 0 {
        lemma_upto_bounded(a, b, (n - 1) as nat);
        let d = a[n - 1] - b[n - 1];
        assert(0 <= d * d <= 0x1_0000_0000_0000_0000) by (nonlinear_arith)
            requires
                -0x1_0000_0000 <= d <= 0x1_0000_0000,
        ;
    }
}

/// The Euclidean distance between the feature vectors of two records, held
/// exactly as its square. Squaring keeps the order of distances, so the nearer
/// of two records is the one with the smaller result. The distance itself,
/// rounded down to a whole step, is what `euclidean_distance_floor` returns.
pub fn euclidean_distance(row1: &Record, row2: &Record) -> (squared: u128)
    ensures
        squared as int == squared_distance(row1@.features, row2@.features),
{
    let mut total: u128 = 0;
    let mut c: usize = 0;
    while c < FEATURE_COUNT
        invariant
            c <= FEATURE_COUNT,
            total as int == squared_distance_upto(row1@.features, row2@.features, c as nat),
        decreases FEATURE_COUNT - c,
    {
        proof {
            lemma_upto_bounded(row1@.features, row2@.features, (c + 1) as nat);
            lemma_upto_bounded(row1@.features, row2@.features, c as nat);
        }
        let x: i128 = row1.features[c] as i128;
        let y: i128 = row2.features[c] as i128;
        let d: i128 = x - y;
        assert(0 <= d * d <= 0x1_0000_0000_0000_0000) by (nonlinear_arith)
            requires
                -0x1_0000_0000 <= d <= 0x1_0000_0000,
        ;
        let square: i128 = d * d;
        total = total + square as u128;
        c = c + 1;
    }
    total
}

/// The square root of `squared`, rounded down: the largest whole number
/// whose square does not exceed `squared`.
pub fn floor_root(squared: u128) -> (root: u64)
    ensures
        root * root <= squared < (root + 1) * (root + 1),
{
    let mut low: u128 = 0;
    let mut high: u128 = 0x1_0000_0000_0000_0000;
    assert(0x1_0000_0000_0000_0000int * 0x1_0000_0000_0000_0000int > u128::MAX)
        by (nonlinear_arith);
    while high - low > 1
        invariant
            low < high <= 0x1_0000_0000_0000_0000,
            low * low <= squared < high * high,
        decreases high - low,
    {
        let mid: u128 = low + (high - low) / 2;
        assert(mid * mid <= u128::MAX) by (nonlinear_arith)
            requires
                0 <= mid <= 0xffff_ffff_ffff_ffff,
        ;
        if mid * mid <= squared {
            low = mid;
        } else {
            high = mid;
        }
    }
    low as u64
}

/// The Euclidean distance between the feature vectors of two records, in
/// steps and rounded down to a whole step.
pub fn euclidean_distance_floor(row1: &Record, row2: &Record) -> (distance: u64)
    ensures
        distance * distance <= squared_distance(row1@.features, row2@.features) < (distance + 1)
            * (distance + 1),
{
    floor_root(euclidean_distance(row1, row2))
}

} // verus!
