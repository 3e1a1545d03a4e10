//! Bucketed mean-reduction: an oversized time series is reduced to a
//! bounded point count by averaging consecutive, non-overlapping
//! buckets.
use vstd::prelude::*;

use vstd::arithmetic::div_mod::lemma_div_by_self;
use vstd::arithmetic::div_mod::lemma_div_is_ordered;
use vstd::arithmetic::div_mod::lemma_fundamental_div_mod;
use vstd::arithmetic::div_mod::lemma_fundamental_div_mod_converse_div;
use vstd::arithmetic::div_mod::lemma_fundamental_div_mod_converse_mod;
use vstd::arithmetic::mul::lemma_mul_inequality;

use crate::telemetry::TimeSeriesPoint;

verus! {

/// Sum of the values in a sequence of points.
pub open spec fn sum_values(s: Seq<TimeSeriesPoint>) -> int
    decreases s.len(),
{
    if s.len() == 0 {
        0
    } else {
        sum_values(s.drop_last()) + s.last().value
    }
}

/// Number of buckets of size `b` needed to cover `len` elements.
pub open spec fn bucket_count(len: int, b: int) -> int {
    len / b + if len % b == 0 { 0int } else { 1int }
}

/// The bucket size chosen to reduce `len` points to at most `max`: the
/// ceiling of `len / max`. A bound of zero puts everything in one
/// bucket.
pub open spec fn bucket_size_for(len: int, max: int) -> int {
    if max == 0 {
        len
    } else {
        len / max + if len % max == 0 { 0int } else { 1int }
    }
}

/// The i-th bucket: `b` consecutive points starting at `i * b` (the
/// final bucket may be shorter).
pub open spec fn bucket_of(s: Seq<TimeSeriesPoint>, b: int, i: int) -> Seq<TimeSeriesPoint> {
    s.subrange(
        i * b,
        if (i + 1) * b <= s.len() {
            (i + 1) * b
        } else {
            s.len() as int
        },
    )
}

/// One output point per bucket: the middle element's timestamp and the
/// floor of the arithmetic mean of the values.
pub open spec fn bucket_point(bucket: Seq<TimeSeriesPoint>) -> TimeSeriesPoint {
    TimeSeriesPoint {
        time_ms: bucket[bucket.len() as int / 2].time_ms,
        value: (sum_values(bucket) / bucket.len() as int) as i64,
    }
}

/// What downsampling returns: the input itself when it already fits,
/// else one mean point per bucket.
pub open spec fn spec_downsample(s: Seq<TimeSeriesPoint>, max: int) -> Seq<TimeSeriesPoint> {
    if s.len() <= max {
        s
    } else {
        let b = bucket_size_for(s.len() as int, max);
        Seq::new(bucket_count(s.len() as int, b) as nat, |i: int| bucket_point(bucket_of(s, b, i)))
    }
}

/// Start of the i-th bucket.
pub open spec fn bucket_lo(b: int, i: int) -> int {
    i * b
}

/// End (exclusive) of the i-th bucket over `len` elements.
pub open spec fn bucket_hi(len: int, b: int, i: int) -> int {
    if (i + 1) * b <= len {
        (i + 1) * b
    } else {
        len
    }
}

/// Downsampling law. A sequence that already fits within the bound is
/// returned unchanged. An oversized one yields at most `max` points,
/// one per bucket of a contiguous, non-overlapping partition that
/// covers the input: the first bucket starts at zero, each bucket ends
/// where the next begins, the last ends at the input's length, and
/// every output point is the bucket's mean point.
pub proof fn lemma_downsample_partition(s: Seq<TimeSeriesPoint>, max: int)
    requires
        1 <= max,
    ensures
        s.len() <= max ==> spec_downsample(s, max) == s,
        s.len() > max ==> ({
            let n = s.len() as int;
            let b = bucket_size_for(n, max);
            let r = spec_downsample(s, max);
            &&& 1 <= b
            &&& r.len() == bucket_count(n, b)
            &&& r.len() <= max
            &&& forall|i: int|
                0 <= i < r.len() ==> r[i] == bucket_point(
                    s.subrange(bucket_lo(b, i), #[trigger] bucket_hi(n, b, i)),
                )
            &&& forall|i: int| 0 <= i < r.len() ==> bucket_lo(b, i) < #[trigger] bucket_hi(n, b, i) <= n
            &&& bucket_lo(b, 0) == 0
            &&& forall|i: int| 0 <= i < r.len() - 1 ==> #[trigger] bucket_hi(n, b, i) == bucket_lo(b, i + 1)
            &&& bucket_hi(n, b, r.len() - 1) == n
        }),
{
    if s.len() > max {
        let n = s.len() as int;
        let b = bucket_size_for(n, max);
        let count = bucket_count(n, b);
        let r = spec_downsample(s, max);
        let qm = n / max;
        let rm = n % max;
        lemma_fundamental_div_mod(n, max);
        vstd::arithmetic::div_mod::lemma_mod_bound(n, max);
        lemma_div_by_self(max);
        lemma_div_is_ordered(max, n, max);
        assert(1 <= b);
        // the chosen bucket size covers the input within max buckets
        assert(max * b >= n) by {
            if rm == 0 {
                assert(max * b == max * qm);
            } else {
                assert(max * (qm + 1) == max * qm + max) by (nonlinear_arith);
            }
        }
        let qb = n / b;
        let rb = n % b;
        lemma_fundamental_div_mod(n, b);
        vstd::arithmetic::div_mod::lemma_mod_bound(n, b);
        vstd::arithmetic::div_mod::lemma_div_pos_is_pos(n, b);
        assert(count <= max) by {
            if rb == 0 {
                lemma_div_is_ordered(n, max * b, b);
                assert(max * (b as int) + 0 == b * max) by (nonlinear_arith);
                lemma_fundamental_div_mod_converse_div(max * b, b, max, 0);
            } else {
                // a nonzero remainder leaves the multiple strictly above n
                assert(n < max * b) by {
                    if n == max * b {
                        assert(max * (b as int) + 0 == n) by (nonlinear_arith)
                            requires n == max * b;
                        lemma_fundamental_div_mod_converse_mod(n, b, max, 0);
                    }
                }
                lemma_div_is_ordered(n, max * b - 1, b);
                assert((max - 1) * (b as int) + (b - 1) == max * b - 1) by (nonlinear_arith);
                lemma_fundamental_div_mod_converse_div(max * b - 1, b, max - 1, b - 1);
            }
        }
        assert(r.len() == count);
        // every bucket but the last ends exactly b past its start
        assert((count - 1) * b < n) by {
            if rb == 0 {
                assert((qb - 1) * (b as int) == b * qb - b) by (nonlinear_arith);
            } else {
                assert(qb * (b as int) == b * qb) by (nonlinear_arith);
            }
        }
        assert(count * b >= n) by {
            if rb == 0 {
                assert(qb * (b as int) == b * qb) by (nonlinear_arith);
            } else {
                assert((qb + 1) * (b as int) == b * qb + b) by (nonlinear_arith);
            }
        }
        assert forall|i: int| 0 <= i < count implies bucket_lo(b, i) < #[trigger] bucket_hi(n, b, i)
            <= n by {
            lemma_mul_inequality(i, count - 1, b);
            assert(i * b <= (count - 1) * b);
            assert(bucket_lo(b, i) < n);
            assert((i + 1) * b == i * b + b) by (nonlinear_arith);
        }
        assert forall|i: int| 0 <= i < count - 1 implies #[trigger] bucket_hi(n, b, i) == bucket_lo(
            b,
            i + 1,
        ) by {
            lemma_mul_inequality(i + 1, count - 1, b);
        }
        assert(bucket_hi(n, b, count - 1) == n) by {
            assert(((count - 1) + 1) * b == count * b) by (nonlinear_arith);
        }
        assert forall|i: int| 0 <= i < count implies r[i] == bucket_point(
            s.subrange(bucket_lo(b, i), #[trigger] bucket_hi(n, b, i)),
        ) by {
            assert(bucket_of(s, b, i) == s.subrange(bucket_lo(b, i), bucket_hi(n, b, i)));
        }
        assert(bucket_lo(b, 0) == 0) by (nonlinear_arith);
    }
}

/// Floor of `sum / len`, computed on magnitudes so that only unsigned
/// division is needed.
fn mean_value(sum: i128, len: usize) -> (r: i64)
    requires
        1 <= len,
        len as int * (i64::MIN as int) <= sum as int <= len as int * (i64::MAX as int),
    ensures
        r as int == sum as int / len as int,
{
    let l = len as u128;
    proof {
        lemma_mul_inequality(len as int, 0xffff_ffff_ffff_ffff, 0x8000_0000_0000_0000);
        assert(len as int * (i64::MIN as int) == -(len as int * 0x8000_0000_0000_0000))
            by (nonlinear_arith);
    }
    if sum >= 0 {
        let q: u128 = (sum as u128) / l;
        proof {
            let s = sum as int;
            let d = len as int;
            // the quotient fits in an i64 because the mean of i64 values does
            lemma_div_is_ordered(s, d * (i64::MAX as int), d);
            lemma_fundamental_div_mod_converse_div(d * (i64::MAX as int), d, i64::MAX as int, 0);
            assert((i64::MAX as int) * d + 0 == d * (i64::MAX as int)) by (nonlinear_arith);
            vstd::arithmetic::div_mod::lemma_div_pos_is_pos(s, d);
        }
        q as i64
    } else {
        let m: u128 = (-sum) as u128;
        let q: u128 = (m + (l - 1)) / l;
        proof {
            let s = sum as int;
            let d = len as int;
            let mi = m as int;
            let q0 = mi / d;
            let r0 = mi % d;
            lemma_fundamental_div_mod(mi, d);
            vstd::arithmetic::div_mod::lemma_div_pos_is_pos(mi, d);
            vstd::arithmetic::div_mod::lemma_mod_bound(mi, d);
            if r0 == 0 {
                // mi + d - 1 == q0 * d + (d - 1)
                assert(q0 * d + (d - 1) == d * q0 + r0 + d - 1) by (nonlinear_arith)
                    requires r0 == 0;
                lemma_fundamental_div_mod_converse_div(mi + d - 1, d, q0, d - 1);
                // s == -mi == (-q0) * d + 0
                assert((-q0) * d + 0 == -(d * q0 + r0)) by (nonlinear_arith)
                    requires r0 == 0;
                lemma_fundamental_div_mod_converse_div(s, d, -q0, 0);
            } else {
                assert((q0 + 1) * d + (r0 - 1) == d * q0 + r0 + d - 1) by (nonlinear_arith);
                lemma_fundamental_div_mod_converse_div(mi + d - 1, d, q0 + 1, r0 - 1);
                assert((-(q0 + 1)) * d + (d - r0) == -(d * q0 + r0)) by (nonlinear_arith);
                lemma_fundamental_div_mod_converse_div(s, d, -(q0 + 1), d - r0);
            }
            // the quotient's magnitude is bounded by -i64::MIN
            lemma_div_is_ordered(mi + d - 1, d * (0x8000_0000_0000_0000) + d - 1, d);
            lemma_fundamental_div_mod_converse_div(
                d * 0x8000_0000_0000_0000 + d - 1,
                d,
                0x8000_0000_0000_0000,
                d - 1,
            );
            assert(0x8000_0000_0000_0000 * d + (d - 1) == d * 0x8000_0000_0000_0000 + d - 1)
                by (nonlinear_arith);
        }
        let neg: i128 = -(q as i128);
        neg as i64
    }
}

/// Reduces an oversized point sequence to at most `max_points` bucket
/// means; a sequence that already fits is returned unchanged.
#[verifier::loop_isolation(false)]
#[verifier::rlimit(60)]
pub fn downsample(points: Vec<TimeSeriesPoint>, max_points: usize) -> (r: Vec<TimeSeriesPoint>)
    ensures
        r@ == spec_downsample(points@, max_points as int),
{
    let n: usize = points.len();
    if n <= max_points {
        return points;
    }
    let b: usize = if max_points == 0 {
        n
    } else {
        let q = n / max_points;
        if n % max_points == 0 {
            q
        } else {
            proof {
                // a nonzero remainder means the divisor is at least 2
                vstd::arithmetic::div_mod::lemma_div_is_ordered_by_denominator(n as int, 2, max_points as int);
                vstd::arithmetic::div_mod::lemma_div_is_strictly_smaller(n as int, 2);
            }
            q + 1
        }
    };
    proof {
        assert(b as int == bucket_size_for(n as int, max_points as int));
        if max_points > 0 {
            lemma_div_by_self(max_points as int);
            lemma_div_is_ordered(max_points as int, n as int, max_points as int);
        }
        assert(b >= 1);
    }
    let ghost count = bucket_count(n as int, b as int);
    let ghost target = Seq::new(count as nat, |i: int| bucket_point(bucket_of(points@, b as int, i)));
    let mut out: Vec<TimeSeriesPoint> = Vec::new();
    let mut start: usize = 0;
    proof {
        assert(0int * (b as int) == 0) by (nonlinear_arith);
        assert(out@ =~= target.take(0));
    }
    while start < n
        invariant
            start <= n,
            start < n ==> start as int == out@.len() * b,
            start == n ==> out@.len() as int == count,
            out@.len() <= count,
            out@ == target.take(out@.len() as int),
        decreases n - start,
    {
        let ghost i = out@.len() as int;
        let end: usize = if n - start <= b { n } else { start + b };
        let mut sum: i128 = 0;
        let mut k: usize = start;
        while k < end
            invariant
                start <= k <= end <= n,
                sum as int == sum_values(points@.subrange(start as int, k as int)),
                (k - start) * (i64::MIN as int) <= sum as int <= (k - start) * (i64::MAX as int),
            decreases end - k,
        {
            let v = points[k].value;
            proof {
                assert(points@.subrange(start as int, k + 1).drop_last() =~= points@.subrange(
                    start as int,
                    k as int,
                ));
                assert(points@.subrange(start as int, k + 1).last() == points@[k as int]);
            }
            sum = sum + (v as i128);
            k += 1;
        }
        let blen: usize = end - start;
        let mean = mean_value(sum, blen);
        let mid: usize = start + blen / 2;
        let p = TimeSeriesPoint { time_ms: points[mid].time_ms, value: mean };
        proof {
            assert((i + 1) * b == i * b + b) by (nonlinear_arith);
            if i >= count {
                lemma_mul_inequality(count, i, b as int);
                assert(count * b >= n as int) by {
                    let q = n as int / b as int;
                    let r = n as int % b as int;
                    lemma_fundamental_div_mod(n as int, b as int);
                    vstd::arithmetic::div_mod::lemma_mod_bound(n as int, b as int);
                    if r == 0 {
                        assert(count * b == b as int * q) by (nonlinear_arith)
                            requires count == q;
                    } else {
                        assert(count * b == b as int * q + b) by (nonlinear_arith)
                            requires count == q + 1;
                    }
                }
                assert(false);
            }
            let bk = bucket_of(points@, b as int, i);
            assert(bk =~= points@.subrange(start as int, end as int));
            assert(bk.len() == blen);
            assert(bk[blen as int / 2] == points@[mid as int]);
            assert(sum_values(bk) == sum as int);
            assert(p == bucket_point(bk));
            assert(target[i] == p);
            assert(target.take(i + 1) =~= target.take(i).push(p));
        }
        out.push(p);
        start = end;
        proof {
            if end < n {
            } else {
                // the final bucket reaches the end: i + 1 buckets cover n
                let q = n as int / b as int;
                let r = n as int % b as int;
                if n as int == (i + 1) * b {
                    assert((i + 1) * (b as int) + 0 == (i + 1) * b) by (nonlinear_arith);
                    lemma_fundamental_div_mod_converse_div(n as int, b as int, i + 1, 0);
                    lemma_fundamental_div_mod_converse_mod(n as int, b as int, i + 1, 0);
                    assert(out@.len() as int == count);
                } else {
                    let rr = n as int - i * b;
                    assert(i * (b as int) + rr == n as int);
                    lemma_fundamental_div_mod_converse_div(n as int, b as int, i, rr);
                    lemma_fundamental_div_mod_converse_mod(n as int, b as int, i, rr);
                    assert(out@.len() as int == count);
                }
            }
        }
    }
    proof {
        assert(target.take(count) =~= target);
    }
    out
}

} // verus!
