//! Frame-time statistics.
//!
//! Frame times are held as whole nanoseconds (one millisecond is 1_000_000).
//! FPS values are reported in tenths of a frame per second and busy times in
//! hundredths of a millisecond, each rounded half up at the moment it is
//! reported; all sums are taken exactly.

use vstd::arithmetic::div_mod::lemma_fundamental_div_mod_converse_div;
use vstd::prelude::*;
use vstd::relations::{sorted_by, total_ordering};

verus! {

/// Tenths of an FPS for a mean frame time of one nanosecond
/// (10 * 1000 ms/s * 1_000_000 ns/ms).
pub const FPS_TENTHS_NUMERATOR: u128 = 10_000_000_000;

/// `num / den` rounded to the nearest integer, halves rounded up.
pub open spec fn round_div(num: int, den: int) -> int
    recommends
        den > 0,
{
    (2 * num + den) / (2 * den)
}

/// Exact sum of a sequence of frame times.
pub open spec fn total(s: Seq<u64>) -> int
    decreases s.len(),
{
    if s.len() == 0 {
        0
    } else {
        total(s.drop_last()) + s.last()
    }
}

/// FPS in tenths for `count` frames that took `total_ns` nanoseconds together:
/// `1000 / mean_ms`, rounded to one decimal; zero where the mean is not positive.
pub open spec fn fps_tenths(total_ns: int, count: int) -> int {
    if total_ns <= 0 || count <= 0 {
        0
    } else {
        round_div(FPS_TENTHS_NUMERATOR * count, total_ns)
    }
}

/// FPS in tenths derived from the mean of `s`.
pub open spec fn mean_fps(s: Seq<u64>) -> int {
    fps_tenths(total(s), s.len() as int)
}

/// Computes `round_div(num, den)` on machine integers without overflow.
pub fn rounded_div(num: u128, den: u128) -> (r: u128)
    requires
        den > 0,
    ensures
        r == round_div(num as int, den as int),
{
    let q = num / den;
    let rem = num % den;
    proof {
        let (n, d, qi, ri) = (num as int, den as int, q as int, rem as int);
        assert(n == qi * d + ri) by (nonlinear_arith)
            requires qi == n / d, ri == n % d, d > 0;
        if 2 * ri >= d {
            assert(2 * n + d == (qi + 1) * (2 * d) + (2 * ri - d)) by (nonlinear_arith)
                requires n == qi * d + ri;
            lemma_fundamental_div_mod_converse_div(2 * n + d, 2 * d, qi + 1, 2 * ri - d);
        } else {
            assert(2 * n + d == qi * (2 * d) + (2 * ri + d)) by (nonlinear_arith)
                requires n == qi * d + ri;
            lemma_fundamental_div_mod_converse_div(2 * n + d, 2 * d, qi, 2 * ri + d);
        }
    }
    if rem >= den - rem {
        assert(q < u128::MAX) by (nonlinear_arith)
            requires q == num / den, den > 1 || rem == 0, rem >= den - rem, den > 0;
        q + 1
    } else {
        q
    }
}

/// `s` in ascending order.
pub open spec fn ascending(s: Seq<u64>) -> Seq<u64> {
    s.sort_by(|a: u64, b: u64| a <= b)
}

/// Every element is at most each one after it.
pub open spec fn is_ascending(s: Seq<u64>) -> bool {
    forall|i: int, j: int| 0 <= i < j < s.len() ==> s[i] <= s[j]
}

/// How many of `n` frames make up the worst `percentile_tenths / 10` percent:
/// the ceiling of that share of `n`, clamped to `1..=n`.
pub open spec fn worst_count(n: int, percentile_tenths: int) -> int {
    let c = (percentile_tenths * n + 999) / 1000;
    if c < 1 {
        1
    } else if c > n {
        n
    } else {
        c
    }
}

/// Sum of the `k` largest frame times of `s`.
pub open spec fn worst_total(s: Seq<u64>, k: int) -> int {
    let a = ascending(s);
    total(a.subrange(a.len() - k, a.len() as int))
}

/// Percentile-low FPS in tenths: the FPS of the mean of the worst
/// (largest) frame times that make up `percentile_tenths / 10` percent of `s`;
/// zero for an empty sequence.
pub open spec fn percentile_low(s: Seq<u64>, percentile_tenths: int) -> int {
    if s.len() == 0 {
        0
    } else {
        let k = worst_count(s.len() as int, percentile_tenths);
        fps_tenths(worst_total(s, k), k)
    }
}

proof fn lemma_ascending_order_is_total()
    ensures
        total_ordering(|a: u64, b: u64| a <= b),
{
}

/// `ascending(s)` is sorted and holds the same frame times as `s`.
pub proof fn lemma_ascending(s: Seq<u64>)
    ensures
        is_ascending(ascending(s)),
        ascending(s).to_multiset() == s.to_multiset(),
        ascending(s).len() == s.len(),
{
    lemma_ascending_order_is_total();
    s.lemma_sort_by_ensures(|a: u64, b: u64| a <= b);
    let a = ascending(s);
    assert(sorted_by(a, |a: u64, b: u64| a <= b));
    assert forall|i: int, j: int| 0 <= i < j < a.len() implies a[i] <= a[j] by {
        assert((|a: u64, b: u64| a <= b)(a[i], a[j]));
    }
    a.to_multiset_ensures();
    s.to_multiset_ensures();
}

/// Two sorted arrangements of the same frame times are equal.
pub proof fn lemma_ascending_unique(a: Seq<u64>, b: Seq<u64>)
    requires
        is_ascending(a),
        is_ascending(b),
        a.to_multiset() == b.to_multiset(),
    ensures
        a == b,
    decreases a.len(),
{
    a.to_multiset_ensures();
    b.to_multiset_ensures();
    if a.len() == 0 {
        assert(b.len() == 0);
        assert(a =~= b);
    } else {
        assert(b.len() == a.len());
        let (x, y) = (a.last(), b.last());
        let (ra, rb) = (a.drop_last(), b.drop_last());
        assert(ra.push(x) =~= a);
        assert(rb.push(y) =~= b);
        ra.to_multiset_ensures();
        rb.to_multiset_ensures();
        assert(a[a.len() - 1] == x);
        assert(b[b.len() - 1] == y);
        assert(a.contains(x));
        assert(b.contains(y));
        assert(b.to_multiset().count(y) > 0);
        assert(a.to_multiset().count(x) > 0);
        assert(a.contains(y));
        assert(b.contains(x));
        let i = choose|i: int| 0 <= i < a.len() && a[i] == y;
        let j = choose|j: int| 0 <= j < b.len() && b[j] == x;
        if i < a.len() - 1 {
            assert(a[i] <= a[a.len() - 1]);
        }
        if j < b.len() - 1 {
            assert(b[j] <= b[b.len() - 1]);
        }
        assert(y <= x);
        assert(x <= y);
        assert(a.to_multiset() == ra.to_multiset().insert(x));
        assert(b.to_multiset() == rb.to_multiset().insert(x));
        assert(ra.to_multiset() =~= rb.to_multiset()) by {
            broadcast use vstd::multiset::group_multiset_properties;
            assert forall|v: u64| ra.to_multiset().count(v) == rb.to_multiset().count(v) by {
                assert(a.to_multiset().count(v) == b.to_multiset().count(v));
                assert(ra.to_multiset().insert(x).count(v) == rb.to_multiset().insert(x).count(v));
            }
        }
        lemma_ascending_unique(ra, rb);
        assert(a =~= b);
    }
}

/// Sorts ascending in place.
///
/// Relies on `slice::sort_unstable`, which leaves the same elements in
/// ascending order.
#[verifier::external_body]
fn sort_ascending(v: &mut Vec<u64>)
    ensures
        final(v)@.to_multiset() == old(v)@.to_multiset(),
        is_ascending(final(v)@),
{
    v.sort_unstable();
}

/// Percentile-low FPS, in tenths, of `frame_times` (nanoseconds):
/// the FPS of the mean of the worst `percentile_tenths / 10` percent of frames.
pub fn percentile_low_fps(frame_times: &Vec<u64>, percentile_tenths: u64) -> (r: u128)
    ensures
        r == percentile_low(frame_times@, percentile_tenths as int),
{
    let n = frame_times.len();
    if n == 0 {
        return 0;
    }
    let mut sorted: Vec<u64> = Vec::new();
    let mut i: usize = 0;
    while i < n
        invariant
            i <= n,
            n == frame_times.len(),
            sorted@ == frame_times@.subrange(0, i as int),
        decreases n - i,
    {
        sorted.push(frame_times[i]);
        i = i + 1;
    }
    assert(sorted@ =~= frame_times@);
    sort_ascending(&mut sorted);
    proof {
        lemma_ascending(frame_times@);
        lemma_ascending_unique(sorted@, ascending(frame_times@));
    }
    assert(percentile_tenths as u128 * n as u128 + 999 <= u128::MAX) by (nonlinear_arith)
        requires percentile_tenths <= u64::MAX, n <= u64::MAX;
    let c: u128 = (percentile_tenths as u128 * n as u128 + 999) / 1000;
    let k: usize = if c < 1 {
        1
    } else if c > n as u128 {
        n
    } else {
        c as usize
    };
    let mut sum: u128 = 0;
    let mut j: usize = n - k;
    while j < n
        invariant
            1 <= k <= n,
            n - k <= j <= n,
            sorted@.len() == n,
            sum == total(sorted@.subrange(n - k, j as int)),
            sum <= (j - (n - k)) * (u64::MAX as int),
        decreases n - j,
    {
        proof {
            let prev = sorted@.subrange(n - k, j as int);
            assert(sorted@.subrange(n - k, j + 1).drop_last() =~= prev);
        }
        sum = sum + sorted[j] as u128;
        j = j + 1;
    }
    let r = if sum == 0 {
        0
    } else {
        rounded_div(FPS_TENTHS_NUMERATOR * k as u128, sum)
    };
    r
}

proof fn lemma_total_concat(x: Seq<u64>, y: Seq<u64>)
    ensures
        total(x + y) == total(x) + total(y),
    decreases y.len(),
{
    if y.len() == 0 {
        assert(x + y =~= x);
    } else {
        lemma_total_concat(x, y.drop_last());
        assert((x + y).drop_last() =~= x + y.drop_last());
    }
}

proof fn lemma_total_nonneg(s: Seq<u64>)
    ensures
        total(s) >= 0,
    decreases s.len(),
{
    if s.len() > 0 {
        lemma_total_nonneg(s.drop_last());
    }
}

/// Sequences that hold the same frame times have the same total.
proof fn lemma_total_permutation(a: Seq<u64>, b: Seq<u64>)
    requires
        a.to_multiset() == b.to_multiset(),
    ensures
        total(a) == total(b),
    decreases a.len(),
{
    broadcast use vstd::multiset::group_multiset_properties;

    a.to_multiset_ensures();
    b.to_multiset_ensures();
    if a.len() == 0 {
        assert(b.len() == 0);
        assert(b =~= a);
    } else {
        let x = a.last();
        let ra = a.drop_last();
        assert(ra.push(x) =~= a);
        ra.to_multiset_ensures();
        assert(a[a.len() - 1] == x);
        assert(a.to_multiset().count(x) > 0);
        assert(b.contains(x));
        let i = choose|i: int| 0 <= i < b.len() && b[i] == x;
        let rb = b.remove(i);
        assert(rb.to_multiset() =~= ra.to_multiset()) by {
            assert forall|v: u64| rb.to_multiset().count(v) == ra.to_multiset().count(v) by {
                assert(ra.to_multiset().insert(x).count(v) == a.to_multiset().count(v));
                assert(b.to_multiset().remove(x).count(v) == rb.to_multiset().count(v));
            }
        }
        lemma_total_permutation(ra, rb);
        let (l, r) = (b.subrange(0, i), b.subrange(i + 1, b.len() as int));
        assert(b =~= l.push(x) + r);
        assert(rb =~= l + r);
        lemma_total_concat(l.push(x), r);
        lemma_total_concat(l, r);
        assert(l.push(x).drop_last() =~= l);
    }
}

/// Sum of the last `k` elements of `t`.
spec fn tail_total(t: Seq<u64>, k: int) -> int {
    total(t.subrange(t.len() - k, t.len() as int))
}

proof fn lemma_total_at_least(s: Seq<u64>, x: u64)
    requires
        forall|i: int| 0 <= i < s.len() ==> x <= s[i],
    ensures
        total(s) >= s.len() * x,
    decreases s.len(),
{
    if s.len() > 0 {
        lemma_total_at_least(s.drop_last(), x);
        assert(total(s) >= s.len() * x) by (nonlinear_arith)
            requires
                total(s) == total(s.drop_last()) + s.last(),
                total(s.drop_last()) >= (s.len() - 1) * x,
                x <= s.last(),
        ;
    }
}

/// In a sorted sequence, the mean of the last `k` elements does not grow with `k`,
/// and their total does not shrink.
proof fn lemma_tail_means(t: Seq<u64>, k1: int, k2: int)
    requires
        is_ascending(t),
        1 <= k1 <= k2 <= t.len(),
    ensures
        k1 * tail_total(t, k2) <= k2 * tail_total(t, k1),
        tail_total(t, k1) <= tail_total(t, k2),
    decreases k2 - k1,
{
    if k1 < k2 {
        let k = k2 - 1;
        lemma_tail_means(t, k1, k);
        let n = t.len() as int;
        let x = t[n - k2];
        let rest = t.subrange(n - k, n);
        assert(t.subrange(n - k2, n) =~= seq![x] + rest);
        lemma_total_concat(seq![x], rest);
        assert(seq![x].drop_last() =~= Seq::<u64>::empty());
        assert(total(Seq::<u64>::empty()) == 0);
        assert(total(seq![x]) == total(seq![x].drop_last()) + seq![x].last());
        assert(total(seq![x]) == x);
        assert forall|i: int| 0 <= i < rest.len() implies x <= rest[i] by {
            assert(rest[i] == t[n - k + i]);
        }
        lemma_total_at_least(rest, x);
        let (a, b, c) = (tail_total(t, k1), tail_total(t, k), tail_total(t, k2));
        assert(c == x + b);
        assert(k * c <= k2 * b) by (nonlinear_arith)
            requires c == x + b, b >= k * x, k2 == k + 1;
        assert(k1 * c <= k2 * a) by (nonlinear_arith)
            requires k * c <= k2 * b, k1 * b <= k * a, k >= 1, k1 >= 1, k2 == k + 1;
    } else {
    }
}

proof fn lemma_round_div_monotone(n1: int, d1: int, n2: int, d2: int)
    requires
        d1 > 0,
        d2 > 0,
        n1 >= 0,
        n2 >= 0,
        n1 * d2 <= n2 * d1,
    ensures
        round_div(n1, d1) <= round_div(n2, d2),
{
    let q1 = round_div(n1, d1);
    let q2 = round_div(n2, d2);
    assert(q1 * (2 * d1) <= 2 * n1 + d1) by (nonlinear_arith)
        requires q1 == (2 * n1 + d1) / (2 * d1), d1 > 0;
    assert(q1 * (2 * d2) <= 2 * n2 + d2) by (nonlinear_arith)
        requires q1 * (2 * d1) <= 2 * n1 + d1, n1 * d2 <= n2 * d1, d1 > 0, d2 > 0;
    assert(q1 <= q2) by (nonlinear_arith)
        requires q1 * (2 * d2) <= 2 * n2 + d2, q2 == (2 * n2 + d2) / (2 * d2), d2 > 0;
}

proof fn lemma_worst_count_monotone(n: int, pa: int, pb: int)
    requires
        n >= 1,
        0 <= pa <= pb,
    ensures
        1 <= worst_count(n, pa) <= worst_count(n, pb) <= n,
{
    assert(pa * n + 999 <= pb * n + 999) by (nonlinear_arith)
        requires pa <= pb, n >= 1;
    vstd::arithmetic::div_mod::lemma_div_is_ordered(pa * n + 999, pb * n + 999, 1000);
}

/// The percentile-low over the whole sequence (100 percent) is the FPS of
/// the sequence's mean frame time.
pub proof fn lemma_full_percentile_is_mean(s: Seq<u64>)
    requires
        s.len() > 0,
    ensures
        percentile_low(s, 1000) == mean_fps(s),
{
    let n = s.len() as int;
    assert((1000 * n + 999) / 1000 == n);
    lemma_ascending(s);
    let a = ascending(s);
    assert(a.subrange(0, n) =~= a);
    lemma_total_permutation(a, s);
}

/// A smaller percentile selects fewer and worse frames, so its percentile-low
/// FPS is no higher.
pub proof fn lemma_percentile_low_monotone(s: Seq<u64>, pa: int, pb: int)
    requires
        0 <= pa <= pb,
    ensures
        percentile_low(s, pa) <= percentile_low(s, pb),
{
    if s.len() > 0 {
        let n = s.len() as int;
        lemma_worst_count_monotone(n, pa, pb);
        lemma_ascending(s);
        let a = ascending(s);
        let (k1, k2) = (worst_count(n, pa), worst_count(n, pb));
        lemma_tail_means(a, k1, k2);
        let (t1, t2) = (worst_total(s, k1), worst_total(s, k2));
        lemma_total_nonneg(a.subrange(n - k1, n));
        if t1 > 0 {
            let c = FPS_TENTHS_NUMERATOR as int;
            assert((c * k1) * t2 <= (c * k2) * t1) by (nonlinear_arith)
                requires k1 * t2 <= k2 * t1, c > 0;
            assert(c * k1 >= 0 && c * k2 >= 0) by (nonlinear_arith)
                requires k1 >= 1, k2 >= 1, c > 0;
            lemma_round_div_monotone(c * k1, t1, c * k2, t2);
        }
    }
}

/// The 0.1% low is at most the 1% low, which is at most the FPS of the mean.
pub proof fn lemma_lows_ordered(s: Seq<u64>)
    requires
        s.len() > 0,
    ensures
        percentile_low(s, 1) <= percentile_low(s, 10),
        percentile_low(s, 10) <= mean_fps(s),
{
    lemma_percentile_low_monotone(s, 1, 10);
    lemma_percentile_low_monotone(s, 10, 1000);
    lemma_full_percentile_is_mean(s);
}

proof fn lemma_seq_max(s: Seq<u64>)
    requires
        s.len() > 0,
    ensures
        forall|i: int| 0 <= i < s.len() ==> s[i] <= seq_max(s),
        s.contains(seq_max(s)),
    decreases s.len(),
{
    if s.len() > 1 {
        lemma_seq_max(s.drop_last());
        assert forall|i: int| 0 <= i < s.len() implies s[i] <= seq_max(s) by {
            if i < s.len() - 1 {
                assert(s[i] == s.drop_last()[i]);
            }
        }
        if seq_max(s) != s.last() {
            let j = choose|j: int| 0 <= j < s.drop_last().len() && s.drop_last()[j] == seq_max(s.drop_last());
            assert(s[j] == seq_max(s));
        } else {
            assert(s[s.len() - 1] == seq_max(s));
        }
    } else {
        assert(s[0] == seq_max(s));
    }
}

proof fn lemma_seq_min(s: Seq<u64>)
    requires
        s.len() > 0,
    ensures
        forall|i: int| 0 <= i < s.len() ==> seq_min(s) <= s[i],
    decreases s.len(),
{
    if s.len() > 1 {
        lemma_seq_min(s.drop_last());
        assert forall|i: int| 0 <= i < s.len() implies seq_min(s) <= s[i] by {
            if i < s.len() - 1 {
                assert(s[i] == s.drop_last()[i]);
            }
        }
    }
}

proof fn lemma_total_at_most(s: Seq<u64>, x: u64)
    requires
        forall|i: int| 0 <= i < s.len() ==> s[i] <= x,
    ensures
        total(s) <= s.len() * x,
    decreases s.len(),
{
    if s.len() > 0 {
        lemma_total_at_most(s.drop_last(), x);
        assert(total(s) <= s.len() * x) by (nonlinear_arith)
            requires
                total(s) == total(s.drop_last()) + s.last(),
                total(s.drop_last()) <= (s.len() - 1) * x,
                s.last() <= x,
        ;
    }
}

/// The FPS of the longest frame is at most any percentile-low FPS.
pub proof fn lemma_slowest_frame_below_lows(s: Seq<u64>, pct: int)
    requires
        s.len() > 0,
        pct >= 0,
    ensures
        fps_tenths(seq_max(s) as int, 1) <= percentile_low(s, pct),
{
    let n = s.len() as int;
    lemma_ascending(s);
    let a = ascending(s);
    lemma_seq_max(s);
    let m = seq_max(s);
    a.to_multiset_ensures();
    s.to_multiset_ensures();
    // the last of the sorted frames is the longest one
    assert(a.to_multiset().count(m) > 0);
    assert(a.contains(m));
    let j = choose|j: int| 0 <= j < a.len() && a[j] == m;
    if j < n - 1 {
        assert(a[j] <= a[n - 1]);
    }
    assert(a.to_multiset().count(a[n - 1]) > 0);
    assert(s.contains(a[n - 1]));
    assert(a[n - 1] == m);
    lemma_worst_count_monotone(n, 0, pct);
    let k = worst_count(n, pct);
    let tail = a.subrange(n - k, n);
    assert forall|i: int| 0 <= i < tail.len() implies tail[i] <= m by {
        assert(tail[i] == a[n - k + i]);
        if n - k + i < n - 1 {
            assert(a[n - k + i] <= a[n - 1]);
        }
    }
    lemma_total_at_most(tail, m);
    assert(tail.drop_last() =~= a.subrange(n - k, n - 1));
    lemma_total_nonneg(tail.drop_last());
    let t = total(tail);
    assert(t >= m);
    if m > 0 {
        let c = FPS_TENTHS_NUMERATOR as int;
        assert((c * 1) * t <= (c * k) * m) by (nonlinear_arith)
            requires t <= k * m, c > 0;
        assert(c * k >= 0) by (nonlinear_arith)
            requires k >= 1, c > 0;
        lemma_round_div_monotone(c * 1, m as int, c * k, t);
    }
}

/// The FPS of the mean is at most the FPS of the shortest frame, where every
/// frame took some time.
pub proof fn lemma_mean_below_fastest_frame(s: Seq<u64>)
    requires
        s.len() > 0,
        forall|i: int| 0 <= i < s.len() ==> s[i] > 0,
    ensures
        mean_fps(s) <= fps_tenths(seq_min(s) as int, 1),
{
    let n = s.len() as int;
    lemma_seq_min(s);
    let m = seq_min(s);
    assert(s[0] > 0 && m <= s[0]);
    lemma_seq_max(s);
    lemma_total_at_least(s, m);
    let t = total(s);
    assert(m > 0) by {
        if s.len() == 1 {
        } else {
            lemma_seq_min_member(s);
        }
    }
    assert(t >= n * m);
    assert(t > 0) by (nonlinear_arith)
        requires t >= n * m, n >= 1, m >= 1;
    let c = FPS_TENTHS_NUMERATOR as int;
    assert((c * n) * m <= (c * 1) * t) by (nonlinear_arith)
        requires t >= n * m, c > 0, n >= 1;
    assert(c * n >= 0) by (nonlinear_arith)
        requires n >= 1, c > 0;
    lemma_round_div_monotone(c * n, t, c * 1, m as int);
}

/// Every percentile low lies between the FPS of the longest and of the
/// shortest frame; where every frame is shorter than a second, that is at
/// least 1.0 FPS.
pub proof fn lemma_percentile_low_range(s: Seq<u64>, pct: int)
    requires
        s.len() > 0,
        pct >= 0,
        forall|i: int| 0 <= i < s.len() ==> 0 < #[trigger] s[i] < 1_000_000_000,
    ensures
        10 <= fps_tenths(seq_max(s) as int, 1),
        fps_tenths(seq_max(s) as int, 1) <= percentile_low(s, pct),
        percentile_low(s, pct) <= fps_tenths(seq_min(s) as int, 1),
{
    let n = s.len() as int;
    lemma_slowest_frame_below_lows(s, pct);
    lemma_mean_below_fastest_frame(s);
    lemma_full_percentile_is_mean(s);
    if pct <= 1000 {
        lemma_percentile_low_monotone(s, pct, 1000);
    } else {
        assert((pct * n + 999) / 1000 >= n) by (nonlinear_arith)
            requires pct > 1000, n >= 1;
        assert(worst_count(n, pct) == worst_count(n, 1000));
    }
    lemma_seq_max(s);
    let m = seq_max(s) as int;
    let j = choose|j: int| 0 <= j < s.len() && s[j] == seq_max(s);
    assert(0 < m < 1_000_000_000);
    let c = FPS_TENTHS_NUMERATOR as int;
    assert(round_div(c, m) >= 10) by (nonlinear_arith)
        requires c == 10_000_000_000, 0 < m < 1_000_000_000;
}

proof fn lemma_seq_min_member(s: Seq<u64>)
    requires
        s.len() > 0,
    ensures
        s.contains(seq_min(s)),
    decreases s.len(),
{
    if s.len() > 1 {
        lemma_seq_min_member(s.drop_last());
        if seq_min(s) != s.last() {
            let j = choose|j: int| 0 <= j < s.drop_last().len() && s.drop_last()[j] == seq_min(s.drop_last());
            assert(s[j] == seq_min(s));
        } else {
            assert(s[s.len() - 1] == seq_min(s));
        }
    } else {
        assert(s[0] == seq_min(s));
    }
}

/// Rounds nanoseconds to hundredths of a millisecond.
pub open spec fn hundredths_ms(total_ns: int, count: int) -> int {
    if count <= 0 {
        0
    } else {
        round_div(total_ns, count * 10_000)
    }
}

/// Rounds milliseconds to tenths of a second.
pub open spec fn tenths_secs(ms: int) -> int {
    round_div(ms, 100)
}

/// Smallest element of a non-empty sequence.
pub open spec fn seq_min(s: Seq<u64>) -> u64
    decreases s.len(),
{
    if s.len() <= 1 {
        s[0]
    } else {
        let m = seq_min(s.drop_last());
        if s.last() < m {
            s.last()
        } else {
            m
        }
    }
}

/// Largest element of a non-empty sequence.
pub open spec fn seq_max(s: Seq<u64>) -> u64
    decreases s.len(),
{
    if s.len() <= 1 {
        s[0]
    } else {
        let m = seq_max(s.drop_last());
        if s.last() > m {
            s.last()
        } else {
            m
        }
    }
}

/// Exact sum of `v[lo..hi]`.
pub fn range_total(v: &Vec<u64>, lo: usize, hi: usize) -> (r: u128)
    requires
        lo <= hi <= v.len(),
    ensures
        r == total(v@.subrange(lo as int, hi as int)),
{
    let mut sum: u128 = 0;
    let mut j: usize = lo;
    while j < hi
        invariant
            lo <= j <= hi <= v.len(),
            sum == total(v@.subrange(lo as int, j as int)),
            sum <= (j - lo) * (u64::MAX as int),
        decreases hi - j,
    {
        assert(v@.subrange(lo as int, j + 1).drop_last() =~= v@.subrange(lo as int, j as int));
        sum = sum + v[j] as u128;
        j = j + 1;
    }
    sum
}

/// FPS in tenths for `count` frames that took `total_ns` together.
pub fn fps_tenths_of(total_ns: u128, count: u64) -> (r: u128)
    ensures
        r == fps_tenths(total_ns as int, count as int),
{
    if total_ns == 0 || count == 0 {
        0
    } else {
        rounded_div(FPS_TENTHS_NUMERATOR * count as u128, total_ns)
    }
}

/// FPS in tenths derived from the mean of `frame_times`; zero when empty.
pub fn mean_fps_tenths(frame_times: &Vec<u64>) -> (r: u128)
    ensures
        r == mean_fps(frame_times@),
{
    let n = frame_times.len();
    let sum = range_total(frame_times, 0, n);
    assert(frame_times@.subrange(0, n as int) =~= frame_times@);
    fps_tenths_of(sum, n as u64)
}

/// Mean frame time in hundredths of a millisecond; zero when empty.
pub fn mean_hundredths_ms(frame_times: &Vec<u64>) -> (r: u128)
    ensures
        r == hundredths_ms(total(frame_times@), frame_times@.len() as int),
{
    let n = frame_times.len();
    let sum = range_total(frame_times, 0, n);
    assert(frame_times@.subrange(0, n as int) =~= frame_times@);
    if n == 0 {
        0
    } else {
        rounded_div(sum, n as u128 * 10_000)
    }
}

/// One duration in nanoseconds, rounded to hundredths of a millisecond.
pub fn ns_to_hundredths_ms(ns: u64) -> (r: u64)
    ensures
        r == hundredths_ms(ns as int, 1),
{
    let r = rounded_div(ns as u128, 10_000);
    assert(r <= ns as int / 10_000 + 1) by (nonlinear_arith)
        requires r == (2 * (ns as int) + 10_000) / 20_000;
    r as u64
}

/// Milliseconds rounded to tenths of a second.
pub fn ms_to_tenths_secs(ms: u64) -> (r: u64)
    ensures
        r == tenths_secs(ms as int),
{
    let r = rounded_div(ms as u128, 100);
    assert(r <= ms as int / 100 + 1) by (nonlinear_arith)
        requires r == (2 * (ms as int) + 100) / 200;
    r as u64
}

/// Smallest and largest frame time of a non-empty sequence.
pub fn min_max(frame_times: &Vec<u64>) -> (r: (u64, u64))
    requires
        frame_times.len() > 0,
    ensures
        r.0 == seq_min(frame_times@),
        r.1 == seq_max(frame_times@),
{
    let mut lo = frame_times[0];
    let mut hi = frame_times[0];
    let mut i: usize = 1;
    while i < frame_times.len()
        invariant
            1 <= i <= frame_times.len(),
            lo == seq_min(frame_times@.subrange(0, i as int)),
            hi == seq_max(frame_times@.subrange(0, i as int)),
        decreases frame_times.len() - i,
    {
        assert(frame_times@.subrange(0, i + 1).drop_last() =~= frame_times@.subrange(0, i as int));
        let x = frame_times[i];
        if x < lo {
            lo = x;
        }
        if x > hi {
            hi = x;
        }
        i = i + 1;
    }
    assert(frame_times@.subrange(0, i as int) =~= frame_times@);
    (lo, hi)
}

} // verus!
