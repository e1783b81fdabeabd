//! Run statistics: latencies, success/failure counters, a status-code
//! histogram and a per-second completion histogram, with integer-exact
//! percentile, mean, variance and throughput readings.

use vstd::pervasive::VecAdditionalExecFns;
use vstd::prelude::*;

verus! {

/// Accumulates the outcomes of a benchmark run. Mutated only through the
/// `record_*` methods at a single collection point, then read out.
pub struct Stats {
    /// Exchange latency, in microseconds, of each successful iteration,
    /// in arrival order.
    pub latencies_us: Vec<u64>,
    /// Iterations whose exchange completed with an accepted status.
    pub success: usize,
    /// Iterations that failed for any reason.
    pub fail: usize,
    /// Failures while connecting or during the proxy handshake.
    pub conn_errors: usize,
    /// Failures by deadline expiry.
    pub timeout_errors: usize,
    /// Failures during the TLS handshake.
    pub tls_errors: usize,
    /// Wall-clock duration of the whole run, in milliseconds.
    pub total_duration_ms: u128,
    /// Status code -> number of exchanges that returned it; each code
    /// appears at most once.
    pub status_counts: Vec<(u16, usize)>,
    /// Completions (of any kind) per whole second since run start.
    pub rps_secs: Vec<usize>,
}

/// Number of exchanges recorded with this status code.
pub open spec fn count_for(h: Seq<(u16, usize)>, code: u16) -> int
    decreases h.len(),
{
    if h.len() == 0 {
        0
    } else {
        count_for(h.drop_last(), code) + if h.last().0 == code {
            h.last().1 as int
        } else {
            0
        }
    }
}

/// Completions recorded in second `k` (0 outside the vector).
pub open spec fn bucket_of(s: Seq<usize>, k: int) -> int {
    if 0 <= k < s.len() {
        s[k] as int
    } else {
        0
    }
}

/// Each status code appears at most once in the histogram.
pub open spec fn codes_unique(h: Seq<(u16, usize)>) -> bool {
    forall|i: int, j: int|
        0 <= i < j < h.len() ==> (#[trigger] h[i]).0 != (#[trigger] h[j]).0
}

proof fn lemma_count_for_update(h: Seq<(u16, usize)>, i: int, v: usize, code: u16)
    requires
        0 <= i < h.len(),
        h[i].0 == code,
    ensures
        forall|c: u16|
            #[trigger] count_for(h.update(i, (code, v)), c) == count_for(h, c) + if c == code {
                v - h[i].1
            } else {
                0
            },
    decreases h.len(),
{
    let hu = h.update(i, (code, v));
    if i == h.len() - 1 {
        assert(hu.drop_last() =~= h.drop_last());
        assert forall|c: u16|
            #[trigger] count_for(hu, c) == count_for(h, c) + if c == code {
                v - h[i].1
            } else {
                0int
            } by {
            assert(count_for(hu, c) == count_for(hu.drop_last(), c) + if hu.last().0 == c {
                hu.last().1 as int
            } else {
                0int
            });
        }
    } else {
        assert(hu.drop_last() =~= h.drop_last().update(i, (code, v)));
        lemma_count_for_update(h.drop_last(), i, v, code);
        assert(hu.last() == h.last());
        assert forall|c: u16|
            #[trigger] count_for(hu, c) == count_for(h, c) + if c == code {
                v - h[i].1
            } else {
                0int
            } by {
            assert(count_for(hu.drop_last(), c) == count_for(h.drop_last(), c) + if c == code {
                v - h[i].1
            } else {
                0int
            });
        }
    }
}

proof fn lemma_count_for_at(h: Seq<(u16, usize)>, i: int)
    requires
        0 <= i < h.len(),
    ensures
        h[i].1 <= count_for(h, h[i].0),
    decreases h.len(),
{
    if i < h.len() - 1 {
        lemma_count_for_at(h.drop_last(), i);
    } else {
        lemma_count_for_nonneg(h.drop_last(), h[i].0);
    }
}

proof fn lemma_count_for_nonneg(h: Seq<(u16, usize)>, code: u16)
    ensures
        count_for(h, code) >= 0,
    decreases h.len(),
{
    if h.len() > 0 {
        lemma_count_for_nonneg(h.drop_last(), code);
    }
}

proof fn lemma_count_for_absent(h: Seq<(u16, usize)>, code: u16)
    requires
        forall|i: int| 0 <= i < h.len() ==> (#[trigger] h[i]).0 != code,
    ensures
        count_for(h, code) == 0,
    decreases h.len(),
{
    if h.len() > 0 {
        lemma_count_for_absent(h.drop_last(), code);
    }
}


/// An exact nonnegative rational, numerator over denominator.
#[derive(Clone, Copy, Debug, PartialEq, Eq, Structural)]
pub struct Ratio {
    pub num: u128,
    pub den: u128,
}

/// Ascending numeric order on latencies.
pub open spec fn leq64() -> spec_fn(u64, u64) -> bool {
    |x: u64, y: u64| x <= y
}

/// The latency sequence in ascending order.
pub open spec fn sorted_lat(s: Seq<u64>) -> Seq<u64> {
    s.sort_by(leq64())
}

/// Sum of the samples.
pub open spec fn sum64(s: Seq<u64>) -> int
    decreases s.len(),
{
    if s.len() == 0 {
        0
    } else {
        sum64(s.drop_last()) + s.last()
    }
}

/// Sum of the squared samples.
pub open spec fn sumsq64(s: Seq<u64>) -> int
    decreases s.len(),
{
    if s.len() == 0 {
        0
    } else {
        sumsq64(s.drop_last()) + s.last() * s.last()
    }
}

/// The per-second completion counts widened to `u64`.
pub open spec fn as_u64s(s: Seq<usize>) -> Seq<u64> {
    Seq::new(s.len(), |i: int| s[i] as u64)
}

/// The 0-based index of the nearest-rank percentile `p_bp` (in units of
/// 1/10000) among `n` ascending samples: rank = ceil(n * p), clamped to
/// [1, n], minus one.
pub open spec fn rank_index(n: int, p_bp: int) -> int {
    let rank = (n * p_bp + 9999) / 10000;
    let idx = if rank >= 1 {
        rank - 1
    } else {
        0
    };
    if idx <= n - 1 {
        idx
    } else {
        n - 1
    }
}

/// What a percentile read returns: the sample at the nearest-rank index of
/// the ascending latencies, or nothing when no latency was recorded.
pub open spec fn percentile_post(lat: Seq<u64>, p_bp: u32, r: Option<u64>) -> bool {
    &&& (r is Some) == (lat.len() > 0)
    &&& (r matches Some(v) ==> v == sorted_lat(lat)[rank_index(lat.len() as int, p_bp as int)])
}

/// What a mean read returns: the exact ratio of the latency sum (us) to the
/// sample count, or nothing when no latency was recorded.
pub open spec fn mean_post(lat: Seq<u64>, r: Option<Ratio>) -> bool {
    &&& (r is Some) == (lat.len() > 0)
    &&& (r matches Some(q) ==> q.num == sum64(lat) && q.den == lat.len())
}

/// Whether the exact sample-variance computation of `s` stays within `u128`.
pub open spec fn variance_fits(s: Seq<u64>) -> bool {
    &&& sumsq64(s) <= u128::MAX
    &&& s.len() * sumsq64(s) <= u128::MAX
}

/// What a sample-variance read returns: the exact ratio
/// (n * sum(x^2) - sum(x)^2) / (n * (n - 1)) in us^2, or nothing when fewer
/// than two samples were recorded or the integers would not fit.
pub open spec fn variance_post(s: Seq<u64>, r: Option<Ratio>) -> bool {
    &&& (r is Some) == (s.len() >= 2 && variance_fits(s))
    &&& (r matches Some(q) ==> q.num == s.len() * sumsq64(s) - sum64(s) * sum64(s) && q.den
        == s.len() * (s.len() - 1))
}

/// What a median read returns: the two middle samples of the ascending
/// sequence (the same sample twice when the count is odd); the median is
/// their average.
pub open spec fn median_post(s: Seq<u64>, r: Option<(u64, u64)>) -> bool {
    &&& (r is Some) == (s.len() > 0)
    &&& (r matches Some(p) ==> p.0 == sorted_lat(s)[(s.len() - 1) as int / 2] && p.1
        == sorted_lat(s)[s.len() as int / 2])
}

/// What a maximum read returns: a recorded sample at least as large as every
/// other, or nothing when none was recorded.
pub open spec fn max_post(s: Seq<u64>, r: Option<u64>) -> bool {
    &&& (r is Some) == (s.len() > 0)
    &&& (r matches Some(m) ==> s.contains(m) && forall|k: int|
        0 <= k < s.len() ==> #[trigger] s[k] <= m)
}

proof fn lemma_total_leq64()
    ensures
        vstd::relations::total_ordering(leq64()),
{
    assert(vstd::relations::reflexive(leq64())) by {
        assert(forall|x: u64| #[trigger] leq64()(x, x));
    }
}

proof fn lemma_sum64_bound(s: Seq<u64>)
    ensures
        0 <= sum64(s) <= s.len() * (u64::MAX as int),
    decreases s.len(),
{
    if s.len() > 0 {
        lemma_sum64_bound(s.drop_last());
    }
}

proof fn lemma_sumsq64_nonneg(s: Seq<u64>)
    ensures
        sumsq64(s) >= 0,
    decreases s.len(),
{
    if s.len() > 0 {
        lemma_sumsq64_nonneg(s.drop_last());
        assert(s.last() * s.last() >= 0) by (nonlinear_arith);
    }
}

/// For every sample bound x: 2 * sum(s) * x <= sumsq(s) + len * x^2,
/// summing the per-sample fact 2*a*x <= a^2 + x^2.
proof fn lemma_sum_cross_bound(s: Seq<u64>, x: int)
    ensures
        2 * sum64(s) * x <= sumsq64(s) + s.len() * x * x,
    decreases s.len(),
{
    if s.len() == 0 {
    } else {
        let d = s.drop_last();
        let a = s.last() as int;
        lemma_sum_cross_bound(d, x);
        assert(2 * a * x <= a * a + x * x) by (nonlinear_arith);
        assert(2 * (sum64(d) + a) * x == 2 * sum64(d) * x + 2 * a * x) by (nonlinear_arith);
        assert((d.len() + 1) * x * x == d.len() * x * x + x * x) by (nonlinear_arith);
    }
}

/// Cauchy-Schwarz for samples: sum(s)^2 <= len * sumsq(s).
proof fn lemma_square_sum_bound(s: Seq<u64>)
    ensures
        sum64(s) * sum64(s) <= s.len() * sumsq64(s),
    decreases s.len(),
{
    if s.len() == 0 {
    } else {
        let d = s.drop_last();
        let a = s.last() as int;
        let sd = sum64(d);
        let qd = sumsq64(d);
        let n = d.len() as int;
        lemma_square_sum_bound(d);
        lemma_sum_cross_bound(d, a);
        assert((sd + a) * (sd + a) == sd * sd + 2 * sd * a + a * a) by (nonlinear_arith);
        assert(2 * sd * a == 2 * sum64(d) * a);
        assert((n + 1) * (qd + a * a) == n * qd + qd + n * a * a + a * a) by (nonlinear_arith);
        assert(sd * sd + 2 * sd * a + a * a <= n * qd + qd + n * a * a + a * a);
    }
}

/// Appending samples never shrinks the sum of squares.
proof fn lemma_sumsq64_prefix_le(s: Seq<u64>, m: int)
    requires
        0 <= m <= s.len(),
    ensures
        sumsq64(s.subrange(0, m)) <= sumsq64(s),
    decreases s.len() - m,
{
    if m < s.len() {
        lemma_sumsq64_prefix_le(s, m + 1);
        let p = s.subrange(0, m + 1);
        assert(p.drop_last() =~= s.subrange(0, m));
        assert(p.last() * p.last() >= 0) by (nonlinear_arith);
    } else {
        assert(s.subrange(0, m) =~= s);
    }
}

/// A copy of `v` in ascending order.
fn sorted_copy(v: &Vec<u64>) -> (r: Vec<u64>)
    ensures
        r@ == v@.sort_by(leq64()),
        r@.len() == v@.len(),
{
    broadcast use vstd::seq_lib::group_to_multiset_ensures;

    let ghost leq = leq64();
    let mut r: Vec<u64> = Vec::new();
    let mut i: usize = 0;
    while i < v.len()
        invariant
            i <= v@.len(),
            vstd::relations::sorted_by(r@, leq64()),
            r@.to_multiset() == v@.subrange(0, i as int).to_multiset(),
        decreases v@.len() - i,
    {
        let x = v[i];
        let mut j: usize = 0;
        while j < r.len() && r[j] <= x
            invariant
                j <= r@.len(),
                forall|k: int| 0 <= k < j ==> #[trigger] r@[k] <= x,
            decreases r@.len() - j,
        {
            j = j + 1;
        }
        let ghost old_r = r@;
        r.insert(j, x);
        proof {
            broadcast use vstd::seq_lib::group_to_multiset_ensures;

            // sortedness is preserved by inserting at the found position
            assert(r@ =~= old_r.subrange(0, j as int).push(x) + old_r.subrange(
                j as int,
                old_r.len() as int,
            ));
            assert forall|a: int, b: int| 0 <= a < b < r@.len() implies #[trigger] leq64()(
                r@[a],
                r@[b],
            ) by {
                if a < j && b > j {
                    assert(leq64()(old_r[a], old_r[b - 1]) || a == b - 1);
                }
                if a == j && b > j {
                    assert(j < old_r.len());
                    assert(old_r[j as int] > x);
                    assert(leq64()(old_r[j as int], old_r[b - 1]) || j == b - 1);
                }
            }
            // the multiset gains exactly x
            vstd::seq_lib::lemma_multiset_commutative(
                old_r.subrange(0, j as int).push(x),
                old_r.subrange(j as int, old_r.len() as int),
            );
            vstd::seq_lib::lemma_multiset_commutative(
                old_r.subrange(0, j as int),
                old_r.subrange(j as int, old_r.len() as int),
            );
            assert(old_r.subrange(0, j as int) + old_r.subrange(j as int, old_r.len() as int)
                =~= old_r);
            assert(old_r.subrange(0, j as int).push(x).to_multiset() =~= old_r.subrange(
                0,
                j as int,
            ).to_multiset().insert(x));
            assert(r@.to_multiset() =~= old_r.to_multiset().insert(x)) by {
                broadcast use vstd::multiset::group_multiset_axioms;

            }
            assert(v@.subrange(0, i + 1) =~= v@.subrange(0, i as int).push(x));
            assert(v@.subrange(0, i + 1).to_multiset() =~= v@.subrange(0, i as int)
                .to_multiset().insert(x));
        }
        i = i + 1;
    }
    proof {
        assert(v@.subrange(0, v@.len() as int) =~= v@);
        lemma_total_leq64();
        v@.lemma_sort_by_ensures(leq64());
        vstd::seq_lib::lemma_sorted_unique(r@, v@.sort_by(leq64()), leq64());
        assert(r@ == v@.sort_by(leq64()));
        assert(r@.to_multiset().len() == r@.len());
        assert(v@.to_multiset().len() == v@.len());
    }
    r
}

/// The exact sum of the samples, in a `u128` (which always fits).
fn sum_samples(v: &Vec<u64>) -> (r: u128)
    ensures
        r == sum64(v@),
{
    let mut acc: u128 = 0;
    let mut i: usize = 0;
    while i < v.len()
        invariant
            i <= v@.len(),
            acc == sum64(v@.subrange(0, i as int)),
            acc <= i * (u64::MAX as int),
        decreases v@.len() - i,
    {
        proof {
            assert(v@.subrange(0, i + 1).drop_last() =~= v@.subrange(0, i as int));
            assert((i + 1) * (u64::MAX as int) == i * (u64::MAX as int) + u64::MAX as int)
                by (nonlinear_arith);
            assert(i * (u64::MAX as int) <= (usize::MAX as int) * (u64::MAX as int))
                by (nonlinear_arith)
                requires
                    0 <= i <= usize::MAX as int,
            ;
        }
        acc = acc + (v[i] as u128);
        i = i + 1;
    }
    proof {
        assert(v@.subrange(0, v@.len() as int) =~= v@);
    }
    acc
}

/// The exact sample variance pieces of `v`, when they fit in `u128`.
fn variance_parts(v: &Vec<u64>) -> (r: Option<Ratio>)
    ensures
        variance_post(v@, r),
{
    let n = v.len();
    if n < 2 {
        return None;
    }
    // sum of squares, guarding against overflow
    let mut q: u128 = 0;
    let mut i: usize = 0;
    while i < n
        invariant
            i <= n == v@.len(),
            n >= 2,
            q == sumsq64(v@.subrange(0, i as int)),
        decreases n - i,
    {
        let x = v[i] as u128;
        proof {
            assert(v@.subrange(0, i + 1).drop_last() =~= v@.subrange(0, i as int));
            assert(x * x <= (u64::MAX as int) * (u64::MAX as int)) by (nonlinear_arith)
                requires
                    0 <= x as int <= u64::MAX as int,
            ;
            lemma_sumsq64_nonneg(v@.subrange(0, i as int));
        }
        let xx = x * x;
        q = match q.checked_add(xx) {
            Some(nq) => nq,
            None => {
                proof {
                    lemma_sumsq64_prefix_le(v@, i + 1);
                }
                return None;
            },
        };
        i = i + 1;
    }
    proof {
        assert(v@.subrange(0, n as int) =~= v@);
    }
    let nq = match (n as u128).checked_mul(q) {
        Some(x) => x,
        None => {
            return None;
        },
    };
    let s = sum_samples(v);
    proof {
        lemma_square_sum_bound(v@);
        lemma_sum64_bound(v@);
        assert(s * s <= (n as int) * sumsq64(v@));
    }
    proof {
        lemma_sumsq64_nonneg(v@);
        assert((s as int) * (s as int) <= (n as int) * (q as int));
        assert((n as int) * ((n - 1) as int) <= (u64::MAX as int) * (u64::MAX as int))
            by (nonlinear_arith)
            requires
                2 <= n as int <= u64::MAX as int,
        ;
    }
    let ss = s * s;
    let num = nq - ss;
    let den = (n as u128) * ((n - 1) as u128);
    Some(Ratio { num, den })
}


/// The largest sample of `v`, when `v` is non-empty.
fn max_sample(v: &Vec<u64>) -> (r: Option<u64>)
    ensures
        max_post(v@, r),
{
    let n = v.len();
    if n == 0 {
        return None;
    }
    let mut m = v[0];
    let mut i: usize = 1;
    while i < n
        invariant
            1 <= i <= n == v@.len(),
            v@.contains(m),
            forall|k: int| 0 <= k < i ==> #[trigger] v@[k] <= m,
        decreases n - i,
    {
        if v[i] > m {
            m = v[i];
            proof {
                assert(v@[i as int] == m);
            }
        }
        i = i + 1;
    }
    Some(m)
}

/// Aggregator reads are pure: the contracts of the percentile, mean and
/// variance reads admit exactly one result for given statistics contents,
/// so reading the same finalized value twice gives identical results.
pub proof fn lemma_reads_pure(
    lat: Seq<u64>,
    p_bp: u32,
    p1: Option<u64>,
    p2: Option<u64>,
    m1: Option<Ratio>,
    m2: Option<Ratio>,
    v1: Option<Ratio>,
    v2: Option<Ratio>,
)
    requires
        percentile_post(lat, p_bp, p1),
        percentile_post(lat, p_bp, p2),
        mean_post(lat, m1),
        mean_post(lat, m2),
        variance_post(lat, v1),
        variance_post(lat, v2),
    ensures
        p1 == p2,
        m1 == m2,
        v1 == v2,
{
}


/// Counts in the histogram whose status code has this leading digit
/// (its hundreds class).
pub open spec fn class_sum(h: Seq<(u16, usize)>, d: int) -> int
    decreases h.len(),
{
    if h.len() == 0 {
        0
    } else {
        class_sum(h.drop_last(), d) + if h.last().0 as int / 100 == d {
            h.last().1 as int
        } else {
            0
        }
    }
}

/// Counts in the histogram whose status code is outside the 1xx..5xx
/// classes.
pub open spec fn other_class_sum(h: Seq<(u16, usize)>) -> int
    decreases h.len(),
{
    if h.len() == 0 {
        0
    } else {
        other_class_sum(h.drop_last()) + if h.last().0 as int / 100 < 1 || h.last().0 as int
            / 100 > 5 {
            h.last().1 as int
        } else {
            0
        }
    }
}

/// The status histogram summarized by leading digit: exchanges with 1xx
/// through 5xx codes, and everything outside those classes.
pub struct StatusClasses {
    pub c1xx: u128,
    pub c2xx: u128,
    pub c3xx: u128,
    pub c4xx: u128,
    pub c5xx: u128,
    pub other: u128,
}

impl Stats {
    /// Statistics with nothing recorded yet.
    pub fn new() -> (r: Self)
        ensures
            r.latencies_us@ =~= Seq::<u64>::empty(),
            r.success == 0,
            r.fail == 0,
            r.conn_errors == 0,
            r.timeout_errors == 0,
            r.tls_errors == 0,
            r.total_duration_ms == 0,
            r.status_counts@ =~= Seq::<(u16, usize)>::empty(),
            r.rps_secs@ =~= Seq::<usize>::empty(),
            codes_unique(r.status_counts@),
    {
        Stats {
            latencies_us: Vec::new(),
            success: 0,
            fail: 0,
            conn_errors: 0,
            timeout_errors: 0,
            tls_errors: 0,
            total_duration_ms: 0,
            status_counts: Vec::new(),
            rps_secs: Vec::new(),
        }
    }

    /// Counts one successful exchange with the given latency.
    pub fn record_success(&mut self, dur_us: u64)
        requires
            old(self).success < usize::MAX,
        ensures
            final(self).success == old(self).success + 1,
            final(self).latencies_us@ == old(self).latencies_us@.push(dur_us),
            final(self).fail == old(self).fail,
            final(self).conn_errors == old(self).conn_errors,
            final(self).timeout_errors == old(self).timeout_errors,
            final(self).tls_errors == old(self).tls_errors,
            final(self).total_duration_ms == old(self).total_duration_ms,
            final(self).status_counts@ == old(self).status_counts@,
            final(self).rps_secs@ == old(self).rps_secs@,
    {
        self.success = self.success + 1;
        self.latencies_us.push(dur_us);
    }

    /// Counts one failed iteration of unclassified kind.
    pub fn record_fail(&mut self)
        requires
            old(self).fail < usize::MAX,
        ensures
            final(self).fail == old(self).fail + 1,
            final(self).success == old(self).success,
            final(self).latencies_us@ == old(self).latencies_us@,
            final(self).conn_errors == old(self).conn_errors,
            final(self).timeout_errors == old(self).timeout_errors,
            final(self).tls_errors == old(self).tls_errors,
            final(self).total_duration_ms == old(self).total_duration_ms,
            final(self).status_counts@ == old(self).status_counts@,
            final(self).rps_secs@ == old(self).rps_secs@,
    {
        self.fail = self.fail + 1;
    }

    /// Counts one iteration that failed by deadline expiry.
    pub fn record_timeout(&mut self)
        requires
            old(self).fail < usize::MAX,
            old(self).timeout_errors < usize::MAX,
        ensures
            final(self).fail == old(self).fail + 1,
            final(self).timeout_errors == old(self).timeout_errors + 1,
            final(self).success == old(self).success,
            final(self).latencies_us@ == old(self).latencies_us@,
            final(self).conn_errors == old(self).conn_errors,
            final(self).tls_errors == old(self).tls_errors,
            final(self).total_duration_ms == old(self).total_duration_ms,
            final(self).status_counts@ == old(self).status_counts@,
            final(self).rps_secs@ == old(self).rps_secs@,
    {
        self.fail = self.fail + 1;
        self.timeout_errors = self.timeout_errors + 1;
    }

    /// Counts one iteration that failed in transport or proxy handshake.
    pub fn record_conn_error(&mut self)
        requires
            old(self).fail < usize::MAX,
            old(self).conn_errors < usize::MAX,
        ensures
            final(self).fail == old(self).fail + 1,
            final(self).conn_errors == old(self).conn_errors + 1,
            final(self).success == old(self).success,
            final(self).latencies_us@ == old(self).latencies_us@,
            final(self).timeout_errors == old(self).timeout_errors,
            final(self).tls_errors == old(self).tls_errors,
            final(self).total_duration_ms == old(self).total_duration_ms,
            final(self).status_counts@ == old(self).status_counts@,
            final(self).rps_secs@ == old(self).rps_secs@,
    {
        self.fail = self.fail + 1;
        self.conn_errors = self.conn_errors + 1;
    }

    /// Counts one iteration that failed in the TLS handshake.
    pub fn record_tls_error(&mut self)
        requires
            old(self).fail < usize::MAX,
            old(self).tls_errors < usize::MAX,
        ensures
            final(self).fail == old(self).fail + 1,
            final(self).tls_errors == old(self).tls_errors + 1,
            final(self).success == old(self).success,
            final(self).latencies_us@ == old(self).latencies_us@,
            final(self).conn_errors == old(self).conn_errors,
            final(self).timeout_errors == old(self).timeout_errors,
            final(self).total_duration_ms == old(self).total_duration_ms,
            final(self).status_counts@ == old(self).status_counts@,
            final(self).rps_secs@ == old(self).rps_secs@,
    {
        self.fail = self.fail + 1;
        self.tls_errors = self.tls_errors + 1;
    }

    /// Counts one exchange that returned `code`.
    pub fn record_status(&mut self, code: u16)
        requires
            codes_unique(old(self).status_counts@),
            count_for(old(self).status_counts@, code) < usize::MAX,
        ensures
            codes_unique(final(self).status_counts@),
            forall|c: u16|
                #[trigger] count_for(final(self).status_counts@, c) == count_for(
                    old(self).status_counts@,
                    c,
                ) + if c == code {
                    1int
                } else {
                    0int
                },
            final(self).success == old(self).success,
            final(self).fail == old(self).fail,
            final(self).latencies_us@ == old(self).latencies_us@,
            final(self).conn_errors == old(self).conn_errors,
            final(self).timeout_errors == old(self).timeout_errors,
            final(self).tls_errors == old(self).tls_errors,
            final(self).total_duration_ms == old(self).total_duration_ms,
            final(self).rps_secs@ == old(self).rps_secs@,
    {
        let ghost h = self.status_counts@;
        let mut i: usize = 0;
        let n = self.status_counts.len();
        while i < n
            invariant
                i <= n == self.status_counts@.len(),
                self.status_counts@ == h,
                h == old(self).status_counts@,
                codes_unique(h),
                count_for(h, code) < usize::MAX,
                forall|k: int| 0 <= k < i ==> (#[trigger] h[k]).0 != code,
                self.success == old(self).success,
                self.fail == old(self).fail,
                self.latencies_us@ == old(self).latencies_us@,
                self.conn_errors == old(self).conn_errors,
                self.timeout_errors == old(self).timeout_errors,
                self.tls_errors == old(self).tls_errors,
                self.total_duration_ms == old(self).total_duration_ms,
                self.rps_secs@ == old(self).rps_secs@,
            decreases n - i,
        {
            let (k, v) = self.status_counts[i];
            if k == code {
                proof {
                    lemma_count_for_at(h, i as int);
                }
                self.status_counts.set(i, (code, v + 1));
                proof {
                    lemma_count_for_update(h, i as int, (v + 1) as usize, code);
                    assert forall|a: int, b: int|
                        0 <= a < b < self.status_counts@.len() implies (#[trigger] self
                        .status_counts@[a]).0 != (#[trigger] self.status_counts@[b]).0 by {
                        assert(h[a].0 == self.status_counts@[a].0);
                        assert(h[b].0 == self.status_counts@[b].0);
                    }
                }
                return ;
            }
            i = i + 1;
        }
        self.status_counts.push((code, 1));
        proof {
            assert(self.status_counts@.drop_last() =~= h);
            lemma_count_for_absent(h, code);
            assert forall|c: u16| c != code implies #[trigger] count_for(
                self.status_counts@,
                c,
            ) == count_for(h, c) by {}
        }
    }


    /// The nearest-rank percentile of the recorded latencies, in
    /// microseconds. `p_bp` is the percentile in units of 1/10000
    /// (5000 is the median).
    pub fn latency_percentile(&self, p_bp: u32) -> (r: Option<u64>)
        ensures
            percentile_post(self.latencies_us@, p_bp, r),
    {
        let n = self.latencies_us.len();
        if n == 0 {
            return None;
        }
        let sorted = sorted_copy(&self.latencies_us);
        proof {
            assert((n as int) * (p_bp as int) <= (u64::MAX as int) * (u32::MAX as int))
                by (nonlinear_arith)
                requires
                    0 <= n as int <= u64::MAX as int,
                    0 <= p_bp as int <= u32::MAX as int,
            ;
        }
        let prod: u128 = (n as u128) * (p_bp as u128);
        let rank: u128 = (prod + 9999) / 10000;
        let idx128: u128 = if rank >= 1 {
            rank - 1
        } else {
            0
        };
        let maxidx: u128 = (n - 1) as u128;
        let idx: usize = if idx128 <= maxidx {
            idx128 as usize
        } else {
            n - 1
        };
        proof {
            assert(idx as int == rank_index(n as int, p_bp as int));
        }
        Some(sorted[idx])
    }

    /// The mean latency as an exact ratio: summed microseconds over the
    /// sample count.
    pub fn latency_avg(&self) -> (r: Option<Ratio>)
        ensures
            mean_post(self.latencies_us@, r),
    {
        let n = self.latencies_us.len();
        if n == 0 {
            return None;
        }
        let s = sum_samples(&self.latencies_us);
        Some(Ratio { num: s, den: n as u128 })
    }

    /// The two middle samples of the ascending latencies, in microseconds;
    /// the median is their average (they coincide for an odd count).
    pub fn latency_median(&self) -> (r: Option<(u64, u64)>)
        ensures
            median_post(self.latencies_us@, r),
    {
        let n = self.latencies_us.len();
        if n == 0 {
            return None;
        }
        let sorted = sorted_copy(&self.latencies_us);
        Some((sorted[(n - 1) / 2], sorted[n / 2]))
    }

    /// The exact sample variance of the latencies in us^2, as a ratio;
    /// its square root is the sample standard deviation.
    pub fn latency_stddev(&self) -> (r: Option<Ratio>)
        ensures
            variance_post(self.latencies_us@, r),
    {
        variance_parts(&self.latencies_us)
    }

    /// The largest recorded latency, in microseconds.
    pub fn latency_max(&self) -> (r: Option<u64>)
        ensures
            max_post(self.latencies_us@, r),
    {
        max_sample(&self.latencies_us)
    }

    /// Average successful requests per second over the whole run, as the
    /// exact ratio of successes times 1000 to the run duration in
    /// milliseconds.
    pub fn rps_avg(&self) -> (r: Option<Ratio>)
        ensures
            (r is Some) == (self.total_duration_ms > 0 && self.success > 0),
            r matches Some(q) ==> q.num == self.success * 1000 && q.den
                == self.total_duration_ms,
    {
        if self.total_duration_ms == 0 || self.success == 0 {
            return None;
        }
        proof {
            assert((self.success as int) * 1000 <= (u64::MAX as int) * 1000)
                by (nonlinear_arith)
                requires
                    0 <= self.success as int <= u64::MAX as int,
            ;
        }
        Some(Ratio { num: (self.success as u128) * 1000, den: self.total_duration_ms })
    }

    /// The per-second completion counts, widened for the statistics helpers.
    fn rps_series(&self) -> (r: Vec<u64>)
        ensures
            r@ == as_u64s(self.rps_secs@),
    {
        let mut r: Vec<u64> = Vec::new();
        let mut i: usize = 0;
        while i < self.rps_secs.len()
            invariant
                i <= self.rps_secs@.len(),
                r@ =~= as_u64s(self.rps_secs@).subrange(0, i as int),
            decreases self.rps_secs@.len() - i,
        {
            r.push(self.rps_secs[i] as u64);
            i = i + 1;
        }
        proof {
            assert(r@ =~= as_u64s(self.rps_secs@));
        }
        r
    }

    /// The two middle values of the sorted per-second completion counts;
    /// the throughput median is their average.
    pub fn rps_median(&self) -> (r: Option<(u64, u64)>)
        ensures
            median_post(as_u64s(self.rps_secs@), r),
    {
        let series = self.rps_series();
        let n = series.len();
        if n == 0 {
            return None;
        }
        let sorted = sorted_copy(&series);
        Some((sorted[(n - 1) / 2], sorted[n / 2]))
    }

    /// The exact sample variance of the per-second completion counts, as a
    /// ratio; its square root is the throughput standard deviation.
    pub fn rps_stddev(&self) -> (r: Option<Ratio>)
        ensures
            variance_post(as_u64s(self.rps_secs@), r),
    {
        let series = self.rps_series();
        variance_parts(&series)
    }

    /// The busiest second's completion count.
    pub fn rps_max(&self) -> (r: Option<u64>)
        ensures
            max_post(as_u64s(self.rps_secs@), r),
    {
        let series = self.rps_series();
        max_sample(&series)
    }


    /// Summarizes the status histogram by leading digit (1xx..5xx and
    /// "other").
    pub fn status_class_counts(&self) -> (r: StatusClasses)
        ensures
            r.c1xx == class_sum(self.status_counts@, 1),
            r.c2xx == class_sum(self.status_counts@, 2),
            r.c3xx == class_sum(self.status_counts@, 3),
            r.c4xx == class_sum(self.status_counts@, 4),
            r.c5xx == class_sum(self.status_counts@, 5),
            r.other == other_class_sum(self.status_counts@),
    {
        let ghost h = self.status_counts@;
        let mut r = StatusClasses { c1xx: 0, c2xx: 0, c3xx: 0, c4xx: 0, c5xx: 0, other: 0 };
        let mut i: usize = 0;
        let n = self.status_counts.len();
        while i < n
            invariant
                i <= n == h.len(),
                self.status_counts@ == h,
                r.c1xx == class_sum(h.subrange(0, i as int), 1),
                r.c2xx == class_sum(h.subrange(0, i as int), 2),
                r.c3xx == class_sum(h.subrange(0, i as int), 3),
                r.c4xx == class_sum(h.subrange(0, i as int), 4),
                r.c5xx == class_sum(h.subrange(0, i as int), 5),
                r.other == other_class_sum(h.subrange(0, i as int)),
                r.c1xx <= i * (u64::MAX as int),
                r.c2xx <= i * (u64::MAX as int),
                r.c3xx <= i * (u64::MAX as int),
                r.c4xx <= i * (u64::MAX as int),
                r.c5xx <= i * (u64::MAX as int),
                r.other <= i * (u64::MAX as int),
            decreases n - i,
        {
            let (code, cnt) = self.status_counts[i];
            proof {
                assert(h.subrange(0, i + 1).drop_last() =~= h.subrange(0, i as int));
                assert((i + 1) * (u64::MAX as int) == i * (u64::MAX as int) + u64::MAX as int)
                    by (nonlinear_arith);
                assert(i * (u64::MAX as int) <= (usize::MAX as int) * (u64::MAX as int))
                    by (nonlinear_arith)
                    requires
                        0 <= i <= usize::MAX as int,
                ;
            }
            let class = code / 100;
            if class == 1 {
                r.c1xx = r.c1xx + cnt as u128;
            } else if class == 2 {
                r.c2xx = r.c2xx + cnt as u128;
            } else if class == 3 {
                r.c3xx = r.c3xx + cnt as u128;
            } else if class == 4 {
                r.c4xx = r.c4xx + cnt as u128;
            } else if class == 5 {
                r.c5xx = r.c5xx + cnt as u128;
            } else {
                r.other = r.other + cnt as u128;
            }
            i = i + 1;
        }
        proof {
            assert(h.subrange(0, n as int) =~= h);
        }
        r
    }

    /// Counts one completion (success or failure) in whole second `sec`
    /// since run start.
    pub fn record_success_bucket(&mut self, sec: u64)
        requires
            sec < usize::MAX as u64,
            bucket_of(old(self).rps_secs@, sec as int) < usize::MAX,
        ensures
            final(self).rps_secs@.len() == vstd::math::max(
                old(self).rps_secs@.len() as int,
                sec as int + 1,
            ),
            forall|k: int|
                0 <= k < final(self).rps_secs@.len() ==> #[trigger] final(self).rps_secs@[k] == bucket_of(
                    old(self).rps_secs@,
                    k,
                ) + if k == sec as int {
                    1int
                } else {
                    0int
                },
            final(self).success == old(self).success,
            final(self).fail == old(self).fail,
            final(self).latencies_us@ == old(self).latencies_us@,
            final(self).conn_errors == old(self).conn_errors,
            final(self).timeout_errors == old(self).timeout_errors,
            final(self).tls_errors == old(self).tls_errors,
            final(self).total_duration_ms == old(self).total_duration_ms,
            final(self).status_counts@ == old(self).status_counts@,
    {
        let ghost orig = old(self).rps_secs@;
        let s = sec as usize;
        while self.rps_secs.len() <= s
            invariant
                s == sec as usize,
                sec < usize::MAX as u64,
                bucket_of(orig, s as int) < usize::MAX,
                orig.len() <= self.rps_secs@.len(),
                self.rps_secs@.len() <= vstd::math::max(orig.len() as int, s as int + 1),
                forall|k: int|
                    0 <= k < self.rps_secs@.len() ==> #[trigger] self.rps_secs@[k] == bucket_of(
                        orig,
                        k,
                    ),
                self.success == old(self).success,
                self.fail == old(self).fail,
                self.latencies_us@ == old(self).latencies_us@,
                self.conn_errors == old(self).conn_errors,
                self.timeout_errors == old(self).timeout_errors,
                self.tls_errors == old(self).tls_errors,
                self.total_duration_ms == old(self).total_duration_ms,
                self.status_counts@ == old(self).status_counts@,
            decreases s + 1 - self.rps_secs@.len(),
        {
            self.rps_secs.push(0);
        }
        let v = self.rps_secs[s];
        self.rps_secs.set(s, v + 1);
    }
}

} // verus!
