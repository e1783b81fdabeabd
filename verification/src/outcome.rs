//! Per-iteration outcomes: what one benchmark iteration produced, how raw
//! error text is classified into failure kinds, and how a stream of
//! outcomes folds into the run statistics.

use crate::stats::{bucket_of, codes_unique, count_for, Stats};
use crate::util::{has_sub, str_contains_sub};
use vstd::prelude::*;

verus! {

/// What a structurally complete HTTP exchange reported.
pub struct RespMeta {
    /// Whether the status code was accepted by the run's success matcher.
    pub success: bool,
    /// Exchange-only latency in microseconds, when a full exchange
    /// completed.
    pub dur_us: Option<u64>,
    /// The response status code, when one was parsed.
    pub status: Option<u16>,
    /// Completion offset from run start, in milliseconds.
    pub finished_ms: u64,
}

/// The kind of a failed iteration.
#[derive(Clone, Copy, Debug, PartialEq, Eq, Structural)]
pub enum FailKind {
    /// The iteration's deadline expired.
    Timeout,
    /// Transport or proxy-handshake failure.
    ConnError,
    /// TLS handshake or certificate failure.
    TlsError,
}

/// Everything one iteration can produce.
pub enum Outcome {
    /// The exchange completed; acceptance was already judged.
    Finished(RespMeta),
    /// The iteration failed with a classified error.
    Errored(FailKind),
    /// The iteration's task was lost before reporting.
    Lost,
}

/// One collected iteration: its outcome and the whole second (since run
/// start) in which it completed.
pub struct Completion {
    pub outcome: Outcome,
    pub sec: u64,
}

/// How raw error text maps to a failure kind: deadline wording wins, then
/// TLS wording; everything else is a connection error.
pub open spec fn spec_classify(m: Seq<char>) -> FailKind {
    if has_sub(m, "timed out"@) {
        FailKind::Timeout
    } else if has_sub(m, "certificate"@) || has_sub(m, "TLS"@) {
        FailKind::TlsError
    } else {
        FailKind::ConnError
    }
}

/// Classifies one error message, as `spec_classify` says.
pub fn classify_error(msg: &str) -> (r: FailKind)
    ensures
        r == spec_classify(msg@),
{
    if str_contains_sub(msg, "timed out") {
        FailKind::Timeout
    } else if str_contains_sub(msg, "certificate") || str_contains_sub(msg, "TLS") {
        FailKind::TlsError
    } else {
        FailKind::ConnError
    }
}

/// Whether an outcome counts as a success.
pub open spec fn is_success(o: Outcome) -> bool {
    o matches Outcome::Finished(m) && m.success
}

/// The latency credited to a successful exchange (0 when none was
/// measured).
pub open spec fn credited_latency(m: RespMeta) -> u64 {
    match m.dur_us {
        Some(d) => d,
        None => 0,
    }
}

/// Successful outcomes among the completions.
pub open spec fn count_successes(cs: Seq<Completion>) -> int
    decreases cs.len(),
{
    if cs.len() == 0 {
        0
    } else {
        count_successes(cs.drop_last()) + if is_success(cs.last().outcome) {
            1int
        } else {
            0int
        }
    }
}

/// Failures of the given kind among the completions.
pub open spec fn count_kind(cs: Seq<Completion>, k: FailKind) -> int
    decreases cs.len(),
{
    if cs.len() == 0 {
        0
    } else {
        count_kind(cs.drop_last(), k) + if cs.last().outcome matches Outcome::Errored(k2) && k2
            == k {
            1int
        } else {
            0int
        }
    }
}

impl Stats {
    /// Folds one collected iteration in: every completion is bucketed by
    /// its second; a finished exchange records its status and counts as
    /// success or failure by the matcher's judgement; a classified error
    /// counts under its kind; a lost task counts as a bare failure.
    pub fn record_outcome(&mut self, c: &Completion)
        requires
            old(self).success < usize::MAX,
            old(self).fail < usize::MAX,
            old(self).timeout_errors < usize::MAX,
            old(self).conn_errors < usize::MAX,
            old(self).tls_errors < usize::MAX,
            codes_unique(old(self).status_counts@),
            forall|code: u16| count_for(old(self).status_counts@, code) < usize::MAX,
            c.sec < usize::MAX as u64,
            bucket_of(old(self).rps_secs@, c.sec as int) < usize::MAX,
        ensures
            codes_unique(final(self).status_counts@),
            final(self).total_duration_ms == old(self).total_duration_ms,
            final(self).success == old(self).success + if is_success(c.outcome) {
                1int
            } else {
                0int
            },
            final(self).fail == old(self).fail + if is_success(c.outcome) {
                0int
            } else {
                1int
            },
            final(self).timeout_errors == old(self).timeout_errors + if c.outcome matches
                Outcome::Errored(FailKind::Timeout) {
                1int
            } else {
                0int
            },
            final(self).conn_errors == old(self).conn_errors + if c.outcome matches
                Outcome::Errored(FailKind::ConnError) {
                1int
            } else {
                0int
            },
            final(self).tls_errors == old(self).tls_errors + if c.outcome matches
                Outcome::Errored(FailKind::TlsError) {
                1int
            } else {
                0int
            },
            final(self).latencies_us@ == (match c.outcome {
                Outcome::Finished(m) => if m.success {
                    old(self).latencies_us@.push(credited_latency(m))
                } else {
                    old(self).latencies_us@
                },
                _ => old(self).latencies_us@,
            }),
            forall|code: u16|
                #[trigger] count_for(final(self).status_counts@, code) == count_for(
                    old(self).status_counts@,
                    code,
                ) + if c.outcome matches Outcome::Finished(m) && m.status == Some(code) {
                    1int
                } else {
                    0int
                },
            final(self).rps_secs@.len() == vstd::math::max(
                old(self).rps_secs@.len() as int,
                c.sec as int + 1,
            ),
            forall|k: int|
                0 <= k < final(self).rps_secs@.len() ==> #[trigger] final(self).rps_secs@[k]
                    == bucket_of(old(self).rps_secs@, k) + if k == c.sec as int {
                    1int
                } else {
                    0int
                },
    {
        self.record_success_bucket(c.sec);
        match &c.outcome {
            Outcome::Finished(m) => {
                if let Some(code) = m.status {
                    self.record_status(code);
                }
                if m.success {
                    let d = match m.dur_us {
                        Some(d) => d,
                        None => 0,
                    };
                    self.record_success(d);
                } else {
                    self.record_fail();
                }
            },
            Outcome::Errored(k) => {
                match k {
                    FailKind::Timeout => self.record_timeout(),
                    FailKind::ConnError => self.record_conn_error(),
                    FailKind::TlsError => self.record_tls_error(),
                }
            },
            Outcome::Lost => {
                self.record_fail();
            },
        }
    }

    /// Folds a whole run's completions into fresh statistics. Once all
    /// completions are in, the counters always reconcile: successes plus
    /// failures equal the number of completions, and each failure kind is
    /// counted once per classified error.
    pub fn collect(completions: &Vec<Completion>, total_ms: u128) -> (r: Stats)
        requires
            completions@.len() < usize::MAX,
            forall|j: int|
                0 <= j < completions@.len() ==> (#[trigger] completions@[j]).sec
                    < usize::MAX as u64,
        ensures
            r.success == count_successes(completions@),
            r.fail == completions@.len() - count_successes(completions@),
            r.success + r.fail == completions@.len(),
            r.timeout_errors == count_kind(completions@, FailKind::Timeout),
            r.conn_errors == count_kind(completions@, FailKind::ConnError),
            r.tls_errors == count_kind(completions@, FailKind::TlsError),
            r.latencies_us@.len() == count_successes(completions@),
            r.total_duration_ms == total_ms,
            codes_unique(r.status_counts@),
    {
        let mut stats = Stats::new();
        let mut i: usize = 0;
        let n = completions.len();
        while i < n
            invariant
                i <= n == completions@.len(),
                n < usize::MAX,
                forall|j: int|
                    0 <= j < completions@.len() ==> (#[trigger] completions@[j]).sec
                        < usize::MAX as u64,
                stats.success <= i,
                stats.fail <= i,
                stats.timeout_errors <= i,
                stats.conn_errors <= i,
                stats.tls_errors <= i,
                stats.success == count_successes(completions@.subrange(0, i as int)),
                stats.fail == i - count_successes(completions@.subrange(0, i as int)),
                stats.timeout_errors == count_kind(
                    completions@.subrange(0, i as int),
                    FailKind::Timeout,
                ),
                stats.conn_errors == count_kind(
                    completions@.subrange(0, i as int),
                    FailKind::ConnError,
                ),
                stats.tls_errors == count_kind(
                    completions@.subrange(0, i as int),
                    FailKind::TlsError,
                ),
                stats.latencies_us@.len() == count_successes(completions@.subrange(0, i as int)),
                stats.total_duration_ms == 0,
                codes_unique(stats.status_counts@),
                count_successes(completions@.subrange(0, i as int)) >= 0,
                count_kind(completions@.subrange(0, i as int), FailKind::Timeout) >= 0,
                forall|code: u16| count_for(stats.status_counts@, code) <= i,
                forall|k: int| bucket_of(stats.rps_secs@, k) <= i,
            decreases n - i,
        {
            let c = &completions[i];
            stats.record_outcome(c);
            proof {
                assert(completions@.subrange(0, i + 1).drop_last() =~= completions@.subrange(
                    0,
                    i as int,
                ));
            }
            i = i + 1;
        }
        proof {
            assert(completions@.subrange(0, n as int) =~= completions@);
        }
        stats.total_duration_ms = total_ms;
        stats
    }
}

} // verus!
