//! Sliding-time-window bandwidth accumulator.
//!
//! `BandwidthStats` keeps one ordered sequence of `(time, byte-count)`
//! samples per direction, retains only samples within a fixed window, and
//! derives instantaneous and peak rates from the retained samples.  Times
//! are caller-supplied milliseconds from an arbitrary monotonic origin.

use vstd::prelude::*;
use std::collections::VecDeque;

verus! {

/// Largest window, in seconds, whose millisecond equivalent still fits in
/// sixty-four bits.
pub const MAX_WINDOW_SECS: u64 = 18_446_744_073_709_551;

/// Abstract state of a `BandwidthStats`.
pub struct StatsView {
    pub rx_bps: u64,
    pub tx_bps: u64,
    pub current_bps: u64,
    pub peak_bps: u64,
    pub total_rx_bytes: u64,
    pub total_tx_bytes: u64,
    pub rx_history: Seq<(u64, u64)>,
    pub tx_history: Seq<(u64, u64)>,
    pub window_secs: u64,
    pub last_ms: u64,
}

/// Sample times never decrease along the sequence.
pub open spec fn sorted_times(s: Seq<(u64, u64)>) -> bool {
    forall|i: int, j: int| 0 <= i <= j < s.len() ==> #[trigger] s[i].0 <= #[trigger] s[j].0
}

/// Every sample time is at most `bound`.
pub open spec fn times_bounded(s: Seq<(u64, u64)>, bound: u64) -> bool {
    forall|i: int| 0 <= i < s.len() ==> #[trigger] s[i].0 <= bound
}

/// No sample is older than `last_ms` minus the window.
pub open spec fn times_fresh(s: Seq<(u64, u64)>, last_ms: u64, window_secs: u64) -> bool {
    forall|i: int| 0 <= i < s.len() ==> #[trigger] s[i].0 + window_secs * 1000 >= last_ms
}

/// Sum of the byte counts of all samples.
pub open spec fn sum_bytes(s: Seq<(u64, u64)>) -> int
    decreases s.len(),
{
    if s.len() == 0 {
        0
    } else {
        sum_bytes(s.drop_last()) + s.last().1
    }
}

/// The eviction threshold: samples with a time below it leave the window.
pub open spec fn spec_cutoff(last_ms: u64, window_secs: u64) -> int {
    if last_ms - window_secs * 1000 >= 0 {
        last_ms - window_secs * 1000
    } else {
        0
    }
}

/// The samples of `s` that survive eviction at `cutoff`.
pub open spec fn retained(s: Seq<(u64, u64)>, cutoff: int) -> Seq<(u64, u64)> {
    s.filter(|e: (u64, u64)| e.0 >= cutoff)
}

/// Bytes-per-second rate of a window holding `sum` bytes, saturating at the
/// largest representable rate.
pub open spec fn rate_bps(sum: int, window_secs: u64) -> u64 {
    if sum / (window_secs as int) > u64::MAX {
        u64::MAX
    } else {
        (sum / (window_secs as int)) as u64
    }
}

/// Saturating sixty-four-bit addition.
pub open spec fn sat_add64(a: u64, b: u64) -> u64 {
    if a + b > u64::MAX {
        u64::MAX
    } else {
        (a + b) as u64
    }
}

/// The state after recording `bytes` at `now_ms` in the inbound (`inbound`)
/// or outbound direction: the clock is clamped to be monotone, stale samples
/// of both directions are evicted, the new sample is appended, the rates are
/// recomputed from the retained samples, and the peak never decreases.
pub open spec fn spec_update(v: StatsView, bytes: u64, now_ms: u64, inbound: bool) -> StatsView {
    let t = if now_ms > v.last_ms {
        now_ms
    } else {
        v.last_ms
    };
    let cutoff = spec_cutoff(t, v.window_secs);
    let rx2 = if inbound {
        retained(v.rx_history, cutoff).push((t, bytes))
    } else {
        retained(v.rx_history, cutoff)
    };
    let tx2 = if inbound {
        retained(v.tx_history, cutoff)
    } else {
        retained(v.tx_history, cutoff).push((t, bytes))
    };
    let rx_bps = rate_bps(sum_bytes(rx2), v.window_secs);
    let tx_bps = rate_bps(sum_bytes(tx2), v.window_secs);
    let cur = sat_add64(rx_bps, tx_bps);
    StatsView {
        rx_bps,
        tx_bps,
        current_bps: cur,
        peak_bps: if cur > v.peak_bps {
            cur
        } else {
            v.peak_bps
        },
        total_rx_bytes: if inbound {
            sat_add64(v.total_rx_bytes, bytes)
        } else {
            v.total_rx_bytes
        },
        total_tx_bytes: if inbound {
            v.total_tx_bytes
        } else {
            sat_add64(v.total_tx_bytes, bytes)
        },
        rx_history: rx2,
        tx_history: tx2,
        window_secs: v.window_secs,
        last_ms: t,
    }
}

/// Utilization of a capacity as a truncated percentage, clamped to 100;
/// zero capacity reports zero.
pub open spec fn spec_utilization(used: u64, capacity: u64) -> u64 {
    if capacity == 0 {
        0
    } else if used * 100 / (capacity as int) >= 100 {
        100
    } else {
        (used * 100 / (capacity as int)) as u64
    }
}

/// Time-ordered interleaving of the two directional sample sequences into
/// `(time, rx-bytes, tx-bytes)` triples; on equal times the inbound sample
/// comes first.
pub open spec fn merge_histories(rx: Seq<(u64, u64)>, tx: Seq<(u64, u64)>) -> Seq<(u64, u64, u64)>
    decreases rx.len() + tx.len(),
{
    if rx.len() == 0 && tx.len() == 0 {
        Seq::empty()
    } else if tx.len() == 0 || (rx.len() > 0 && rx[0].0 <= tx[0].0) {
        seq![(rx[0].0, rx[0].1, 0u64)] + merge_histories(rx.drop_first(), tx)
    } else {
        seq![(tx[0].0, 0u64, tx[0].1)] + merge_histories(rx, tx.drop_first())
    }
}

/// The merged history trimmed to the most recent `max_points` triples, each
/// rendered as `(age in milliseconds, rx-bytes, tx-bytes)`.
pub open spec fn spec_history_data(v: StatsView, max_points: int, now_ms: u64) -> Seq<
    (u64, u64, u64),
> {
    let merged = merge_histories(v.rx_history, v.tx_history);
    let trimmed = if merged.len() > max_points {
        merged.skip(merged.len() - max_points)
    } else {
        merged
    };
    trimmed.map_values(|e: (u64, u64, u64)| (((now_ms - e.0) as u64, e.1, e.2)))
}

/// The state of a fresh accumulator with window length `window_secs`.
pub open spec fn initial_stats(window_secs: u64) -> StatsView {
    StatsView {
        rx_bps: 0u64,
        tx_bps: 0u64,
        current_bps: 0u64,
        peak_bps: 0u64,
        total_rx_bytes: 0u64,
        total_tx_bytes: 0u64,
        rx_history: Seq::<(u64, u64)>::empty(),
        tx_history: Seq::<(u64, u64)>::empty(),
        window_secs,
        last_ms: 0u64,
    }
}

/// Per-entity sliding-window bandwidth accumulator.
#[derive(Debug, Clone)]
pub struct BandwidthStats {
    /// Bytes per second received (device to host) over the window.
    pub rx_bps: u64,
    /// Bytes per second transmitted (host to device) over the window.
    pub tx_bps: u64,
    /// Total current bandwidth, inbound plus outbound.
    pub current_bps: u64,
    /// Highest `current_bps` observed so far; never decreases.
    pub peak_bps: u64,
    pub total_rx_bytes: u64,
    pub total_tx_bytes: u64,
    pub rx_history: VecDeque<(u64, u64)>,
    pub tx_history: VecDeque<(u64, u64)>,
    /// Length of the retention window in whole seconds; at least one.
    pub window_secs: u64,
    /// The most recent update time; sample times never exceed it.
    pub last_ms: u64,
}

impl View for BandwidthStats {
    type V = StatsView;

    open spec fn view(&self) -> StatsView {
        StatsView {
            rx_bps: self.rx_bps,
            tx_bps: self.tx_bps,
            current_bps: self.current_bps,
            peak_bps: self.peak_bps,
            total_rx_bytes: self.total_rx_bytes,
            total_tx_bytes: self.total_tx_bytes,
            rx_history: self.rx_history@,
            tx_history: self.tx_history@,
            window_secs: self.window_secs,
            last_ms: self.last_ms,
        }
    }
}

impl StatsView {
    /// Well-formedness: a usable window length, and both sample sequences
    /// time-ordered, no newer than the last update, and within the window.
    pub open spec fn wf(self) -> bool {
        &&& 1 <= self.window_secs <= MAX_WINDOW_SECS
        &&& sorted_times(self.rx_history)
        &&& sorted_times(self.tx_history)
        &&& times_bounded(self.rx_history, self.last_ms)
        &&& times_bounded(self.tx_history, self.last_ms)
        &&& times_fresh(self.rx_history, self.last_ms, self.window_secs)
        &&& times_fresh(self.tx_history, self.last_ms, self.window_secs)
    }
}

/// The sum of the byte counts of a sample sequence is non-negative and at
/// most the count of samples times the largest sample value.
proof fn lemma_sum_bytes_bounds(s: Seq<(u64, u64)>)
    ensures
        0 <= sum_bytes(s) <= s.len() * (u64::MAX as int),
    decreases s.len(),
{
    if s.len() == 0 {
    } else {
        lemma_sum_bytes_bounds(s.drop_last());
        assert((s.len() - 1) * (u64::MAX as int) + (u64::MAX as int) == s.len() * (
        u64::MAX as int)) by (nonlinear_arith);
    }
}

/// Extending a sequence by one sample adds that sample's bytes to the sum.
proof fn lemma_sum_bytes_take_step(s: Seq<(u64, u64)>, i: int)
    requires
        0 <= i < s.len(),
    ensures
        sum_bytes(s.take(i + 1)) == sum_bytes(s.take(i)) + s[i].1,
{
    assert(s.take(i + 1).drop_last() =~= s.take(i));
    assert(s.take(i + 1).last() == s[i]);
}

/// On a time-ordered sequence split at `k`, with everything before `k`
/// below the cutoff and everything from `k` on at or above it, eviction
/// keeps exactly the suffix from `k`.
proof fn lemma_retained_is_suffix(s: Seq<(u64, u64)>, cutoff: int, k: int)
    requires
        0 <= k <= s.len(),
        forall|j: int| 0 <= j < k ==> #[trigger] s[j].0 < cutoff,
        forall|j: int| k <= j < s.len() ==> #[trigger] s[j].0 >= cutoff,
    ensures
        retained(s, cutoff) == s.skip(k),
    decreases s.len(),
{
    reveal(Seq::filter);
    if s.len() == 0 {
        assert(retained(s, cutoff) =~= s.skip(k));
    } else if k == s.len() {
        assert(s.last().0 < cutoff);
        lemma_retained_is_suffix(s.drop_last(), cutoff, k - 1);
        assert(retained(s, cutoff) =~= s.skip(k));
    } else {
        assert(s.last().0 >= cutoff);
        lemma_retained_is_suffix(s.drop_last(), cutoff, k);
        assert(retained(s, cutoff) == s.drop_last().skip(k).push(s.last()));
        assert(s.drop_last().skip(k).push(s.last()) =~= s.skip(k));
    }
}

impl BandwidthStats {
    /// A fresh accumulator with the default ten-second window.
    pub fn new() -> (r: Self)
        ensures
            r@ == initial_stats(10),
            r@.wf(),
    {
        let r = BandwidthStats {
            rx_bps: 0,
            tx_bps: 0,
            current_bps: 0,
            peak_bps: 0,
            total_rx_bytes: 0,
            total_tx_bytes: 0,
            rx_history: VecDeque::new(),
            tx_history: VecDeque::new(),
            window_secs: 10,
            last_ms: 0,
        };
        proof {
            assert(r@.rx_history =~= Seq::<(u64, u64)>::empty());
            assert(r@.tx_history =~= Seq::<(u64, u64)>::empty());
        }
        r
    }

    /// A fresh accumulator with a caller-chosen window length in seconds.
    pub fn with_window(window_secs: u64) -> (r: Self)
        requires
            1 <= window_secs <= MAX_WINDOW_SECS,
        ensures
            r@ == initial_stats(window_secs),
            r@.wf(),
    {
        let mut r = BandwidthStats::new();
        r.window_secs = window_secs;
        r
    }

    /// Records `bytes` received at `now_ms`.
    pub fn update_rx(&mut self, bytes: u64, now_ms: u64)
        requires
            old(self)@.wf(),
        ensures
            final(self)@ == spec_update(old(self)@, bytes, now_ms, true),
            final(self)@.wf(),
            final(self)@.peak_bps >= old(self)@.peak_bps,
            times_fresh(final(self)@.rx_history, now_ms, old(self)@.window_secs),
            times_fresh(final(self)@.tx_history, now_ms, old(self)@.window_secs),
            final(self)@.current_bps == sat_add64(
                rate_bps(sum_bytes(final(self)@.rx_history), old(self)@.window_secs),
                rate_bps(sum_bytes(final(self)@.tx_history), old(self)@.window_secs),
            ),
    {
        self.update_dir(bytes, now_ms, true);
    }

    /// Records `bytes` transmitted at `now_ms`.
    pub fn update_tx(&mut self, bytes: u64, now_ms: u64)
        requires
            old(self)@.wf(),
        ensures
            final(self)@ == spec_update(old(self)@, bytes, now_ms, false),
            final(self)@.wf(),
            final(self)@.peak_bps >= old(self)@.peak_bps,
            times_fresh(final(self)@.rx_history, now_ms, old(self)@.window_secs),
            times_fresh(final(self)@.tx_history, now_ms, old(self)@.window_secs),
            final(self)@.current_bps == sat_add64(
                rate_bps(sum_bytes(final(self)@.rx_history), old(self)@.window_secs),
                rate_bps(sum_bytes(final(self)@.tx_history), old(self)@.window_secs),
            ),
    {
        self.update_dir(bytes, now_ms, false);
    }

    /// Shared body of the two directional updates.
    fn update_dir(&mut self, bytes: u64, now_ms: u64, inbound: bool)
        requires
            old(self)@.wf(),
        ensures
            final(self)@ == spec_update(old(self)@, bytes, now_ms, inbound),
            final(self)@.wf(),
            final(self)@.peak_bps >= old(self)@.peak_bps,
            times_fresh(final(self)@.rx_history, now_ms, old(self)@.window_secs),
            times_fresh(final(self)@.tx_history, now_ms, old(self)@.window_secs),
    {
        let t = if now_ms > self.last_ms {
            now_ms
        } else {
            self.last_ms
        };
        self.last_ms = t;
        if inbound {
            self.total_rx_bytes = Self::sat_add(self.total_rx_bytes, bytes);
        } else {
            self.total_tx_bytes = Self::sat_add(self.total_tx_bytes, bytes);
        }
        self.cleanup_old_entries();
        if inbound {
            self.rx_history.push_back((t, bytes));
        } else {
            self.tx_history.push_back((t, bytes));
        }
        self.recalculate_rates();
    }

    /// Saturating addition on byte totals.
    fn sat_add(a: u64, b: u64) -> (r: u64)
        ensures
            r == sat_add64(a, b),
    {
        if a > u64::MAX - b {
            u64::MAX
        } else {
            a + b
        }
    }

    /// Evicts, from both directional sequences, every sample older than the
    /// last update time minus the window.
    fn cleanup_old_entries(&mut self)
        requires
            1 <= old(self)@.window_secs <= MAX_WINDOW_SECS,
            sorted_times(old(self)@.rx_history),
            sorted_times(old(self)@.tx_history),
            times_bounded(old(self)@.rx_history, old(self)@.last_ms),
            times_bounded(old(self)@.tx_history, old(self)@.last_ms),
        ensures
            final(self)@ == (StatsView {
                rx_history: retained(old(self)@.rx_history, spec_cutoff(
                    old(self)@.last_ms,
                    old(self)@.window_secs,
                )),
                tx_history: retained(old(self)@.tx_history, spec_cutoff(
                    old(self)@.last_ms,
                    old(self)@.window_secs,
                )),
                ..old(self)@
            }),
            final(self)@.wf(),
    {
        let ghost pre = self@;
        let window_ms = self.window_secs * 1000;
        let cutoff: u64 = if self.last_ms >= window_ms {
            self.last_ms - window_ms
        } else {
            0
        };
        assert(cutoff == spec_cutoff(self@.last_ms, self@.window_secs));
        let ghost rx0 = self.rx_history@;
        let ghost mut k: int = 0;
        proof {
            assert(rx0.skip(0) =~= rx0);
        }
        while self.rx_history.len() > 0 && self.rx_history[0].0 < cutoff
            invariant
                0 <= k <= rx0.len(),
                self@ == (StatsView { rx_history: rx0.skip(k), ..pre }),
                forall|j: int| 0 <= j < k ==> #[trigger] rx0[j].0 < cutoff,
                sorted_times(rx0),
            decreases rx0.len() - k,
        {
            self.rx_history.pop_front();
            proof {
                assert(rx0.skip(k).drop_first() =~= rx0.skip(k + 1));
                k = k + 1;
            }
        }
        proof {
            assert forall|j: int| k <= j < rx0.len() implies #[trigger] rx0[j].0 >= cutoff by {
                if k < rx0.len() {
                    assert(rx0.skip(k)[0] == rx0[k]);
                    assert(rx0[k].0 <= rx0[j].0);
                }
            }
            lemma_retained_is_suffix(rx0, cutoff as int, k);
        }
        let ghost mid = self@;
        let ghost tx0 = self.tx_history@;
        let ghost mut m: int = 0;
        proof {
            assert(tx0.skip(0) =~= tx0);
        }
        while self.tx_history.len() > 0 && self.tx_history[0].0 < cutoff
            invariant
                0 <= m <= tx0.len(),
                self@ == (StatsView { tx_history: tx0.skip(m), ..mid }),
                forall|j: int| 0 <= j < m ==> #[trigger] tx0[j].0 < cutoff,
                sorted_times(tx0),
            decreases tx0.len() - m,
        {
            self.tx_history.pop_front();
            proof {
                assert(tx0.skip(m).drop_first() =~= tx0.skip(m + 1));
                m = m + 1;
            }
        }
        proof {
            assert forall|j: int| m <= j < tx0.len() implies #[trigger] tx0[j].0 >= cutoff by {
                if m < tx0.len() {
                    assert(tx0.skip(m)[0] == tx0[m]);
                    assert(tx0[m].0 <= tx0[j].0);
                }
            }
            lemma_retained_is_suffix(tx0, cutoff as int, m);
            assert(times_fresh(self@.rx_history, self@.last_ms, self@.window_secs));
            assert(times_fresh(self@.tx_history, self@.last_ms, self@.window_secs));
        }
    }

    /// Sum of the byte counts currently held in one directional sequence.
    fn sum_history(h: &VecDeque<(u64, u64)>) -> (s: u128)
        ensures
            s as int == sum_bytes(h@),
    {
        let n = h.len();
        let mut acc: u128 = 0;
        let mut i: usize = 0;
        proof {
            assert(h@.take(0) =~= Seq::<(u64, u64)>::empty());
        }
        while i < n
            invariant
                0 <= i <= n,
                n == h@.len(),
                acc as int == sum_bytes(h@.take(i as int)),
                acc as int <= (i as int) * (u64::MAX as int),
            decreases n - i,
        {
            let e = h[i];
            proof {
                lemma_sum_bytes_take_step(h@, i as int);
                assert((i as int) * (u64::MAX as int) + (u64::MAX as int) == (i + 1) * (
                u64::MAX as int)) by (nonlinear_arith);
                assert((i + 1) * (u64::MAX as int) <= 0x1_0000_0000_0000_0000int * (
                u64::MAX as int)) by (nonlinear_arith)
                    requires
                        0 <= i < 0x1_0000_0000_0000_0000,
                ;
            }
            acc = acc + e.1 as u128;
            i = i + 1;
        }
        proof {
            assert(h@.take(n as int) =~= h@);
        }
        acc
    }

    /// Recomputes both directional rates, the combined rate, and the peak
    /// from the currently retained samples.
    fn recalculate_rates(&mut self)
        requires
            1 <= old(self)@.window_secs,
        ensures
            final(self)@ == (StatsView {
                rx_bps: rate_bps(sum_bytes(old(self)@.rx_history), old(self)@.window_secs),
                tx_bps: rate_bps(sum_bytes(old(self)@.tx_history), old(self)@.window_secs),
                current_bps: sat_add64(
                    rate_bps(sum_bytes(old(self)@.rx_history), old(self)@.window_secs),
                    rate_bps(sum_bytes(old(self)@.tx_history), old(self)@.window_secs),
                ),
                peak_bps: if sat_add64(
                    rate_bps(sum_bytes(old(self)@.rx_history), old(self)@.window_secs),
                    rate_bps(sum_bytes(old(self)@.tx_history), old(self)@.window_secs),
                ) > old(self)@.peak_bps {
                    sat_add64(
                        rate_bps(sum_bytes(old(self)@.rx_history), old(self)@.window_secs),
                        rate_bps(sum_bytes(old(self)@.tx_history), old(self)@.window_secs),
                    )
                } else {
                    old(self)@.peak_bps
                },
                ..old(self)@
            }),
    {
        let rx_sum = Self::sum_history(&self.rx_history);
        let tx_sum = Self::sum_history(&self.tx_history);
        let ws = self.window_secs as u128;
        let rxq = rx_sum / ws;
        self.rx_bps = if rxq > u64::MAX as u128 {
            u64::MAX
        } else {
            rxq as u64
        };
        let txq = tx_sum / ws;
        self.tx_bps = if txq > u64::MAX as u128 {
            u64::MAX
        } else {
            txq as u64
        };
        self.current_bps = Self::sat_add(self.rx_bps, self.tx_bps);
        if self.current_bps > self.peak_bps {
            self.peak_bps = self.current_bps;
        }
        proof {
            lemma_sum_bytes_bounds(old(self)@.rx_history);
            lemma_sum_bytes_bounds(old(self)@.tx_history);
        }
    }

    /// Percentage of `max_speed_bps` consumed by the current combined rate,
    /// truncated and clamped to 100; zero when the capacity is zero.
    pub fn get_utilization_percentage(&self, max_speed_bps: u64) -> (r: u64)
        ensures
            r == spec_utilization(self@.current_bps, max_speed_bps),
            r <= 100,
    {
        if max_speed_bps == 0 {
            0
        } else {
            let p = (self.current_bps as u128) * 100 / (max_speed_bps as u128);
            if p >= 100 {
                100
            } else {
                p as u64
            }
        }
    }

    /// Clears all samples, rates, and totals; the window length and the
    /// clock position are kept.
    pub fn reset(&mut self)
        ensures
            final(self)@ == (StatsView {
                rx_bps: 0u64,
                tx_bps: 0u64,
                current_bps: 0u64,
                peak_bps: 0u64,
                total_rx_bytes: 0u64,
                total_tx_bytes: 0u64,
                rx_history: Seq::<(u64, u64)>::empty(),
                tx_history: Seq::<(u64, u64)>::empty(),
                ..old(self)@
            }),
            old(self)@.wf() ==> final(self)@.wf(),
    {
        self.rx_bps = 0;
        self.tx_bps = 0;
        self.current_bps = 0;
        self.peak_bps = 0;
        self.total_rx_bytes = 0;
        self.total_tx_bytes = 0;
        self.rx_history.clear();
        self.tx_history.clear();
        proof {
            assert(self@.rx_history =~= Seq::<(u64, u64)>::empty());
            assert(self@.tx_history =~= Seq::<(u64, u64)>::empty());
        }
    }

    /// The merged, time-ordered history of both directions, trimmed to the
    /// most recent `max_points` samples, as `(age-in-milliseconds, rx-bytes,
    /// tx-bytes)` triples relative to `now_ms`.
    pub fn get_history_data(&self, max_points: usize, now_ms: u64) -> (r: Vec<(u64, u64, u64)>)
        requires
            self@.wf(),
            now_ms >= self@.last_ms,
        ensures
            r@ == spec_history_data(self@, max_points as int, now_ms),
    {
        let rxn = self.rx_history.len();
        let txn = self.tx_history.len();
        let mut merged: Vec<(u64, u64, u64)> = Vec::new();
        let mut i: usize = 0;
        let mut j: usize = 0;
        proof {
            assert(self@.rx_history.skip(0) =~= self@.rx_history);
            assert(self@.tx_history.skip(0) =~= self@.tx_history);
        }
        while i < rxn || j < txn
            invariant
                0 <= i <= rxn,
                0 <= j <= txn,
                rxn == self@.rx_history.len(),
                txn == self@.tx_history.len(),
                self@.wf(),
                merge_histories(self@.rx_history, self@.tx_history) == merged@ + merge_histories(
                    self@.rx_history.skip(i as int),
                    self@.tx_history.skip(j as int),
                ),
                forall|p: int| 0 <= p < merged@.len() ==> #[trigger] merged@[p].0 <= self@.last_ms,
            decreases (rxn - i) + (txn - j),
    {
            let ghost rxs = self@.rx_history.skip(i as int);
            let ghost txs = self@.tx_history.skip(j as int);
            let take_rx: bool = if i < rxn {
                if j < txn {
                    let re = self.rx_history[i];
                    let te = self.tx_history[j];
                    re.0 <= te.0
                } else {
                    true
                }
            } else {
                false
            };
            proof {
                if take_rx {
                    assert(rxs[0] == self@.rx_history[i as int]);
                    assert(rxs.drop_first() =~= self@.rx_history.skip(i + 1));
                    assert(merge_histories(rxs, txs) == seq![(rxs[0].0, rxs[0].1, 0u64)]
                        + merge_histories(rxs.drop_first(), txs));
                } else {
                    assert(txs[0] == self@.tx_history[j as int]);
                    assert(txs.drop_first() =~= self@.tx_history.skip(j + 1));
                    assert(merge_histories(rxs, txs) == seq![(txs[0].0, 0u64, txs[0].1)]
                        + merge_histories(rxs, txs.drop_first()));
                }
            }
            if take_rx {
                let re = self.rx_history[i];
                merged.push((re.0, re.1, 0));
                i = i + 1;
            } else {
                let te = self.tx_history[j];
                merged.push((te.0, 0, te.1));
                j = j + 1;
            }
            proof {
                assert(merge_histories(self@.rx_history, self@.tx_history) =~= merged@
                    + merge_histories(
                    self@.rx_history.skip(i as int),
                    self@.tx_history.skip(j as int),
                ));
            }
        }
        proof {
            assert(self@.rx_history.skip(rxn as int) =~= Seq::<(u64, u64)>::empty());
            assert(self@.tx_history.skip(txn as int) =~= Seq::<(u64, u64)>::empty());
            assert(merge_histories(self@.rx_history, self@.tx_history) =~= merged@);
        }
        let ghost full = merged@;
        let start: usize = if merged.len() > max_points {
            merged.len() - max_points
        } else {
            0
        };
        let ghost trimmed = if full.len() > max_points {
            full.skip(full.len() - max_points as int)
        } else {
            full
        };
        let mut out: Vec<(u64, u64, u64)> = Vec::new();
        let mut p: usize = start;
        proof {
            assert(trimmed =~= full.skip(start as int));
        }
        while p < merged.len()
            invariant
                start <= p <= merged@.len(),
                merged@ == full,
                trimmed == full.skip(start as int),
                now_ms >= self@.last_ms,
                forall|q: int| 0 <= q < full.len() ==> #[trigger] full[q].0 <= self@.last_ms,
                out@ == trimmed.take(p - start).map_values(
                    |e: (u64, u64, u64)| (((now_ms - e.0) as u64, e.1, e.2)),
                ),
            decreases merged@.len() - p,
        {
            let e = merged[p];
            out.push((now_ms - e.0, e.1, e.2));
            p = p + 1;
            proof {
                assert(out@ =~= trimmed.take(p - start).map_values(
                    |e: (u64, u64, u64)| (((now_ms - e.0) as u64, e.1, e.2)),
                ));
            }
        }
        proof {
            assert(trimmed.take(merged@.len() - start) =~= trimmed);
        }
        out
    }
}

} // verus!
