//! Rolling latency samples per pipeline stage, percentiles over them, and
//! pipeline counters.
use vstd::prelude::*;
use vstd::relations::sorted_by;
use vstd::slice::slice_to_vec;
use crate::orderbook::{increment_saturating, saturating_inc};

verus! {

/// The order that percentiles rank samples by.
pub open spec fn sample_order() -> spec_fn(i64, i64) -> bool {
    |a: i64, b: i64| a <= b
}

/// The samples in ascending order.
pub open spec fn sorted_samples(s: Seq<i64>) -> Seq<i64> {
    s.sort_by(sample_order())
}

/// The index a percentile selects among `len` sorted samples:
/// `floor(pct * len / 100)`, at most the last index.
pub open spec fn percentile_index(pct: usize, len: nat) -> int {
    let i = (pct * len) / 100;
    if i < len - 1 {
        i
    } else {
        len - 1
    }
}

/// The `pct` percentile of `s`: zero when empty, otherwise the sample at
/// `percentile_index` in ascending order.
pub open spec fn percentile_of(s: Seq<i64>, pct: usize) -> i64 {
    if s.len() == 0 {
        0
    } else {
        sorted_samples(s)[percentile_index(pct, s.len())]
    }
}

/// Relies on std's `slice::sort_unstable`: the same values in ascending
/// order.
#[verifier::external_body]
fn sort_ascending(v: &mut Vec<i64>)
    ensures
        final(v)@.to_multiset() == old(v)@.to_multiset(),
        sorted_by(final(v)@, sample_order()),
{
    v.sort_unstable();
}

/// The `pct` percentile of `samples` (see `percentile_of`).
pub fn percentile(samples: &[i64], pct: usize) -> (r: i64)
    ensures
        r == percentile_of(samples@, pct),
{
    if samples.len() == 0 {
        return 0;
    }
    let mut sorted = slice_to_vec(samples);
    sort_ascending(&mut sorted);
    proof {
        broadcast use vstd::seq_lib::group_to_multiset_ensures;
        samples@.lemma_sort_by_ensures(sample_order());
        assert(sorted@.len() == sorted@.to_multiset().len());
        vstd::seq_lib::lemma_sorted_unique(sorted@, sorted_samples(samples@), sample_order());
    }
    let n: usize = sorted.len();
    assert((pct as u128) * (n as u128) <= 0xffff_ffff_ffff_ffff * 0xffff_ffff_ffff_ffff) by (nonlinear_arith)
        requires pct <= 0xffff_ffff_ffff_ffff, n <= 0xffff_ffff_ffff_ffff;
    let wide: u128 = (pct as u128) * (n as u128) / 100;
    let idx: usize = if wide < (n - 1) as u128 {
        wide as usize
    } else {
        n - 1
    };
    sorted[idx]
}

/// Whole microseconds in `ns` nanoseconds, rounded toward zero.
pub open spec fn micros_of(ns: i64) -> int {
    if ns >= 0 {
        ns / 1000
    } else {
        -((-ns) / 1000)
    }
}

/// Nanoseconds to whole microseconds, rounded toward zero.
pub fn to_micros(ns: i64) -> (r: i64)
    ensures
        r == micros_of(ns),
{
    if ns >= 0 {
        (ns as u64 / 1000) as i64
    } else {
        let m: u64 = (-(ns as i128)) as u64;
        -((m / 1000) as i64)
    }
}

/// How many of the oldest samples a full buffer of `capacity` discards:
/// half the capacity, and at least one.
pub open spec fn discard_count(capacity: usize) -> int {
    if capacity / 2 == 0 {
        1
    } else {
        (capacity / 2) as int
    }
}

/// A buffer after recording `x`: appended, then, past `capacity`, the
/// oldest `discard_count(capacity)` samples dropped.
pub open spec fn buffer_after(buf: Seq<i64>, x: i64, capacity: usize) -> Seq<i64> {
    let b = buf.push(x);
    if b.len() > capacity {
        b.subrange(discard_count(capacity), b.len() as int)
    } else {
        b
    }
}

/// Records `x` into a buffer bounded by `capacity`.
fn record_into(buf: &mut Vec<i64>, x: i64, capacity: usize)
    requires
        old(buf)@.len() <= capacity,
    ensures
        final(buf)@ == buffer_after(old(buf)@, x, capacity),
        final(buf)@.len() <= capacity,
{
    buf.push(x);
    if buf.len() > capacity {
        let k: usize = if capacity / 2 == 0 {
            1
        } else {
            capacity / 2
        };
        let rest = buf.split_off(k);
        *buf = rest;
    }
}

/// The character of decimal digit `d`.
pub open spec fn digit_char(d: int) -> char {
    seq!['0', '1', '2', '3', '4', '5', '6', '7', '8', '9'][d]
}

/// The decimal digits of `n`, most significant first, without leading zeros.
pub open spec fn digits(n: nat) -> Seq<char>
    decreases n,
{
    if n < 10 {
        seq![digit_char(n as int)]
    } else {
        digits(n / 10).push(digit_char((n % 10) as int))
    }
}

/// `n` written in decimal, with a leading `-` when negative.
pub open spec fn decimal(n: int) -> Seq<char> {
    if n < 0 {
        seq!['-'] + digits((-n) as nat)
    } else {
        digits(n as nat)
    }
}

/// Relies on std's `ToString` for `i128`, which writes the number in
/// decimal with a leading `-` when negative.
#[verifier::external_body]
fn decimal_text(n: i128) -> (r: String)
    ensures
        r@ == decimal(n as int),
{
    n.to_string()
}

/// Appends `label` and then `n` in decimal.
fn push_field(out: &mut String, label: &str, n: i128)
    ensures
        final(out)@ == old(out)@ + label@ + decimal(n as int),
{
    out.append(label);
    let t = decimal_text(n);
    out.append(t.as_str());
}

/// The one-line report of a tracker.
pub open spec fn summary_line(t: &LatencyTracker) -> Seq<char> {
    "Ticks:"@ + decimal(t.ticks() as int) + " | Gaps:"@ + decimal(t.gaps() as int)
        + " | Reconnects:"@ + decimal(t.reconnect_count() as int) + " | NATS:"@ + decimal(
        t.published() as int,
    ) + " | Ingestion P50:"@ + decimal(micros_of(percentile_of(t.ingestion(), 50)))
        + "μs P99:"@ + decimal(micros_of(percentile_of(t.ingestion(), 99)))
        + "μs | Process P50:"@ + decimal(micros_of(percentile_of(t.processing(), 50)))
        + "μs P99:"@ + decimal(micros_of(percentile_of(t.processing(), 99)))
        + "μs | Publish P50:"@ + decimal(micros_of(percentile_of(t.publishing(), 50)))
        + "μs P99:"@ + decimal(micros_of(percentile_of(t.publishing(), 99))) + "μs"@
}

/// Three bounded sample buffers (ingestion, processing, publish) and the
/// pipeline's counters. Only the owning stage records into it.
pub struct LatencyTracker {
    ingestion_samples: Vec<i64>,
    processing_samples: Vec<i64>,
    publish_samples: Vec<i64>,
    ticks_processed: u64,
    gaps_detected: u64,
    reconnects: u64,
    nats_published: u64,
    capacity: usize,
}

impl LatencyTracker {
    pub closed spec fn ingestion(&self) -> Seq<i64> {
        self.ingestion_samples@
    }

    pub closed spec fn processing(&self) -> Seq<i64> {
        self.processing_samples@
    }

    pub closed spec fn publishing(&self) -> Seq<i64> {
        self.publish_samples@
    }

    pub closed spec fn buffer_capacity(&self) -> usize {
        self.capacity
    }

    pub closed spec fn ticks(&self) -> u64 {
        self.ticks_processed
    }

    pub closed spec fn gaps(&self) -> u64 {
        self.gaps_detected
    }

    pub closed spec fn reconnect_count(&self) -> u64 {
        self.reconnects
    }

    pub closed spec fn published(&self) -> u64 {
        self.nats_published
    }

    /// Every buffer is within the capacity.
    pub open spec fn wf(&self) -> bool {
        &&& self.ingestion().len() <= self.buffer_capacity()
        &&& self.processing().len() <= self.buffer_capacity()
        &&& self.publishing().len() <= self.buffer_capacity()
    }

    pub fn new(capacity: usize) -> (r: Self)
        ensures
            r.wf(),
            r.buffer_capacity() == capacity,
            r.ingestion().len() == 0,
            r.processing().len() == 0,
            r.publishing().len() == 0,
            r.ticks() == 0,
            r.gaps() == 0,
            r.reconnect_count() == 0,
            r.published() == 0,
    {
        LatencyTracker {
            ingestion_samples: Vec::new(),
            processing_samples: Vec::new(),
            publish_samples: Vec::new(),
            ticks_processed: 0,
            gaps_detected: 0,
            reconnects: 0,
            nats_published: 0,
            capacity,
        }
    }

    /// Records an ingestion latency and counts one processed tick.
    pub fn record_ingestion(&mut self, latency_ns: i64)
        requires
            old(self).wf(),
        ensures
            final(self).wf(),
            final(self).ingestion() == buffer_after(old(self).ingestion(), latency_ns, old(self).buffer_capacity()),
            final(self).processing() == old(self).processing(),
            final(self).publishing() == old(self).publishing(),
            final(self).buffer_capacity() == old(self).buffer_capacity(),
            final(self).ticks() == saturating_inc(old(self).ticks()),
            final(self).gaps() == old(self).gaps(),
            final(self).reconnect_count() == old(self).reconnect_count(),
            final(self).published() == old(self).published(),
    {
        record_into(&mut self.ingestion_samples, latency_ns, self.capacity);
        self.ticks_processed = increment_saturating(self.ticks_processed);
    }

    /// Records a processing latency.
    pub fn record_processing(&mut self, latency_ns: i64)
        requires
            old(self).wf(),
        ensures
            final(self).wf(),
            final(self).processing() == buffer_after(old(self).processing(), latency_ns, old(self).buffer_capacity()),
            final(self).ingestion() == old(self).ingestion(),
            final(self).publishing() == old(self).publishing(),
            final(self).buffer_capacity() == old(self).buffer_capacity(),
            final(self).ticks() == old(self).ticks(),
            final(self).gaps() == old(self).gaps(),
            final(self).reconnect_count() == old(self).reconnect_count(),
            final(self).published() == old(self).published(),
    {
        record_into(&mut self.processing_samples, latency_ns, self.capacity);
    }

    /// Records a publish latency and counts one published message.
    pub fn record_publish(&mut self, latency_ns: i64)
        requires
            old(self).wf(),
        ensures
            final(self).wf(),
            final(self).publishing() == buffer_after(old(self).publishing(), latency_ns, old(self).buffer_capacity()),
            final(self).ingestion() == old(self).ingestion(),
            final(self).processing() == old(self).processing(),
            final(self).buffer_capacity() == old(self).buffer_capacity(),
            final(self).ticks() == old(self).ticks(),
            final(self).gaps() == old(self).gaps(),
            final(self).reconnect_count() == old(self).reconnect_count(),
            final(self).published() == saturating_inc(old(self).published()),
    {
        record_into(&mut self.publish_samples, latency_ns, self.capacity);
        self.nats_published = increment_saturating(self.nats_published);
    }

    /// Counts one detected sequence gap.
    pub fn record_gap(&mut self)
        requires
            old(self).wf(),
        ensures
            final(self).wf(),
            final(self).ingestion() == old(self).ingestion(),
            final(self).processing() == old(self).processing(),
            final(self).publishing() == old(self).publishing(),
            final(self).buffer_capacity() == old(self).buffer_capacity(),
            final(self).ticks() == old(self).ticks(),
            final(self).gaps() == saturating_inc(old(self).gaps()),
            final(self).reconnect_count() == old(self).reconnect_count(),
            final(self).published() == old(self).published(),
    {
        self.gaps_detected = increment_saturating(self.gaps_detected);
    }

    /// Counts one reconnect of the feed.
    pub fn record_reconnect(&mut self)
        requires
            old(self).wf(),
        ensures
            final(self).wf(),
            final(self).ingestion() == old(self).ingestion(),
            final(self).processing() == old(self).processing(),
            final(self).publishing() == old(self).publishing(),
            final(self).buffer_capacity() == old(self).buffer_capacity(),
            final(self).ticks() == old(self).ticks(),
            final(self).gaps() == old(self).gaps(),
            final(self).reconnect_count() == saturating_inc(old(self).reconnect_count()),
            final(self).published() == old(self).published(),
    {
        self.reconnects = increment_saturating(self.reconnects);
    }

    pub fn ticks_processed(&self) -> (r: u64)
        ensures
            r == self.ticks(),
    {
        self.ticks_processed
    }

    pub fn gaps_detected(&self) -> (r: u64)
        ensures
            r == self.gaps(),
    {
        self.gaps_detected
    }

    pub fn reconnects(&self) -> (r: u64)
        ensures
            r == self.reconnect_count(),
    {
        self.reconnects
    }

    pub fn nats_published(&self) -> (r: u64)
        ensures
            r == self.published(),
    {
        self.nats_published
    }

    pub fn p50_ingestion_us(&self) -> (r: i64)
        ensures
            r == micros_of(percentile_of(self.ingestion(), 50)),
    {
        to_micros(percentile(self.ingestion_samples.as_slice(), 50))
    }

    pub fn p99_ingestion_us(&self) -> (r: i64)
        ensures
            r == micros_of(percentile_of(self.ingestion(), 99)),
    {
        to_micros(percentile(self.ingestion_samples.as_slice(), 99))
    }

    pub fn p50_processing_us(&self) -> (r: i64)
        ensures
            r == micros_of(percentile_of(self.processing(), 50)),
    {
        to_micros(percentile(self.processing_samples.as_slice(), 50))
    }

    pub fn p99_processing_us(&self) -> (r: i64)
        ensures
            r == micros_of(percentile_of(self.processing(), 99)),
    {
        to_micros(percentile(self.processing_samples.as_slice(), 99))
    }

    pub fn p50_publish_us(&self) -> (r: i64)
        ensures
            r == micros_of(percentile_of(self.publishing(), 50)),
    {
        to_micros(percentile(self.publish_samples.as_slice(), 50))
    }

    pub fn p99_publish_us(&self) -> (r: i64)
        ensures
            r == micros_of(percentile_of(self.publishing(), 99)),
    {
        to_micros(percentile(self.publish_samples.as_slice(), 99))
    }

    /// Counters and percentiles on one line.
    pub fn summary(&self) -> (r: String)
        ensures
            r@ == summary_line(self),
    {
        let mut out = String::new();
        push_field(&mut out, "Ticks:", self.ticks_processed as i128);
        push_field(&mut out, " | Gaps:", self.gaps_detected as i128);
        push_field(&mut out, " | Reconnects:", self.reconnects as i128);
        push_field(&mut out, " | NATS:", self.nats_published as i128);
        push_field(&mut out, " | Ingestion P50:", self.p50_ingestion_us() as i128);
        push_field(&mut out, "μs P99:", self.p99_ingestion_us() as i128);
        push_field(&mut out, "μs | Process P50:", self.p50_processing_us() as i128);
        push_field(&mut out, "μs P99:", self.p99_processing_us() as i128);
        push_field(&mut out, "μs | Publish P50:", self.p50_publish_us() as i128);
        push_field(&mut out, "μs P99:", self.p99_publish_us() as i128);
        out.append("μs");
        assert(out@ =~= summary_line(self));
        out
    }
}

/// For any samples, the 50th percentile is at most the 99th; both are zero
/// when there are no samples.
pub proof fn lemma_p50_le_p99(s: Seq<i64>)
    ensures
        percentile_of(s, 50) <= percentile_of(s, 99),
        s.len() == 0 ==> percentile_of(s, 50) == 0 && percentile_of(s, 99) == 0,
{
    if s.len() > 0 {
        broadcast use vstd::seq_lib::group_to_multiset_ensures;
        s.lemma_sort_by_ensures(sample_order());
        assert(sorted_samples(s).len() == sorted_samples(s).to_multiset().len());
        let n = s.len();
        assert((50 * n) / 100 <= (99 * n) / 100) by (nonlinear_arith)
            requires n >= 0;
        let i = percentile_index(50, n);
        let j = percentile_index(99, n);
        if i < j {
            assert(sample_order()(sorted_samples(s)[i], sorted_samples(s)[j]));
        }
    }
}

} // verus!
