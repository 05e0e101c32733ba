//! The decisions of the concurrent pipeline: sequencing ticks, applying them
//! to the book, stage lifecycle, backpressure and staleness.
use vstd::prelude::*;
use crate::orderbook::{BookDelta, L2Orderbook, deltas_state, sequence_accepts, saturating_inc, increment_saturating};

verus! {

/// Capacity of the channel from ingestion to processing.
pub const TICK_CHANNEL_CAPACITY: usize = 100_000;

/// Capacity of the channel from execution to fill handling.
pub const FILL_CHANNEL_CAPACITY: usize = 10_000;

/// Samples kept per latency buffer.
pub const LATENCY_BUFFER_CAPACITY: usize = 50_000;

/// How long shutdown waits for the stages, in milliseconds.
pub const SHUTDOWN_TIMEOUT_MS: u64 = 5_000;

/// How often the processing stage reports, in nanoseconds.
pub const REPORT_INTERVAL_NS: i64 = 5_000_000_000;

/// How long without an event before the feed counts as stale, in nanoseconds.
pub const STALE_FEED_NS: i64 = 10_000_000_000;

/// A normalized market event. Prices, sizes and volume are fixed-point with
/// six decimal places.
#[derive(Clone, Debug)]
pub struct MarketTick {
    pub symbol: String,
    pub bid_price: i64,
    pub ask_price: i64,
    pub bid_size: i64,
    pub ask_size: i64,
    pub last_price: i64,
    pub volume: i64,
    pub timestamp_ns: i64,
    pub seq_id: u64,
    pub exchange_ts_ns: i64,
    pub ingestion_latency_ns: i64,
}

/// The largest tick sequence id whose two book sub-sequences fit in a `u64`.
pub const MAX_TICK_SEQ: u64 = 0x7fff_ffff_ffff_ffff;

/// The bid-side delta of a tick, at sub-sequence `2n`.
pub open spec fn bid_delta_of(t: &MarketTick) -> BookDelta {
    BookDelta { price: t.bid_price, quantity: t.bid_size, is_bid: true, seq_id: (2 * t.seq_id) as u64 }
}

/// The ask-side delta of a tick, at sub-sequence `2n + 1`.
pub open spec fn ask_delta_of(t: &MarketTick) -> BookDelta {
    BookDelta { price: t.ask_price, quantity: t.ask_size, is_bid: false, seq_id: (2 * t.seq_id + 1) as u64 }
}

/// Applies a tick to the book as its bid delta and then its ask delta;
/// `true` when both were accepted.
pub fn apply_tick(book: &mut L2Orderbook, tick: &MarketTick) -> (r: bool)
    requires
        old(book).wf(),
        tick.seq_id <= MAX_TICK_SEQ,
    ensures
        final(book).wf(),
        final(book).state() == deltas_state(old(book).state(), seq![bid_delta_of(tick), ask_delta_of(tick)]),
        r == (sequence_accepts(old(book).last_seq_id, (2 * tick.seq_id) as u64) && sequence_accepts(
            delta_state_last(old(book).last_seq_id, (2 * tick.seq_id) as u64),
            (2 * tick.seq_id + 1) as u64,
        )),
        final(book).symbol == old(book).symbol,
{
    let ghost s0 = book.state();
    let bid_seq: u64 = 2 * tick.seq_id;
    let bid_ok = book.apply_delta(tick.bid_price, tick.bid_size, true, bid_seq);
    let ask_ok = book.apply_delta(tick.ask_price, tick.ask_size, false, bid_seq + 1);
    proof {
        let ds = seq![bid_delta_of(tick), ask_delta_of(tick)];
        assert(ds.drop_last() =~= seq![bid_delta_of(tick)]);
        let one = seq![bid_delta_of(tick)];
        assert(one.drop_last() =~= Seq::<BookDelta>::empty());
        assert(deltas_state(s0, Seq::<BookDelta>::empty()) == s0);
        assert(deltas_state(s0, one) == crate::orderbook::delta_state(s0, bid_delta_of(tick)));
        assert(deltas_state(s0, ds) == crate::orderbook::delta_state(deltas_state(s0, one), ask_delta_of(tick)));
    }
    bid_ok && ask_ok
}

/// The sequence position after offering a delta at `seq` to a book at `last`.
pub open spec fn delta_state_last(last: u64, seq: u64) -> u64 {
    if sequence_accepts(last, seq) {
        seq
    } else {
        last
    }
}

/// Hands out one strictly increasing total order of tick sequence ids.
pub struct SequenceGenerator {
    next: u64,
}

impl SequenceGenerator {
    /// The id the next call hands out.
    pub closed spec fn upcoming(&self) -> u64 {
        self.next
    }

    pub fn new() -> (r: Self)
        ensures
            r.upcoming() == 0,
    {
        SequenceGenerator { next: 0 }
    }

    /// The next id, or `None` once every `u64` has been handed out.
    pub fn next_id(&mut self) -> (r: Option<u64>)
        ensures
            old(self).upcoming() < u64::MAX ==> r == Some(old(self).upcoming())
                && final(self).upcoming() == old(self).upcoming() + 1,
            old(self).upcoming() == u64::MAX ==> r.is_none() && final(self).upcoming() == u64::MAX,
    {
        if self.next == u64::MAX {
            None
        } else {
            let id = self.next;
            self.next = self.next + 1;
            Some(id)
        }
    }
}

/// The lifecycle of a pipeline stage.
#[derive(Clone, Copy, Debug, PartialEq, Eq, Structural)]
pub enum StageState {
    Running,
    Draining,
    Stopped,
}

/// What a stage observes between units of work.
#[derive(Clone, Copy, Debug, PartialEq, Eq, Structural)]
pub enum StageEvent {
    /// The broadcast shutdown signal.
    Shutdown,
    /// The unit of work in hand is finished.
    WorkDone,
    /// The stage's input channel has no sender left.
    InputClosed,
}

pub open spec fn stage_next(s: StageState, e: StageEvent) -> StageState {
    match (s, e) {
        (StageState::Stopped, _) => StageState::Stopped,
        (_, StageEvent::InputClosed) => StageState::Stopped,
        (StageState::Running, StageEvent::Shutdown) => StageState::Draining,
        (StageState::Running, StageEvent::WorkDone) => StageState::Running,
        (StageState::Draining, StageEvent::Shutdown) => StageState::Draining,
        (StageState::Draining, StageEvent::WorkDone) => StageState::Stopped,
    }
}

/// Running stays running until shutdown; shutdown drains; draining stops
/// once the work in hand is done; a closed input stops the stage.
pub fn stage_transition(s: StageState, e: StageEvent) -> (r: StageState)
    ensures
        r == stage_next(s, e),
{
    match (s, e) {
        (StageState::Stopped, _) => StageState::Stopped,
        (_, StageEvent::InputClosed) => StageState::Stopped,
        (StageState::Running, StageEvent::Shutdown) => StageState::Draining,
        (StageState::Running, StageEvent::WorkDone) => StageState::Running,
        (StageState::Draining, StageEvent::Shutdown) => StageState::Draining,
        (StageState::Draining, StageEvent::WorkDone) => StageState::Stopped,
    }
}

/// Whether a stage in state `s` takes new input.
pub fn pulls_input(s: StageState) -> (r: bool)
    ensures
        r == (s == StageState::Running),
{
    match s {
        StageState::Running => true,
        _ => false,
    }
}

/// The result of a non-blocking send into a bounded channel.
#[derive(Clone, Copy, Debug, PartialEq, Eq, Structural)]
pub enum SendOutcome {
    Sent,
    Full,
    Disconnected,
}

/// Counts of what the ingestion stage did with its events.
#[derive(Clone, Copy, Debug, PartialEq, Eq, Structural)]
pub struct IngestionCounts {
    pub sent: u64,
    pub dropped: u64,
}

/// Accounts for one send: a full channel drops the event and counts it; a
/// disconnected one ends the stage (`false`).
pub fn after_send(c: IngestionCounts, outcome: SendOutcome) -> (r: (IngestionCounts, bool))
    ensures
        r.1 == (outcome != SendOutcome::Disconnected),
        r.0 == match outcome {
            SendOutcome::Sent => IngestionCounts { sent: saturating_inc(c.sent), dropped: c.dropped },
            SendOutcome::Full => IngestionCounts { sent: c.sent, dropped: saturating_inc(c.dropped) },
            SendOutcome::Disconnected => c,
        },
{
    match outcome {
        SendOutcome::Sent => (IngestionCounts { sent: increment_saturating(c.sent), dropped: c.dropped }, true),
        SendOutcome::Full => (IngestionCounts { sent: c.sent, dropped: increment_saturating(c.dropped) }, true),
        SendOutcome::Disconnected => (c, false),
    }
}

/// At least `interval_ns` has passed from `since_ns` to `now_ns`.
pub fn interval_elapsed(since_ns: i64, now_ns: i64, interval_ns: i64) -> (r: bool)
    ensures
        r == (now_ns - since_ns >= interval_ns),
{
    (now_ns as i128) - (since_ns as i128) >= interval_ns as i128
}

/// The feed is stale when no event arrived for more than `STALE_FEED_NS`.
pub fn feed_is_stale(last_event_ns: i64, now_ns: i64) -> (r: bool)
    ensures
        r == (now_ns - last_event_ns > STALE_FEED_NS),
{
    (now_ns as i128) - (last_event_ns as i128) > STALE_FEED_NS as i128
}

/// Where normalized ticks and fills are published.
pub struct NatsPublisher {
    pub nats_url: String,
}

impl NatsPublisher {
    pub fn new(url: &str) -> (r: Self)
        ensures
            r.nats_url@ == url@,
    {
        NatsPublisher { nats_url: url.to_owned() }
    }
}

} // verus!
