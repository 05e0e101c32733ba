//! The per-instrument level-2 order book: two sorted sides, a sequence
//! position that only accepts the immediate successor, and diagnostics.
use vstd::prelude::*;
use crate::book_side::{
    OrderbookLevel, level_update, levels_map, side_ordered, side_view, update_side,
    lemma_view_all, ranks_before,
};
use crate::clock::now_ns;
use vstd::arithmetic::div_mod::{lemma_fundamental_div_mod, lemma_mod_bound};

verus! {

/// A full picture of one instrument's book at a sequence position.
#[derive(Clone, Debug)]
pub struct OrderbookSnapshot {
    pub symbol: String,
    pub bids: Vec<OrderbookLevel>,
    pub asks: Vec<OrderbookLevel>,
    pub seq_id: u64,
    pub timestamp_ns: i64,
}

/// One incremental level update at a sequence position.
#[derive(Clone, Copy, Debug, PartialEq, Eq, Structural)]
pub struct BookDelta {
    pub price: i64,
    pub quantity: i64,
    pub is_bid: bool,
    pub seq_id: u64,
}

/// What the book holds: the two sides as price-to-quantity maps and the last
/// applied sequence id.
pub struct BookState {
    pub bids: Map<i64, i64>,
    pub asks: Map<i64, i64>,
    pub last_seq_id: u64,
}

/// A delta at `seq` is accepted when the book was never seeded (`last` is
/// zero) or `seq` immediately follows `last`.
pub open spec fn sequence_accepts(last: u64, seq: u64) -> bool {
    last == 0 || seq as int == last as int + 1
}

/// The state after offering delta `d`: unchanged on a gap, otherwise the
/// level update on its side and the sequence position moved to `d.seq_id`.
pub open spec fn delta_state(s: BookState, d: BookDelta) -> BookState {
    if !sequence_accepts(s.last_seq_id, d.seq_id) {
        s
    } else if d.is_bid {
        BookState {
            bids: level_update(s.bids, d.price, d.quantity),
            asks: s.asks,
            last_seq_id: d.seq_id,
        }
    } else {
        BookState {
            bids: s.bids,
            asks: level_update(s.asks, d.price, d.quantity),
            last_seq_id: d.seq_id,
        }
    }
}

/// The state after offering the deltas of `ds` in order.
pub open spec fn deltas_state(s: BookState, ds: Seq<BookDelta>) -> BookState
    decreases ds.len(),
{
    if ds.len() == 0 {
        s
    } else {
        delta_state(deltas_state(s, ds.drop_last()), ds.last())
    }
}

/// The state a snapshot installs.
pub open spec fn snapshot_state(
    bids: Seq<OrderbookLevel>,
    asks: Seq<OrderbookLevel>,
    seq_id: u64,
) -> BookState {
    BookState { bids: levels_map(bids), asks: levels_map(asks), last_seq_id: seq_id }
}

/// The state of a book that was just created.
pub open spec fn empty_state() -> BookState {
    BookState { bids: Map::empty(), asks: Map::empty(), last_seq_id: 0 }
}

/// `p` is a key of `m` that ranks ahead of every other key.
pub open spec fn is_best(m: Map<i64, i64>, p: i64, descending: bool) -> bool {
    &&& m.contains_key(p)
    &&& forall|q: i64| #[trigger] m.contains_key(q) && q != p ==> ranks_before(p, q, descending)
}

/// The best price of a side: the highest bid or the lowest ask.
pub open spec fn best_of(m: Map<i64, i64>, r: Option<i64>, descending: bool) -> bool {
    match r {
        None => forall|q: i64| !m.contains_key(q),
        Some(p) => is_best(m, p, descending),
    }
}

/// No bid price reaches any ask price.
pub open spec fn uncrossed(s: BookState) -> bool {
    forall|b: i64, a: i64| #[trigger] s.bids.contains_key(b) && #[trigger] s.asks.contains_key(a) ==> b < a
}

/// One more than `n`, staying at `u64::MAX` once there.
pub open spec fn saturating_inc(n: u64) -> u64 {
    if n == u64::MAX {
        n
    } else {
        (n + 1) as u64
    }
}

/// The midpoint of two prices, rounded down.
pub open spec fn mid_of(bid: i64, ask: i64) -> int {
    (bid + ask) / 2
}

/// Spread scale: the spread is reported in millionths of a basis point.
pub const SPREAD_SCALE: i128 = 10_000_000_000;

/// The spread relative to the bid in millionths of a basis point, rounded
/// up, so that any ask above the bid gives a spread above zero.
pub open spec fn spread_of(bid: i64, ask: i64) -> int {
    -(((bid - ask) * SPREAD_SCALE) / (bid as int))
}

/// Adds one to a counter, saturating at `u64::MAX`.
pub fn increment_saturating(n: u64) -> (r: u64)
    ensures
        r == saturating_inc(n),
{
    if n == u64::MAX {
        n
    } else {
        n + 1
    }
}

/// The book of one instrument. Each side is held best level first; `wf`
/// states that order, which every method keeps.
pub struct L2Orderbook {
    pub symbol: String,
    pub bids: Vec<OrderbookLevel>,
    pub asks: Vec<OrderbookLevel>,
    pub last_seq_id: u64,
    pub last_update_ns: i64,
    pub total_updates: u64,
    pub gaps_detected: u64,
}

impl L2Orderbook {
    /// The bid levels, best (highest price) first.
    pub open spec fn bid_levels(&self) -> Seq<OrderbookLevel> {
        self.bids@
    }

    /// The ask levels, best (lowest price) first.
    pub open spec fn ask_levels(&self) -> Seq<OrderbookLevel> {
        self.asks@
    }

    /// The price of the first bid level, if any.
    pub open spec fn top_bid(&self) -> Option<i64> {
        if self.bid_levels().len() == 0 {
            None
        } else {
            Some(self.bid_levels()[0].price)
        }
    }

    /// The price of the first ask level, if any.
    pub open spec fn top_ask(&self) -> Option<i64> {
        if self.ask_levels().len() == 0 {
            None
        } else {
            Some(self.ask_levels()[0].price)
        }
    }

    /// Bids strictly descending and asks strictly ascending by price, every
    /// level with a positive quantity.
    pub open spec fn wf(&self) -> bool {
        side_ordered(self.bid_levels(), true) && side_ordered(self.ask_levels(), false)
    }

    /// The sides as price-to-quantity maps, with the sequence position.
    pub open spec fn state(&self) -> BookState {
        BookState {
            bids: side_view(self.bid_levels()),
            asks: side_view(self.ask_levels()),
            last_seq_id: self.last_seq_id,
        }
    }

    pub fn new(symbol: &str) -> (r: Self)
        ensures
            r.wf(),
            r.symbol@ == symbol@,
            r.state() == empty_state(),
            r.bid_levels().len() == 0,
            r.ask_levels().len() == 0,
            r.last_update_ns == 0,
            r.total_updates == 0,
            r.gaps_detected == 0,
    {
        let r = L2Orderbook {
            symbol: symbol.to_owned(),
            bids: Vec::new(),
            asks: Vec::new(),
            last_seq_id: 0,
            last_update_ns: 0,
            total_updates: 0,
            gaps_detected: 0,
        };
        assert(side_view(r.bids@) =~= Map::empty());
        assert(side_view(r.asks@) =~= Map::empty());
        r
    }

    /// Replaces both sides with the snapshot's levels, applied in order as
    /// level updates, and moves the sequence position to the snapshot's.
    pub fn apply_snapshot(&mut self, snapshot: &OrderbookSnapshot)
        requires
            old(self).wf(),
        ensures
            final(self).wf(),
            final(self).state() == snapshot_state(snapshot.bids@, snapshot.asks@, snapshot.seq_id),
            final(self).symbol == old(self).symbol,
            final(self).last_update_ns == snapshot.timestamp_ns,
            final(self).total_updates == saturating_inc(old(self).total_updates),
            final(self).gaps_detected == old(self).gaps_detected,
    {
        self.bids = fill_side(&snapshot.bids, true);
        self.asks = fill_side(&snapshot.asks, false);
        self.last_seq_id = snapshot.seq_id;
        self.last_update_ns = snapshot.timestamp_ns;
        self.total_updates = increment_saturating(self.total_updates);
    }

    /// Offers one level update at sequence position `seq_id`. On a gap the
    /// book is left as it was, the gap counter grows and `false` comes back.
    pub fn apply_delta(&mut self, price: i64, qty: i64, is_bid: bool, seq_id: u64) -> (r: bool)
        requires
            old(self).wf(),
        ensures
            final(self).wf(),
            r == sequence_accepts(old(self).last_seq_id, seq_id),
            final(self).state() == delta_state(
                old(self).state(),
                (BookDelta { price, quantity: qty, is_bid, seq_id }),
            ),
            !r ==> final(self).bid_levels() == old(self).bid_levels(),
            !r ==> final(self).ask_levels() == old(self).ask_levels(),
            !r ==> final(self).last_update_ns == old(self).last_update_ns,
            final(self).symbol == old(self).symbol,
            final(self).total_updates == if r {
                saturating_inc(old(self).total_updates)
            } else {
                old(self).total_updates
            },
            final(self).gaps_detected == if r {
                old(self).gaps_detected
            } else {
                saturating_inc(old(self).gaps_detected)
            },
    {
        if self.last_seq_id > 0 && (self.last_seq_id == u64::MAX || seq_id != self.last_seq_id + 1) {
            self.gaps_detected = increment_saturating(self.gaps_detected);
            return false;
        }
        if is_bid {
            update_side(&mut self.bids, price, qty, true);
        } else {
            update_side(&mut self.asks, price, qty, false);
        }
        self.last_seq_id = seq_id;
        self.last_update_ns = now_ns();
        self.total_updates = increment_saturating(self.total_updates);
        true
    }

    /// The highest bid price.
    pub fn best_bid(&self) -> (r: Option<i64>)
        requires
            self.wf(),
        ensures
            r == self.top_bid(),
            best_of(self.state().bids, r, true),
    {
        proof {
            lemma_view_all(self.bids@, true);
        }
        if self.bids.len() == 0 {
            None
        } else {
            proof {
                lemma_first_is_best(self.bids@, true);
            }
            Some(self.bids[0].price)
        }
    }

    /// The lowest ask price.
    pub fn best_ask(&self) -> (r: Option<i64>)
        requires
            self.wf(),
        ensures
            r == self.top_ask(),
            best_of(self.state().asks, r, false),
    {
        proof {
            lemma_view_all(self.asks@, false);
        }
        if self.asks.len() == 0 {
            None
        } else {
            proof {
                lemma_first_is_best(self.asks@, false);
            }
            Some(self.asks[0].price)
        }
    }
    /// The midpoint of the best bid and best ask, rounded down; `None`
    /// unless both sides hold a level.
    pub fn mid_price(&self) -> (r: Option<i64>)
        requires
            self.wf(),
        ensures
            r == match (self.top_bid(), self.top_ask()) {
                (Some(b), Some(a)) => Some(mid_of(b, a) as i64),
                _ => None,
            },
    {
        match (self.best_bid(), self.best_ask()) {
            (Some(bid), Some(ask)) => {
                let sum: i128 = bid as i128 + ask as i128;
                let half: i128 = floor_div(sum, 2);
                assert(mid_of(bid, ask) == half);
                Some(half as i64)
            },
            _ => None,
        }
    }

    /// The spread between the best ask and the best bid relative to the bid,
    /// in millionths of a basis point, rounded up; `None` unless both sides
    /// hold a level and the best bid is above zero.
    pub fn spread_bps(&self) -> (r: Option<i128>)
        requires
            self.wf(),
        ensures
            r == match (self.top_bid(), self.top_ask()) {
                (Some(b), Some(a)) => if b > 0 {
                    Some(spread_of(b, a) as i128)
                } else {
                    None
                },
                _ => None,
            },
            match (self.top_bid(), self.top_ask()) {
                (Some(b), Some(a)) => b > 0 && a > b ==> r.unwrap() > 0,
                _ => true,
            },
    {
        match (self.best_bid(), self.best_ask()) {
            (Some(bid), Some(ask)) => {
                if bid > 0 {
                    let diff: i128 = ask as i128 - bid as i128;
                    assert(-0x1_0000_0000_0000_0000 <= diff <= 0x1_0000_0000_0000_0000);
                    assert(-0x1_0000_0000_0000_0000 * SPREAD_SCALE <= diff * SPREAD_SCALE
                        <= 0x1_0000_0000_0000_0000 * SPREAD_SCALE) by (nonlinear_arith)
                        requires -0x1_0000_0000_0000_0000 <= diff <= 0x1_0000_0000_0000_0000;
                    let q: i128 = floor_div(-(diff * SPREAD_SCALE), bid as i128);
                    proof {
                        if ask > bid {
                            lemma_floor_of_negative(-(diff * SPREAD_SCALE), bid as int);
                        }
                    }
                    Some(-q)
                } else {
                    None
                }
            },
            _ => None,
        }
    }

    /// Up to `levels` levels of each side, best first.
    pub fn depth(&self, levels: usize) -> (r: (Vec<OrderbookLevel>, Vec<OrderbookLevel>))
        requires
            self.wf(),
        ensures
            r.0@ == self.bid_levels().take(min_len(levels, self.bid_levels().len())),
            r.1@ == self.ask_levels().take(min_len(levels, self.ask_levels().len())),
    {
        (take_levels(&self.bids, levels), take_levels(&self.asks, levels))
    }
}

/// The smaller of `n` and `len`.
pub open spec fn min_len(n: usize, len: nat) -> int {
    if n < len {
        n as int
    } else {
        len as int
    }
}

/// Division rounded toward negative infinity, for a positive divisor.
pub fn floor_div(n: i128, d: i128) -> (q: i128)
    requires
        d > 0,
        n > i128::MIN,
    ensures
        q == n / d,
        n < 0 ==> n <= q,
        n >= 0 ==> 0 <= q <= n,
{
    if n >= 0 {
        (n as u128 / d as u128) as i128
    } else {
        let m: u128 = (-n) as u128;
        let c: u128 = (m + (d as u128) - 1) / (d as u128);
        assert(c as int == (m as int + d as int - 1) / (d as int));
        proof {
            lemma_floor_neg(n as int, d as int);
        }
        -(c as i128)
    }
}

/// Rounding a negative number down stays below zero.
proof fn lemma_floor_of_negative(n: int, d: int)
    requires
        d > 0,
        n < 0,
    ensures
        n / d < 0,
{
    lemma_fundamental_div_mod(n, d);
    lemma_mod_bound(n, d);
    let q = n / d;
    let r = n % d;
    assert(q < 0) by (nonlinear_arith)
        requires n == d * q + r, 0 <= r < d, d > 0, n < 0;
}

/// Floor division of a negative number through the ceiling of its negation.
proof fn lemma_floor_neg(n: int, d: int)
    requires
        d > 0,
        n < 0,
    ensures
        n / d == -((-n + d - 1) / d),
        n <= n / d,
{
    let q = n / d;
    let r = n % d;
    lemma_fundamental_div_mod(n, d);
    lemma_mod_bound(n, d);
    let c = (-n + d - 1) / d;
    let r2 = (-n + d - 1) % d;
    lemma_fundamental_div_mod(-n + d - 1, d);
    lemma_mod_bound(-n + d - 1, d);
    assert(d * (q + c) == d - 1 - r - r2) by (nonlinear_arith)
        requires n == d * q + r, -n + d - 1 == d * c + r2;
    assert(q + c == 0) by (nonlinear_arith)
        requires d * (q + c) == d - 1 - r - r2, 0 <= r < d, 0 <= r2 < d, d > 0;
    assert(n <= q) by (nonlinear_arith)
        requires n == d * q + r, 0 <= r < d, d > 0, n < 0;
}

/// The first `n` levels of `side`.
fn take_levels(side: &Vec<OrderbookLevel>, n: usize) -> (r: Vec<OrderbookLevel>)
    ensures
        r@ == side@.take(min_len(n, side@.len())),
{
    let mut out: Vec<OrderbookLevel> = Vec::new();
    let mut k: usize = 0;
    while k < n && k < side.len()
        invariant
            0 <= k <= side@.len(),
            k <= n,
            out@ == side@.take(k as int),
        decreases side@.len() - k,
    {
        out.push(side[k]);
        assert(side@.take(k + 1) =~= side@.take(k as int).push(side@[k as int]));
        k = k + 1;
    }
    assert(side@.take(k as int) =~= side@.take(min_len(n, side@.len())));
    out
}

/// The first level of an ordered side holds its best price.
proof fn lemma_first_is_best(s: Seq<OrderbookLevel>, descending: bool)
    requires
        side_ordered(s, descending),
        s.len() > 0,
    ensures
        is_best(side_view(s), s[0].price, descending),
{
    lemma_view_all(s, descending);
    assert forall|q: i64| #[trigger] side_view(s).contains_key(q) && q != s[0].price implies ranks_before(
        s[0].price,
        q,
        descending,
    ) by {
        let j = choose|j: int| 0 <= j < s.len() && #[trigger] s[j].price == q;
        assert(j != 0);
    }
}

/// Builds a side from `levels` applied in order as level updates.
fn fill_side(levels: &Vec<OrderbookLevel>, descending: bool) -> (r: Vec<OrderbookLevel>)
    ensures
        side_ordered(r@, descending),
        side_view(r@) == levels_map(levels@),
{
    let mut side: Vec<OrderbookLevel> = Vec::new();
    assert(side_view(side@) =~= Map::empty());
    let mut k: usize = 0;
    while k < levels.len()
        invariant
            0 <= k <= levels@.len(),
            side_ordered(side@, descending),
            side_view(side@) == levels_map(levels@.take(k as int)),
        decreases levels@.len() - k,
    {
        let level = levels[k];
        update_side(&mut side, level.price, level.quantity, descending);
        assert(levels@.take(k + 1).drop_last() =~= levels@.take(k as int));
        k = k + 1;
    }
    assert(levels@.take(k as int) =~= levels@);
    side
}

} // verus!

verus! {

/// The deltas carry consecutive sequence ids, starting at the first one's.
pub open spec fn gapless(ds: Seq<BookDelta>) -> bool {
    forall|i: int| 0 <= i < ds.len() ==> #[trigger] ds[i].seq_id as int == ds[0].seq_id as int + i
}

/// The side `is_bid` selects after folding the level updates of `ds` onto
/// `base`, with no sequence check.
pub open spec fn side_fold(base: Map<i64, i64>, ds: Seq<BookDelta>, is_bid: bool) -> Map<i64, i64>
    decreases ds.len(),
{
    if ds.len() == 0 {
        base
    } else if ds.last().is_bid == is_bid {
        level_update(side_fold(base, ds.drop_last(), is_bid), ds.last().price, ds.last().quantity)
    } else {
        side_fold(base, ds.drop_last(), is_bid)
    }
}

/// Deltas that a book at sequence position `last` accepts one after another:
/// the first is accepted at `last`, the rest carry consecutive ids.
pub open spec fn continues_from(last: u64, ds: Seq<BookDelta>) -> bool {
    &&& ds.len() > 0
    &&& sequence_accepts(last, ds[0].seq_id)
    &&& gapless(ds)
}

/// The first `k` of the deltas are all accepted and give the folded sides.
proof fn lemma_gapless_prefix(s: BookState, ds: Seq<BookDelta>, k: int)
    requires
        1 <= k <= ds.len(),
        continues_from(s.last_seq_id, ds),
    ensures
        deltas_state(s, ds.take(k)) == (BookState {
            bids: side_fold(s.bids, ds.take(k), true),
            asks: side_fold(s.asks, ds.take(k), false),
            last_seq_id: ds[k - 1].seq_id,
        }),
        forall|i: int| 0 <= i < k ==> sequence_accepts(#[trigger] deltas_state(s, ds.take(i)).last_seq_id, ds[i].seq_id),
    decreases k,
{
    let pre = ds.take(k);
    let prev = ds.take(k - 1);
    assert(pre.drop_last() =~= prev);
    assert(pre.last() == ds[k - 1]);
    assert(ds[k - 1].seq_id as int == ds[0].seq_id as int + (k - 1));
    assert(deltas_state(s, pre) == delta_state(deltas_state(s, prev), ds[k - 1]));
    assert(side_fold(s.bids, pre, true) == if ds[k - 1].is_bid {
        level_update(side_fold(s.bids, prev, true), ds[k - 1].price, ds[k - 1].quantity)
    } else {
        side_fold(s.bids, prev, true)
    });
    assert(side_fold(s.asks, pre, false) == if !ds[k - 1].is_bid {
        level_update(side_fold(s.asks, prev, false), ds[k - 1].price, ds[k - 1].quantity)
    } else {
        side_fold(s.asks, prev, false)
    });
    if k == 1 {
        assert(prev =~= Seq::<BookDelta>::empty());
        assert(deltas_state(s, prev) == s);
        assert(side_fold(s.bids, prev, true) == s.bids);
        assert(side_fold(s.asks, prev, false) == s.asks);
    } else {
        lemma_gapless_prefix(s, ds, k - 1);
        assert(ds[k - 2].seq_id as int == ds[0].seq_id as int + (k - 2));
        assert(sequence_accepts(deltas_state(s, ds.take(k - 1)).last_seq_id, ds[k - 1].seq_id));
    }
}

/// Deltas that continue a book's sequence without a gap are all accepted,
/// and the book they give has each side equal to its deltas' level updates
/// folded onto that side as it was, at the last delta's sequence position.
pub proof fn lemma_gapless_deltas_apply(s: BookState, ds: Seq<BookDelta>)
    requires
        continues_from(s.last_seq_id, ds),
    ensures
        forall|i: int| 0 <= i < ds.len() ==> sequence_accepts(#[trigger] deltas_state(s, ds.take(i)).last_seq_id, ds[i].seq_id),
        deltas_state(s, ds) == (BookState {
            bids: side_fold(s.bids, ds, true),
            asks: side_fold(s.asks, ds, false),
            last_seq_id: ds.last().seq_id,
        }),
{
    lemma_gapless_prefix(s, ds, ds.len() as int);
    assert(ds.take(ds.len() as int) =~= ds);
}

/// Deltas offered right after a snapshot at position `n`, with ids `n + 1`,
/// `n + 2`, and so on, are all accepted, and each side of the book is the
/// snapshot's side with its deltas' level updates folded onto it.
pub proof fn lemma_gapless_deltas_after_snapshot(
    bids: Seq<OrderbookLevel>,
    asks: Seq<OrderbookLevel>,
    n: u64,
    ds: Seq<BookDelta>,
)
    requires
        ds.len() > 0,
        ds[0].seq_id as int == n as int + 1,
        gapless(ds),
    ensures
        forall|i: int| 0 <= i < ds.len() ==> sequence_accepts(
            #[trigger] deltas_state(snapshot_state(bids, asks, n), ds.take(i)).last_seq_id,
            ds[i].seq_id,
        ),
        deltas_state(snapshot_state(bids, asks, n), ds) == (BookState {
            bids: side_fold(levels_map(bids), ds, true),
            asks: side_fold(levels_map(asks), ds, false),
            last_seq_id: ds.last().seq_id,
        }),
{
    lemma_gapless_deltas_apply(snapshot_state(bids, asks, n), ds);
}

/// Deltas with consecutive sequence ids, offered in order to a new book and
/// to a book seeded by an empty snapshot taken just before the first of
/// them, are all accepted and give the same book: each side is the level
/// updates of its deltas folded onto an empty side.
pub proof fn lemma_gapless_deltas_fold(ds: Seq<BookDelta>)
    requires
        ds.len() > 0,
        ds[0].seq_id > 0,
        gapless(ds),
    ensures
        deltas_state(empty_state(), ds) == deltas_state(
            snapshot_state(Seq::empty(), Seq::empty(), (ds[0].seq_id - 1) as u64),
            ds,
        ),
        deltas_state(empty_state(), ds) == (BookState {
            bids: side_fold(Map::empty(), ds, true),
            asks: side_fold(Map::empty(), ds, false),
            last_seq_id: ds.last().seq_id,
        }),
{
    let snap = snapshot_state(Seq::empty(), Seq::empty(), (ds[0].seq_id - 1) as u64);
    assert(levels_map(Seq::<OrderbookLevel>::empty()) == Map::<i64, i64>::empty());
    lemma_gapless_deltas_apply(empty_state(), ds);
    lemma_gapless_deltas_apply(snap, ds);
}

/// A delta that cannot cross the book: it removes a level, or places a bid
/// below every ask, or an ask above every bid.
pub open spec fn keeps_uncrossed(s: BookState, d: BookDelta) -> bool {
    ||| d.quantity <= 0
    ||| d.is_bid && forall|a: i64| #[trigger] s.asks.contains_key(a) ==> d.price < a
    ||| !d.is_bid && forall|b: i64| #[trigger] s.bids.contains_key(b) ==> b < d.price
}

/// Offering a delta that cannot cross the book keeps an uncrossed book
/// uncrossed, whether it is accepted or rejected.
pub proof fn lemma_delta_keeps_book_uncrossed(s: BookState, d: BookDelta)
    requires
        uncrossed(s),
        keeps_uncrossed(s, d),
    ensures
        uncrossed(delta_state(s, d)),
{
}

/// Offering, one by one, deltas each of which cannot cross the book as it
/// stands when offered keeps an uncrossed book uncrossed.
pub proof fn lemma_deltas_keep_book_uncrossed(s: BookState, ds: Seq<BookDelta>)
    requires
        uncrossed(s),
        forall|i: int| 0 <= i < ds.len() ==> keeps_uncrossed(#[trigger] deltas_state(s, ds.take(i)), ds[i]),
    ensures
        uncrossed(deltas_state(s, ds)),
    decreases ds.len(),
{
    if ds.len() > 0 {
        let pre = ds.drop_last();
        assert forall|i: int| 0 <= i < pre.len() implies keeps_uncrossed(#[trigger] deltas_state(s, pre.take(i)), pre[i]) by {
            assert(pre.take(i) =~= ds.take(i));
            assert(keeps_uncrossed(deltas_state(s, ds.take(i)), ds[i]));
        }
        lemma_deltas_keep_book_uncrossed(s, pre);
        assert(ds.take(ds.len() - 1) =~= pre);
        assert(keeps_uncrossed(deltas_state(s, ds.take(ds.len() - 1)), ds[ds.len() - 1]));
        lemma_delta_keeps_book_uncrossed(deltas_state(s, pre), ds.last());
    }
}

/// Every key of the side a list of levels builds is the price of one of them.
proof fn lemma_levels_map_keys(levels: Seq<OrderbookLevel>, p: i64)
    requires
        levels_map(levels).contains_key(p),
    ensures
        exists|i: int| 0 <= i < levels.len() && #[trigger] levels[i].price == p,
    decreases levels.len(),
{
    if levels.len() > 0 {
        let pre = levels.drop_last();
        if p == levels.last().price {
            assert(levels[levels.len() - 1].price == p);
        } else {
            lemma_levels_map_keys(pre, p);
            let i = choose|i: int| 0 <= i < pre.len() && #[trigger] pre[i].price == p;
            assert(levels[i].price == p);
        }
    }
}

/// A snapshot whose every bid price is below every ask price installs an
/// uncrossed book.
pub proof fn lemma_snapshot_uncrossed(bids: Seq<OrderbookLevel>, asks: Seq<OrderbookLevel>, seq_id: u64)
    requires
        forall|i: int, j: int|
            0 <= i < bids.len() && 0 <= j < asks.len() ==> #[trigger] bids[i].price < #[trigger] asks[j].price,
    ensures
        uncrossed(snapshot_state(bids, asks, seq_id)),
{
    let s = snapshot_state(bids, asks, seq_id);
    assert forall|b: i64, a: i64| #[trigger] s.bids.contains_key(b) && #[trigger] s.asks.contains_key(a) implies b < a by {
        lemma_levels_map_keys(bids, b);
        lemma_levels_map_keys(asks, a);
        let i = choose|i: int| 0 <= i < bids.len() && #[trigger] bids[i].price == b;
        let j = choose|j: int| 0 <= j < asks.len() && #[trigger] asks[j].price == a;
        assert(bids[i].price < asks[j].price);
    }
}

/// In an uncrossed book with both sides non-empty the best bid is below the
/// best ask.
pub proof fn lemma_best_bid_below_best_ask(book: &L2Orderbook)
    requires
        book.wf(),
        uncrossed(book.state()),
        book.top_bid().is_some(),
        book.top_ask().is_some(),
    ensures
        book.top_bid().unwrap() < book.top_ask().unwrap(),
{
    lemma_view_all(book.bid_levels(), true);
    lemma_view_all(book.ask_levels(), false);
    assert(book.state().bids.contains_key(book.bid_levels()[0].price));
    assert(book.state().asks.contains_key(book.ask_levels()[0].price));
}

} // verus!
