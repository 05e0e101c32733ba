//! Idempotent order intake and fill synthesis.
use vstd::prelude::*;
use crate::clock::{elapsed_ns, is_hyphenated_uuid, new_exchange_order_id, now_ns};
use crate::orderbook::{floor_div, increment_saturating, saturating_inc};

verus! {

/// An order as a client sends it. Quantity and price are fixed-point with
/// six decimal places.
#[derive(Clone, Debug)]
pub struct OrderRequest {
    pub client_id: String,
    pub symbol: String,
    pub side: String,
    pub quantity: i64,
    pub price: i64,
    pub order_type: String,
    pub idempotency_key: String,
    pub timestamp_ns: i64,
}

/// The engine's acknowledgment of an accepted order.
#[derive(Clone, Debug)]
pub struct OrderAck {
    pub client_id: String,
    pub exchange_order_id: String,
    pub status: String,
    pub timestamp_ns: i64,
    pub latency_ns: i64,
}

/// The execution of an acknowledged order. Quantity, price and commission
/// are fixed-point with six decimal places.
#[derive(Clone, Debug)]
pub struct FillEvent {
    pub order_id: String,
    pub exchange_order_id: String,
    pub symbol: String,
    pub side: String,
    pub filled_qty: i64,
    pub fill_price: i64,
    pub commission: i128,
    pub timestamp_ns: i64,
    pub seq_id: u64,
    pub latency_ns: i64,
}

/// Above this many remembered keys the idempotency set is emptied.
pub const MAX_TRACKED_KEYS: usize = 100_000;

/// Commission is 4 basis points of notional. Quantity times price carries
/// twelve decimal places; dividing by this gives 0.0004 of it with six.
pub const COMMISSION_DIVISOR: i128 = 2_500_000_000;

/// Status of an acknowledged order.
pub open spec fn submitted_status() -> Seq<char> {
    "SUBMITTED"@
}

/// The message of a duplicate-order error for `key`.
pub open spec fn duplicate_message(key: Seq<char>) -> Seq<char> {
    "DUPLICATE_ORDER: key="@ + key
}

/// The remembered keys after offering `key`: unchanged when it is already
/// there; otherwise `key` is added, and the whole set is emptied when that
/// takes it past `MAX_TRACKED_KEYS`.
pub open spec fn keys_after(keys: Seq<Seq<char>>, key: Seq<char>) -> Seq<Seq<char>> {
    if keys.contains(key) {
        keys
    } else if keys.len() + 1 > MAX_TRACKED_KEYS {
        Seq::empty()
    } else {
        keys.push(key)
    }
}

/// The commission on `quantity` at `price`, rounded down.
pub open spec fn commission_of(quantity: i64, price: i64) -> int {
    (quantity * price) / (COMMISSION_DIVISOR as int)
}

/// Accepts each idempotency key at most once while it is remembered, and
/// counts submissions, duplicates and fills.
pub struct ExecutionEngine {
    submitted_keys: Vec<String>,
    total_submitted: u64,
    total_duplicates: u64,
    total_fills: u64,
}

impl ExecutionEngine {
    /// The remembered idempotency keys, in the order they were accepted.
    pub closed spec fn keys(&self) -> Seq<Seq<char>> {
        self.submitted_keys@.map_values(|s: String| s@)
    }

    pub closed spec fn submitted(&self) -> u64 {
        self.total_submitted
    }

    pub closed spec fn duplicates(&self) -> u64 {
        self.total_duplicates
    }

    pub closed spec fn fills(&self) -> u64 {
        self.total_fills
    }

    /// No key is remembered twice.
    pub open spec fn wf(&self) -> bool {
        self.keys().no_duplicates()
    }

    pub fn new() -> (r: Self)
        ensures
            r.wf(),
            r.keys() == Seq::<Seq<char>>::empty(),
            r.submitted() == 0,
            r.duplicates() == 0,
            r.fills() == 0,
    {
        let r = ExecutionEngine {
            submitted_keys: Vec::new(),
            total_submitted: 0,
            total_duplicates: 0,
            total_fills: 0,
        };
        assert(r.keys() =~= Seq::<Seq<char>>::empty());
        r
    }

    /// Whether `key` is remembered.
    fn holds_key(&self, key: &String) -> (r: bool)
        ensures
            r == self.keys().contains(key@),
    {
        let mut i: usize = 0;
        while i < self.submitted_keys.len()
            invariant
                0 <= i <= self.submitted_keys@.len(),
                forall|j: int| 0 <= j < i ==> self.keys()[j] != key@,
            decreases self.submitted_keys@.len() - i,
        {
            if self.submitted_keys[i] == *key {
                assert(self.keys()[i as int] == key@);
                return true;
            }
            i = i + 1;
        }
        false
    }

    /// Accepts an order whose idempotency key has not been seen, or fails
    /// with a duplicate-order error that changes nothing but the duplicate
    /// counter.
    pub fn submit_order(&mut self, req: &OrderRequest) -> (r: Result<OrderAck, String>)
        requires
            old(self).wf(),
        ensures
            final(self).wf(),
            r.is_err() <==> old(self).keys().contains(req.idempotency_key@),
            final(self).keys() == keys_after(old(self).keys(), req.idempotency_key@),
            final(self).fills() == old(self).fills(),
            match r {
                Ok(ack) => {
                    &&& ack.client_id@ == req.client_id@
                    &&& ack.status@ == submitted_status()
                    &&& ack.exchange_order_id@.len() == 39
                    &&& ack.exchange_order_id@.subrange(0, 3) == "EX-"@
                    &&& is_hyphenated_uuid(ack.exchange_order_id@.subrange(3, 39))
                    &&& ack.latency_ns >= 0
                    &&& final(self).submitted() == saturating_inc(old(self).submitted())
                    &&& final(self).duplicates() == old(self).duplicates()
                },
                Err(e) => {
                    &&& e@ == duplicate_message(req.idempotency_key@)
                    &&& final(self).submitted() == old(self).submitted()
                    &&& final(self).duplicates() == saturating_inc(old(self).duplicates())
                },
            },
    {
        let start = std::time::Instant::now();
        if self.holds_key(&req.idempotency_key) {
            self.total_duplicates = increment_saturating(self.total_duplicates);
            return Err(String::from_str("DUPLICATE_ORDER: key=").concat(req.idempotency_key.as_str()));
        }
        self.submitted_keys.push(req.idempotency_key.clone());
        proof {
            let old_keys = old(self).keys();
            assert(self.keys() =~= old_keys.push(req.idempotency_key@));
            assert forall|i: int, j: int| 0 <= i < j < self.keys().len() implies self.keys()[i] != self.keys()[j] by {
                if j == old_keys.len() {
                    assert(old_keys[i] != req.idempotency_key@ || !old_keys.contains(req.idempotency_key@));
                    assert(old_keys.contains(old_keys[i]));
                }
            }
        }
        if self.submitted_keys.len() > MAX_TRACKED_KEYS {
            self.submitted_keys.clear();
            assert(self.keys() =~= Seq::<Seq<char>>::empty());
        }
        let exchange_id = new_exchange_order_id();
        let latency = elapsed_ns(&start);
        self.total_submitted = increment_saturating(self.total_submitted);
        let status = String::from_str("SUBMITTED");
        proof {
            reveal_strlit("SUBMITTED");
        }
        Ok(OrderAck {
            client_id: req.client_id.clone(),
            exchange_order_id: exchange_id,
            status,
            timestamp_ns: now_ns(),
            latency_ns: latency,
        })
    }

    /// A full fill of `req` at its price, numbered with the new fill count.
    pub fn process_fill(&mut self, order_ack: &OrderAck, req: &OrderRequest) -> (r: FillEvent)
        requires
            old(self).wf(),
        ensures
            final(self).wf(),
            final(self).keys() == old(self).keys(),
            final(self).submitted() == old(self).submitted(),
            final(self).duplicates() == old(self).duplicates(),
            final(self).fills() == saturating_inc(old(self).fills()),
            r.order_id@ == req.client_id@,
            r.exchange_order_id@ == order_ack.exchange_order_id@,
            r.symbol@ == req.symbol@,
            r.side@ == req.side@,
            r.filled_qty == req.quantity,
            r.fill_price == req.price,
            r.commission == commission_of(req.quantity, req.price),
            r.seq_id == final(self).fills(),
            r.latency_ns >= 0,
    {
        let start = std::time::Instant::now();
        self.total_fills = increment_saturating(self.total_fills);
        let q: i128 = req.quantity as i128;
        let p: i128 = req.price as i128;
        assert(-0x4000_0000_0000_0000_0000_0000_0000_0000 <= q * p <= 0x4000_0000_0000_0000_0000_0000_0000_0000)
            by (nonlinear_arith)
            requires
                -0x8000_0000_0000_0000 <= q <= 0x7fff_ffff_ffff_ffff,
                -0x8000_0000_0000_0000 <= p <= 0x7fff_ffff_ffff_ffff;
        let notional: i128 = q * p;
        let commission = floor_div(notional, COMMISSION_DIVISOR);
        FillEvent {
            order_id: req.client_id.clone(),
            exchange_order_id: order_ack.exchange_order_id.clone(),
            symbol: req.symbol.clone(),
            side: req.side.clone(),
            filled_qty: req.quantity,
            fill_price: req.price,
            commission,
            timestamp_ns: now_ns(),
            seq_id: self.total_fills,
            latency_ns: elapsed_ns(&start),
        }
    }

    /// Submitted, duplicate and fill counts.
    pub fn stats(&self) -> (r: (u64, u64, u64))
        ensures
            r == (self.submitted(), self.duplicates(), self.fills()),
    {
        (self.total_submitted, self.total_duplicates, self.total_fills)
    }
}

/// Offering one idempotency key twice, with any other fields, to an engine
/// that has not seen it and holds fewer than `MAX_TRACKED_KEYS` keys: the
/// first offer is accepted and the second is a duplicate.
pub proof fn lemma_same_key_twice(keys: Seq<Seq<char>>, key: Seq<char>)
    requires
        !keys.contains(key),
        keys.len() < MAX_TRACKED_KEYS,
    ensures
        keys_after(keys, key).contains(key),
        keys_after(keys_after(keys, key), key) == keys_after(keys, key),
{
    assert(keys.push(key)[keys.len() as int] == key);
}

} // verus!
