//! One side of a limit order book: price levels held strictly sorted by
//! price, best level first, with at most one level per price.
use vstd::prelude::*;

verus! {

/// A price level. Prices and quantities are fixed-point integers with six
/// decimal places (one unit is 0.000001).
#[derive(Clone, Copy, Debug, PartialEq, Eq, Structural)]
pub struct OrderbookLevel {
    pub price: i64,
    pub quantity: i64,
}

/// Whether price `a` ranks ahead of price `b` on a side (bids rank higher
/// prices first, asks lower prices first).
pub open spec fn ranks_before(a: i64, b: i64, descending: bool) -> bool {
    if descending {
        a > b
    } else {
        a < b
    }
}

/// Executable form of `ranks_before`.
pub fn precedes(a: i64, b: i64, descending: bool) -> (r: bool)
    ensures
        r == ranks_before(a, b, descending),
{
    if descending {
        a > b
    } else {
        a < b
    }
}

/// Levels strictly ordered best-first, each holding a positive quantity.
pub open spec fn side_ordered(s: Seq<OrderbookLevel>, descending: bool) -> bool {
    &&& forall|i: int, j: int|
        0 <= i < j < s.len() ==> ranks_before(#[trigger] s[i].price, #[trigger] s[j].price, descending)
    &&& forall|i: int| 0 <= i < s.len() ==> #[trigger] s[i].quantity > 0
}

/// Some level of `s` is at `price`.
pub open spec fn has_price(s: Seq<OrderbookLevel>, price: i64) -> bool {
    exists|i: int| 0 <= i < s.len() && #[trigger] s[i].price == price
}

/// The mapping from price to quantity that a side holds.
pub open spec fn side_view(s: Seq<OrderbookLevel>) -> Map<i64, i64> {
    Map::new(
        |p: i64| has_price(s, p),
        |p: i64| s[choose|i: int| 0 <= i < s.len() && #[trigger] s[i].price == p].quantity,
    )
}

/// The effect of one level update on a side: a quantity of zero or less
/// removes the level, any other quantity inserts or overwrites it.
pub open spec fn level_update(m: Map<i64, i64>, price: i64, quantity: i64) -> Map<i64, i64> {
    if quantity <= 0 {
        m.remove(price)
    } else {
        m.insert(price, quantity)
    }
}

/// The side obtained by applying `levels` in order to an empty side.
pub open spec fn levels_map(levels: Seq<OrderbookLevel>) -> Map<i64, i64>
    decreases levels.len(),
{
    if levels.len() == 0 {
        Map::empty()
    } else {
        level_update(levels_map(levels.drop_last()), levels.last().price, levels.last().quantity)
    }
}

/// The level at index `i` of an ordered side is what its view holds at
/// that level's price.
pub proof fn lemma_view_at(s: Seq<OrderbookLevel>, descending: bool, i: int)
    requires
        side_ordered(s, descending),
        0 <= i < s.len(),
    ensures
        side_view(s).contains_key(s[i].price),
        side_view(s)[s[i].price] == s[i].quantity,
{
    assert(has_price(s, s[i].price));
    let k = choose|k: int| 0 <= k < s.len() && #[trigger] s[k].price == s[i].price;
    assert(k == i) by {
        if k < i {
            assert(ranks_before(s[k].price, s[i].price, descending));
        } else if i < k {
            assert(ranks_before(s[i].price, s[k].price, descending));
        }
    }
}

/// Every level of an ordered side is in its view, and every key of the view
/// is the price of some level.
pub proof fn lemma_view_all(s: Seq<OrderbookLevel>, descending: bool)
    requires
        side_ordered(s, descending),
    ensures
        forall|i: int|
            0 <= i < s.len() ==> side_view(s).contains_key(#[trigger] s[i].price) && side_view(
                s,
            )[s[i].price] == s[i].quantity,
        forall|p: i64| side_view(s).contains_key(p) ==> has_price(s, p),
{
    assert forall|i: int| 0 <= i < s.len() implies side_view(s).contains_key(#[trigger] s[i].price)
        && side_view(s)[s[i].price] == s[i].quantity by {
        lemma_view_at(s, descending, i);
    }
}

/// Applies one level update to a side held in `side`, keeping it sorted.
pub fn update_side(side: &mut Vec<OrderbookLevel>, price: i64, quantity: i64, descending: bool)
    requires
        side_ordered(old(side)@, descending),
    ensures
        side_ordered(final(side)@, descending),
        side_view(final(side)@) == level_update(side_view(old(side)@), price, quantity),
{
    let ghost s0 = side@;
    let mut i: usize = 0;
    while i < side.len() && precedes(side[i].price, price, descending)
        invariant
            s0 == side@,
            0 <= i <= s0.len(),
            forall|j: int| 0 <= j < i ==> ranks_before(#[trigger] s0[j].price, price, descending),
        decreases s0.len() - i,
    {
        i = i + 1;
    }
    proof {
        lemma_view_all(s0, descending);
    }
    let found = i < side.len() && side[i].price == price;
    if found {
        if quantity <= 0 {
            side.remove(i);
        } else {
            side.set(i, OrderbookLevel { price, quantity });
        }
    } else if quantity > 0 {
        side.insert(i, OrderbookLevel { price, quantity });
    }
    proof {
        let s1 = side@;
        // Every level past `i` ranks after `price`.
        assert forall|j: int| i < j < s0.len() implies ranks_before(price, #[trigger] s0[j].price, descending) by {
            assert(ranks_before(s0[i as int].price, s0[j].price, descending));
        }
        assert(i < s0.len() && !found ==> ranks_before(price, s0[i as int].price, descending));
        lemma_view_all(s1, descending);
        let target = level_update(side_view(s0), price, quantity);
        assert forall|p: i64| side_view(s1).contains_key(p) <==> target.contains_key(p) by {
            if side_view(s1).contains_key(p) {
                let j = choose|j: int| 0 <= j < s1.len() && #[trigger] s1[j].price == p;
                if found && quantity <= 0 {
                    if j < i { assert(s1[j] == s0[j]); } else { assert(s1[j] == s0[j + 1]); }
                } else if found {
                    if j != i { assert(s1[j] == s0[j]); }
                } else if quantity > 0 {
                    if j < i { assert(s1[j] == s0[j]); } else if j > i { assert(s1[j] == s0[j - 1]); }
                } else {
                    assert(s1[j] == s0[j]);
                }
            }
            if target.contains_key(p) {
                if p == price {
                    assert(s1[i as int].price == p);
                } else {
                    let j = choose|j: int| 0 <= j < s0.len() && #[trigger] s0[j].price == p;
                    if found && quantity <= 0 {
                        if j < i { assert(s1[j].price == p); } else { assert(s1[j - 1].price == p); }
                    } else if found {
                        assert(s1[j].price == p);
                    } else if quantity > 0 {
                        if j < i { assert(s1[j].price == p); } else { assert(s1[j + 1].price == p); }
                    } else {
                        assert(s1[j].price == p);
                    }
                }
            }
        }
        assert forall|p: i64| #[trigger] side_view(s1).contains_key(p) implies side_view(s1)[p] == target[p] by {
            let j = choose|j: int| 0 <= j < s1.len() && #[trigger] s1[j].price == p;
            if p != price {
                if found && quantity <= 0 {
                    if j < i { assert(s1[j] == s0[j]); } else { assert(s1[j] == s0[j + 1]); }
                } else if found {
                    assert(s1[j] == s0[j]);
                } else if quantity > 0 {
                    if j < i { assert(s1[j] == s0[j]); } else { assert(s1[j] == s0[j - 1]); }
                } else {
                    assert(s1[j] == s0[j]);
                }
            }
        }
        assert(side_view(s1) =~= target);
    }
}

} // verus!
