//! The order book: a pair of price-sorted sides kept consistent under a
//! stream of depth deltas, and the book-derived feature vector.
//!
//! Invariant: bids are strictly descending by price, asks strictly ascending,
//! no side holds a level of size zero, and every level is bounded by
//! `ATOM_MAX`. A delta that arrives out of sequence marks the book invalid
//! but is still applied, so the book tracks the latest state and can heal
//! once deltas become orderly again.
use vstd::prelude::*;
use crate::{ATOM_MAX, MAX_LEVELS, FRAC_SCALE};
use crate::numeric::{
    div_round_half, div_round_half_i128, lemma_div_round_half_bounds, lemma_div_round_half_mul_le,
};
use crate::decimal::{parse_decimal_atoms, parses_to_atoms, atoms_of};
use vstd::arithmetic::mul::{lemma_mul_inequality, lemma_mul_inequality_converse};

verus! {

/// One side entry: a price and the open size at that price, both in atoms.
#[derive(Clone, Copy, Debug, PartialEq, Eq, Structural)]
pub struct PriceSize {
    pub price: u64,
    pub size: u64,
}

/// Both coordinates of a level are within the pipeline's fixed-point range.
pub open spec fn level_bounded(l: PriceSize) -> bool {
    l.price <= ATOM_MAX && l.size <= ATOM_MAX
}

/// `a` is strictly closer to the front than `b` on a side with this polarity.
pub open spec fn spec_comes_before(a: u64, b: u64, descending: bool) -> bool {
    if descending {
        a > b
    } else {
        a < b
    }
}

fn comes_before(a: u64, b: u64, descending: bool) -> (r: bool)
    ensures
        r == spec_comes_before(a, b, descending),
{
    if descending {
        a > b
    } else {
        a < b
    }
}

/// The side is strictly sorted: descending for bids, ascending for asks.
/// Strictness also rules out two levels at the same price.
pub open spec fn side_sorted(s: Seq<PriceSize>, descending: bool) -> bool {
    forall|i: int, j: int|
        0 <= i < j < s.len() ==> spec_comes_before(
            (#[trigger] s[i]).price,
            (#[trigger] s[j]).price,
            descending,
        )
}

/// No level of size zero persists on the side.
pub open spec fn side_no_zero(s: Seq<PriceSize>) -> bool {
    forall|i: int| 0 <= i < s.len() ==> (#[trigger] s[i]).size > 0
}

/// Every level on the side is within the fixed-point range.
pub open spec fn side_bounded(s: Seq<PriceSize>) -> bool {
    forall|i: int| 0 <= i < s.len() ==> level_bounded(#[trigger] s[i])
}

/// Full well-formedness of one book side.
pub open spec fn side_wf(s: Seq<PriceSize>, descending: bool) -> bool {
    side_sorted(s, descending) && side_no_zero(s) && side_bounded(s)
}

/// Some level on the side quotes price `p`.
pub open spec fn has_price(s: Seq<PriceSize>, p: u64) -> bool {
    exists|i: int| 0 <= i < s.len() && (#[trigger] s[i]).price == p
}

/// Level `l` occurs on the side.
pub open spec fn has_level(s: Seq<PriceSize>, l: PriceSize) -> bool {
    exists|i: int| 0 <= i < s.len() && #[trigger] s[i] == l
}

/// No two entries of `s` quote the same price.
pub open spec fn distinct_prices(s: Seq<PriceSize>) -> bool {
    forall|i: int, j: int|
        0 <= i < j < s.len() ==> (#[trigger] s[i]).price != (#[trigger] s[j]).price
}

/// One wire update `l` has landed on `news`: a zero size erased the price,
/// any other size is now quoted exactly.
pub open spec fn update_applied(news: Seq<PriceSize>, l: PriceSize) -> bool {
    if l.size == 0 {
        !has_price(news, l.price)
    } else {
        has_level(news, l)
    }
}

/// `news` is `olds` with the whole batch `upd` applied: each update landed,
/// untouched levels survived, and nothing else appeared.
pub open spec fn updated_side(
    olds: Seq<PriceSize>,
    upd: Seq<PriceSize>,
    news: Seq<PriceSize>,
) -> bool {
    &&& forall|j: int| 0 <= j < upd.len() ==> update_applied(news, #[trigger] upd[j])
    &&& forall|i: int|
        0 <= i < olds.len() && !has_price(upd, (#[trigger] olds[i]).price) ==> has_level(
            news,
            olds[i],
        )
    &&& forall|k: int|
        0 <= k < news.len() ==> has_level(upd, #[trigger] news[k]) || (has_level(olds, news[k])
            && !has_price(upd, news[k].price))
}

/// Applies a single level update to a sorted side, preserving the side
/// invariant: a matching price takes the new size, a missing price is
/// inserted in order, and a zero size removes the level.
fn upsert_level(side: &mut Vec<PriceSize>, lvl: PriceSize, descending: bool)
    requires
        side_wf(old(side)@, descending),
        level_bounded(lvl),
        old(side)@.len() < usize::MAX,
    ensures
        side_wf(final(side)@, descending),
        final(side)@.len() <= old(side)@.len() + 1,
        update_applied(final(side)@, lvl),
        forall|l: PriceSize|
            l.price != lvl.price ==> (#[trigger] has_level(final(side)@, l) <==> has_level(
                old(side)@,
                l,
            )),
        forall|p: u64|
            p != lvl.price ==> (#[trigger] has_price(final(side)@, p) <==> has_price(old(side)@, p)),
        forall|l: PriceSize| has_level(final(side)@, l) && l.price == lvl.price ==> l == lvl,
{
    let ghost s0 = side@;
    let mut i: usize = 0;
    while i < side.len() && comes_before(side[i].price, lvl.price, descending)
        invariant
            0 <= i <= side@.len(),
            side@ == s0,
            forall|k: int|
                0 <= k < i ==> spec_comes_before((#[trigger] s0[k]).price, lvl.price, descending),
        decreases side@.len() - i,
    {
        i = i + 1;
    }
    proof {
        assert forall|k: int| i <= k < s0.len() implies !spec_comes_before(
            (#[trigger] s0[k]).price,
            lvl.price,
            descending,
        ) by {
            if k > i {
                assert(spec_comes_before(s0[i as int].price, s0[k].price, descending));
            }
        }
    }
    if i < side.len() && side[i].price == lvl.price {
        if lvl.size == 0 {
            side.remove(i);
            proof {
                lemma_upsert_removed(s0, side@, lvl, i as int, descending);
            }
        } else {
            side.remove(i);
            side.insert(i, lvl);
            proof {
                assert(side@ =~= s0.update(i as int, lvl));
                lemma_upsert_replaced(s0, side@, lvl, i as int, descending);
            }
        }
    } else {
        if lvl.size != 0 {
            side.insert(i, lvl);
            proof {
                lemma_upsert_inserted(s0, side@, lvl, i as int, descending);
            }
        } else {
            proof {
                assert forall|k: int| 0 <= k < s0.len() implies (#[trigger] s0[k]).price
                    != lvl.price by {
                    if k < i {
                    } else {
                        assert(!spec_comes_before(s0[k].price, lvl.price, descending));
                        if i < s0.len() && k > i {
                            assert(spec_comes_before(s0[i as int].price, s0[k].price, descending));
                        }
                    }
                }
            }
        }
    }
}

proof fn lemma_upsert_removed(
    s0: Seq<PriceSize>,
    s1: Seq<PriceSize>,
    lvl: PriceSize,
    i: int,
    descending: bool,
)
    requires
        side_wf(s0, descending),
        0 <= i < s0.len(),
        s0[i].price == lvl.price,
        s1 == s0.remove(i),
    ensures
        side_wf(s1, descending),
        !has_price(s1, lvl.price),
        forall|l: PriceSize|
            l.price != lvl.price ==> (#[trigger] has_level(s1, l) <==> has_level(s0, l)),
        forall|p: u64| p != lvl.price ==> (#[trigger] has_price(s1, p) <==> has_price(s0, p)),
        forall|l: PriceSize| has_level(s1, l) ==> l.price != lvl.price,
{
    assert forall|k: int| 0 <= k < s1.len() implies (#[trigger] s1[k]).price != lvl.price by {
        if k < i {
            assert(s1[k] == s0[k]);
            assert(spec_comes_before(s0[k].price, s0[i].price, descending));
        } else {
            assert(s1[k] == s0[k + 1]);
            assert(spec_comes_before(s0[i].price, s0[k + 1].price, descending));
        }
    }
    assert forall|l: PriceSize| l.price != lvl.price && has_level(s0, l) implies has_level(
        s1,
        l,
    ) by {
        let w = choose|w: int| 0 <= w < s0.len() && s0[w] == l;
        if w < i {
            assert(s1[w] == l);
        } else {
            assert(s1[w - 1] == l);
        }
    }
    assert forall|p: u64| p != lvl.price && has_price(s0, p) implies has_price(s1, p) by {
        let w = choose|w: int| 0 <= w < s0.len() && (#[trigger] s0[w]).price == p;
        if w < i {
            assert(s1[w].price == p);
        } else {
            assert(s1[w - 1].price == p);
        }
    }
}

proof fn lemma_upsert_replaced(
    s0: Seq<PriceSize>,
    s1: Seq<PriceSize>,
    lvl: PriceSize,
    i: int,
    descending: bool,
)
    requires
        side_wf(s0, descending),
        level_bounded(lvl),
        lvl.size > 0,
        0 <= i < s0.len(),
        s0[i].price == lvl.price,
        s1 == s0.update(i, lvl),
    ensures
        side_wf(s1, descending),
        has_level(s1, lvl),
        forall|l: PriceSize|
            l.price != lvl.price ==> (#[trigger] has_level(s1, l) <==> has_level(s0, l)),
        forall|p: u64| p != lvl.price ==> (#[trigger] has_price(s1, p) <==> has_price(s0, p)),
        forall|l: PriceSize| has_level(s1, l) && l.price == lvl.price ==> l == lvl,
{
    assert(s1[i] == lvl);
    assert forall|l: PriceSize| has_level(s1, l) && l.price == lvl.price implies l == lvl by {
        let w = choose|w: int| 0 <= w < s1.len() && s1[w] == l;
        if w != i {
            assert(s1[w] == s0[w]);
            if w < i {
                assert(spec_comes_before(s0[w].price, s0[i].price, descending));
            } else {
                assert(spec_comes_before(s0[i].price, s0[w].price, descending));
            }
        }
    }
    assert forall|l: PriceSize| l.price != lvl.price && has_level(s0, l) implies has_level(
        s1,
        l,
    ) by {
        let w = choose|w: int| 0 <= w < s0.len() && s0[w] == l;
        assert(w != i);
        assert(s1[w] == l);
    }
    assert forall|l: PriceSize| l.price != lvl.price && has_level(s1, l) implies has_level(
        s0,
        l,
    ) by {
        let w = choose|w: int| 0 <= w < s1.len() && s1[w] == l;
        assert(w != i);
        assert(s0[w] == l);
    }
    assert forall|p: u64| p != lvl.price implies (#[trigger] has_price(s1, p) <==> has_price(
        s0,
        p,
    )) by {
        if has_price(s0, p) {
            let w = choose|w: int| 0 <= w < s0.len() && (#[trigger] s0[w]).price == p;
            assert(w != i);
            assert(s1[w].price == p);
        }
        if has_price(s1, p) {
            let w = choose|w: int| 0 <= w < s1.len() && (#[trigger] s1[w]).price == p;
            assert(w != i);
            assert(s0[w].price == p);
        }
    }
}

proof fn lemma_upsert_inserted(
    s0: Seq<PriceSize>,
    s1: Seq<PriceSize>,
    lvl: PriceSize,
    i: int,
    descending: bool,
)
    requires
        side_wf(s0, descending),
        level_bounded(lvl),
        lvl.size > 0,
        0 <= i <= s0.len(),
        forall|k: int|
            0 <= k < i ==> spec_comes_before((#[trigger] s0[k]).price, lvl.price, descending),
        forall|k: int|
            i <= k < s0.len() ==> !spec_comes_before(
                (#[trigger] s0[k]).price,
                lvl.price,
                descending,
            ),
        forall|k: int| 0 <= k < s0.len() ==> (#[trigger] s0[k]).price != lvl.price,
        s1 == s0.insert(i, lvl),
    ensures
        side_wf(s1, descending),
        has_level(s1, lvl),
        forall|l: PriceSize|
            l.price != lvl.price ==> (#[trigger] has_level(s1, l) <==> has_level(s0, l)),
        forall|p: u64| p != lvl.price ==> (#[trigger] has_price(s1, p) <==> has_price(s0, p)),
        forall|l: PriceSize| has_level(s1, l) && l.price == lvl.price ==> l == lvl,
{
    assert(s1[i] == lvl);
    assert forall|a: int, b: int| 0 <= a < b < s1.len() implies spec_comes_before(
        (#[trigger] s1[a]).price,
        (#[trigger] s1[b]).price,
        descending,
    ) by {
        if a < i && b == i {
            assert(s1[a] == s0[a]);
        } else if a == i && b > i {
            assert(s1[b] == s0[b - 1]);
        } else if a < i && b > i {
            assert(s1[a] == s0[a] && s1[b] == s0[b - 1]);
            if i < s0.len() {
                assert(spec_comes_before(s0[a].price, lvl.price, descending));
                assert(!spec_comes_before(s0[b - 1].price, lvl.price, descending));
                assert(s0[b - 1].price != lvl.price);
            }
        } else if b < i {
            assert(s1[a] == s0[a] && s1[b] == s0[b]);
        } else {
            assert(a > i);
            assert(s1[a] == s0[a - 1] && s1[b] == s0[b - 1]);
        }
    }
    assert forall|l: PriceSize| l.price != lvl.price && has_level(s0, l) implies has_level(
        s1,
        l,
    ) by {
        let w = choose|w: int| 0 <= w < s0.len() && s0[w] == l;
        if w < i {
            assert(s1[w] == l);
        } else {
            assert(s1[w + 1] == l);
        }
    }
    assert forall|l: PriceSize| l.price != lvl.price && has_level(s1, l) implies has_level(
        s0,
        l,
    ) by {
        let w = choose|w: int| 0 <= w < s1.len() && s1[w] == l;
        if w < i {
            assert(s0[w] == l);
        } else {
            assert(w != i);
            assert(s0[w - 1] == l);
        }
    }
    assert forall|p: u64| p != lvl.price implies (#[trigger] has_price(s1, p) <==> has_price(
        s0,
        p,
    )) by {
        if has_price(s0, p) {
            let w = choose|w: int| 0 <= w < s0.len() && (#[trigger] s0[w]).price == p;
            if w < i {
                assert(s1[w].price == p);
            } else {
                assert(s1[w + 1].price == p);
            }
        }
        if has_price(s1, p) {
            let w = choose|w: int| 0 <= w < s1.len() && (#[trigger] s1[w]).price == p;
            if w < i {
                assert(s0[w].price == p);
            } else {
                assert(w != i);
                assert(s0[w - 1].price == p);
            }
        }
    }
    assert forall|l: PriceSize| has_level(s1, l) && l.price == lvl.price implies l == lvl by {
        let w = choose|w: int| 0 <= w < s1.len() && s1[w] == l;
        if w != i {
            if w < i {
                assert(s0[w] == l);
            } else {
                assert(s0[w - 1] == l);
            }
        }
    }
}

/// Applying one more update whose price is fresh extends a batch result by
/// that update.
proof fn lemma_batch_step(
    s0: Seq<PriceSize>,
    u: Seq<PriceSize>,
    lvl: PriceSize,
    cur: Seq<PriceSize>,
    next: Seq<PriceSize>,
)
    requires
        updated_side(s0, u, cur),
        forall|j: int| 0 <= j < u.len() ==> (#[trigger] u[j]).price != lvl.price,
        update_applied(next, lvl),
        forall|l: PriceSize|
            l.price != lvl.price ==> (#[trigger] has_level(next, l) <==> has_level(cur, l)),
        forall|p: u64| p != lvl.price ==> (#[trigger] has_price(next, p) <==> has_price(cur, p)),
        forall|l: PriceSize| has_level(next, l) && l.price == lvl.price ==> l == lvl,
    ensures
        updated_side(s0, u.push(lvl), next),
{
    let u1 = u.push(lvl);
    assert(u1[u.len() as int] == lvl);
    assert forall|j: int| 0 <= j < u1.len() implies update_applied(next, #[trigger] u1[j]) by {
        if j < u.len() {
            assert(u1[j] == u[j]);
            assert(update_applied(cur, u[j]));
        }
    }
    assert forall|i: int|
        0 <= i < s0.len() && !has_price(u1, (#[trigger] s0[i]).price) implies has_level(
        next,
        s0[i],
    ) by {
        let p = s0[i].price;
        assert(p != lvl.price);
        assert(!has_price(u, p)) by {
            if has_price(u, p) {
                let w = choose|w: int| 0 <= w < u.len() && (#[trigger] u[w]).price == p;
                assert(u1[w].price == p);
            }
        }
        assert(has_level(cur, s0[i]));
    }
    assert forall|k: int|
        0 <= k < next.len() implies has_level(u1, #[trigger] next[k]) || (has_level(s0, next[k])
        && !has_price(u1, next[k].price)) by {
        let l = next[k];
        assert(has_level(next, l));
        if l.price == lvl.price {
            assert(l == lvl);
        } else {
            assert(has_level(cur, l));
            let w = choose|w: int| 0 <= w < cur.len() && #[trigger] cur[w] == l;
            if has_level(u, l) {
                let t = choose|t: int| 0 <= t < u.len() && #[trigger] u[t] == l;
                assert(u1[t] == l);
            } else {
                assert(has_level(s0, l) && !has_price(u, l.price));
                assert(!has_price(u1, l.price)) by {
                    if has_price(u1, l.price) {
                        let t = choose|t: int|
                            0 <= t < u1.len() && (#[trigger] u1[t]).price == l.price;
                        if t < u.len() {
                            assert(u[t].price == l.price);
                        } else {
                            assert(u1[t] == lvl);
                        }
                    }
                }
            }
        }
    }
}

/// Applies a whole batch of level updates to one sorted side, preserving the
/// side invariant.
fn update_orders(orders: &mut Vec<PriceSize>, updates: &Vec<PriceSize>, descending: bool)
    requires
        side_wf(old(orders)@, descending),
        distinct_prices(updates@),
        side_bounded(updates@),
        old(orders)@.len() + updates@.len() < usize::MAX,
    ensures
        side_wf(final(orders)@, descending),
        updated_side(old(orders)@, updates@, final(orders)@),
        final(orders)@.len() <= old(orders)@.len() + updates@.len(),
{
    let ghost s0 = orders@;
    proof {
        assert(updates@.take(0) =~= Seq::<PriceSize>::empty());
        assert forall|i: int| 0 <= i < s0.len() implies has_level(s0, #[trigger] s0[i]) by {
            assert(0 <= i < s0.len() && s0[i] == s0[i]);
        }
    }
    let mut j: usize = 0;
    while j < updates.len()
        invariant
            0 <= j <= updates@.len(),
            side_wf(orders@, descending),
            distinct_prices(updates@),
            side_bounded(updates@),
            updated_side(s0, updates@.take(j as int), orders@),
            orders@.len() <= s0.len() + j,
            s0.len() + updates@.len() < usize::MAX,
        decreases updates@.len() - j,
    {
        let lvl = updates[j];
        let ghost cur = orders@;
        let ghost uj = updates@.take(j as int);
        upsert_level(orders, lvl, descending);
        proof {
            assert forall|t: int| 0 <= t < uj.len() implies (#[trigger] uj[t]).price
                != lvl.price by {
                assert(uj[t] == updates@[t]);
            }
            lemma_batch_step(s0, uj, lvl, cur, orders@);
            assert(uj.push(lvl) =~= updates@.take(j as int + 1));
        }
        j = j + 1;
    }
    proof {
        assert(updates@.take(updates@.len() as int) =~= updates@);
    }
}

/// One depth delta from the wire: the id window it covers and the level
/// updates for each side. `time` is milliseconds since the epoch.
#[derive(Clone, Debug)]
pub struct OrderbookMessage {
    pub event_type: String,
    pub time: i64,
    pub symbol: String,
    pub first_update_id: i64,
    pub last_update_id: i64,
    pub bids: Vec<PriceSize>,
    pub asks: Vec<PriceSize>,
    pub prev_last_update_id: Option<i64>,
}

/// A delta the book accepts: per side, prices are distinct and levels bounded.
pub open spec fn delta_wf(m: OrderbookMessage) -> bool {
    &&& distinct_prices(m.bids@)
    &&& side_bounded(m.bids@)
    &&& distinct_prices(m.asks@)
    &&& side_bounded(m.asks@)
}

/// A delta is orderly against the book's last applied update id: an explicit
/// `prev_last_update_id` must equal it, otherwise the delta's id window must
/// start right after it.
pub open spec fn spec_orderly(m: OrderbookMessage, last_update_id: i64) -> bool {
    match m.prev_last_update_id {
        Some(previous) => previous == last_update_id,
        None => last_update_id == m.first_update_id - 1,
    }
}

/// The order book: bids strictly descending, asks strictly ascending, no
/// zero-size level. `time` is milliseconds since the epoch.
#[derive(Clone, Debug, PartialEq)]
pub struct OrderBook {
    pub bids: Vec<PriceSize>,
    pub asks: Vec<PriceSize>,
    pub first_update_id: i64,
    pub last_update_id: i64,
    pub time: i64,
    pub is_valid: bool,
}

impl OrderBook {
    /// Both sides satisfy the book invariant.
    pub open spec fn wf(self) -> bool {
        side_wf(self.bids@, true) && side_wf(self.asks@, false)
    }

    /// The book holds no level on either side.
    pub fn is_empty(&self) -> (r: bool)
        ensures
            r == (self.bids@.len() == 0 && self.asks@.len() == 0),
    {
        self.bids.is_empty() && self.asks.is_empty()
    }

    /// Builds a book directly from one delta, treated as a fresh resync
    /// point: the delta's non-zero levels, sorted to invariant order.
    pub fn new_from_update(update: OrderbookMessage) -> (r: Self)
        requires
            delta_wf(update),
            update.bids@.len() < usize::MAX,
            update.asks@.len() < usize::MAX,
        ensures
            r.wf(),
            updated_side(Seq::<PriceSize>::empty(), update.bids@, r.bids@),
            updated_side(Seq::<PriceSize>::empty(), update.asks@, r.asks@),
            r.first_update_id == update.first_update_id,
            r.last_update_id == update.last_update_id,
            r.time == update.time,
            r.is_valid,
    {
        let mut bids: Vec<PriceSize> = Vec::new();
        let mut asks: Vec<PriceSize> = Vec::new();
        update_orders(&mut bids, &update.bids, true);
        update_orders(&mut asks, &update.asks, false);
        OrderBook {
            bids,
            asks,
            last_update_id: update.last_update_id,
            time: update.time,
            is_valid: true,
            first_update_id: update.first_update_id,
        }
    }

    /// Applies one delta. An out-of-sequence delta clears the validity flag
    /// but is still applied in full: the id window, the time, and both sides
    /// always move to the delta's values, so the book can heal on a later
    /// orderly delta.
    pub fn update(&mut self, update: OrderbookMessage)
        requires
            old(self).wf(),
            delta_wf(update),
            old(self).bids@.len() + update.bids@.len() < usize::MAX,
            old(self).asks@.len() + update.asks@.len() < usize::MAX,
        ensures
            final(self).wf(),
            final(self).is_valid == (old(self).is_valid && spec_orderly(
                update,
                old(self).last_update_id,
            )),
            final(self).first_update_id == update.first_update_id,
            final(self).last_update_id == update.last_update_id,
            final(self).time == update.time,
            updated_side(old(self).bids@, update.bids@, final(self).bids@),
            updated_side(old(self).asks@, update.asks@, final(self).asks@),
            final(self).bids@.len() <= old(self).bids@.len() + update.bids@.len(),
            final(self).asks@.len() <= old(self).asks@.len() + update.asks@.len(),
    {
        let orderly: bool = match update.prev_last_update_id {
            Some(previous) => previous == self.last_update_id,
            None => update.first_update_id > i64::MIN && self.last_update_id
                == update.first_update_id - 1,
        };
        if !orderly {
            self.is_valid = false;
        }
        update_orders(&mut self.bids, &update.bids, true);
        update_orders(&mut self.asks, &update.asks, false);
        self.time = update.time;
        self.last_update_id = update.last_update_id;
        self.first_update_id = update.first_update_id;
    }
}

impl Default for OrderBook {
    /// An empty, not-yet-valid book.
    fn default() -> (r: Self)
        ensures
            r.wf(),
            r.bids@.len() == 0,
            r.asks@.len() == 0,
            r.first_update_id == 0,
            r.last_update_id == 0,
            r.time == 0,
            !r.is_valid,
    {
        OrderBook {
            bids: Vec::new(),
            asks: Vec::new(),
            first_update_id: 0,
            last_update_id: 0,
            time: 0,
            is_valid: false,
        }
    }
}

/// One row of the persisted update log.
#[derive(Clone, Copy, Debug, PartialEq, Eq, Structural)]
pub struct UpdateCSVFormat {
    pub timestamp: i64,
    pub price: u64,
    pub quantity: u64,
}

/// One wire level row parses: at least a price and a size string, both
/// well-formed decimals within the fixed-point range.
pub open spec fn row_parses(row: Seq<String>) -> bool {
    row.len() >= 2 && parses_to_atoms(row[0]@) && parses_to_atoms(row[1]@)
}

/// Turns the wire form of one side's levels, rows of decimal strings, into
/// levels in atoms: `Some` exactly when every row parses.
pub fn deserialize(rows: &Vec<Vec<String>>) -> (r: Option<Vec<PriceSize>>)
    ensures
        r is Some <==> (forall|i: int| 0 <= i < rows@.len() ==> row_parses(#[trigger] rows@[i]@)),
        r matches Some(v) ==> {
            &&& v@.len() == rows@.len()
            &&& forall|i: int|
                0 <= i < rows@.len() ==> (#[trigger] v@[i]).price == atoms_of(rows@[i]@[0]@)
                    && v@[i].size == atoms_of(rows@[i]@[1]@)
            &&& side_bounded(v@)
        },
{
    let mut out: Vec<PriceSize> = Vec::new();
    let n: usize = rows.len();
    let mut i: usize = 0;
    while i < n
        invariant
            0 <= i <= n,
            n == rows@.len(),
            out@.len() == i,
            forall|k: int| 0 <= k < i ==> row_parses(#[trigger] rows@[k]@),
            forall|k: int|
                0 <= k < i ==> (#[trigger] out@[k]).price == atoms_of(rows@[k]@[0]@)
                    && out@[k].size == atoms_of(rows@[k]@[1]@),
            side_bounded(out@),
        decreases n - i,
    {
        let row = &rows[i];
        if row.len() < 2 {
            proof {
                assert(!row_parses(rows@[i as int]@));
            }
            return None;
        }
        let price = match parse_decimal_atoms(row[0].as_str()) {
            Some(p) => p,
            None => {
                proof {
                    assert(!row_parses(rows@[i as int]@));
                }
                return None;
            },
        };
        let size = match parse_decimal_atoms(row[1].as_str()) {
            Some(z) => z,
            None => {
                proof {
                    assert(!row_parses(rows@[i as int]@));
                }
                return None;
            },
        };
        out.push(PriceSize { price, size });
        i = i + 1;
    }
    Some(out)
}

/// Checks one side of a wire delta: distinct prices, bounded levels.
fn side_distinct_bounded(s: &Vec<PriceSize>) -> (r: bool)
    ensures
        r == (distinct_prices(s@) && side_bounded(s@)),
{
    let n: usize = s.len();
    let mut i: usize = 0;
    while i < n
        invariant
            0 <= i <= n,
            n == s@.len(),
            forall|a: int, b: int|
                0 <= a < b < i ==> (#[trigger] s@[a]).price != (#[trigger] s@[b]).price,
            forall|k: int| 0 <= k < i ==> level_bounded(#[trigger] s@[k]),
        decreases n - i,
    {
        if s[i].price > ATOM_MAX || s[i].size > ATOM_MAX {
            return false;
        }
        let mut j: usize = 0;
        while j < i
            invariant
                0 <= j <= i < n,
                n == s@.len(),
                forall|t: int| 0 <= t < j ==> (#[trigger] s@[t]).price != s@[i as int].price,
            decreases i - j,
        {
            if s[j].price == s[i].price {
                return false;
            }
            j = j + 1;
        }
        i = i + 1;
    }
    true
}

/// Checks that a wire delta is one the book accepts: per side, distinct
/// prices and bounded levels.
pub fn check_delta(m: &OrderbookMessage) -> (r: bool)
    ensures
        r == delta_wf(*m),
{
    side_distinct_bounded(&m.bids) && side_distinct_bounded(&m.asks)
}

/// Aggregate size of one side, in atoms.
pub open spec fn sum_sizes(s: Seq<PriceSize>) -> int
    decreases s.len(),
{
    if s.len() == 0 {
        0
    } else {
        sum_sizes(s.drop_last()) + s.last().size
    }
}

/// Aggregate price-times-size of one side, in squared atoms.
pub open spec fn sum_notional(s: Seq<PriceSize>) -> int
    decreases s.len(),
{
    if s.len() == 0 {
        0
    } else {
        sum_notional(s.drop_last()) + s.last().price * s.last().size
    }
}

/// Size-weighted average price of a side with the given aggregates, rounded
/// to the nearest multiple of `tick`, in atoms.
pub open spec fn spec_weighted_price(notional: int, total: int, tick: int) -> int {
    div_round_half(notional, total * tick) * tick
}

/// Signed distance from `from` down to `to`, in `FRAC_SCALE`-scaled ticks.
pub open spec fn spec_tick_distance(from: int, to: int, tick: int) -> int {
    div_round_half((from - to) * FRAC_SCALE, tick)
}

/// Bid size over ask size, in `FRAC_SCALE`-scaled units.
pub open spec fn spec_size_ratio(bid_total: int, ask_total: int) -> int {
    div_round_half(bid_total * FRAC_SCALE, ask_total)
}

/// A book whose best price sits at or above the tick-rounded weighted
/// average yields a non-negative tick distance, and symmetrically below.
pub proof fn lemma_tick_distance_sign(from: int, to: int, tick: int)
    requires
        1 <= tick,
    ensures
        from >= to ==> spec_tick_distance(from, to, tick) >= 0,
        from <= to ==> spec_tick_distance(from, to, tick) <= 0,
{
    if from >= to {
        lemma_mul_inequality(0, from - to, FRAC_SCALE as int);
        lemma_div_round_half_bounds((from - to) * FRAC_SCALE, tick);
    }
    if from <= to {
        lemma_mul_inequality(from - to, 0, FRAC_SCALE as int);
        lemma_div_round_half_bounds((from - to) * FRAC_SCALE, tick);
    }
}

/// The aggregates of a bounded side are non-negative and grow at most
/// linearly in the side's length.
proof fn lemma_sum_bounds(s: Seq<PriceSize>)
    requires
        side_bounded(s),
    ensures
        0 <= sum_sizes(s) <= s.len() * ATOM_MAX,
        0 <= sum_notional(s) <= sum_sizes(s) * (ATOM_MAX as int),
    decreases s.len(),
{
    if s.len() == 0 {
    } else {
        let d = s.drop_last();
        assert(side_bounded(d)) by {
            assert forall|i: int| 0 <= i < d.len() implies level_bounded(#[trigger] d[i]) by {
                assert(d[i] == s[i]);
            }
        }
        lemma_sum_bounds(d);
        let l = s.last();
        assert(level_bounded(l));
        assert(l.price * l.size <= ATOM_MAX * (l.size as int)) by (nonlinear_arith)
            requires l.price <= ATOM_MAX && l.size >= 0;
        assert(l.price * l.size >= 0) by (nonlinear_arith)
            requires l.price >= 0 && l.size >= 0;
        assert(sum_sizes(d) * (ATOM_MAX as int) + ATOM_MAX * (l.size as int) == (sum_sizes(d)
            + l.size) * (ATOM_MAX as int)) by (nonlinear_arith);
        assert((s.len() - 1) * ATOM_MAX + ATOM_MAX == s.len() * ATOM_MAX) by (nonlinear_arith);
    }
}

/// Sums the sizes and the notional of one side.
fn side_totals(side: &Vec<PriceSize>) -> (r: (i128, i128))
    requires
        side_bounded(side@),
        side@.len() <= MAX_LEVELS,
    ensures
        r.0 == sum_sizes(side@),
        r.1 == sum_notional(side@),
{
    let mut total: i128 = 0;
    let mut notional: i128 = 0;
    proof {
        assert(side@.take(0) =~= Seq::<PriceSize>::empty());
    }
    let n: usize = side.len();
    let mut i: usize = 0;
    while i < n
        invariant
            0 <= i <= n,
            n == side@.len(),
            side_bounded(side@),
            side@.len() <= MAX_LEVELS,
            total == sum_sizes(side@.take(i as int)),
            notional == sum_notional(side@.take(i as int)),
        decreases n - i,
    {
        let l = side[i];
        proof {
            let t1 = side@.take(i as int + 1);
            assert(t1.drop_last() =~= side@.take(i as int));
            assert(t1.last() == side@[i as int]);
            assert(level_bounded(side@[i as int]));
            lemma_sum_bounds(side@.take(i as int));
            assert(side@.take(i as int).len() * ATOM_MAX <= MAX_LEVELS * ATOM_MAX)
                by (nonlinear_arith)
                requires side@.take(i as int).len() <= MAX_LEVELS;
            assert(sum_notional(side@.take(i as int)) <= (MAX_LEVELS * ATOM_MAX)
                * (ATOM_MAX as int)) by (nonlinear_arith)
                requires
                    sum_notional(side@.take(i as int)) <= sum_sizes(side@.take(i as int)) * (
                    ATOM_MAX as int),
                    0 <= sum_sizes(side@.take(i as int)) <= MAX_LEVELS * ATOM_MAX,
            ;
            assert((l.price as int) * (l.size as int) <= (ATOM_MAX as int) * (ATOM_MAX as int))
                by (nonlinear_arith)
                requires 0 <= l.price <= ATOM_MAX && 0 <= l.size <= ATOM_MAX;
            assert((l.price as int) * (l.size as int) >= 0) by (nonlinear_arith)
                requires l.price >= 0 && l.size >= 0;
        }
        total = total + l.size as i128;
        notional = notional + (l.price as i128) * (l.size as i128);
        i = i + 1;
    }
    proof {
        assert(side@.take(n as int) =~= side@);
    }
    (total, notional)
}

/// The book-derived slice of an observation. Totals and notionals are in
/// atoms and squared atoms; the tick distances and the size ratio carry
/// `FRAC_SCALE` fractional units.
#[derive(Clone, Copy, Debug, PartialEq, Eq, Structural)]
pub struct BookFeatures {
    pub bid_total: i128,
    pub num_ticks_from_best_bid: i128,
    pub ask_total: i128,
    pub num_ticks_from_best_ask: i128,
    pub bids_asks_ratio: i128,
    pub bid_notional: i128,
    pub ask_notional: i128,
}

impl OrderBook {
    /// Derives the book features: `None` exactly when a side has zero
    /// aggregate size (volume-weighted metrics are undefined there), else
    /// the totals, notionals, tick distances of the best prices from the
    /// tick-rounded weighted averages, and the bid/ask size ratio.
    pub fn to_features(&self, tick_size: u64) -> (r: Option<BookFeatures>)
        requires
            self.wf(),
            1 <= tick_size <= ATOM_MAX,
            self.bids@.len() <= MAX_LEVELS,
            self.asks@.len() <= MAX_LEVELS,
        ensures
            r is None <==> (sum_sizes(self.bids@) == 0 || sum_sizes(self.asks@) == 0),
            r matches Some(f) ==> {
                &&& f.bid_total == sum_sizes(self.bids@)
                &&& f.ask_total == sum_sizes(self.asks@)
                &&& f.bid_notional == sum_notional(self.bids@)
                &&& f.ask_notional == sum_notional(self.asks@)
                &&& f.num_ticks_from_best_bid == spec_tick_distance(
                    self.bids@[0].price as int,
                    spec_weighted_price(
                        sum_notional(self.bids@),
                        sum_sizes(self.bids@),
                        tick_size as int,
                    ),
                    tick_size as int,
                )
                &&& f.num_ticks_from_best_ask == spec_tick_distance(
                    spec_weighted_price(
                        sum_notional(self.asks@),
                        sum_sizes(self.asks@),
                        tick_size as int,
                    ),
                    self.asks@[0].price as int,
                    tick_size as int,
                )
                &&& f.bids_asks_ratio == spec_size_ratio(
                    sum_sizes(self.bids@),
                    sum_sizes(self.asks@),
                )
                &&& 0 <= f.bids_asks_ratio <= crate::RATIO_BOUND
            },
    {
        let (bid_total, bid_notional) = side_totals(&self.bids);
        let (ask_total, ask_notional) = side_totals(&self.asks);
        proof {
            lemma_sum_bounds(self.bids@);
            lemma_sum_bounds(self.asks@);
            assert(self.bids@.len() * ATOM_MAX <= MAX_LEVELS * ATOM_MAX) by (nonlinear_arith)
                requires self.bids@.len() <= MAX_LEVELS;
            assert(self.asks@.len() * ATOM_MAX <= MAX_LEVELS * ATOM_MAX) by (nonlinear_arith)
                requires self.asks@.len() <= MAX_LEVELS;
        }
        if bid_total == 0 || ask_total == 0 {
            return None;
        }
        proof {
            if self.bids@.len() == 0 {
                assert(sum_sizes(self.bids@) == 0);
            }
            if self.asks@.len() == 0 {
                assert(sum_sizes(self.asks@) == 0);
            }
        }
        let w_bid: i128 = weighted_price(bid_notional, bid_total, tick_size);
        let w_ask: i128 = weighted_price(ask_notional, ask_total, tick_size);
        let best_bid: i128 = self.bids[0].price as i128;
        let best_ask: i128 = self.asks[0].price as i128;
        proof {
            assert((best_bid - w_bid) * FRAC_SCALE <= 0x1000_0000_0000_0000_0000i128
                && -0x1000_0000_0000_0000_0000i128 <= (best_bid - w_bid) * FRAC_SCALE)
                by (nonlinear_arith)
                requires
                    -0x10_0000_0000_0000i128 <= best_bid - w_bid <= 0x10_0000_0000_0000i128,
            ;
            assert((w_ask - best_ask) * FRAC_SCALE <= 0x1000_0000_0000_0000_0000i128
                && -0x1000_0000_0000_0000_0000i128 <= (w_ask - best_ask) * FRAC_SCALE)
                by (nonlinear_arith)
                requires
                    -0x10_0000_0000_0000i128 <= w_ask - best_ask <= 0x10_0000_0000_0000i128,
            ;
            lemma_mul_inequality(0, bid_total as int, 1_000_000int);
            assert(bid_total <= 0x40_0000_0000_0000_0000i128);
            lemma_mul_inequality(bid_total as int, 0x40_0000_0000_0000_0000int, 1_000_000int);
            assert(0x40_0000_0000_0000_0000int * 1_000_000int
                <= 0x400_0000_0000_0000_0000_0000int);
            assert(FRAC_SCALE == 1_000_000i128);
            assert(crate::RATIO_BOUND == 0x400_0000_0000_0000_0000_0000i128);
            lemma_div_round_half_bounds(bid_total as int * FRAC_SCALE as int, ask_total as int);
        }
        let num_ticks_from_best_bid: i128 = div_round_half_i128(
            (best_bid - w_bid) * FRAC_SCALE,
            tick_size as i128,
        );
        let num_ticks_from_best_ask: i128 = div_round_half_i128(
            (w_ask - best_ask) * FRAC_SCALE,
            tick_size as i128,
        );
        let bids_asks_ratio: i128 = div_round_half_i128(bid_total * FRAC_SCALE, ask_total);
        Some(
            BookFeatures {
                bid_total,
                ask_total,
                num_ticks_from_best_bid,
                num_ticks_from_best_ask,
                bids_asks_ratio,
                bid_notional,
                ask_notional,
            },
        )
    }
}

/// Rounded size-weighted average price: notional over total, rounded to the
/// nearest multiple of the tick.
fn weighted_price(notional: i128, total: i128, tick_size: u64) -> (r: i128)
    requires
        1 <= tick_size <= ATOM_MAX,
        1 <= total <= MAX_LEVELS * ATOM_MAX,
        0 <= notional <= total * (ATOM_MAX as int),
    ensures
        r == spec_weighted_price(notional as int, total as int, tick_size as int),
        0 <= r <= ATOM_MAX + tick_size,
{
    let tick: i128 = tick_size as i128;
    proof {
        assert(total * tick <= (MAX_LEVELS * ATOM_MAX) * (ATOM_MAX as int)) by (nonlinear_arith)
            requires 1 <= total <= MAX_LEVELS * ATOM_MAX && 1 <= tick <= ATOM_MAX;
        assert(total * tick >= 1) by (nonlinear_arith)
            requires total >= 1 && tick >= 1;
        assert(notional <= (MAX_LEVELS * ATOM_MAX) * (ATOM_MAX as int)) by (nonlinear_arith)
            requires
                notional <= total * (ATOM_MAX as int),
                1 <= total <= MAX_LEVELS * ATOM_MAX,
        ;
    }
    let q: i128 = div_round_half_i128(notional, total * tick);
    proof {
        lemma_div_round_half_bounds(notional as int, (total * tick) as int);
        lemma_div_round_half_mul_le(notional as int, (total * tick) as int);
        let qi = q as int;
        let ti = tick as int;
        let toti = total as int;
        assert(qi * (toti * ti) == (qi * ti) * toti) by (nonlinear_arith);
        assert(notional + toti * ti <= toti * (ATOM_MAX + ti)) by (nonlinear_arith)
            requires notional <= toti * (ATOM_MAX as int);
        assert(toti * (ATOM_MAX + ti) == (ATOM_MAX + ti) * toti) by (nonlinear_arith);
        lemma_mul_inequality_converse(qi * ti, ATOM_MAX + ti, toti);
        lemma_mul_inequality(0, qi, ti);
    }
    q * tick
}

} // verus!
