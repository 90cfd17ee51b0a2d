//! A per-symbol limit-order book and its matching rule.
//!
//! Resting orders are kept sorted by `(price, submit_at)`, both ascending,
//! and no two resting orders share an order id. Matching consumes a buffer
//! of recorded market trades: an aggressive sell sweeps resting buys from
//! the highest price down, an aggressive buy sweeps resting sells from the
//! lowest price up, each fill taking the smaller of the order's remainder
//! and the trade's remainder.

use vstd::prelude::*;

use vstd::arithmetic::mul::lemma_mul_inequality;
use vstd::arithmetic::mul::lemma_mul_is_commutative;
use vstd::math::min;

use crate::order::TradeSide;

verus! {

/// A resting limit order.
#[derive(Debug)]
pub struct LimitOrder {
    pub price: u64,
    pub quantity: u64,
    pub filled: u64,
    pub submit_at: u64,
    pub side: TradeSide,
    pub order_id: String,
}

impl Clone for LimitOrder {
    fn clone(&self) -> (r: Self)
        ensures
            r == *self,
    {
        LimitOrder {
            price: self.price,
            quantity: self.quantity,
            filled: self.filled,
            submit_at: self.submit_at,
            side: self.side,
            order_id: self.order_id.clone(),
        }
    }
}

/// One recorded market trade to match resting orders against.
#[derive(Debug, Clone, Copy, PartialEq, Eq, Structural)]
pub struct MarketTrade {
    pub price: u64,
    pub quantity: u64,
    pub trade_at: u64,
    pub is_buyer_maker: bool,
}

/// One fill of a resting order produced by matching.
#[derive(Debug)]
pub struct MarketEvent {
    pub side: TradeSide,
    pub price: u64,
    pub quantity: u64,
    pub remain_qty_to_fill: u64,
    pub event_at: u64,
    pub order_id: String,
}

impl Clone for MarketEvent {
    fn clone(&self) -> (r: Self)
        ensures
            r == *self,
    {
        MarketEvent {
            side: self.side,
            price: self.price,
            quantity: self.quantity,
            remain_qty_to_fill: self.remain_qty_to_fill,
            event_at: self.event_at,
            order_id: self.order_id.clone(),
        }
    }
}

/// A resting order still has something to fill.
pub open spec fn order_wf(o: LimitOrder) -> bool {
    o.quantity > 0 && o.filled < o.quantity
}

/// Book order: by price, then by submission time on price ties.
pub open spec fn le_order(a: LimitOrder, b: LimitOrder) -> bool {
    a.price < b.price || (a.price == b.price && a.submit_at <= b.submit_at)
}

/// Executable form of `le_order`.
pub fn le_order_exec(a: &LimitOrder, b: &LimitOrder) -> (r: bool)
    ensures
        r == le_order(*a, *b),
{
    a.price < b.price || (a.price == b.price && a.submit_at <= b.submit_at)
}

/// Whether an order rests at exactly this price.
fn price_equals(o: &LimitOrder, price: u64) -> (r: bool)
    ensures
        r == (o.price == price),
{
    o.price == price
}

pub open spec fn sorted(s: Seq<LimitOrder>) -> bool {
    forall|i: int, j: int| 0 <= i < j < s.len() ==> le_order(#[trigger] s[i], #[trigger] s[j])
}

/// Every resting order's price-times-quantity fits the machine word, so
/// settlement arithmetic on any fill of it cannot overflow.
pub open spec fn orders_bounded(s: Seq<LimitOrder>) -> bool {
    forall|i: int| 0 <= i < s.len() ==> (#[trigger] s[i]).price * s[i].quantity <= u64::MAX
}

pub open spec fn unique_ids(s: Seq<LimitOrder>) -> bool {
    forall|i: int, j: int|
        0 <= i < j < s.len() ==> (#[trigger] s[i]).order_id@ != (#[trigger] s[j]).order_id@
}

/// The order book and trade buffer for one symbol.
#[derive(Debug)]
pub struct SimpleMarket {
    pub open_orders: Vec<LimitOrder>,
    pub market_trade_buf: Vec<MarketTrade>,
    pub last_trade_price: u64,
}

impl SimpleMarket {
    /// The book's invariants: sort order, id uniqueness, and every resting
    /// order strictly unfilled.
    pub open spec fn wf(self) -> bool {
        &&& sorted(self.open_orders@)
        &&& unique_ids(self.open_orders@)
        &&& forall|i: int| 0 <= i < self.open_orders@.len() ==> order_wf(#[trigger] self.open_orders@[i])
    }

    pub fn new() -> (m: SimpleMarket)
        ensures
            m.wf(),
            m.open_orders@.len() == 0,
            m.market_trade_buf@.len() == 0,
            m.last_trade_price == 0,
    {
        SimpleMarket { open_orders: Vec::new(), market_trade_buf: Vec::new(), last_trade_price: 0 }
    }
}

/// In a well-formed book, no two resting orders share an order id, the
/// book is sorted by price ascending with submission time breaking
/// ties, and every resting order still has something to fill. Every
/// book operation keeps these invariants.
pub proof fn lemma_book_invariants(m: SimpleMarket)
    requires
        m.wf(),
    ensures
        unique_ids(m.open_orders@),
        sorted(m.open_orders@),
        forall|i: int| 0 <= i < m.open_orders@.len() ==> order_wf(#[trigger] m.open_orders@[i]),
{
}

/// Where a new order is inserted: after every resting order at a lower
/// price, or at the same price with an earlier or equal submission time.
pub open spec fn insert_pos(s: Seq<LimitOrder>, o: LimitOrder) -> int
    decreases s.len(),
{
    if s.len() == 0 {
        0
    } else if le_order(s[0], o) {
        1 + insert_pos(s.drop_first(), o)
    } else {
        0
    }
}

proof fn lemma_insert_pos_bounds(s: Seq<LimitOrder>, o: LimitOrder)
    ensures
        0 <= insert_pos(s, o) <= s.len(),
        forall|k: int| 0 <= k < insert_pos(s, o) ==> le_order(#[trigger] s[k], o),
        insert_pos(s, o) < s.len() ==> !le_order(s[insert_pos(s, o)], o),
    decreases s.len(),
{
    if s.len() > 0 && le_order(s[0], o) {
        lemma_insert_pos_bounds(s.drop_first(), o);
        assert forall|k: int| 0 <= k < insert_pos(s, o) implies le_order(#[trigger] s[k], o) by {
            if k > 0 {
                assert(s.drop_first()[k - 1] == s[k]);
            }
        }
        if insert_pos(s, o) < s.len() {
            assert(s.drop_first()[insert_pos(s, o) - 1] == s[insert_pos(s, o)]);
        }
    }
}

impl SimpleMarket {
    /// Accepts a fresh order into the book, keeping it sorted. An order
    /// for zero quantity is refused, and so is an order whose id is
    /// already resting; in both cases the book does not change.
    #[verifier::loop_isolation(false)]
    pub fn add_order(&mut self, order: LimitOrder)
        requires
            old(self).wf(),
            order.filled == 0,
        ensures
            final(self).wf(),
            final(self).market_trade_buf == old(self).market_trade_buf,
            final(self).last_trade_price == old(self).last_trade_price,
            orders_bounded(old(self).open_orders@) && order.price * order.quantity <= u64::MAX
                ==> orders_bounded(final(self).open_orders@),
            ({
                let s = old(self).open_orders@;
                if order.quantity == 0 || (exists|i: int|
                    0 <= i < s.len() && (#[trigger] s[i]).order_id@ == order.order_id@) {
                    final(self).open_orders@ == s
                } else {
                    final(self).open_orders@ == s.insert(insert_pos(s, order), order)
                }
            }),
    {
        if order.quantity == 0 {
            return ;
        }
        let ghost s = self.open_orders@;
        let mut i: usize = 0;
        while i < self.open_orders.len()
            invariant
                i <= s.len(),
                self.open_orders@ == s,
                forall|k: int| 0 <= k < i ==> (#[trigger] s[k]).order_id@ != order.order_id@,
            decreases s.len() - i,
        {
            if self.open_orders[i].order_id == order.order_id {
                return ;
            }
            i = i + 1;
        }
        let mut pos: usize = 0;
        proof {
            assert(s.subrange(0, s.len() as int) =~= s);
        }
        while pos < self.open_orders.len() && le_order_exec(&self.open_orders[pos], &order)
            invariant
                pos <= s.len(),
                self.open_orders@ == s,
                forall|k: int| 0 <= k < pos ==> le_order(#[trigger] s[k], order),
                insert_pos(s.subrange(pos as int, s.len() as int), order) + pos == insert_pos(
                    s,
                    order,
                ),
            decreases s.len() - pos,
        {
            proof {
                let tail = s.subrange(pos as int, s.len() as int);
                assert(tail[0] == s[pos as int]);
                assert(le_order(tail[0], order));
                assert(tail.drop_first() =~= s.subrange(pos + 1 as int, s.len() as int));
            }
            pos = pos + 1;
        }
        proof {
            let tail = s.subrange(pos as int, s.len() as int);
            if pos < s.len() {
                assert(tail[0] == s[pos as int]);
                assert(!le_order(tail[0], order));
            } else {
                assert(tail.len() == 0);
            }
            assert(insert_pos(s, order) == pos as int);
        }
        let ghost gorder = order;
        self.open_orders.insert(pos, order);
        proof {
            let s2 = self.open_orders@;
            assert(s2 == s.insert(pos as int, order));
            assert forall|a: int, b: int| 0 <= a < b < s2.len() implies le_order(
                #[trigger] s2[a],
                #[trigger] s2[b],
            ) by {
                lemma_insert_facts(s, order, pos as int, a, b);
            }
            assert forall|a: int, b: int|
                0 <= a < b < s2.len() implies (#[trigger] s2[a]).order_id@ != (
            #[trigger] s2[b]).order_id@ by {
                lemma_insert_facts(s, order, pos as int, a, b);
            }
            assert forall|a: int| 0 <= a < s2.len() implies order_wf(#[trigger] s2[a]) by {
                lemma_insert_index_map(s, order, pos as int, a);
            }
            if orders_bounded(s) && gorder.price * gorder.quantity <= u64::MAX {
                assert forall|a: int| 0 <= a < s2.len() implies (#[trigger] s2[a]).price
                    * s2[a].quantity <= u64::MAX by {
                    lemma_insert_index_map(s, gorder, pos as int, a);
                }
            }
        }
    }
}

impl SimpleMarket {
    /// The resting order with this id, if any. With unique ids the result
    /// is the one order at the one matching position.
    pub fn get_order(&self, order_id: &String) -> (r: Option<&LimitOrder>)
        ensures
            match r {
                Some(o) => exists|i: int|
                    0 <= i < self.open_orders@.len() && #[trigger] self.open_orders@[i] == *o
                        && o.order_id@ == order_id@,
                None => forall|i: int|
                    0 <= i < self.open_orders@.len() ==> (
                    #[trigger] self.open_orders@[i]).order_id@ != order_id@,
            },
    {
        let mut i: usize = 0;
        while i < self.open_orders.len()
            invariant
                i <= self.open_orders@.len(),
                forall|k: int|
                    0 <= k < i ==> (#[trigger] self.open_orders@[k]).order_id@ != order_id@,
            decreases self.open_orders@.len() - i,
        {
            if self.open_orders[i].order_id == *order_id {
                return Some(&self.open_orders[i]);
            }
            i = i + 1;
        }
        None
    }

    /// Removes the resting order with this id, if present; the rest of
    /// the book keeps its order.
    #[verifier::loop_isolation(false)]
    pub fn cancel_order(&mut self, order_id: &String)
        requires
            old(self).wf(),
        ensures
            final(self).wf(),
            final(self).market_trade_buf == old(self).market_trade_buf,
            final(self).last_trade_price == old(self).last_trade_price,
            orders_bounded(old(self).open_orders@) ==> orders_bounded(final(self).open_orders@),
            ({
                let s = old(self).open_orders@;
                if exists|i: int|
                    0 <= i < s.len() && (#[trigger] s[i]).order_id@ == order_id@ {
                    exists|i: int|
                        0 <= i < s.len() && (#[trigger] s[i]).order_id@ == order_id@
                            && final(self).open_orders@ == s.remove(i)
                } else {
                    final(self).open_orders@ == s
                }
            }),
    {
        let ghost s = self.open_orders@;
        let mut i: usize = 0;
        while i < self.open_orders.len()
            invariant
                i <= s.len(),
                self.open_orders@ == s,
                self.market_trade_buf == old(self).market_trade_buf,
                self.last_trade_price == old(self).last_trade_price,
                forall|k: int| 0 <= k < i ==> (#[trigger] s[k]).order_id@ != order_id@,
            decreases s.len() - i,
        {
            if self.open_orders[i].order_id == *order_id {
                self.open_orders.remove(i);
                proof {
                    let s2 = self.open_orders@;
                    assert(s2 == s.remove(i as int));
                    assert forall|a: int, b: int| 0 <= a < b < s2.len() implies le_order(
                        #[trigger] s2[a],
                        #[trigger] s2[b],
                    ) && s2[a].order_id@ != s2[b].order_id@ by {
                        lemma_remove_index_map(s, i as int, a);
                        lemma_remove_index_map(s, i as int, b);
                    }
                    assert forall|a: int| 0 <= a < s2.len() implies order_wf(#[trigger] s2[a]) by {
                        lemma_remove_index_map(s, i as int, a);
                    }
                    if orders_bounded(s) {
                        assert forall|a: int| 0 <= a < s2.len() implies (#[trigger] s2[a]).price
                            * s2[a].quantity <= u64::MAX by {
                            lemma_remove_index_map(s, i as int, a);
                        }
                    }
                }
                return ;
            }
            i = i + 1;
        }
    }

    /// Buffers a recorded trade for the next matching pass and notes its
    /// price as the latest seen.
    pub fn add_market_trade(&mut self, trade: MarketTrade)
        ensures
            final(self).open_orders == old(self).open_orders,
            final(self).market_trade_buf@ == old(self).market_trade_buf@.push(trade),
            final(self).last_trade_price == trade.price,
    {
        self.last_trade_price = trade.price;
        self.market_trade_buf.push(trade);
    }
}

/// Whether a recorded trade can fill a resting order: an aggressive sell
/// (`is_buyer_maker`) fills buys at or above its price; an aggressive buy
/// fills sells at or below its price.
pub open spec fn order_matches(o: LimitOrder, t: MarketTrade) -> bool {
    if t.is_buyer_maker {
        o.side == TradeSide::Buy && o.price >= t.price
    } else {
        o.side == TradeSide::Sell && o.price <= t.price
    }
}

/// One fill: the order after the fill, the event recording it, and what
/// remains of the trade. The fill takes the smaller of the order's
/// remainder and the trade's remainder.
pub open spec fn fill_of(o: LimitOrder, t: MarketTrade, remain: u64) -> (
    LimitOrder,
    MarketEvent,
    u64,
) {
    let f = min(o.quantity - o.filled, remain as int);
    let o2 = LimitOrder { filled: (o.filled + f) as u64, ..o };
    let ev = MarketEvent {
        side: o.side,
        price: o.price,
        quantity: f as u64,
        remain_qty_to_fill: (o.quantity - (o.filled + f)) as u64,
        event_at: t.trade_at,
        order_id: o.order_id,
    };
    (o2, ev, (remain - f) as u64)
}

/// Forward walk over the index span `[i, end)`, filling every matching
/// order until the trade is used up. Earlier-submitted orders within
/// the span are reached first. Returns the book, the fills, and what is
/// left of the trade.
pub open spec fn sweep_span(
    orders: Seq<LimitOrder>,
    t: MarketTrade,
    i: int,
    end: int,
    remain: u64,
) -> (Seq<LimitOrder>, Seq<MarketEvent>, u64)
    decreases end - i,
    when 0 <= i <= end <= orders.len()
{
    if i >= end || remain == 0 {
        (orders, Seq::empty(), remain)
    } else if order_matches(orders[i], t) {
        let filled = fill_of(orders[i], t, remain);
        let rec = sweep_span(orders.update(i, filled.0), t, i + 1, end, filled.2);
        (rec.0, seq![filled.1] + rec.1, rec.2)
    } else {
        sweep_span(orders, t, i + 1, end, remain)
    }
}

/// The start of the run of equal-priced orders ending at `hi - 1`.
pub open spec fn level_start(orders: Seq<LimitOrder>, hi: int) -> int
    decreases hi,
    when 0 < hi <= orders.len()
{
    if hi - 1 == 0 || orders[hi - 2].price != orders[hi - 1].price {
        hi - 1
    } else {
        level_start(orders, hi - 1)
    }
}

pub proof fn lemma_level_start_bounds(orders: Seq<LimitOrder>, hi: int)
    requires
        0 < hi <= orders.len(),
    ensures
        0 <= level_start(orders, hi) < hi,
        forall|k: int|
            level_start(orders, hi) <= k < hi ==> (#[trigger] orders[k]).price == orders[hi
                - 1].price,
    decreases hi,
{
    if !(hi - 1 == 0 || orders[hi - 2].price != orders[hi - 1].price) {
        lemma_level_start_bounds(orders, hi - 1);
    }
}

/// A span sweep only refills orders; the book keeps its length.
pub proof fn lemma_sweep_span_len(
    orders: Seq<LimitOrder>,
    t: MarketTrade,
    i: int,
    end: int,
    remain: u64,
)
    requires
        0 <= i <= end <= orders.len(),
    ensures
        sweep_span(orders, t, i, end, remain).0.len() == orders.len(),
    decreases end - i,
{
    if i < end && remain != 0 {
        if order_matches(orders[i], t) {
            let filled = fill_of(orders[i], t, remain);
            lemma_sweep_span_len(orders.update(i, filled.0), t, i + 1, end, filled.2);
        } else {
            lemma_sweep_span_len(orders, t, i + 1, end, remain);
        }
    }
}

/// Sweep of an aggressive sell over the book below `hi`: price levels
/// are taken from the highest down, and within one price level the
/// earlier-submitted orders fill first.
pub open spec fn sweep_sell(orders: Seq<LimitOrder>, t: MarketTrade, hi: int, remain: u64) -> (
    Seq<LimitOrder>,
    Seq<MarketEvent>,
    u64,
)
    decreases hi,
    when 0 <= hi <= orders.len()
    via sweep_sell_decreases
{
    if hi <= 0 || remain == 0 {
        (orders, Seq::empty(), remain)
    } else {
        let lo = level_start(orders, hi);
        let lvl = sweep_span(orders, t, lo, hi, remain);
        let rec = sweep_sell(lvl.0, t, lo, lvl.2);
        (rec.0, lvl.1 + rec.1, rec.2)
    }
}

#[via_fn]
proof fn sweep_sell_decreases(orders: Seq<LimitOrder>, t: MarketTrade, hi: int, remain: u64) {
    if 0 < hi <= orders.len() && remain != 0 {
        lemma_level_start_bounds(orders, hi);
        lemma_sweep_span_len(orders, t, level_start(orders, hi), hi, remain);
    }
}

/// The book with fully filled orders removed, order preserved.
pub open spec fn drop_filled(s: Seq<LimitOrder>) -> Seq<LimitOrder>
    decreases s.len(),
{
    if s.len() == 0 {
        s
    } else {
        let rest = drop_filled(s.drop_last());
        if s.last().filled < s.last().quantity {
            rest.push(s.last())
        } else {
            rest
        }
    }
}

/// The book and events after one recorded trade: the sweep for the
/// trade's aggressor side, then removal of exhausted orders.
pub open spec fn match_trade(orders: Seq<LimitOrder>, t: MarketTrade) -> (
    Seq<LimitOrder>,
    Seq<MarketEvent>,
) {
    let swept = if t.is_buyer_maker {
        sweep_sell(orders, t, orders.len() as int, t.quantity)
    } else {
        sweep_span(orders, t, 0, orders.len() as int, t.quantity)
    };
    (drop_filled(swept.0), swept.1)
}

/// The book and events after a whole buffer of recorded trades, oldest
/// first.
pub open spec fn match_trades(orders: Seq<LimitOrder>, trades: Seq<MarketTrade>) -> (
    Seq<LimitOrder>,
    Seq<MarketEvent>,
)
    decreases trades.len(),
{
    if trades.len() == 0 {
        (orders, Seq::empty())
    } else {
        let first = match_trade(orders, trades[0]);
        let rest = match_trades(first.0, trades.drop_first());
        (rest.0, first.1 + rest.1)
    }
}

/// Two resting buys at one price match in submission order when an
/// aggressive sell sweeps them: the earlier-submitted order's fill is
/// reported first and takes as much as it can.
pub proof fn lemma_equal_price_buys_fill_in_submit_order(
    b1: LimitOrder,
    b2: LimitOrder,
    t: MarketTrade,
)
    requires
        b1.side == TradeSide::Buy,
        b2.side == TradeSide::Buy,
        b1.price == b2.price,
        b1.submit_at <= b2.submit_at,
        order_wf(b1),
        order_wf(b2),
        t.is_buyer_maker,
        t.price <= b1.price,
        t.quantity > 0,
    ensures
        ({
            let r = match_trade(seq![b1, b2], t);
            &&& r.1.len() >= 1
            &&& r.1[0].order_id == b1.order_id
            &&& r.1[0].quantity == min(b1.quantity - b1.filled, t.quantity as int)
        }),
{
    let s = seq![b1, b2];
    assert(level_start(s, 2) == level_start(s, 1));
    assert(level_start(s, 1) == 0);
    assert(order_matches(s[0], t));
    let f0 = fill_of(s[0], t, t.quantity);
    let lvl = sweep_span(s, t, 0, 2, t.quantity);
    assert(lvl.1 == seq![f0.1] + sweep_span(s.update(0, f0.0), t, 1, 2, f0.2).1);
    lemma_sweep_span_len(s, t, 0, 2, t.quantity);
    let swept = sweep_sell(s, t, 2, t.quantity);
    assert(swept.1 == lvl.1 + sweep_sell(lvl.0, t, 0, lvl.2).1);
    assert(sweep_sell(lvl.0, t, 0, lvl.2).1 == Seq::<MarketEvent>::empty());
    assert(swept.1[0] == f0.1);
}

/// Equal in everything but the filled amount.
pub open spec fn same_but_fill(a: LimitOrder, b: LimitOrder) -> bool {
    a.price == b.price && a.quantity == b.quantity && a.submit_at == b.submit_at && a.side == b.side
        && a.order_id == b.order_id
}

/// After `s.remove(i)`, every index holds an element of `s` at a known
/// position.
proof fn lemma_remove_index_map(s: Seq<LimitOrder>, i: int, a: int)
    requires
        0 <= i < s.len(),
        0 <= a < s.len() - 1,
    ensures
        a < i ==> s.remove(i)[a] == s[a],
        a >= i ==> s.remove(i)[a] == s[a + 1],
{
}

/// After `s.insert(pos, o)`, every index holds either `o` or an element
/// of `s` at a known position.
proof fn lemma_insert_index_map(s: Seq<LimitOrder>, o: LimitOrder, pos: int, a: int)
    requires
        0 <= pos <= s.len(),
        0 <= a < s.len() + 1,
    ensures
        a < pos ==> s.insert(pos, o)[a] == s[a],
        a == pos ==> s.insert(pos, o)[a] == o,
        a > pos ==> s.insert(pos, o)[a] == s[a - 1],
{
}

proof fn lemma_insert_facts(s: Seq<LimitOrder>, o: LimitOrder, pos: int, a: int, b: int)
    requires
        sorted(s),
        unique_ids(s),
        0 <= pos <= s.len(),
        pos == insert_pos(s, o),
        forall|i: int| 0 <= i < s.len() ==> (#[trigger] s[i]).order_id@ != o.order_id@,
        0 <= a < b < s.len() + 1,
    ensures
        le_order(s.insert(pos, o)[a], s.insert(pos, o)[b]),
        s.insert(pos, o)[a].order_id@ != s.insert(pos, o)[b].order_id@,
{
    lemma_insert_pos_bounds(s, o);
    lemma_insert_index_map(s, o, pos, a);
    lemma_insert_index_map(s, o, pos, b);
    let s2 = s.insert(pos, o);
    if a == pos {
        assert(s2[a] == o);
        assert(s2[b] == s[b - 1]);
        assert(!le_order(s[pos], o));
        if pos < b - 1 {
            assert(le_order(s[pos], s[b - 1]));
        }
        lemma_le_order_total(o, s[b - 1]);
        lemma_le_order_trans(o, s[pos], s[b - 1]);
    } else if b == pos {
        assert(s2[b] == o);
        assert(s2[a] == s[a]);
        assert(le_order(s[a], o));
    }
}

/// Removing exhausted orders keeps settlement arithmetic in bounds.
proof fn lemma_drop_filled_bounded(s: Seq<LimitOrder>)
    requires
        orders_bounded(s),
    ensures
        orders_bounded(drop_filled(s)),
{
    lemma_drop_filled_contains(s);
    assert forall|k: int| 0 <= k < drop_filled(s).len() implies (#[trigger] drop_filled(s)[k]).price
        * drop_filled(s)[k].quantity <= u64::MAX by {
        assert(s.contains(drop_filled(s)[k]));
        let m = choose|m: int| 0 <= m < s.len() && s[m] == drop_filled(s)[k];
        assert(s[m].price * s[m].quantity <= u64::MAX);
    }
}

/// Every order kept by `drop_filled` was in the book before.
proof fn lemma_drop_filled_contains(s: Seq<LimitOrder>)
    ensures
        forall|k: int|
            0 <= k < drop_filled(s).len() ==> s.contains(#[trigger] drop_filled(s)[k]),
    decreases s.len(),
{
    if s.len() > 0 {
        lemma_drop_filled_contains(s.drop_last());
        let rest = drop_filled(s.drop_last());
        assert forall|k: int|
            0 <= k < drop_filled(s).len() implies s.contains(#[trigger] drop_filled(s)[k]) by {
            if k < rest.len() {
                assert(s.drop_last().contains(rest[k]));
                let m = choose|m: int|
                    0 <= m < s.drop_last().len() && s.drop_last()[m] == rest[k];
                assert(s[m] == rest[k]);
            } else {
                assert(drop_filled(s)[k] == s.last());
            }
        }
    }
}

/// Removing exhausted orders keeps the book sorted with unique ids, and
/// every surviving order still has something to fill.
proof fn lemma_drop_filled_wf(s: Seq<LimitOrder>)
    requires
        sorted(s),
        unique_ids(s),
        forall|k: int|
            0 <= k < s.len() ==> (#[trigger] s[k]).quantity > 0 && s[k].filled <= s[k].quantity,
    ensures
        sorted(drop_filled(s)),
        unique_ids(drop_filled(s)),
        forall|k: int| 0 <= k < drop_filled(s).len() ==> order_wf(#[trigger] drop_filled(s)[k]),
    decreases s.len(),
{
    if s.len() > 0 {
        assert forall|k: int|
            0 <= k < s.drop_last().len() implies (#[trigger] s.drop_last()[k]).quantity > 0
            && s.drop_last()[k].filled <= s.drop_last()[k].quantity by {
            assert(s.drop_last()[k] == s[k]);
        }
        lemma_drop_filled_wf(s.drop_last());
        lemma_drop_filled_contains(s.drop_last());
        let rest = drop_filled(s.drop_last());
        if s.last().filled < s.last().quantity {
            let d = rest.push(s.last());
            assert forall|i: int, j: int| 0 <= i < j < d.len() implies le_order(
                #[trigger] d[i],
                #[trigger] d[j],
            ) && d[i].order_id@ != d[j].order_id@ by {
                if j == rest.len() {
                    assert(d[j] == s.last());
                    assert(s.drop_last().contains(rest[i]));
                    let m = choose|m: int|
                        0 <= m < s.drop_last().len() && s.drop_last()[m] == rest[i];
                    assert(s[m] == rest[i]);
                    assert(le_order(s[m], s[s.len() - 1]));
                    assert(s[m].order_id@ != s[s.len() - 1].order_id@);
                }
            }
            assert forall|k: int| 0 <= k < d.len() implies order_wf(#[trigger] d[k]) by {
                if k == rest.len() {
                    assert(d[k] == s.last());
                }
            }
        }
    }
}

/// `le_order` is total: any two orders compare one way or the other.
proof fn lemma_le_order_total(a: LimitOrder, b: LimitOrder)
    ensures
        le_order(a, b) || le_order(b, a),
{
}

proof fn lemma_le_order_trans(a: LimitOrder, b: LimitOrder, c: LimitOrder)
    requires
        !le_order(b, a),
        le_order(b, c),
    ensures
        le_order(a, c),
{
}

/// Runs one recorded trade against the book held in `orders`, appending
/// the fills to `events`, exactly as `match_trade` describes.
#[verifier::loop_isolation(false)]
#[verifier::rlimit(100)]
fn match_one_trade(orders: &mut Vec<LimitOrder>, events: &mut Vec<MarketEvent>, t: MarketTrade)
    requires
        sorted(old(orders)@),
        unique_ids(old(orders)@),
        forall|k: int| 0 <= k < old(orders)@.len() ==> order_wf(#[trigger] old(orders)@[k]),
    ensures
        sorted(final(orders)@),
        unique_ids(final(orders)@),
        forall|k: int| 0 <= k < final(orders)@.len() ==> order_wf(#[trigger] final(orders)@[k]),
        final(orders)@ == match_trade(old(orders)@, t).0,
        final(events)@ == old(events)@ + match_trade(old(orders)@, t).1,
        forall|k: int|
            old(events)@.len() <= k < final(events)@.len() ==> (#[trigger] final(events)@[k]).quantity
                > 0,
        orders_bounded(old(orders)@) ==> orders_bounded(final(orders)@),
        orders_bounded(old(orders)@) ==> forall|k: int|
            old(events)@.len() <= k < final(events)@.len() ==> (#[trigger] final(events)@[k]).price
                * final(events)@[k].quantity <= u64::MAX,
{
    let ghost orders0 = orders@;
    let ghost events0 = events@;
    let ghost swept = if t.is_buyer_maker {
        sweep_sell(orders0, t, orders0.len() as int, t.quantity)
    } else {
        sweep_span(orders0, t, 0, orders0.len() as int, t.quantity)
    };
    let mut remain: u64 = t.quantity;
    if t.is_buyer_maker {
        let mut hi: usize = orders.len();
        while hi > 0 && remain > 0
            invariant
                hi <= orders@.len(),
                orders@.len() == orders0.len(),
                forall|k: int|
                    0 <= k < orders0.len() ==> same_but_fill(#[trigger] orders@[k], orders0[k]),
                forall|k: int|
                    0 <= k < orders0.len() ==> (#[trigger] orders@[k]).quantity > 0
                        && orders@[k].filled <= orders@[k].quantity,
                forall|k: int| 0 <= k < hi ==> order_wf(#[trigger] orders@[k]),
                sweep_sell(orders@, t, hi as int, remain).0 == swept.0,
                events0 + swept.1 == events@ + sweep_sell(orders@, t, hi as int, remain).1,
                events@.len() >= events0.len(),
                events@.subrange(0, events0.len() as int) == events0,
                forall|k: int|
                    events0.len() <= k < events@.len() ==> (#[trigger] events@[k]).quantity > 0,
                orders_bounded(orders0) ==> forall|k: int|
                    events0.len() <= k < events@.len() ==> (#[trigger] events@[k]).price
                        * events@[k].quantity <= u64::MAX,
            decreases hi,
        {
            let ghost outer_pre = orders@;
            let ghost outer_events_pre = events@;
            let ghost outer_remain_pre = remain;
            let hi_price = orders[hi - 1].price;
            let mut lo: usize = hi - 1;
            while lo > 0 && price_equals(&orders[lo - 1], hi_price)
                invariant
                    lo <= hi - 1,
                    hi <= orders@.len(),
                    orders@ == outer_pre,
                    orders@[lo as int].price == hi_price,
                    level_start(orders@, hi as int) == level_start(orders@, lo as int + 1),
                decreases lo,
            {
                lo = lo - 1;
            }
            proof {
                assert(level_start(orders@, lo as int + 1) == lo as int);
                assert(level_start(outer_pre, hi as int) == lo as int);
            }
            let ghost lvl = sweep_span(outer_pre, t, lo as int, hi as int, outer_remain_pre);
            let mut i: usize = lo;
            while i < hi && remain > 0
                invariant
                    lo <= i <= hi,
                    hi <= orders@.len(),
                    orders@.len() == orders0.len(),
                    forall|k: int|
                        0 <= k < orders0.len() ==> same_but_fill(#[trigger] orders@[k], orders0[k]),
                    forall|k: int|
                        0 <= k < orders0.len() ==> (#[trigger] orders@[k]).quantity > 0
                            && orders@[k].filled <= orders@[k].quantity,
                    forall|k: int| 0 <= k < lo ==> order_wf(#[trigger] orders@[k]),
                    forall|k: int| i <= k < hi ==> order_wf(#[trigger] orders@[k]),
                    sweep_span(orders@, t, i as int, hi as int, remain).0 == lvl.0,
                    outer_events_pre + lvl.1 == events@ + sweep_span(
                        orders@,
                        t,
                        i as int,
                        hi as int,
                        remain,
                    ).1,
                    sweep_span(orders@, t, i as int, hi as int, remain).2 == lvl.2,
                    events@.len() >= events0.len(),
                    events@.subrange(0, events0.len() as int) == events0,
                    forall|k: int|
                        events0.len() <= k < events@.len() ==> (#[trigger] events@[k]).quantity
                            > 0,
                    orders_bounded(orders0) ==> forall|k: int|
                        events0.len() <= k < events@.len() ==> (#[trigger] events@[k]).price
                            * events@[k].quantity <= u64::MAX,
                decreases hi - i,
            {
                let idx = i;
                let ghost pre = orders@;
                let ghost events_pre = events@;
                let ghost remain_pre = remain;
                if orders[idx].side == TradeSide::Buy && orders[idx].price >= t.price {
                    let o_q = orders[idx].quantity;
                    let o_f = orders[idx].filled;
                    let avail = o_q - o_f;
                    let f = if avail < remain {
                        avail
                    } else {
                        remain
                    };
                    let ev = MarketEvent {
                        side: orders[idx].side,
                        price: orders[idx].price,
                        quantity: f,
                        remain_qty_to_fill: o_q - (o_f + f),
                        event_at: t.trade_at,
                        order_id: orders[idx].order_id.clone(),
                    };
                    proof {
                        if orders_bounded(orders0) {
                            assert(same_but_fill(pre[idx as int], orders0[idx as int]));
                            lemma_mul_inequality(
                                f as int,
                                pre[idx as int].quantity as int,
                                pre[idx as int].price as int,
                            );
                            lemma_mul_is_commutative(pre[idx as int].price as int, f as int);
                            lemma_mul_is_commutative(
                                pre[idx as int].price as int,
                                pre[idx as int].quantity as int,
                            );
                            assert(ev.price * ev.quantity <= u64::MAX);
                        }
                    }
                    events.push(ev);
                    orders[idx].filled = o_f + f;
                    remain = remain - f;
                    proof {
                        let filled = fill_of(pre[idx as int], t, remain_pre);
                        assert(order_matches(pre[idx as int], t));
                        assert(filled.0 == orders@[idx as int]);
                        assert(filled.1 == ev);
                        assert(filled.2 == remain);
                        assert(orders@ == pre.update(idx as int, filled.0));
                        assert(sweep_span(pre, t, idx as int, hi as int, remain_pre).0
                            == sweep_span(orders@, t, idx as int + 1, hi as int, remain).0);
                        assert(sweep_span(pre, t, idx as int, hi as int, remain_pre).1
                            == seq![filled.1] + sweep_span(
                            orders@,
                            t,
                            idx as int + 1,
                            hi as int,
                            remain,
                        ).1);
                        assert(sweep_span(pre, t, idx as int, hi as int, remain_pre).2
                            == sweep_span(orders@, t, idx as int + 1, hi as int, remain).2);
                        assert(events@ == events_pre.push(ev));
                        assert(events_pre + (seq![ev] + sweep_span(
                            orders@,
                            t,
                            idx as int + 1,
                            hi as int,
                            remain,
                        ).1) =~= events@ + sweep_span(
                            orders@,
                            t,
                            idx as int + 1,
                            hi as int,
                            remain,
                        ).1);
                        assert(events@.subrange(0, events0.len() as int) =~= events0);
                    }
                } else {
                    proof {
                        assert(!order_matches(pre[idx as int], t));
                        assert(sweep_span(pre, t, idx as int, hi as int, remain).1 == sweep_span(
                            orders@,
                            t,
                            idx as int + 1,
                            hi as int,
                            remain,
                        ).1);
                    }
                }
                i = idx + 1;
            }
            proof {
                assert(sweep_span(orders@, t, i as int, hi as int, remain).0 == orders@);
                assert(sweep_span(orders@, t, i as int, hi as int, remain).1
                    == Seq::<MarketEvent>::empty());
                assert(sweep_span(orders@, t, i as int, hi as int, remain).2 == remain);
                assert(orders@ == lvl.0);
                assert(outer_events_pre + lvl.1 =~= events@);
                assert(remain == lvl.2);
                assert(sweep_sell(outer_pre, t, hi as int, outer_remain_pre).0 == sweep_sell(
                    orders@,
                    t,
                    lo as int,
                    remain,
                ).0);
                assert(sweep_sell(outer_pre, t, hi as int, outer_remain_pre).1 == lvl.1
                    + sweep_sell(orders@, t, lo as int, remain).1);
                assert(outer_events_pre + (lvl.1 + sweep_sell(orders@, t, lo as int, remain).1)
                    =~= events@ + sweep_sell(orders@, t, lo as int, remain).1);
            }
            hi = lo;
        }
        proof {
            assert(sweep_sell(orders@, t, hi as int, remain).0 == orders@);
            assert(sweep_sell(orders@, t, hi as int, remain).1 == Seq::<MarketEvent>::empty());
            assert(events0 + swept.1 =~= events@);
        }
    } else {
        let mut i: usize = 0;
        while i < orders.len() && remain > 0
            invariant
                i <= orders@.len(),
                orders@.len() == orders0.len(),
                forall|k: int|
                    0 <= k < orders0.len() ==> same_but_fill(#[trigger] orders@[k], orders0[k]),
                forall|k: int|
                    0 <= k < orders0.len() ==> (#[trigger] orders@[k]).quantity > 0
                        && orders@[k].filled <= orders@[k].quantity,
                forall|k: int| i <= k < orders0.len() ==> order_wf(#[trigger] orders@[k]),
                sweep_span(orders@, t, i as int, orders0.len() as int, remain).0 == swept.0,
                events0 + swept.1 == events@ + sweep_span(
                    orders@,
                    t,
                    i as int,
                    orders0.len() as int,
                    remain,
                ).1,
                events@.len() >= events0.len(),
                events@.subrange(0, events0.len() as int) == events0,
                forall|k: int|
                    events0.len() <= k < events@.len() ==> (#[trigger] events@[k]).quantity > 0,
                orders_bounded(orders0) ==> forall|k: int|
                    events0.len() <= k < events@.len() ==> (#[trigger] events@[k]).price
                        * events@[k].quantity <= u64::MAX,
            decreases orders@.len() - i,
        {
            let idx = i;
            let ghost pre = orders@;
            let ghost events_pre = events@;
            let ghost remain_pre = remain;
            if orders[idx].side == TradeSide::Sell && orders[idx].price <= t.price {
                let o_q = orders[idx].quantity;
                let o_f = orders[idx].filled;
                let avail = o_q - o_f;
                let f = if avail < remain {
                    avail
                } else {
                    remain
                };
                let ev = MarketEvent {
                    side: orders[idx].side,
                    price: orders[idx].price,
                    quantity: f,
                    remain_qty_to_fill: o_q - (o_f + f),
                    event_at: t.trade_at,
                    order_id: orders[idx].order_id.clone(),
                };
                proof {
                    if orders_bounded(orders0) {
                        assert(same_but_fill(pre[idx as int], orders0[idx as int]));
                        lemma_mul_inequality(
                            f as int,
                            pre[idx as int].quantity as int,
                            pre[idx as int].price as int,
                        );
                        lemma_mul_is_commutative(pre[idx as int].price as int, f as int);
                        lemma_mul_is_commutative(
                            pre[idx as int].price as int,
                            pre[idx as int].quantity as int,
                        );
                        assert(ev.price * ev.quantity <= u64::MAX);
                    }
                }
                events.push(ev);
                orders[idx].filled = o_f + f;
                remain = remain - f;
                proof {
                    let filled = fill_of(pre[idx as int], t, remain_pre);
                    assert(order_matches(pre[idx as int], t));
                    assert(filled.0 == orders@[idx as int]);
                    assert(filled.1 == ev);
                    assert(filled.2 == remain);
                    assert(orders@ == pre.update(idx as int, filled.0));
                    assert(sweep_span(pre, t, idx as int, orders0.len() as int, remain_pre).0
                        == sweep_span(orders@, t, idx as int + 1, orders0.len() as int, remain).0);
                    assert(sweep_span(pre, t, idx as int, orders0.len() as int, remain_pre).1
                        == seq![filled.1] + sweep_span(
                        orders@,
                        t,
                        idx as int + 1,
                        orders0.len() as int,
                        remain,
                    ).1);
                    assert(events@ == events_pre.push(ev));
                    assert(events_pre + (seq![ev] + sweep_span(
                        orders@,
                        t,
                        idx as int + 1,
                        orders0.len() as int,
                        remain,
                    ).1) =~= events@ + sweep_span(
                        orders@,
                        t,
                        idx as int + 1,
                        orders0.len() as int,
                        remain,
                    ).1);
                    assert(events@.subrange(0, events0.len() as int) =~= events0);
                }
            } else {
                proof {
                    assert(!order_matches(pre[idx as int], t));
                    assert(sweep_span(pre, t, idx as int, orders0.len() as int, remain).1
                        == sweep_span(orders@, t, idx as int + 1, orders0.len() as int, remain).1);
                }
            }
            i = idx + 1;
        }
        proof {
            assert(sweep_span(orders@, t, i as int, orders0.len() as int, remain).0 == orders@);
            assert(sweep_span(orders@, t, i as int, orders0.len() as int, remain).1
                == Seq::<MarketEvent>::empty());
            assert(events0 + swept.1 =~= events@);
        }
    }
    let ghost after_sweep = orders@;
    proof {
        assert(after_sweep == swept.0);
        assert forall|a: int, b: int| 0 <= a < b < after_sweep.len() implies le_order(
            #[trigger] after_sweep[a],
            #[trigger] after_sweep[b],
        ) && after_sweep[a].order_id@ != after_sweep[b].order_id@ by {
            assert(same_but_fill(after_sweep[a], orders0[a]));
            assert(same_but_fill(after_sweep[b], orders0[b]));
            assert(le_order(orders0[a], orders0[b]));
        }
        lemma_drop_filled_wf(after_sweep);
    }
    let mut kept: Vec<LimitOrder> = Vec::new();
    let mut j: usize = 0;
    while j < orders.len()
        invariant
            j <= after_sweep.len(),
            orders@ == after_sweep,
            kept@ == drop_filled(after_sweep.subrange(0, j as int)),
        decreases after_sweep.len() - j,
    {
        proof {
            assert(after_sweep.subrange(0, j as int + 1).drop_last() =~= after_sweep.subrange(
                0,
                j as int,
            ));
            assert(after_sweep.subrange(0, j as int + 1).last() == after_sweep[j as int]);
        }
        if orders[j].filled < orders[j].quantity {
            kept.push(orders[j].clone());
        }
        j = j + 1;
    }
    proof {
        assert(after_sweep.subrange(0, after_sweep.len() as int) =~= after_sweep);
        if orders_bounded(orders0) {
            assert forall|a: int| 0 <= a < after_sweep.len() implies (#[trigger] after_sweep[a]).price
                * after_sweep[a].quantity <= u64::MAX by {
                assert(same_but_fill(after_sweep[a], orders0[a]));
            }
            lemma_drop_filled_bounded(after_sweep);
        }
    }
    *orders = kept;
}

impl SimpleMarket {
    /// Matches every buffered recorded trade against the book, oldest
    /// first, and returns the fills in the order they happened. The buffer
    /// is drained; every fill is for a positive quantity.
    #[verifier::loop_isolation(false)]
    pub fn try_match_market(&mut self) -> (events: Vec<MarketEvent>)
        requires
            old(self).wf(),
        ensures
            final(self).wf(),
            final(self).open_orders@ == match_trades(
                old(self).open_orders@,
                old(self).market_trade_buf@,
            ).0,
            events@ == match_trades(old(self).open_orders@, old(self).market_trade_buf@).1,
            final(self).market_trade_buf@.len() == 0,
            final(self).last_trade_price == old(self).last_trade_price,
            forall|k: int| 0 <= k < events@.len() ==> (#[trigger] events@[k]).quantity > 0,
            orders_bounded(old(self).open_orders@) ==> orders_bounded(final(self).open_orders@),
            orders_bounded(old(self).open_orders@) ==> forall|k: int|
                0 <= k < events@.len() ==> (#[trigger] events@[k]).price * events@[k].quantity
                    <= u64::MAX,
    {
        let mut events: Vec<MarketEvent> = Vec::new();
        let ghost orders0 = self.open_orders@;
        let ghost trades = self.market_trade_buf@;
        let ghost target = match_trades(orders0, trades);
        proof {
            assert(trades.subrange(0, trades.len() as int) =~= trades);
        }
        let mut ti: usize = 0;
        while ti < self.market_trade_buf.len()
            invariant
                ti <= trades.len(),
                self.market_trade_buf@ == trades,
                self.last_trade_price == old(self).last_trade_price,
                sorted(self.open_orders@),
                unique_ids(self.open_orders@),
                forall|k: int|
                    0 <= k < self.open_orders@.len() ==> order_wf(#[trigger] self.open_orders@[k]),
                match_trades(self.open_orders@, trades.subrange(ti as int, trades.len() as int)).0
                    == target.0,
                events@ + match_trades(
                    self.open_orders@,
                    trades.subrange(ti as int, trades.len() as int),
                ).1 == target.1,
                forall|k: int| 0 <= k < events@.len() ==> (#[trigger] events@[k]).quantity > 0,
                orders_bounded(orders0) ==> orders_bounded(self.open_orders@),
                orders_bounded(orders0) ==> forall|k: int|
                    0 <= k < events@.len() ==> (#[trigger] events@[k]).price * events@[k].quantity
                        <= u64::MAX,
            decreases trades.len() - ti,
        {
            let t = self.market_trade_buf[ti];
            let ghost orders_pre = self.open_orders@;
            let ghost events_pre = events@;
            match_one_trade(&mut self.open_orders, &mut events, t);
            proof {
                let rest = trades.subrange(ti as int, trades.len() as int);
                assert(rest[0] == trades[ti as int]);
                assert(rest.drop_first() =~= trades.subrange(ti as int + 1, trades.len() as int));
                assert(match_trades(orders_pre, rest).0 == match_trades(
                    self.open_orders@,
                    rest.drop_first(),
                ).0);
                assert(match_trades(orders_pre, rest).1 == match_trade(orders_pre, t).1
                    + match_trades(self.open_orders@, rest.drop_first()).1);
                assert(events_pre + (match_trade(orders_pre, t).1 + match_trades(
                    self.open_orders@,
                    rest.drop_first(),
                ).1) =~= (events_pre + match_trade(orders_pre, t).1) + match_trades(
                    self.open_orders@,
                    rest.drop_first(),
                ).1);
            }
            ti = ti + 1;
        }
        self.market_trade_buf.clear();
        proof {
            assert(trades.subrange(trades.len() as int, trades.len() as int)
                =~= Seq::<MarketTrade>::empty());
            assert(events@ + Seq::<MarketEvent>::empty() =~= events@);
        }
        events
    }
}

} // verus!
