//! The simulated matching engine: one order book per symbol, order and
//! cancel intake with balance locking, matching against the recorded
//! trade tape, settlement with fees, and result and account messages
//! back to the participants.

use vstd::prelude::*;

use vstd::arithmetic::mul::lemma_mul_inequality;
use vstd::arithmetic::mul::lemma_mul_is_commutative;
use vstd::string::StringExecFns;

use crate::account::Account;
use crate::account::AssetBalance;
use crate::book::insert_pos;
use crate::book::match_trades;
use crate::book::MarketEvent;
use crate::book::orders_bounded;
use crate::book::LimitOrder;
use crate::book::MarketTrade;
use crate::book::SimpleMarket;
use crate::comms::lemma_same_topology_trans;
use crate::comms::CommsState;
use crate::comms::ModuleId;
use crate::comms::ReadTopicHandle;
use crate::comms::WriteTopicHandle;
use crate::message::AccountAssetUpdate;
use crate::message::AccountUpdate;
use crate::message::Message;
use crate::message::MessageHeader;
use crate::message::Payload;
use crate::module::Module;
use crate::order::CancelOrderRequest;
use crate::order::OrderRequest;
use crate::order::OrderResult;
use crate::order::OrderStatus;
use crate::order::TradeSide;
use crate::stats::MarketStats;
use crate::symbol::calc_trade_result;
use crate::symbol::SymbolInfo;
use crate::symbol::SymbolInfoManager;
use crate::time::MAX_TIME_MS;
use crate::time::NANOS_PER_MILLI;

verus! {

/// How the matching engine disposed of an order request.
#[derive(Debug, Clone, Copy, PartialEq, Eq, Structural)]
pub enum OrderOutcome {
    /// Funds locked, order resting in the book, `new` result owed.
    Accepted,
    /// An order with this id is already resting; ignored silently.
    DuplicateIgnored,
    RejectedUnknownSymbol,
    RejectedZeroPrice,
    RejectedZeroQuantity,
    /// The order's price times quantity does not fit the machine word.
    RejectedAmountOverflow,
    RejectedInsufficientBalance,
}

/// How the matching engine disposed of a cancel request.
#[derive(Debug, Clone, Copy, PartialEq, Eq, Structural)]
pub enum CancelOutcome {
    /// Funds unlocked, order removed, `canceled` result owed.
    Canceled,
    UnknownSymbol,
    /// No resting order carries the requested id.
    NotFound,
}

/// The per-symbol books, the trading account, the fee accumulator and
/// the order-flow statistics, together with the module's topic handles.
#[derive(Debug)]
pub struct MarketAgent {
    pub market_data_topic: ReadTopicHandle,
    pub order_topic: ReadTopicHandle,
    pub order_result_topic: WriteTopicHandle,
    pub account_topic: WriteTopicHandle,
    pub market_by_symbol: Vec<(String, SimpleMarket)>,
    pub account: Account,
    pub fee_account: Account,
    pub symbol_info_manager: SymbolInfoManager,
    pub stats: MarketStats,
    pub initial_balance: Vec<(String, u64)>,
    pub last_account_summary_send_time: u64,
    /// Virtual nanoseconds between two full account summaries.
    pub account_summary_interval: u64,
}

/// The book contents recorded for `symbol`: its resting orders, its
/// buffered trades, and the last trade price seen (all empty or zero if
/// the symbol has no market yet).
pub open spec fn seq_market_view(
    entries: Seq<(String, SimpleMarket)>,
    symbol: Seq<char>,
) -> (Seq<LimitOrder>, Seq<MarketTrade>, u64)
    decreases entries.len(),
{
    if entries.len() == 0 {
        (Seq::empty(), Seq::empty(), 0)
    } else if entries.last().0@ == symbol {
        (
            entries.last().1.open_orders@,
            entries.last().1.market_trade_buf@,
            entries.last().1.last_trade_price,
        )
    } else {
        seq_market_view(entries.drop_last(), symbol)
    }
}

impl MarketAgent {
    /// The book contents for `symbol`.
    pub open spec fn market_view(self, symbol: Seq<char>) -> (Seq<LimitOrder>, Seq<MarketTrade>, u64) {
        seq_market_view(self.market_by_symbol@, symbol)
    }

    /// One entry per symbol, each book well formed with settlement
    /// arithmetic in bounds.
    pub open spec fn markets_wf(self) -> bool {
        &&& forall|i: int, j: int|
            0 <= i < j < self.market_by_symbol@.len() ==> self.market_by_symbol@[i].0@
                != self.market_by_symbol@[j].0@
        &&& forall|i: int|
            0 <= i < self.market_by_symbol@.len() ==> (#[trigger] self.market_by_symbol@[i].1).wf()
        &&& forall|i: int|
            0 <= i < self.market_by_symbol@.len() ==> orders_bounded(
                (#[trigger] self.market_by_symbol@[i].1).open_orders@,
            )
    }

    pub open spec fn agent_wf(self) -> bool {
        &&& self.account.wf()
        &&& self.fee_account.wf()
        &&& self.symbol_info_manager.wf()
        &&& self.stats.wf()
        &&& self.markets_wf()
    }

    /// The read handles index real mailboxes, the write handles real
    /// topics, and publishing results or account updates can never feed
    /// the agent's own inboxes.
    pub open spec fn handles_ok(self, comms: CommsState) -> bool {
        &&& self.market_data_topic.slot < comms.mailboxes@.len()
        &&& self.order_topic.slot < comms.mailboxes@.len()
        &&& self.order_result_topic.slot < comms.topics@.len()
        &&& self.account_topic.slot < comms.topics@.len()
        &&& comms.mailboxes@[self.market_data_topic.slot as int].topic
            != self.order_result_topic.slot
        &&& comms.mailboxes@[self.market_data_topic.slot as int].topic != self.account_topic.slot
        &&& comms.mailboxes@[self.order_topic.slot as int].topic != self.order_result_topic.slot
        &&& comms.mailboxes@[self.order_topic.slot as int].topic != self.account_topic.slot
        &&& self.order_result_topic.slot != self.account_topic.slot
    }
}

proof fn lemma_seq_market_view_absent(entries: Seq<(String, SimpleMarket)>, symbol: Seq<char>)
    requires
        forall|i: int| 0 <= i < entries.len() ==> (#[trigger] entries[i]).0@ != symbol,
    ensures
        seq_market_view(entries, symbol) == (
            Seq::<LimitOrder>::empty(),
            Seq::<MarketTrade>::empty(),
            0u64,
        ),
    decreases entries.len(),
{
    if entries.len() > 0 {
        lemma_seq_market_view_absent(entries.drop_last(), symbol);
    }
}

proof fn lemma_seq_market_view_at(entries: Seq<(String, SimpleMarket)>, i: int)
    requires
        forall|k: int, j: int| 0 <= k < j < entries.len() ==> entries[k].0@ != entries[j].0@,
        0 <= i < entries.len(),
    ensures
        seq_market_view(entries, entries[i].0@) == (
            entries[i].1.open_orders@,
            entries[i].1.market_trade_buf@,
            entries[i].1.last_trade_price,
        ),
    decreases entries.len(),
{
    if i < entries.len() - 1 {
        assert(entries.last().0@ != entries[i].0@);
        assert(entries.drop_last()[i] == entries[i]);
        lemma_seq_market_view_at(entries.drop_last(), i);
    }
}

proof fn lemma_seq_market_view_update(
    entries: Seq<(String, SimpleMarket)>,
    i: int,
    m: SimpleMarket,
    symbol: Seq<char>,
)
    requires
        forall|k: int, j: int| 0 <= k < j < entries.len() ==> entries[k].0@ != entries[j].0@,
        0 <= i < entries.len(),
    ensures
        seq_market_view(entries.update(i, (entries[i].0, m)), symbol) == if entries[i].0@
            == symbol {
            (m.open_orders@, m.market_trade_buf@, m.last_trade_price)
        } else {
            seq_market_view(entries, symbol)
        },
    decreases entries.len(),
{
    let e2 = entries.update(i, (entries[i].0, m));
    if i == entries.len() - 1 {
        assert(e2.last() == (entries[i].0, m));
        assert(e2.drop_last() =~= entries.drop_last());
    } else {
        assert(e2.last() == entries.last());
        assert(e2.drop_last() =~= entries.drop_last().update(i, (entries.drop_last()[i].0, m)));
        lemma_seq_market_view_update(entries.drop_last(), i, m, symbol);
    }
}

/// The resting order an accepted request becomes.
pub open spec fn spec_new_order(req: OrderRequest, submit_at: u64) -> LimitOrder {
    LimitOrder {
        price: req.price,
        quantity: req.quantity,
        filled: 0,
        submit_at,
        side: req.side,
        order_id: req.client_order_id,
    }
}

/// The asset an order locks: a buy locks the quote asset, a sell the
/// base asset.
pub open spec fn spec_lock_asset(req: OrderRequest, info: SymbolInfo) -> Seq<char> {
    if req.side == TradeSide::Buy {
        info.quote_asset@
    } else {
        info.base_asset@
    }
}

/// The amount an order locks: a buy locks price times quantity, a sell
/// the quantity.
pub open spec fn spec_lock_amount(req: OrderRequest) -> int {
    if req.side == TradeSide::Buy {
        req.price * req.quantity
    } else {
        req.quantity as int
    }
}

/// The refund a cancel releases for resting order `o`.
pub open spec fn spec_cancel_refund(o: LimitOrder) -> int {
    if o.side == TradeSide::Buy {
        o.price * (o.quantity - o.filled)
    } else {
        o.quantity - o.filled
    }
}

/// The asset a cancel refunds for resting order `o`.
pub open spec fn spec_cancel_asset(o: LimitOrder, info: SymbolInfo) -> Seq<char> {
    if o.side == TradeSide::Buy {
        info.quote_asset@
    } else {
        info.base_asset@
    }
}

impl MarketAgent {
    /// What the parts of an agent that intake never touches look like:
    /// handles, configuration, and the fee accumulator.
    pub open spec fn same_static(self, other: MarketAgent) -> bool {
        &&& other.market_data_topic == self.market_data_topic
        &&& other.order_topic == self.order_topic
        &&& other.order_result_topic == self.order_result_topic
        &&& other.account_topic == self.account_topic
        &&& other.symbol_info_manager == self.symbol_info_manager
        &&& other.initial_balance == self.initial_balance
        &&& other.account_summary_interval == self.account_summary_interval
    }

    /// The decision order intake makes for `req`, in check order: a zero
    /// price or quantity is refused, then the symbol must be configured,
    /// a duplicate id is ignored, the order value must be representable,
    /// and the lock must be covered by uncommitted funds.
    pub open spec fn spec_order_outcome(self, req: OrderRequest) -> OrderOutcome {
        if req.price == 0 {
            OrderOutcome::RejectedZeroPrice
        } else if req.quantity == 0 {
            OrderOutcome::RejectedZeroQuantity
        } else {
            match self.symbol_info_manager.spec_get(req.symbol@) {
                Option::None => OrderOutcome::RejectedUnknownSymbol,
                Option::Some(info) => {
                    let orders = self.market_view(req.symbol@).0;
                    if exists|i: int|
                        0 <= i < orders.len() && (#[trigger] orders[i]).order_id@
                            == req.client_order_id@ {
                        OrderOutcome::DuplicateIgnored
                    } else if req.price * req.quantity > u64::MAX {
                        OrderOutcome::RejectedAmountOverflow
                    } else if spec_lock_amount(req) > self.account.bal(
                        spec_lock_asset(req, info),
                    ).spec_free() {
                        OrderOutcome::RejectedInsufficientBalance
                    } else {
                        OrderOutcome::Accepted
                    }
                },
            }
        }
    }

    /// The decision cancel intake makes for `req`: the symbol must be
    /// configured and an order with the requested id must be resting.
    pub open spec fn spec_cancel_outcome(self, req: CancelOrderRequest) -> CancelOutcome {
        match self.symbol_info_manager.spec_get(req.symbol@) {
            Option::None => CancelOutcome::UnknownSymbol,
            Option::Some(info) => {
                let orders = self.market_view(req.symbol@).0;
                if exists|i: int|
                    0 <= i < orders.len() && (#[trigger] orders[i]).order_id@
                        == req.client_order_id@ {
                    CancelOutcome::Canceled
                } else {
                    CancelOutcome::NotFound
                }
            },
        }
    }

    fn find_market_idx(&self, symbol: &String) -> (r: Option<usize>)
        ensures
            match r {
                Some(i) => i < self.market_by_symbol@.len() && self.market_by_symbol@[i as int].0@
                    == symbol@,
                None => forall|i: int|
                    0 <= i < self.market_by_symbol@.len() ==> (
                    #[trigger] self.market_by_symbol@[i]).0@ != symbol@,
            },
    {
        let mut i: usize = 0;
        while i < self.market_by_symbol.len()
            invariant
                i <= self.market_by_symbol@.len(),
                forall|k: int| 0 <= k < i ==> (#[trigger] self.market_by_symbol@[k]).0@ != symbol@,
            decreases self.market_by_symbol@.len() - i,
        {
            if self.market_by_symbol[i].0 == *symbol {
                return Some(i);
            }
            i = i + 1;
        }
        None
    }

    /// Index of the book for `symbol`, creating an empty one on first
    /// use. Every symbol's recorded contents are unchanged.
    fn get_or_create_market(&mut self, symbol: &String) -> (i: usize)
        requires
            old(self).markets_wf(),
        ensures
            final(self).markets_wf(),
            i < final(self).market_by_symbol@.len(),
            final(self).market_by_symbol@[i as int].0@ == symbol@,
            forall|s: Seq<char>|
                seq_market_view(final(self).market_by_symbol@, s) == seq_market_view(
                    old(self).market_by_symbol@,
                    s,
                ),
            final(self).account == old(self).account,
            final(self).fee_account == old(self).fee_account,
            final(self).symbol_info_manager == old(self).symbol_info_manager,
            final(self).stats == old(self).stats,
            final(self).market_data_topic == old(self).market_data_topic,
            final(self).order_topic == old(self).order_topic,
            final(self).order_result_topic == old(self).order_result_topic,
            final(self).account_topic == old(self).account_topic,
            final(self).last_account_summary_send_time == old(
                self,
            ).last_account_summary_send_time,
            final(self).account_summary_interval == old(self).account_summary_interval,
            final(self).initial_balance == old(self).initial_balance,
    {
        match self.find_market_idx(symbol) {
            Some(i) => i,
            None => {
                let ghost entries0 = self.market_by_symbol@;
                let i = self.market_by_symbol.len();
                let entry = (symbol.clone(), SimpleMarket::new());
                let ghost e = entry;
                self.market_by_symbol.push(entry);
                proof {
                    assert(self.market_by_symbol@ == entries0.push(e));
                    assert forall|s: Seq<char>|
                        seq_market_view(self.market_by_symbol@, s) == seq_market_view(
                            entries0,
                            s,
                        ) by {
                        assert(self.market_by_symbol@.last() == e);
                        assert(self.market_by_symbol@.drop_last() =~= entries0);
                        if e.0@ == s {
                            lemma_seq_market_view_absent(entries0, s);
                        }
                    }
                }
                i
            },
        }
    }

    /// Order intake. On acceptance the lock is taken and the order
    /// rests in its book at its sorted position; every other outcome
    /// leaves balances and books as they were. Exactly which outcome
    /// happens is `spec_order_outcome`.
    pub fn process_order_request(&mut self, req: OrderRequest, submit_at: u64) -> (r: OrderOutcome)
        requires
            old(self).agent_wf(),
        ensures
            final(self).agent_wf(),
            r == old(self).spec_order_outcome(req),
            old(self).same_static(*final(self)),
            final(self).fee_account == old(self).fee_account,
            final(self).last_account_summary_send_time == old(
                self,
            ).last_account_summary_send_time,
            ({
                let out = old(self).spec_order_outcome(req);
                if out == OrderOutcome::Accepted {
                    let info = old(self).symbol_info_manager.spec_get(req.symbol@)->Some_0;
                    let orders0 = old(self).market_view(req.symbol@).0;
                    let o = spec_new_order(req, submit_at);
                    &&& final(self).account.bal(spec_lock_asset(req, info)) == (AssetBalance {
                        locked: (old(self).account.bal(spec_lock_asset(req, info)).locked
                            + spec_lock_amount(req)) as u64,
                        ..old(self).account.bal(spec_lock_asset(req, info))
                    })
                    &&& forall|a: Seq<char>|
                        a != spec_lock_asset(req, info) ==> final(self).account.bal(a) == old(
                            self,
                        ).account.bal(a)
                    &&& final(self).market_view(req.symbol@).0 == orders0.insert(
                        insert_pos(orders0, o),
                        o,
                    )
                    &&& final(self).market_view(req.symbol@).1 == old(self).market_view(
                        req.symbol@,
                    ).1
                    &&& final(self).market_view(req.symbol@).2 == old(self).market_view(
                        req.symbol@,
                    ).2
                    &&& forall|s: Seq<char>|
                        s != req.symbol@ ==> final(self).market_view(s) == old(self).market_view(s)
                } else {
                    &&& forall|a: Seq<char>| final(self).account.bal(a) == old(self).account.bal(a)
                    &&& forall|s: Seq<char>| final(self).market_view(s) == old(self).market_view(s)
                }
            }),
    {
        if req.price == 0 {
            return OrderOutcome::RejectedZeroPrice;
        }
        self.stats.on_order_submitted(req.quantity, req.side == TradeSide::Buy);
        if req.quantity == 0 {
            return OrderOutcome::RejectedZeroQuantity;
        }
        let info = match self.symbol_info_manager.get(&req.symbol) {
            Option::None => {
                return OrderOutcome::RejectedUnknownSymbol;
            },
            Option::Some(info) => info.clone(),
        };
        let mi = self.get_or_create_market(&req.symbol);
        proof {
            lemma_seq_market_view_at(self.market_by_symbol@, mi as int);
        }
        let dup = match self.market_by_symbol[mi].1.get_order(&req.client_order_id) {
            Option::Some(_) => true,
            Option::None => false,
        };
        proof {
            assert(old(self).symbol_info_manager.spec_get(req.symbol@) is Some);
            assert(self.market_by_symbol@[mi as int].1.open_orders@ == self.market_view(
                req.symbol@,
            ).0);
            assert(self.market_view(req.symbol@).0 == old(self).market_view(req.symbol@).0);
        }
        if dup {
            proof {
                assert(exists|i: int|
                    0 <= i < old(self).market_view(req.symbol@).0.len() && (#[trigger] old(
                        self,
                    ).market_view(req.symbol@).0[i]).order_id@ == req.client_order_id@);
            }
            return OrderOutcome::DuplicateIgnored;
        }
        proof {
            assert(forall|i: int|
                0 <= i < old(self).market_view(req.symbol@).0.len() ==> (#[trigger] old(
                    self,
                ).market_view(req.symbol@).0[i]).order_id@ != req.client_order_id@);
        }
        let amt = match req.price.checked_mul(req.quantity) {
            Option::None => {
                return OrderOutcome::RejectedAmountOverflow;
            },
            Option::Some(a) => a,
        };
        let is_buy = req.side == TradeSide::Buy;
        let lock_amt = if is_buy {
            amt
        } else {
            req.quantity
        };
        let locked = if is_buy {
            self.account.try_lock_balance(&info.quote_asset, lock_amt)
        } else {
            self.account.try_lock_balance(&info.base_asset, lock_amt)
        };
        if !locked {
            return OrderOutcome::RejectedInsufficientBalance;
        }
        let ghost entries1 = self.market_by_symbol@;
        let order = LimitOrder {
            price: req.price,
            quantity: req.quantity,
            filled: 0,
            submit_at,
            side: req.side,
            order_id: req.client_order_id,
        };
        let ghost gorder = order;
        self.market_by_symbol[mi].1.add_order(order);
        proof {
            let m2 = self.market_by_symbol@[mi as int].1;
            assert(self.market_by_symbol@ == entries1.update(mi as int, (entries1[mi as int].0, m2)));
            assert forall|s: Seq<char>| #[trigger]
                self.market_view(s) == if entries1[mi as int].0@ == s {
                    (m2.open_orders@, m2.market_trade_buf@, m2.last_trade_price)
                } else {
                    seq_market_view(entries1, s)
                } by {
                lemma_seq_market_view_update(entries1, mi as int, m2, s);
            }
            assert forall|s: Seq<char>| s != req.symbol@ implies self.market_view(s) == old(
                self,
            ).market_view(s) by {
                lemma_seq_market_view_update(entries1, mi as int, m2, s);
                assert(old(self).market_view(s) == seq_market_view(entries1, s));
            }
            assert forall|i: int, j: int|
                0 <= i < j < self.market_by_symbol@.len() implies self.market_by_symbol@[i].0@
                != self.market_by_symbol@[j].0@ by {
                assert(self.market_by_symbol@[i].0 == entries1[i].0);
                assert(self.market_by_symbol@[j].0 == entries1[j].0);
            }
            assert forall|i: int|
                0 <= i < self.market_by_symbol@.len() implies (
            #[trigger] self.market_by_symbol@[i].1).wf() && orders_bounded(
                self.market_by_symbol@[i].1.open_orders@,
            ) by {
                if i != mi as int {
                    assert(self.market_by_symbol@[i].1 == entries1[i].1);
                }
            }
        }
        OrderOutcome::Accepted
    }

    /// Cancel intake. On success the order's remaining lock is released
    /// (as far as a lock is held) and the order leaves its book; any
    /// other outcome changes nothing but the cancel counter. Exactly
    /// which outcome happens is `spec_cancel_outcome`.
    pub fn process_cancel_order_request(&mut self, req: CancelOrderRequest) -> (r: CancelOutcome)
        requires
            old(self).agent_wf(),
        ensures
            final(self).agent_wf(),
            r == old(self).spec_cancel_outcome(req),
            old(self).same_static(*final(self)),
            final(self).fee_account == old(self).fee_account,
            final(self).last_account_summary_send_time == old(
                self,
            ).last_account_summary_send_time,
            final(self).stats == (MarketStats {
                total_order_cancel_num: crate::stats::sat_add(
                    old(self).stats.total_order_cancel_num,
                    1,
                ),
                ..old(self).stats
            }),
            ({
                let out = old(self).spec_cancel_outcome(req);
                if out == CancelOutcome::Canceled {
                    let info = old(self).symbol_info_manager.spec_get(req.symbol@)->Some_0;
                    let orders0 = old(self).market_view(req.symbol@).0;
                    exists|i: int|
                        {
                            &&& 0 <= i < orders0.len()
                            &&& (#[trigger] orders0[i]).order_id@ == req.client_order_id@
                            &&& final(self).market_view(req.symbol@).0 == orders0.remove(i)
                            &&& ({
                                let asset = spec_cancel_asset(orders0[i], info);
                                let amt = spec_cancel_refund(orders0[i]);
                                &&& final(self).account.bal(asset) == (AssetBalance {
                                    locked: if amt <= old(self).account.bal(asset).locked {
                                        (old(self).account.bal(asset).locked - amt) as u64
                                    } else {
                                        0
                                    },
                                    ..old(self).account.bal(asset)
                                })
                                &&& forall|a: Seq<char>|
                                    a != asset ==> final(self).account.bal(a) == old(
                                        self,
                                    ).account.bal(a)
                            })
                            &&& final(self).market_view(req.symbol@).1 == old(self).market_view(
                                req.symbol@,
                            ).1
                            &&& final(self).market_view(req.symbol@).2 == old(self).market_view(
                                req.symbol@,
                            ).2
                            &&& forall|s: Seq<char>|
                                s != req.symbol@ ==> final(self).market_view(s) == old(
                                    self,
                                ).market_view(s)
                        }
                } else {
                    &&& forall|a: Seq<char>| final(self).account.bal(a) == old(self).account.bal(a)
                    &&& forall|s: Seq<char>| final(self).market_view(s) == old(self).market_view(s)
                }
            }),
    {
        self.stats.on_order_cancel();
        let info = match self.symbol_info_manager.get(&req.symbol) {
            Option::None => {
                return CancelOutcome::UnknownSymbol;
            },
            Option::Some(info) => info.clone(),
        };
        let mi = match self.find_market_idx(&req.symbol) {
            Option::None => {
                proof {
                    lemma_seq_market_view_absent(self.market_by_symbol@, req.symbol@);
                }
                return CancelOutcome::NotFound;
            },
            Option::Some(mi) => mi,
        };
        proof {
            lemma_seq_market_view_at(self.market_by_symbol@, mi as int);
        }
        let (o_price, o_quantity, o_filled, o_is_buy) = match self.market_by_symbol[
            mi
        ].1.get_order(&req.client_order_id) {
            Option::None => {
                return CancelOutcome::NotFound;
            },
            Option::Some(o) => (o.price, o.quantity, o.filled, match o.side {
                TradeSide::Buy => true,
                TradeSide::Sell => false,
            }),
        };
        let ghost orders0 = self.market_by_symbol@[mi as int].1.open_orders@;
        let ghost oi = choose|i: int|
            0 <= i < orders0.len() && (#[trigger] orders0[i]).order_id@ == req.client_order_id@;
        proof {
            assert(orders0[oi].price == o_price && orders0[oi].quantity == o_quantity
                && orders0[oi].filled == o_filled);
            assert(orders0[oi].price * orders0[oi].quantity <= u64::MAX);
            lemma_mul_inequality(
                (o_quantity - o_filled) as int,
                o_quantity as int,
                o_price as int,
            );
            lemma_mul_is_commutative(o_price as int, (o_quantity - o_filled) as int);
            lemma_mul_is_commutative(o_price as int, o_quantity as int);
        }
        let remaining = o_quantity - o_filled;
        let refund = if o_is_buy {
            o_price * remaining
        } else {
            remaining
        };
        if o_is_buy {
            self.account.unlock_balance_capped(&info.quote_asset, refund);
        } else {
            self.account.unlock_balance_capped(&info.base_asset, refund);
        }
        let ghost entries1 = self.market_by_symbol@;
        self.market_by_symbol[mi].1.cancel_order(&req.client_order_id);
        proof {
            let m2 = self.market_by_symbol@[mi as int].1;
            assert(self.market_by_symbol@ == entries1.update(mi as int, (entries1[mi as int].0, m2)));
            assert forall|s: Seq<char>| #[trigger]
                self.market_view(s) == if entries1[mi as int].0@ == s {
                    (m2.open_orders@, m2.market_trade_buf@, m2.last_trade_price)
                } else {
                    seq_market_view(entries1, s)
                } by {
                lemma_seq_market_view_update(entries1, mi as int, m2, s);
            }
            assert forall|i: int, j: int|
                0 <= i < j < self.market_by_symbol@.len() implies self.market_by_symbol@[i].0@
                != self.market_by_symbol@[j].0@ by {
                assert(self.market_by_symbol@[i].0 == entries1[i].0);
                assert(self.market_by_symbol@[j].0 == entries1[j].0);
            }
            assert forall|i: int|
                0 <= i < self.market_by_symbol@.len() implies (
            #[trigger] self.market_by_symbol@[i].1).wf() && orders_bounded(
                self.market_by_symbol@[i].1.open_orders@,
            ) by {
                if i != mi as int {
                    assert(self.market_by_symbol@[i].1 == entries1[i].1);
                }
            }
            let removed = choose|i: int|
                0 <= i < orders0.len() && (#[trigger] orders0[i]).order_id@ == req.client_order_id@
                    && m2.open_orders@ == orders0.remove(i);
            assert(removed == oi);
        }
        CancelOutcome::Canceled
    }
}

/// The book recorded for any symbol in a well-formed agent is itself
/// well formed: sorted, unique ids, every order strictly unfilled.
pub proof fn lemma_market_view_wf(agent: MarketAgent, symbol: Seq<char>)
    requires
        agent.markets_wf(),
    ensures
        crate::book::sorted(agent.market_view(symbol).0),
        crate::book::unique_ids(agent.market_view(symbol).0),
        forall|i: int|
            0 <= i < agent.market_view(symbol).0.len() ==> crate::book::order_wf(
                #[trigger] agent.market_view(symbol).0[i],
            ),
{
    lemma_seq_market_view_books(agent.market_by_symbol@, symbol);
}

proof fn lemma_seq_market_view_books(entries: Seq<(String, SimpleMarket)>, symbol: Seq<char>)
    requires
        forall|i: int| 0 <= i < entries.len() ==> (#[trigger] entries[i].1).wf(),
    ensures
        crate::book::sorted(seq_market_view(entries, symbol).0),
        crate::book::unique_ids(seq_market_view(entries, symbol).0),
        forall|i: int|
            0 <= i < seq_market_view(entries, symbol).0.len() ==> crate::book::order_wf(
                #[trigger] seq_market_view(entries, symbol).0[i],
            ),
    decreases entries.len(),
{
    if entries.len() > 0 && entries.last().0@ != symbol {
        lemma_seq_market_view_books(entries.drop_last(), symbol);
    }
}

/// Submitting an order and canceling it before any market trade arrives
/// restores the account's balances, free and locked alike, for every
/// asset. `mid` is any state the submit contract admits after `pre`, and
/// `post` any state the cancel contract admits after `mid`.
pub proof fn lemma_submit_then_cancel_restores_account(
    pre: MarketAgent,
    mid: MarketAgent,
    post: MarketAgent,
    req: OrderRequest,
    submit_at: u64,
    cancel: CancelOrderRequest,
)
    requires
        pre.agent_wf(),
        mid.agent_wf(),
        cancel.symbol@ == req.symbol@,
        cancel.client_order_id@ == req.client_order_id@,
        mid.symbol_info_manager == pre.symbol_info_manager,
        pre.spec_order_outcome(req) == OrderOutcome::Accepted,
        ({
            let info = pre.symbol_info_manager.spec_get(req.symbol@)->Some_0;
            let orders0 = pre.market_view(req.symbol@).0;
            let o = spec_new_order(req, submit_at);
            &&& mid.account.bal(spec_lock_asset(req, info)) == (AssetBalance {
                locked: (pre.account.bal(spec_lock_asset(req, info)).locked + spec_lock_amount(
                    req,
                )) as u64,
                ..pre.account.bal(spec_lock_asset(req, info))
            })
            &&& forall|a: Seq<char>|
                a != spec_lock_asset(req, info) ==> mid.account.bal(a) == pre.account.bal(a)
            &&& mid.market_view(req.symbol@).0 == orders0.insert(insert_pos(orders0, o), o)
        }),
        ({
            let info = mid.symbol_info_manager.spec_get(cancel.symbol@)->Some_0;
            let orders1 = mid.market_view(cancel.symbol@).0;
            exists|i: int|
                {
                    &&& 0 <= i < orders1.len()
                    &&& (#[trigger] orders1[i]).order_id@ == cancel.client_order_id@
                    &&& ({
                        let asset = spec_cancel_asset(orders1[i], info);
                        let amt = spec_cancel_refund(orders1[i]);
                        &&& post.account.bal(asset) == (AssetBalance {
                            locked: if amt <= mid.account.bal(asset).locked {
                                (mid.account.bal(asset).locked - amt) as u64
                            } else {
                                0
                            },
                            ..mid.account.bal(asset)
                        })
                        &&& forall|a: Seq<char>|
                            a != asset ==> post.account.bal(a) == mid.account.bal(a)
                    })
                }
        }),
    ensures
        forall|a: Seq<char>| post.account.bal(a) == pre.account.bal(a),
{
    let info = pre.symbol_info_manager.spec_get(req.symbol@)->Some_0;
    let orders0 = pre.market_view(req.symbol@).0;
    let o = spec_new_order(req, submit_at);
    let orders1 = mid.market_view(cancel.symbol@).0;
    let pos = insert_pos(orders0, o);
    lemma_insert_pos_bounds_pub(orders0, o);
    lemma_market_view_wf(mid, cancel.symbol@);
    let i = choose|i: int|
        {
            &&& 0 <= i < orders1.len()
            &&& (#[trigger] orders1[i]).order_id@ == cancel.client_order_id@
            &&& ({
                let asset = spec_cancel_asset(orders1[i], info);
                let amt = spec_cancel_refund(orders1[i]);
                &&& post.account.bal(asset) == (AssetBalance {
                    locked: if amt <= mid.account.bal(asset).locked {
                        (mid.account.bal(asset).locked - amt) as u64
                    } else {
                        0
                    },
                    ..mid.account.bal(asset)
                })
                &&& forall|a: Seq<char>| a != asset ==> post.account.bal(a) == mid.account.bal(a)
            })
        };
    assert(orders1[pos] == o);
    if i != pos {
        assert(orders1[i].order_id@ != orders1[pos].order_id@);
        assert(false);
    }
    assert(orders1[i] == o);
    assert(spec_cancel_refund(o) == spec_lock_amount(req));
    assert(spec_cancel_asset(o, info) == spec_lock_asset(req, info));
}

/// When the account's lock covers a canceled order's remaining
/// reservation, the capped release of cancel intake is the exact one:
/// precisely the reservation comes off the lock.
pub proof fn lemma_cancel_release_exact_when_covered(locked: u64, amt: int)
    requires
        0 <= amt <= locked,
    ensures
        (if amt <= locked {
            (locked - amt) as u64
        } else {
            0u64
        }) == locked - amt,
{
}

/// The account's worth in the quote asset at a price: the quote balance
/// plus the base balance valued at the price, saturating.
pub fn equity_in_quote(
    account: &Account,
    base_asset: &String,
    quote_asset: &String,
    last_price: u64,
) -> (r: u64)
    requires
        account.wf(),
    ensures
        r == crate::stats::sat_add(
            account.bal(quote_asset@).balance,
            crate::stats::sat_mul(account.bal(base_asset@).balance, last_price),
        ),
{
    let quote = account.get(quote_asset);
    let base = account.get(base_asset);
    crate::stats::sat_add_exec(quote.balance, crate::stats::sat_mul_exec(base.balance, last_price))
}

/// Public face of the insertion-point bounds, for reasoning about books
/// produced by order intake.
pub proof fn lemma_insert_pos_bounds_pub(s: Seq<LimitOrder>, o: LimitOrder)
    ensures
        0 <= insert_pos(s, o) <= s.len(),
    decreases s.len(),
{
    if s.len() > 0 && crate::book::le_order(s[0], o) {
        lemma_insert_pos_bounds_pub(s.drop_first(), o);
    }
}

impl MarketAgent {
    /// The reply a `new` or `rejected` disposition sends back.
    pub open spec fn request_reply_message(req: OrderRequest, status: OrderStatus, now: u64) -> Message {
        Message {
            header: MessageHeader { commit_at: now },
            payload: Payload::OrderResult(
                OrderResult {
                    symbol: req.symbol,
                    at: now,
                    client_order_id: req.client_order_id,
                    filled_quantity: 0,
                    price: req.price,
                    is_buy: req.side == TradeSide::Buy,
                    status,
                },
            ),
        }
    }

    /// The reply a successful cancel sends back.
    pub open spec fn cancel_reply_message(req: CancelOrderRequest, now: u64) -> Message {
        Message {
            header: MessageHeader { commit_at: now },
            payload: Payload::OrderResult(
                OrderResult {
                    symbol: req.symbol,
                    at: now,
                    client_order_id: req.client_order_id,
                    filled_quantity: 0,
                    price: 0,
                    is_buy: false,
                    status: OrderStatus::Canceled,
                },
            ),
        }
    }

    /// What intake replies to one message on the `order` topic: `new`
    /// for an accepted order, nothing for a silently ignored duplicate,
    /// `rejected` for every refusal, `canceled` for a successful
    /// cancel, nothing for a cancel miss or an unexpected payload.
    pub open spec fn reply_of(self, data: Message, now: u64) -> Seq<Message> {
        match data.payload {
            Payload::OrderRequest(req) => {
                let out = self.spec_order_outcome(req);
                if out == OrderOutcome::Accepted {
                    seq![MarketAgent::request_reply_message(req, OrderStatus::New, now)]
                } else if out == OrderOutcome::DuplicateIgnored {
                    Seq::empty()
                } else {
                    seq![MarketAgent::request_reply_message(req, OrderStatus::Rejected, now)]
                }
            },
            Payload::CancelOrderRequest(req) => {
                if self.spec_cancel_outcome(req) == CancelOutcome::Canceled {
                    seq![MarketAgent::cancel_reply_message(req, now)]
                } else {
                    Seq::empty()
                }
            },
            _ => Seq::empty(),
        }
    }

    /// Handles one message from the `order` topic: an order request is
    /// processed and answered with `new` or `rejected` (a duplicate is
    /// ignored silently), a cancel request with `canceled` (a miss only
    /// bumps a counter), and any other payload is dropped. Exactly what
    /// goes back out on `order_result` is `reply_of`.
    pub fn ingest_order_request(&mut self, data: Message, comms: &mut CommsState)
        requires
            old(self).agent_wf(),
            old(comms).wf(),
            old(self).handles_ok(*old(comms)),
        ensures
            final(self).agent_wf(),
            final(comms).wf(),
            old(comms).same_topology(*final(comms)),
            final(self).handles_ok(*final(comms)),
            final(comms).clock == old(comms).clock,
            final(comms).terminated == old(comms).terminated,
            old(self).same_static(*final(self)),
            crate::comms::topic_carried(
                *old(comms),
                *final(comms),
                old(self).order_result_topic.slot as int,
                old(self).reply_of(data, old(comms).clock),
            ),
            forall|i: int|
                0 <= i < old(comms).mailboxes@.len() && (#[trigger] old(comms).mailboxes@[i]).topic
                    != old(self).order_result_topic.slot && old(comms).mailboxes@[i].topic != old(
                    self,
                ).account_topic.slot ==> final(comms).mailboxes@[i] == old(comms).mailboxes@[i],
            final(self).fee_account == old(self).fee_account,
            match data.payload {
                Payload::OrderRequest(req) => {
                    let out = old(self).spec_order_outcome(req);
                    if out == OrderOutcome::Accepted {
                        let info = old(self).symbol_info_manager.spec_get(req.symbol@)->Some_0;
                        let orders0 = old(self).market_view(req.symbol@).0;
                        let o = spec_new_order(req, data.header.commit_at);
                        &&& final(self).account.bal(spec_lock_asset(req, info)) == (AssetBalance {
                            locked: (old(self).account.bal(spec_lock_asset(req, info)).locked
                                + spec_lock_amount(req)) as u64,
                            ..old(self).account.bal(spec_lock_asset(req, info))
                        })
                        &&& forall|a: Seq<char>|
                            a != spec_lock_asset(req, info) ==> final(self).account.bal(a) == old(
                                self,
                            ).account.bal(a)
                        &&& final(self).market_view(req.symbol@).0 == orders0.insert(
                            insert_pos(orders0, o),
                            o,
                        )
                        &&& forall|s: Seq<char>|
                            s != req.symbol@ ==> final(self).market_view(s) == old(
                                self,
                            ).market_view(s)
                    } else {
                        &&& forall|a: Seq<char>|
                            final(self).account.bal(a) == old(self).account.bal(a)
                        &&& forall|s: Seq<char>|
                            final(self).market_view(s) == old(self).market_view(s)
                    }
                },
                Payload::CancelOrderRequest(req) => {
                    if old(self).spec_cancel_outcome(req) == CancelOutcome::Canceled {
                        let info = old(self).symbol_info_manager.spec_get(req.symbol@)->Some_0;
                        let orders0 = old(self).market_view(req.symbol@).0;
                        exists|i: int|
                            {
                                &&& 0 <= i < orders0.len()
                                &&& (#[trigger] orders0[i]).order_id@ == req.client_order_id@
                                &&& final(self).market_view(req.symbol@).0 == orders0.remove(i)
                                &&& ({
                                    let asset = spec_cancel_asset(orders0[i], info);
                                    let amt = spec_cancel_refund(orders0[i]);
                                    &&& final(self).account.bal(asset) == (AssetBalance {
                                        locked: if amt <= old(self).account.bal(asset).locked {
                                            (old(self).account.bal(asset).locked - amt) as u64
                                        } else {
                                            0
                                        },
                                        ..old(self).account.bal(asset)
                                    })
                                    &&& forall|a: Seq<char>|
                                        a != asset ==> final(self).account.bal(a) == old(
                                            self,
                                        ).account.bal(a)
                                })
                                &&& forall|s: Seq<char>|
                                    s != req.symbol@ ==> final(self).market_view(s) == old(
                                        self,
                                    ).market_view(s)
                            }
                    } else {
                        &&& forall|a: Seq<char>|
                            final(self).account.bal(a) == old(self).account.bal(a)
                        &&& forall|s: Seq<char>|
                            final(self).market_view(s) == old(self).market_view(s)
                    }
                },
                _ => *final(self) == *old(self),
            },
    {
        proof {
            crate::comms::lemma_topic_carried_empty(
                *old(comms),
                self.order_result_topic.slot as int,
            );
        }
        match data.payload {
            Payload::OrderRequest(req) => {
                let ghost greq = req;
                let symbol = req.symbol.clone();
                let is_buy = req.side == TradeSide::Buy;
                let client_order_id = req.client_order_id.clone();
                let price = req.price;
                let outcome = self.process_order_request(req, data.header.commit_at);
                match outcome {
                    OrderOutcome::Accepted => {
                        let now = comms.time();
                        let msg = Message {
                            header: MessageHeader { commit_at: now },
                            payload: Payload::OrderResult(
                                OrderResult {
                                    symbol,
                                    at: now,
                                    client_order_id,
                                    filled_quantity: 0,
                                    price,
                                    is_buy,
                                    status: OrderStatus::New,
                                },
                            ),
                        };
                        let ghost gmsg = msg;
                        let ghost c1 = *comms;
                        comms.publish(&self.order_result_topic, msg);
                        proof {
                            lemma_same_topology_trans(*old(comms), c1, *comms);
                            assert(gmsg == MarketAgent::request_reply_message(
                                greq,
                                OrderStatus::New,
                                old(comms).clock,
                            ));
                            crate::comms::lemma_topic_carried_snoc(
                                *old(comms),
                                c1,
                                *comms,
                                self.order_result_topic.slot as int,
                                Seq::empty(),
                                gmsg,
                            );
                            assert(Seq::<Message>::empty().push(gmsg) =~= old(self).reply_of(
                                data,
                                old(comms).clock,
                            ));
                        }
                    },
                    OrderOutcome::DuplicateIgnored => {},
                    _ => {
                        let now = comms.time();
                        let msg = Message {
                            header: MessageHeader { commit_at: now },
                            payload: Payload::OrderResult(
                                OrderResult {
                                    symbol: symbol.clone(),
                                    at: now,
                                    client_order_id,
                                    filled_quantity: 0,
                                    price,
                                    is_buy,
                                    status: OrderStatus::Rejected,
                                },
                            ),
                        };
                        let ghost gmsg = msg;
                        let ghost c1 = *comms;
                        comms.publish(&self.order_result_topic, msg);
                        proof {
                            lemma_same_topology_trans(*old(comms), c1, *comms);
                            assert(gmsg == MarketAgent::request_reply_message(
                                greq,
                                OrderStatus::Rejected,
                                old(comms).clock,
                            ));
                            crate::comms::lemma_topic_carried_snoc(
                                *old(comms),
                                c1,
                                *comms,
                                self.order_result_topic.slot as int,
                                Seq::empty(),
                                gmsg,
                            );
                            assert(Seq::<Message>::empty().push(gmsg) =~= old(self).reply_of(
                                data,
                                old(comms).clock,
                            ));
                        }
                        let mut event_name: String = String::from_str("order_fail_");
                        if is_buy {
                            event_name.append("Buy_");
                        } else {
                            event_name.append("Sell_");
                        }
                        event_name.append(symbol.as_str());
                        self.stats.on_event(&event_name);
                    },
                }
            },
            Payload::CancelOrderRequest(creq) => {
                let ghost greq = creq;
                let symbol = creq.symbol.clone();
                let client_order_id = creq.client_order_id.clone();
                match self.process_cancel_order_request(creq) {
                    CancelOutcome::Canceled => {
                        let now = comms.time();
                        let msg = Message {
                            header: MessageHeader { commit_at: now },
                            payload: Payload::OrderResult(
                                OrderResult {
                                    symbol,
                                    at: now,
                                    client_order_id,
                                    filled_quantity: 0,
                                    price: 0,
                                    is_buy: false,
                                    status: OrderStatus::Canceled,
                                },
                            ),
                        };
                        let ghost gmsg = msg;
                        let ghost c1 = *comms;
                        comms.publish(&self.order_result_topic, msg);
                        proof {
                            lemma_same_topology_trans(*old(comms), c1, *comms);
                            assert(gmsg == MarketAgent::cancel_reply_message(
                                greq,
                                old(comms).clock,
                            ));
                            crate::comms::lemma_topic_carried_snoc(
                                *old(comms),
                                c1,
                                *comms,
                                self.order_result_topic.slot as int,
                                Seq::empty(),
                                gmsg,
                            );
                            assert(Seq::<Message>::empty().push(gmsg) =~= old(self).reply_of(
                                data,
                                old(comms).clock,
                            ));
                        }
                    },
                    _ => {
                        let event_name: String = String::from_str("cancel_order_fail");
                        self.stats.on_event(&event_name);
                    },
                }
            },
            _ => {},
        }
    }
}

/// The holdings of asset `a` after crediting a list of starting
/// balances, entry by entry, each addition saturating.
pub open spec fn seeded_bal(
    b: AssetBalance,
    a: Seq<char>,
    entries: Seq<(String, u64)>,
) -> AssetBalance
    decreases entries.len(),
{
    if entries.len() == 0 {
        b
    } else {
        let prev = seeded_bal(b, a, entries.drop_last());
        if entries.last().0@ == a {
            AssetBalance { balance: crate::stats::sat_add(prev.balance, entries.last().1), ..prev }
        } else {
            prev
        }
    }
}

impl MarketAgent {
    /// Credits every configured starting balance into the trading
    /// account; nothing else moves.
    pub fn seed_initial_balances(&mut self)
        requires
            old(self).agent_wf(),
        ensures
            final(self).agent_wf(),
            old(self).same_static(*final(self)),
            final(self).market_by_symbol == old(self).market_by_symbol,
            final(self).fee_account == old(self).fee_account,
            final(self).stats == old(self).stats,
            final(self).last_account_summary_send_time == old(
                self,
            ).last_account_summary_send_time,
            forall|a: Seq<char>|
                final(self).account.bal(a) == seeded_bal(
                    old(self).account.bal(a),
                    a,
                    old(self).initial_balance@,
                ),
    {
        let ghost entries0 = self.initial_balance@;
        proof {
            assert(entries0.subrange(0, 0) =~= Seq::<(String, u64)>::empty());
        }
        let mut i: usize = 0;
        while i < self.initial_balance.len()
            invariant
                i <= entries0.len(),
                self.agent_wf(),
                self.initial_balance@ == entries0,
                old(self).same_static(*self),
                self.market_by_symbol == old(self).market_by_symbol,
                self.fee_account == old(self).fee_account,
                self.stats == old(self).stats,
                self.last_account_summary_send_time == old(self).last_account_summary_send_time,
                forall|a: Seq<char>|
                    self.account.bal(a) == seeded_bal(
                        old(self).account.bal(a),
                        a,
                        entries0.subrange(0, i as int),
                    ),
            decreases entries0.len() - i,
        {
            let amount = self.initial_balance[i].1;
            let ghost pre_account = self.account;
            self.account.add_balance_capped(&self.initial_balance[i].0, amount);
            proof {
                assert(entries0.subrange(0, i as int + 1).drop_last() =~= entries0.subrange(
                    0,
                    i as int,
                ));
                assert(entries0.subrange(0, i as int + 1).last() == entries0[i as int]);
                assert forall|a: Seq<char>|
                    self.account.bal(a) == seeded_bal(
                        old(self).account.bal(a),
                        a,
                        entries0.subrange(0, i as int + 1),
                    ) by {
                    if a != entries0[i as int].0@ {
                        assert(self.account.bal(a) == pre_account.bal(a));
                    }
                }
            }
            i = i + 1;
        }
        proof {
            assert(entries0.subrange(0, entries0.len() as int) =~= entries0);
        }
    }
}

impl Module for MarketAgent {
    open spec fn inv(&self) -> bool {
        self.agent_wf()
    }

    open spec fn handles_ok(&self, comms: &CommsState) -> bool {
        MarketAgent::handles_ok(*self, *comms)
    }

    /// The matcher only runs when woken by market data or orders.
    open spec fn spec_next_at(&self) -> Option<u64> {
        None
    }

    open spec fn spec_wake_on_message(&self) -> bool {
        true
    }

    /// Starting seeds the configured balances and nothing else.
    open spec fn started_from(&self, pre: &Self) -> bool {
        &&& pre.same_static(*self)
        &&& self.market_by_symbol == pre.market_by_symbol
        &&& self.fee_account == pre.fee_account
        &&& self.stats == pre.stats
        &&& self.last_account_summary_send_time == pre.last_account_summary_send_time
        &&& forall|a: Seq<char>|
            self.account.bal(a) == seeded_bal(pre.account.bal(a), a, pre.initial_balance@)
    }

    /// The matcher flushes nothing at the end.
    open spec fn terminated_from(&self, pre: &Self) -> bool {
        self == pre
    }

    /// Syncing drains both of the matcher's mailboxes and always goes
    /// ahead to the iteration.
    open spec fn sync_rel(
        &self,
        pre: &Self,
        pre_comms: &CommsState,
        post_comms: &CommsState,
        r: bool,
    ) -> bool {
        &&& r
        &&& pre.same_static(*self)
        &&& post_comms.mailboxes@[self.market_data_topic.slot as int].queue@.len() == 0
        &&& post_comms.mailboxes@[self.order_topic.slot as int].queue@.len() == 0
    }

    /// One iteration is the matching pass — books, balances and
    /// order-result messages all pinned — followed by the periodic
    /// summary.
    open spec fn iter_rel(
        &self,
        pre: &Self,
        pre_comms: &CommsState,
        post_comms: &CommsState,
    ) -> bool {
        &&& pre.same_static(*self)
        &&& self.market_by_symbol@.len() == pre.market_by_symbol@.len()
        &&& forall|k: int|
            0 <= k < pre.market_by_symbol@.len() ==> (#[trigger] self.market_by_symbol@[k]).0
                == pre.market_by_symbol@[k].0
        &&& forall|k: int|
            0 <= k < pre.market_by_symbol@.len() ==> ({
                let m0 = pre.market_by_symbol@[k].1;
                let m1 = (#[trigger] self.market_by_symbol@[k]).1;
                &&& m1.open_orders@ == match_trades(m0.open_orders@, m0.market_trade_buf@).0
                &&& m1.market_trade_buf@.len() == 0
                &&& m1.last_trade_price == m0.last_trade_price
            })
        &&& forall|a: Seq<char>|
            self.account.bal(a) == MarketAgent::settled_bal_all(
                pre.account.bal(a),
                a,
                pre.market_by_symbol@,
                pre.symbol_info_manager,
            )
        &&& forall|a: Seq<char>|
            self.fee_account.bal(a) == MarketAgent::settled_fee_all(
                pre.fee_account.bal(a),
                a,
                pre.market_by_symbol@,
                pre.symbol_info_manager,
            )
        &&& crate::comms::topic_carried(
            *pre_comms,
            *post_comms,
            pre.order_result_topic.slot as int,
            MarketAgent::agent_results(
                pre.market_by_symbol@,
                pre.symbol_info_manager,
                pre_comms.clock,
            ),
        )
        &&& self.last_account_summary_send_time == if pre.summary_due(pre_comms.clock) {
            pre_comms.clock
        } else {
            pre.last_account_summary_send_time
        }
    }

    /// Seeds the configured starting balances.
    fn start(&mut self) {
        self.seed_initial_balances();
    }

    /// Drains the market-data mailbox into the per-symbol trade buffers,
    /// then the order mailbox through order and cancel intake.
    fn sync(&mut self, comms: &mut CommsState) -> (r: bool) {
        loop
            invariant
                self.agent_wf(),
                old(self).same_static(*self),
                comms.wf(),
                old(comms).same_topology(*comms),
                comms.clock == old(comms).clock,
                comms.terminated == old(comms).terminated,
                MarketAgent::handles_ok(*self, *comms),
            ensures
                self.agent_wf(),
                old(self).same_static(*self),
                comms.wf(),
                old(comms).same_topology(*comms),
                comms.clock == old(comms).clock,
                comms.terminated == old(comms).terminated,
                MarketAgent::handles_ok(*self, *comms),
                comms.mailboxes@[self.market_data_topic.slot as int].queue@.len() == 0,
            decreases comms.mailboxes@[self.market_data_topic.slot as int].queue@.len(),
        {
            match comms.receive(&self.market_data_topic) {
                Option::Some(msg) => {
                    self.ingest_market_trade_data(msg);
                },
                Option::None => {
                    break ;
                },
            }
        }
        loop
            invariant
                self.agent_wf(),
                old(self).same_static(*self),
                comms.wf(),
                old(comms).same_topology(*comms),
                comms.clock == old(comms).clock,
                comms.terminated == old(comms).terminated,
                MarketAgent::handles_ok(*self, *comms),
                comms.mailboxes@[self.market_data_topic.slot as int].queue@.len() == 0,
            ensures
                self.agent_wf(),
                old(self).same_static(*self),
                comms.wf(),
                old(comms).same_topology(*comms),
                comms.clock == old(comms).clock,
                comms.terminated == old(comms).terminated,
                MarketAgent::handles_ok(*self, *comms),
                comms.mailboxes@[self.market_data_topic.slot as int].queue@.len() == 0,
                comms.mailboxes@[self.order_topic.slot as int].queue@.len() == 0,
            decreases comms.mailboxes@[self.order_topic.slot as int].queue@.len(),
        {
            let ghost c_pre = *comms;
            match comms.receive(&self.order_topic) {
                Option::Some(msg) => {
                    let ghost q_after_recv = comms.mailboxes@[self.order_topic.slot as int].queue@;
                    self.ingest_order_request(msg, comms);
                    proof {
                        assert(comms.mailboxes@[self.order_topic.slot as int].queue@
                            == q_after_recv);
                        assert(comms.mailboxes@[self.market_data_topic.slot as int].queue@.len()
                            == 0);
                    }
                },
                Option::None => {
                    break ;
                },
            }
        }
        true
    }

    /// Matches the buffered tape and sends the periodic summary.
    fn one_iteration(&mut self, comms: &mut CommsState) {
        let ghost c0 = *comms;
        self.run_matching(comms);
        let ghost c1 = *comms;
        self.maybe_send_summary(comms);
        proof {
            lemma_same_topology_trans(c0, c1, *comms);
            let or = old(self).order_result_topic.slot as int;
            assert forall|i: int|
                0 <= i < c0.mailboxes@.len() && (#[trigger] c0.mailboxes@[i]).topic
                    == or implies comms.mailboxes@[i] == c1.mailboxes@[i] by {
                assert(c1.mailboxes@[i].topic == c0.mailboxes@[i].topic);
            }
            assert(comms.topics@[or] == c1.topics@[or]);
            crate::comms::lemma_topic_carried_frame(
                c0,
                c1,
                *comms,
                or,
                MarketAgent::agent_results(
                    old(self).market_by_symbol@,
                    old(self).symbol_info_manager,
                    c0.clock,
                ),
            );
        }
    }

    /// The matcher only runs when woken by market data or orders.
    fn next_iteration_start_at(&self) -> Option<u64> {
        Option::None
    }

    fn wake_on_message(&self) -> bool {
        true
    }

    fn terminate(&mut self) {
    }
}

/// Assembles a matching-engine module: topics, symbol metadata, initial
/// balances and the summary interval.
#[derive(Debug)]
pub struct MarketAgentBuilder {
    pub market_data_topic: Option<ReadTopicHandle>,
    pub order_topic: Option<ReadTopicHandle>,
    pub order_result_topic: Option<WriteTopicHandle>,
    pub account_topic: Option<WriteTopicHandle>,
    pub symbol_info_manager: Option<SymbolInfoManager>,
    pub initial_balance: Vec<(String, u64)>,
    pub account_summary_interval: u64,
}

impl MarketAgentBuilder {
    /// A builder with no topics bound yet and the summary interval at
    /// its default of one thousand virtual seconds.
    pub fn new() -> (b: MarketAgentBuilder)
        ensures
            b.market_data_topic is None,
            b.order_topic is None,
            b.order_result_topic is None,
            b.account_topic is None,
            b.symbol_info_manager is None,
            b.initial_balance@.len() == 0,
            b.account_summary_interval == 1000000000000u64,
    {
        MarketAgentBuilder {
            market_data_topic: Option::None,
            order_topic: Option::None,
            order_result_topic: Option::None,
            account_topic: Option::None,
            symbol_info_manager: Option::None,
            initial_balance: Vec::new(),
            account_summary_interval: 1000000000000u64,
        }
    }

    /// Records a starting balance; a repeated asset keeps the last
    /// amount given.
    #[verifier::loop_isolation(false)]
    pub fn with_initial_balance(self, asset: String, balance: u64) -> (b: MarketAgentBuilder)
        ensures
            b.market_data_topic == self.market_data_topic,
            b.order_topic == self.order_topic,
            b.order_result_topic == self.order_result_topic,
            b.account_topic == self.account_topic,
            b.symbol_info_manager == self.symbol_info_manager,
            b.account_summary_interval == self.account_summary_interval,
            b.initial_balance@.len() <= self.initial_balance@.len() + 1,
            exists|i: int|
                0 <= i < b.initial_balance@.len() && (#[trigger] b.initial_balance@[i]).0@
                    == asset@ && b.initial_balance@[i].1 == balance,
    {
        let mut b = self;
        let mut i: usize = 0;
        while i < b.initial_balance.len()
            invariant
                i <= b.initial_balance@.len(),
                b.initial_balance@.len() == self.initial_balance@.len(),
                b == (MarketAgentBuilder { initial_balance: b.initial_balance, ..self }),
            decreases b.initial_balance@.len() - i,
        {
            if b.initial_balance[i].0 == asset {
                b.initial_balance[i].1 = balance;
                proof {
                    assert(b.initial_balance@[i as int].0@ == asset@ && b.initial_balance@[
                        i as int].1 == balance);
                }
                return b;
            }
            i = i + 1;
        }
        b.initial_balance.push((asset, balance));
        proof {
            assert(b.initial_balance@.last().1 == balance);
        }
        b
    }

    pub fn with_symbol_info_manager(self, manager: SymbolInfoManager) -> (b: MarketAgentBuilder)
        ensures
            b == (MarketAgentBuilder { symbol_info_manager: Some(manager), ..self }),
    {
        MarketAgentBuilder { symbol_info_manager: Option::Some(manager), ..self }
    }

    /// Sets how much virtual time passes between two full account
    /// summaries.
    pub fn with_summary_interval(self, nanos: u64) -> (b: MarketAgentBuilder)
        ensures
            b == (MarketAgentBuilder { account_summary_interval: nanos, ..self }),
    {
        MarketAgentBuilder { account_summary_interval: nanos, ..self }
    }

    /// Binds the four topics: subscriptions to `market_data` and
    /// `order`, publications on `order_result` and `account`. The four
    /// names are distinct, so the agent can never feed its own inboxes.
    pub fn init_comm(&mut self, comms: &mut CommsState, module: &ModuleId)
        requires
            old(comms).wf(),
            module.slot < old(comms).modules@.len(),
        ensures
            final(comms).wf(),
            final(comms).clock == old(comms).clock,
            final(comms).terminated == old(comms).terminated,
            final(comms).modules@.len() == old(comms).modules@.len(),
            old(comms).topics@.len() <= final(comms).topics@.len(),
            old(comms).mailboxes@.len() <= final(comms).mailboxes@.len(),
            forall|i: int|
                0 <= i < old(comms).mailboxes@.len() ==> (#[trigger] final(comms).mailboxes@[i]).topic
                    == old(comms).mailboxes@[i].topic,
            final(self).symbol_info_manager == old(self).symbol_info_manager,
            final(self).initial_balance == old(self).initial_balance,
            final(self).account_summary_interval == old(self).account_summary_interval,
            ({
                match (
                    final(self).market_data_topic,
                    final(self).order_topic,
                    final(self).order_result_topic,
                    final(self).account_topic,
                ) {
                    (Some(md), Some(ord), Some(ores), Some(acct)) => {
                        &&& md.slot < final(comms).mailboxes@.len()
                        &&& ord.slot < final(comms).mailboxes@.len()
                        &&& ores.slot < final(comms).topics@.len()
                        &&& acct.slot < final(comms).topics@.len()
                        &&& final(comms).mailboxes@[md.slot as int].topic != ores.slot
                        &&& final(comms).mailboxes@[md.slot as int].topic != acct.slot
                        &&& final(comms).mailboxes@[ord.slot as int].topic != ores.slot
                        &&& final(comms).mailboxes@[ord.slot as int].topic != acct.slot
                        &&& ores.slot != acct.slot
                    },
                    _ => false,
                }
            }),
    {
        let n_md = crate::replay::topic_name_market_data();
        let n_order = topic_name_order();
        let n_or = topic_name_order_result();
        let n_acct = topic_name_account();
        let t_md = comms.get_or_create_topic(&n_md);
        let ghost c1 = *comms;
        let t_order = comms.get_or_create_topic(&n_order);
        let ghost c2 = *comms;
        let t_or = comms.get_or_create_topic(&n_or);
        let ghost c3 = *comms;
        let t_acct = comms.get_or_create_topic(&n_acct);
        proof {
            reveal_strlit("market_data");
            reveal_strlit("order");
            reveal_strlit("order_result");
            reveal_strlit("account");
            assert(c1.topics@[t_md.slot as int].name@ == "market_data"@);
            assert(c2.topics@[t_md.slot as int].name@ == "market_data"@);
            assert(c3.topics@[t_md.slot as int].name@ == "market_data"@);
            assert(comms.topics@[t_md.slot as int].name@ == "market_data"@);
            assert(c2.topics@[t_order.slot as int].name@ == "order"@);
            assert(c3.topics@[t_order.slot as int].name@ == "order"@);
            assert(comms.topics@[t_order.slot as int].name@ == "order"@);
            assert(c3.topics@[t_or.slot as int].name@ == "order_result"@);
            assert(comms.topics@[t_or.slot as int].name@ == "order_result"@);
            assert(comms.topics@[t_acct.slot as int].name@ == "account"@);
            assert(("market_data"@).len() == 11);
            assert(("order"@).len() == 5);
            assert(("order_result"@).len() == 12);
            assert(("account"@).len() == 7);
            assert(t_md.slot != t_or.slot);
            assert(t_md.slot != t_acct.slot);
            assert(t_order.slot != t_or.slot);
            assert(t_order.slot != t_acct.slot);
        }
        let md_h = comms.subscribe_topic(module, &t_md);
        let ghost c5 = *comms;
        let ord_h = comms.subscribe_topic(module, &t_order);
        let ghost c6 = *comms;
        let or_h = comms.publish_topic(module, &t_or);
        let acct_h = comms.publish_topic(module, &t_acct);
        proof {
            assert(c6.mailboxes@[md_h.slot as int].topic == t_md.slot);
            assert(c6.mailboxes@[ord_h.slot as int].topic == t_order.slot);
            assert(comms.mailboxes@ == c6.mailboxes@);
        }
        self.market_data_topic = Option::Some(md_h);
        self.order_topic = Option::Some(ord_h);
        self.order_result_topic = Option::Some(or_h);
        self.account_topic = Option::Some(acct_h);
    }

    /// Builds the module over empty books and accounts. Fails if a topic
    /// or the symbol metadata was never supplied.
    pub fn build(self) -> (r: Option<MarketAgent>)
        requires
            self.symbol_info_manager is Some ==> (self.symbol_info_manager->Some_0).wf(),
        ensures
            match r {
                Some(m) => {
                    &&& m.agent_wf()
                    &&& Some(m.market_data_topic) == self.market_data_topic
                    &&& Some(m.order_topic) == self.order_topic
                    &&& Some(m.order_result_topic) == self.order_result_topic
                    &&& Some(m.account_topic) == self.account_topic
                    &&& Some(m.symbol_info_manager) == self.symbol_info_manager
                    &&& m.initial_balance == self.initial_balance
                    &&& m.account_summary_interval == self.account_summary_interval
                    &&& m.market_by_symbol@.len() == 0
                    &&& m.account.asset_to_balance@.len() == 0
                    &&& m.fee_account.asset_to_balance@.len() == 0
                    &&& m.last_account_summary_send_time == 0
                },
                None => self.market_data_topic is None || self.order_topic is None
                    || self.order_result_topic is None || self.account_topic is None
                    || self.symbol_info_manager is None,
            },
    {
        let MarketAgentBuilder {
            market_data_topic,
            order_topic,
            order_result_topic,
            account_topic,
            symbol_info_manager,
            initial_balance,
            account_summary_interval,
        } = self;
        match (market_data_topic, order_topic, order_result_topic, account_topic, symbol_info_manager) {
            (
                Option::Some(md),
                Option::Some(ord),
                Option::Some(ores),
                Option::Some(acct),
                Option::Some(manager),
            ) => Option::Some(
                MarketAgent {
                    market_data_topic: md,
                    order_topic: ord,
                    order_result_topic: ores,
                    account_topic: acct,
                    market_by_symbol: Vec::new(),
                    account: Account::new(),
                    fee_account: Account::new(),
                    symbol_info_manager: manager,
                    stats: MarketStats::new(),
                    initial_balance,
                    last_account_summary_send_time: 0,
                    account_summary_interval,
                },
            ),
            _ => Option::None,
        }
    }
}

/// The matching engine's registration name.
pub fn topic_name_market_agent_module() -> (s: String)
    ensures
        s@ == "market_agent"@,
{
    String::from_str("market_agent")
}

/// The name of the topic order requests arrive on.
pub fn topic_name_order() -> (s: String)
    ensures
        s@ == "order"@,
{
    String::from_str("order")
}

/// The name of the topic order results leave on.
pub fn topic_name_order_result() -> (s: String)
    ensures
        s@ == "order_result"@,
{
    String::from_str("order_result")
}

/// The name of the topic account updates leave on.
pub fn topic_name_account() -> (s: String)
    ensures
        s@ == "account"@,
{
    String::from_str("account")
}

/// One more market's worth of settlement, applied after the markets
/// before it.
proof fn lemma_settled_all_step(
    b: AssetBalance,
    bf: AssetBalance,
    a: Seq<char>,
    entries: Seq<(String, SimpleMarket)>,
    manager: SymbolInfoManager,
    i: int,
)
    requires
        0 <= i < entries.len(),
    ensures
        MarketAgent::settled_bal_all(b, a, entries.subrange(0, i + 1), manager) == (
        match manager.spec_get(entries[i].0@) {
            Option::Some(info) => MarketAgent::settle_events_bal(
                MarketAgent::settled_bal_all(b, a, entries.subrange(0, i), manager),
                a,
                match_trades(entries[i].1.open_orders@, entries[i].1.market_trade_buf@).1,
                info,
            ),
            Option::None => MarketAgent::settled_bal_all(b, a, entries.subrange(0, i), manager),
        }),
        MarketAgent::settled_fee_all(bf, a, entries.subrange(0, i + 1), manager) == (
        match manager.spec_get(entries[i].0@) {
            Option::Some(info) => MarketAgent::settle_events_fee_bal(
                MarketAgent::settled_fee_all(bf, a, entries.subrange(0, i), manager),
                a,
                match_trades(entries[i].1.open_orders@, entries[i].1.market_trade_buf@).1,
                info,
            ),
            Option::None => MarketAgent::settled_fee_all(bf, a, entries.subrange(0, i), manager),
        }),
{
    assert(entries.subrange(0, i + 1).drop_last() =~= entries.subrange(0, i));
    assert(entries.subrange(0, i + 1).last() == entries[i]);
}

/// One more market's worth of order results, appended to the results of
/// the markets before it.
proof fn lemma_agent_results_step(
    entries: Seq<(String, SimpleMarket)>,
    manager: SymbolInfoManager,
    now: u64,
    i: int,
)
    requires
        0 <= i < entries.len(),
    ensures
        MarketAgent::agent_results(entries.subrange(0, i + 1), manager, now)
            == MarketAgent::agent_results(entries.subrange(0, i), manager, now) + (
        if manager.spec_get(entries[i].0@) is Some {
            MarketAgent::results_of(
                match_trades(entries[i].1.open_orders@, entries[i].1.market_trade_buf@).1,
                entries[i].0,
                now,
            )
        } else {
            Seq::<Message>::empty()
        }),
{
    assert(entries.subrange(0, i + 1).drop_last() =~= entries.subrange(0, i));
    assert(entries.subrange(0, i + 1).last() == entries[i]);
}

/// A millisecond timestamp on the nanosecond clock, capped at the
/// largest representable instant.
pub open spec fn ms_to_nanos_capped(ms: u64) -> u64 {
    if ms <= MAX_TIME_MS {
        (ms * NANOS_PER_MILLI) as u64
    } else {
        u64::MAX
    }
}

/// The buffered trade a recorded tick becomes.
pub open spec fn spec_trade_of(t: crate::market_data::BinanceTradeTick) -> MarketTrade {
    MarketTrade {
        price: t.price,
        quantity: t.qty,
        trade_at: ms_to_nanos_capped(t.time),
        is_buyer_maker: t.is_buyer_maker,
    }
}

impl MarketAgent {
    /// Buffers a recorded trade into its symbol's market; book tickers
    /// and any unexpected payload flow past the matcher untouched.
    pub fn ingest_market_trade_data(&mut self, data: Message)
        requires
            old(self).agent_wf(),
        ensures
            final(self).agent_wf(),
            old(self).same_static(*final(self)),
            final(self).account == old(self).account,
            final(self).fee_account == old(self).fee_account,
            final(self).stats == old(self).stats,
            final(self).last_account_summary_send_time == old(
                self,
            ).last_account_summary_send_time,
            match data.payload {
                Payload::BinanceTradeTick(t) => {
                    &&& final(self).market_view(t.symbol@).0 == old(self).market_view(t.symbol@).0
                    &&& final(self).market_view(t.symbol@).1 == old(self).market_view(
                        t.symbol@,
                    ).1.push(spec_trade_of(t))
                    &&& final(self).market_view(t.symbol@).2 == t.price
                    &&& forall|s: Seq<char>|
                        s != t.symbol@ ==> final(self).market_view(s) == old(self).market_view(s)
                },
                _ => forall|s: Seq<char>| final(self).market_view(s) == old(self).market_view(s),
            },
    {
        match data.payload {
            Payload::BinanceTradeTick(t) => {
                let mi = self.get_or_create_market(&t.symbol);
                proof {
                    lemma_seq_market_view_at(self.market_by_symbol@, mi as int);
                }
                let trade_at = if t.time <= MAX_TIME_MS {
                    t.time * NANOS_PER_MILLI
                } else {
                    u64::MAX
                };
                let trade = MarketTrade {
                    price: t.price,
                    quantity: t.qty,
                    trade_at,
                    is_buyer_maker: t.is_buyer_maker,
                };
                let ghost entries1 = self.market_by_symbol@;
                self.market_by_symbol[mi].1.add_market_trade(trade);
                proof {
                    let m2 = self.market_by_symbol@[mi as int].1;
                    assert(self.market_by_symbol@ == entries1.update(
                        mi as int,
                        (entries1[mi as int].0, m2),
                    ));
                    assert forall|s: Seq<char>| #[trigger]
                        self.market_view(s) == if entries1[mi as int].0@ == s {
                            (m2.open_orders@, m2.market_trade_buf@, m2.last_trade_price)
                        } else {
                            seq_market_view(entries1, s)
                        } by {
                        lemma_seq_market_view_update(entries1, mi as int, m2, s);
                    }
                    assert forall|s: Seq<char>| s != t.symbol@ implies self.market_view(s) == old(
                        self,
                    ).market_view(s) by {
                        lemma_seq_market_view_update(entries1, mi as int, m2, s);
                        assert(old(self).market_view(s) == seq_market_view(entries1, s));
                    }
                    assert forall|i: int, j: int|
                        0 <= i < j < self.market_by_symbol@.len() implies self.market_by_symbol@[
                        i].0@ != self.market_by_symbol@[j].0@ by {
                        assert(self.market_by_symbol@[i].0 == entries1[i].0);
                        assert(self.market_by_symbol@[j].0 == entries1[j].0);
                    }
                    assert forall|i: int|
                        0 <= i < self.market_by_symbol@.len() implies (
                    #[trigger] self.market_by_symbol@[i].1).wf() && orders_bounded(
                        self.market_by_symbol@[i].1.open_orders@,
                    ) by {
                        if i != mi as int {
                            assert(self.market_by_symbol@[i].1 == entries1[i].1);
                        }
                    }
                }
            },
            _ => {},
        }
    }

    /// The order-result message one fill becomes, stamped `now`.
    pub open spec fn result_message(ev: MarketEvent, symbol: String, now: u64) -> Message {
        Message {
            header: MessageHeader { commit_at: now },
            payload: Payload::OrderResult(
                OrderResult {
                    symbol,
                    at: now,
                    client_order_id: ev.order_id,
                    filled_quantity: ev.quantity,
                    price: ev.price,
                    is_buy: ev.side == TradeSide::Buy,
                    status: if ev.remain_qty_to_fill == 0 {
                        OrderStatus::Filled
                    } else {
                        OrderStatus::PartiallyFilled
                    },
                },
            ),
        }
    }

    /// The order-result messages for one symbol's fills, in fill order.
    pub open spec fn results_of(events: Seq<MarketEvent>, symbol: String, now: u64) -> Seq<
        Message,
    > {
        Seq::new(events.len(), |i: int| MarketAgent::result_message(events[i], symbol, now))
    }

    /// Everything one matching pass publishes on `order_result`: for
    /// each market in registration order, the fills of its buffered
    /// trades — provided its symbol is configured; fills of an
    /// unconfigured symbol have no settlement and are not reported.
    pub open spec fn agent_results(
        entries: Seq<(String, SimpleMarket)>,
        manager: SymbolInfoManager,
        now: u64,
    ) -> Seq<Message>
        decreases entries.len(),
    {
        if entries.len() == 0 {
            Seq::empty()
        } else {
            let e = entries.last();
            let own = if manager.spec_get(e.0@) is Some {
                MarketAgent::results_of(
                    match_trades(e.1.open_orders@, e.1.market_trade_buf@).1,
                    e.0,
                    now,
                )
            } else {
                Seq::empty()
            };
            MarketAgent::agent_results(entries.drop_last(), manager, now) + own
        }
    }

    /// One fill's effect on the holdings of asset `a` in the trading
    /// account: the payment is consumed from balance and lock together,
    /// as far as the lock goes, then the net receipt is added,
    /// saturating.
    pub open spec fn settle_account_bal(
        b: AssetBalance,
        a: Seq<char>,
        ev: MarketEvent,
        info: SymbolInfo,
    ) -> AssetBalance {
        let t = crate::symbol::spec_trade_result(
            info,
            ev.price,
            ev.quantity,
            ev.side == TradeSide::Buy,
        );
        let b1 = if t.0 == a {
            let d: int = if t.1 <= b.locked {
                t.1
            } else {
                b.locked as int
            };
            AssetBalance { balance: (b.balance - d) as u64, locked: (b.locked - d) as u64 }
        } else {
            b
        };
        if t.2 == a {
            AssetBalance { balance: crate::stats::sat_add(b1.balance, t.3 as u64), ..b1 }
        } else {
            b1
        }
    }

    /// One fill's fee accrual on asset `a` in the fee accumulator.
    pub open spec fn settle_fee_bal(
        b: AssetBalance,
        a: Seq<char>,
        ev: MarketEvent,
        info: SymbolInfo,
    ) -> AssetBalance {
        let t = crate::symbol::spec_trade_result(
            info,
            ev.price,
            ev.quantity,
            ev.side == TradeSide::Buy,
        );
        if t.2 == a {
            AssetBalance { balance: crate::stats::sat_add(b.balance, t.4 as u64), ..b }
        } else {
            b
        }
    }

    /// The holdings of `a` after settling a run of fills, in order.
    pub open spec fn settle_events_bal(
        b: AssetBalance,
        a: Seq<char>,
        events: Seq<MarketEvent>,
        info: SymbolInfo,
    ) -> AssetBalance
        decreases events.len(),
    {
        if events.len() == 0 {
            b
        } else {
            MarketAgent::settle_account_bal(
                MarketAgent::settle_events_bal(b, a, events.drop_last(), info),
                a,
                events.last(),
                info,
            )
        }
    }

    /// The fee holdings of `a` after a run of fills, in order.
    pub open spec fn settle_events_fee_bal(
        b: AssetBalance,
        a: Seq<char>,
        events: Seq<MarketEvent>,
        info: SymbolInfo,
    ) -> AssetBalance
        decreases events.len(),
    {
        if events.len() == 0 {
            b
        } else {
            MarketAgent::settle_fee_bal(
                MarketAgent::settle_events_fee_bal(b, a, events.drop_last(), info),
                a,
                events.last(),
                info,
            )
        }
    }

    /// The holdings of `a` after a whole matching pass, market by
    /// market in registration order; fills of an unconfigured symbol
    /// have no settlement.
    pub open spec fn settled_bal_all(
        b: AssetBalance,
        a: Seq<char>,
        entries: Seq<(String, SimpleMarket)>,
        manager: SymbolInfoManager,
    ) -> AssetBalance
        decreases entries.len(),
    {
        if entries.len() == 0 {
            b
        } else {
            let prev = MarketAgent::settled_bal_all(b, a, entries.drop_last(), manager);
            let e = entries.last();
            match manager.spec_get(e.0@) {
                Option::Some(info) => MarketAgent::settle_events_bal(
                    prev,
                    a,
                    match_trades(e.1.open_orders@, e.1.market_trade_buf@).1,
                    info,
                ),
                Option::None => prev,
            }
        }
    }

    /// The fee holdings of `a` after a whole matching pass.
    pub open spec fn settled_fee_all(
        b: AssetBalance,
        a: Seq<char>,
        entries: Seq<(String, SimpleMarket)>,
        manager: SymbolInfoManager,
    ) -> AssetBalance
        decreases entries.len(),
    {
        if entries.len() == 0 {
            b
        } else {
            let prev = MarketAgent::settled_fee_all(b, a, entries.drop_last(), manager);
            let e = entries.last();
            match manager.spec_get(e.0@) {
                Option::Some(info) => MarketAgent::settle_events_fee_bal(
                    prev,
                    a,
                    match_trades(e.1.open_orders@, e.1.market_trade_buf@).1,
                    info,
                ),
                Option::None => prev,
            }
        }
    }

    /// Matches every symbol's buffered trades against its book, settles
    /// each fill (pay from the lock, receive net of fee, fee to the fee
    /// accumulator) and publishes an order result and an account update
    /// per fill. Every book afterwards is exactly what the matching rule
    /// says; every balance is exactly the settlement fold of the fills;
    /// the order-result topic carries exactly the fills' messages, in
    /// order; the virtual clock and the termination flag are untouched.
    #[verifier::loop_isolation(false)]
    pub fn run_matching(&mut self, comms: &mut CommsState)
        requires
            old(self).agent_wf(),
            old(comms).wf(),
            old(self).handles_ok(*old(comms)),
        ensures
            final(self).agent_wf(),
            final(comms).wf(),
            old(comms).same_topology(*final(comms)),
            final(self).handles_ok(*final(comms)),
            final(comms).clock == old(comms).clock,
            final(comms).terminated == old(comms).terminated,
            old(self).same_static(*final(self)),
            final(self).last_account_summary_send_time == old(
                self,
            ).last_account_summary_send_time,
            final(self).market_by_symbol@.len() == old(self).market_by_symbol@.len(),
            forall|k: int|
                0 <= k < old(self).market_by_symbol@.len()
                    ==> (#[trigger] final(self).market_by_symbol@[k]).0 == old(
                    self,
                ).market_by_symbol@[k].0,
            forall|k: int|
                0 <= k < old(self).market_by_symbol@.len() ==> ({
                    let m0 = old(self).market_by_symbol@[k].1;
                    let m1 = (#[trigger] final(self).market_by_symbol@[k]).1;
                    &&& m1.open_orders@ == match_trades(m0.open_orders@, m0.market_trade_buf@).0
                    &&& m1.market_trade_buf@.len() == 0
                    &&& m1.last_trade_price == m0.last_trade_price
                }),
            crate::comms::topic_carried(
                *old(comms),
                *final(comms),
                old(self).order_result_topic.slot as int,
                MarketAgent::agent_results(
                    old(self).market_by_symbol@,
                    old(self).symbol_info_manager,
                    old(comms).clock,
                ),
            ),
            forall|a: Seq<char>|
                final(self).account.bal(a) == MarketAgent::settled_bal_all(
                    old(self).account.bal(a),
                    a,
                    old(self).market_by_symbol@,
                    old(self).symbol_info_manager,
                ),
            forall|a: Seq<char>|
                final(self).fee_account.bal(a) == MarketAgent::settled_fee_all(
                    old(self).fee_account.bal(a),
                    a,
                    old(self).market_by_symbol@,
                    old(self).symbol_info_manager,
                ),
    {
        let ghost entries0 = self.market_by_symbol@;
        let ghost manager0 = self.symbol_info_manager;
        proof {
            crate::comms::lemma_topic_carried_empty(
                *old(comms),
                self.order_result_topic.slot as int,
            );
            assert(entries0.subrange(0, 0) =~= Seq::<(String, SimpleMarket)>::empty());
        }
        let mut i: usize = 0;
        while i < self.market_by_symbol.len()
            invariant
                i <= entries0.len(),
                self.agent_wf(),
                old(self).same_static(*self),
                self.last_account_summary_send_time == old(self).last_account_summary_send_time,
                self.market_by_symbol@.len() == entries0.len(),
                forall|k: int|
                    0 <= k < entries0.len() ==> (#[trigger] self.market_by_symbol@[k]).0
                        == entries0[k].0,
                forall|k: int|
                    i <= k < entries0.len() ==> (#[trigger] self.market_by_symbol@[k]).1
                        == entries0[k].1,
                forall|k: int|
                    0 <= k < i ==> ({
                        let m0 = entries0[k].1;
                        let m1 = (#[trigger] self.market_by_symbol@[k]).1;
                        &&& m1.open_orders@ == match_trades(
                            m0.open_orders@,
                            m0.market_trade_buf@,
                        ).0
                        &&& m1.market_trade_buf@.len() == 0
                        &&& m1.last_trade_price == m0.last_trade_price
                    }),
                comms.wf(),
                old(comms).same_topology(*comms),
                comms.clock == old(comms).clock,
                comms.terminated == old(comms).terminated,
                self.handles_ok(*comms),
                crate::comms::topic_carried(
                    *old(comms),
                    *comms,
                    self.order_result_topic.slot as int,
                    MarketAgent::agent_results(
                        entries0.subrange(0, i as int),
                        self.symbol_info_manager,
                        old(comms).clock,
                    ),
                ),
                forall|a: Seq<char>|
                    self.account.bal(a) == MarketAgent::settled_bal_all(
                        old(self).account.bal(a),
                        a,
                        entries0.subrange(0, i as int),
                        manager0,
                    ),
                forall|a: Seq<char>|
                    self.fee_account.bal(a) == MarketAgent::settled_fee_all(
                        old(self).fee_account.bal(a),
                        a,
                        entries0.subrange(0, i as int),
                        manager0,
                    ),
            decreases entries0.len() - i,
        {
            let symbol = self.market_by_symbol[i].0.clone();
            let ghost prefix_results = MarketAgent::agent_results(
                entries0.subrange(0, i as int),
                self.symbol_info_manager,
                old(comms).clock,
            );
            let ghost entries_pre = self.market_by_symbol@;
            let events = self.market_by_symbol[i].1.try_match_market();
            proof {
                let m2 = self.market_by_symbol@[i as int].1;
                assert(self.market_by_symbol@ == entries_pre.update(
                    i as int,
                    (entries_pre[i as int].0, m2),
                ));
                assert forall|a: int, b: int|
                    0 <= a < b < self.market_by_symbol@.len() implies self.market_by_symbol@[a].0@
                    != self.market_by_symbol@[b].0@ by {
                    assert(self.market_by_symbol@[a].0 == entries_pre[a].0);
                    assert(self.market_by_symbol@[b].0 == entries_pre[b].0);
                }
                assert forall|a: int|
                    0 <= a < self.market_by_symbol@.len() implies (
                #[trigger] self.market_by_symbol@[a].1).wf() && orders_bounded(
                    self.market_by_symbol@[a].1.open_orders@,
                ) by {
                    if a != i as int {
                        assert(self.market_by_symbol@[a].1 == entries_pre[a].1);
                    }
                }
            }
            match self.symbol_info_manager.get(&symbol) {
                Option::None => {
                    proof {
                        lemma_agent_results_step(
                            entries0,
                            self.symbol_info_manager,
                            old(comms).clock,
                            i as int,
                        );
                        assert(MarketAgent::agent_results(
                            entries0.subrange(0, i as int + 1),
                            self.symbol_info_manager,
                            old(comms).clock,
                        ) =~= prefix_results);
                        assert(manager0.spec_get(entries0[i as int].0@) is None);
                        assert forall|a: Seq<char>|
                            self.account.bal(a) == MarketAgent::settled_bal_all(
                                old(self).account.bal(a),
                                a,
                                entries0.subrange(0, i as int + 1),
                                manager0,
                            ) by {
                            lemma_settled_all_step(
                                old(self).account.bal(a),
                                old(self).fee_account.bal(a),
                                a,
                                entries0,
                                manager0,
                                i as int,
                            );
                        }
                        assert forall|a: Seq<char>|
                            self.fee_account.bal(a) == MarketAgent::settled_fee_all(
                                old(self).fee_account.bal(a),
                                a,
                                entries0.subrange(0, i as int + 1),
                                manager0,
                            ) by {
                            lemma_settled_all_step(
                                old(self).account.bal(a),
                                old(self).fee_account.bal(a),
                                a,
                                entries0,
                                manager0,
                                i as int,
                            );
                        }
                    }
                },
                Option::Some(info_ref) => {
                    let info = info_ref.clone();
                    proof {
                        crate::symbol::lemma_spec_get_wf(self.symbol_info_manager, symbol@);
                    }
                    let mut j: usize = 0;
                    let ghost entries_mid = self.market_by_symbol@;
                    let ghost acc_base = self.account;
                    let ghost fee_base = self.fee_account;
                    proof {
                        assert(prefix_results + MarketAgent::results_of(
                            events@.subrange(0, 0),
                            symbol,
                            old(comms).clock,
                        ) =~= prefix_results);
                        assert(events@.subrange(0, 0) =~= Seq::<MarketEvent>::empty());
                    }
                    while j < events.len()
                        invariant
                            j <= events@.len(),
                            self.agent_wf(),
                            info.wf(),
                            old(self).same_static(*self),
                            self.last_account_summary_send_time == old(
                                self,
                            ).last_account_summary_send_time,
                            self.market_by_symbol@ == entries_mid,
                            comms.wf(),
                            old(comms).same_topology(*comms),
                            comms.clock == old(comms).clock,
                            comms.terminated == old(comms).terminated,
                            self.handles_ok(*comms),
                            crate::comms::topic_carried(
                                *old(comms),
                                *comms,
                                self.order_result_topic.slot as int,
                                prefix_results + MarketAgent::results_of(
                                    events@.subrange(0, j as int),
                                    symbol,
                                    old(comms).clock,
                                ),
                            ),
                            forall|a: Seq<char>|
                                self.account.bal(a) == MarketAgent::settle_events_bal(
                                    acc_base.bal(a),
                                    a,
                                    events@.subrange(0, j as int),
                                    info,
                                ),
                            forall|a: Seq<char>|
                                self.fee_account.bal(a) == MarketAgent::settle_events_fee_bal(
                                    fee_base.bal(a),
                                    a,
                                    events@.subrange(0, j as int),
                                    info,
                                ),
                        decreases events@.len() - j,
                    {
                        let ev_is_buy = match events[j].side {
                            TradeSide::Buy => true,
                            TradeSide::Sell => false,
                        };
                        proof {
                            assert(events@[j as int].price * events@[j as int].quantity
                                <= u64::MAX);
                        }
                        let r = calc_trade_result(&info, events[j].price, events[j].quantity, ev_is_buy);
                        let vol = events[j].price * events[j].quantity;
                        self.stats.on_order_filled(events[j].quantity, vol, ev_is_buy);
                        let ghost acc_pre = self.account;
                        let ghost fee_pre = self.fee_account;
                        self.fee_account.add_balance_capped(&r.fee_asset, r.fee_qty);
                        self.account.consume_locked_capped(&r.pay_asset, r.pay_qty);
                        let ghost acc_mid = self.account;
                        self.account.add_balance_capped(&r.recv_asset, r.recv_qty);
                        proof {
                            let ghost ev = events@[j as int];
                            let ghost t = crate::symbol::spec_trade_result(
                                info,
                                ev.price,
                                ev.quantity,
                                ev.side == TradeSide::Buy,
                            );
                            assert(events@.subrange(0, j as int + 1).drop_last() =~= events@.subrange(
                                0,
                                j as int,
                            ));
                            assert(events@.subrange(0, j as int + 1).last() == ev);
                            assert forall|a: Seq<char>|
                                self.account.bal(a) == MarketAgent::settle_account_bal(
                                    acc_pre.bal(a),
                                    a,
                                    ev,
                                    info,
                                ) by {
                                if a != t.0 {
                                    assert(acc_mid.bal(a) == acc_pre.bal(a));
                                }
                                if a != t.2 {
                                    assert(self.account.bal(a) == acc_mid.bal(a));
                                }
                            }
                            assert forall|a: Seq<char>|
                                self.fee_account.bal(a) == MarketAgent::settle_fee_bal(
                                    fee_pre.bal(a),
                                    a,
                                    ev,
                                    info,
                                ) by {
                                if a != t.2 {
                                    assert(self.fee_account.bal(a) == fee_pre.bal(a));
                                }
                            }
                        }
                        let now = comms.time();
                        let fully = events[j].remain_qty_to_fill == 0;
                        let result_msg = Message {
                            header: MessageHeader { commit_at: now },
                            payload: Payload::OrderResult(
                                OrderResult {
                                    symbol: symbol.clone(),
                                    at: now,
                                    client_order_id: events[j].order_id.clone(),
                                    filled_quantity: events[j].quantity,
                                    price: events[j].price,
                                    is_buy: ev_is_buy,
                                    status: if fully {
                                        OrderStatus::Filled
                                    } else {
                                        OrderStatus::PartiallyFilled
                                    },
                                },
                            ),
                        };
                        let ghost gmsg = result_msg;
                        let ghost c1 = *comms;
                        comms.publish(&self.order_result_topic, result_msg);
                        proof {
                            lemma_same_topology_trans(*old(comms), c1, *comms);
                            assert(gmsg == MarketAgent::result_message(
                                events@[j as int],
                                symbol,
                                old(comms).clock,
                            ));
                            crate::comms::lemma_topic_carried_snoc(
                                *old(comms),
                                c1,
                                *comms,
                                self.order_result_topic.slot as int,
                                prefix_results + MarketAgent::results_of(
                                    events@.subrange(0, j as int),
                                    symbol,
                                    old(comms).clock,
                                ),
                                gmsg,
                            );
                            assert((prefix_results + MarketAgent::results_of(
                                events@.subrange(0, j as int),
                                symbol,
                                old(comms).clock,
                            )).push(gmsg) =~= prefix_results + MarketAgent::results_of(
                                events@.subrange(0, j as int + 1),
                                symbol,
                                old(comms).clock,
                            ));
                        }
                        let assets = vec![r.pay_asset.clone(), r.recv_asset.clone()];
                        let upd = Self::make_account_update_for_asset(&self.account, &assets);
                        let update_msg = Message {
                            header: MessageHeader { commit_at: now },
                            payload: Payload::AccountUpdate(upd),
                        };
                        let ghost c2 = *comms;
                        comms.publish(&self.account_topic, update_msg);
                        proof {
                            lemma_same_topology_trans(*old(comms), c2, *comms);
                            crate::comms::lemma_topic_carried_other(
                                *old(comms),
                                c2,
                                *comms,
                                self.order_result_topic.slot as int,
                                prefix_results + MarketAgent::results_of(
                                    events@.subrange(0, j as int + 1),
                                    symbol,
                                    old(comms).clock,
                                ),
                                self.account_topic.slot as int,
                                update_msg,
                            );
                        }
                        j = j + 1;
                    }
                    proof {
                        assert(events@.subrange(0, events@.len() as int) =~= events@);
                        lemma_agent_results_step(
                            entries0,
                            self.symbol_info_manager,
                            old(comms).clock,
                            i as int,
                        );
                        assert(MarketAgent::agent_results(
                            entries0.subrange(0, i as int + 1),
                            self.symbol_info_manager,
                            old(comms).clock,
                        ) =~= prefix_results + MarketAgent::results_of(
                            events@,
                            entries0[i as int].0,
                            old(comms).clock,
                        ));
                        assert(MarketAgent::results_of(events@, entries0[i as int].0, old(comms).clock)
                            =~= MarketAgent::results_of(events@, symbol, old(comms).clock));
                        assert(manager0.spec_get(entries0[i as int].0@) == Some(info));
                        assert forall|a: Seq<char>|
                            self.account.bal(a) == MarketAgent::settled_bal_all(
                                old(self).account.bal(a),
                                a,
                                entries0.subrange(0, i as int + 1),
                                manager0,
                            ) by {
                            lemma_settled_all_step(
                                old(self).account.bal(a),
                                old(self).fee_account.bal(a),
                                a,
                                entries0,
                                manager0,
                                i as int,
                            );
                        }
                        assert forall|a: Seq<char>|
                            self.fee_account.bal(a) == MarketAgent::settled_fee_all(
                                old(self).fee_account.bal(a),
                                a,
                                entries0.subrange(0, i as int + 1),
                                manager0,
                            ) by {
                            lemma_settled_all_step(
                                old(self).account.bal(a),
                                old(self).fee_account.bal(a),
                                a,
                                entries0,
                                manager0,
                                i as int,
                            );
                        }
                    }
                },
            }
            i = i + 1;
        }
        proof {
            assert(entries0.subrange(0, entries0.len() as int) =~= entries0);
        }
    }

    /// Whether a summary is due: the configured interval of virtual
    /// time has passed since the last one.
    pub open spec fn summary_due(self, now: u64) -> bool {
        now >= self.last_account_summary_send_time && now - self.last_account_summary_send_time
            > self.account_summary_interval
    }

    /// Publishes a full account summary once the configured interval of
    /// virtual time has passed since the last one: one `AccountUpdate`
    /// listing every asset held with its current balances, on the
    /// account topic. Off the interval, nothing happens at all.
    pub fn maybe_send_summary(&mut self, comms: &mut CommsState)
        requires
            old(self).agent_wf(),
            old(comms).wf(),
            old(self).handles_ok(*old(comms)),
        ensures
            final(self).agent_wf(),
            final(comms).wf(),
            old(comms).same_topology(*final(comms)),
            final(self).handles_ok(*final(comms)),
            final(comms).clock == old(comms).clock,
            final(comms).terminated == old(comms).terminated,
            old(self).same_static(*final(self)),
            final(self).account == old(self).account,
            final(self).fee_account == old(self).fee_account,
            final(self).stats == old(self).stats,
            final(self).market_by_symbol == old(self).market_by_symbol,
            final(self).last_account_summary_send_time == if old(self).summary_due(
                old(comms).clock,
            ) {
                old(comms).clock
            } else {
                old(self).last_account_summary_send_time
            },
            forall|i: int|
                0 <= i < old(comms).mailboxes@.len() && (#[trigger] old(comms).mailboxes@[i]).topic
                    != old(self).account_topic.slot ==> final(comms).mailboxes@[i] == old(
                    comms,
                ).mailboxes@[i],
            forall|j: int|
                0 <= j < old(comms).topics@.len() && j != old(self).account_topic.slot
                    ==> final(comms).topics@[j] == old(comms).topics@[j],
            old(self).summary_due(old(comms).clock) ==> exists|u: AccountUpdate|
                #[trigger] u.updates@ == MarketAgent::summary_view(old(self).account)
                    && crate::comms::topic_carried(
                    *old(comms),
                    *final(comms),
                    old(self).account_topic.slot as int,
                    seq![
                        Message {
                            header: MessageHeader { commit_at: old(comms).clock },
                            payload: Payload::AccountUpdate(u),
                        },
                    ],
                ),
            !old(self).summary_due(old(comms).clock) ==> *final(comms) == *old(comms),
    {
        let now = comms.time();
        if now >= self.last_account_summary_send_time && now - self.last_account_summary_send_time
            > self.account_summary_interval {
            self.last_account_summary_send_time = now;
            let upd = Self::make_account_update(&self.account);
            let ghost gupd = upd;
            let msg = Message {
                header: MessageHeader { commit_at: now },
                payload: Payload::AccountUpdate(upd),
            };
            let ghost gmsg = msg;
            let ghost c0 = *comms;
            comms.publish(&self.account_topic, msg);
            proof {
                crate::comms::lemma_topic_carried_empty(c0, self.account_topic.slot as int);
                crate::comms::lemma_topic_carried_snoc(
                    c0,
                    c0,
                    *comms,
                    self.account_topic.slot as int,
                    Seq::empty(),
                    gmsg,
                );
                assert(Seq::<Message>::empty().push(gmsg) =~= seq![gmsg]);
            }
        }
    }

    /// The account-update payload for a chosen list of assets, read off
    /// the current balances.
    pub fn make_account_update_for_asset(account: &Account, assets: &Vec<String>) -> (u:
        AccountUpdate)
        requires
            account.wf(),
        ensures
            u.updates@.len() == assets@.len(),
            forall|k: int|
                0 <= k < assets@.len() ==> (#[trigger] u.updates@[k]).0@ == assets@[k]@
                    && u.updates@[k].1 == (AccountAssetUpdate {
                    balance: account.bal(assets@[k]@).balance,
                    locked: account.bal(assets@[k]@).locked,
                }),
    {
        let mut updates: Vec<(String, AccountAssetUpdate)> = Vec::new();
        let mut i: usize = 0;
        while i < assets.len()
            invariant
                i <= assets@.len(),
                account.wf(),
                updates@.len() == i,
                forall|k: int|
                    0 <= k < i ==> (#[trigger] updates@[k]).0@ == assets@[k]@ && updates@[k].1 == (
                    AccountAssetUpdate {
                        balance: account.bal(assets@[k]@).balance,
                        locked: account.bal(assets@[k]@).locked,
                    }),
            decreases assets@.len() - i,
        {
            let b = account.get(&assets[i]);
            updates.push((assets[i].clone(), AccountAssetUpdate { balance: b.balance, locked: b.locked }));
            i = i + 1;
        }
        AccountUpdate { updates }
    }

    /// The entries a full account summary lists: every asset the
    /// account holds, in its own order, with its current balances.
    pub open spec fn summary_view(account: Account) -> Seq<(String, AccountAssetUpdate)> {
        Seq::new(
            account.asset_to_balance@.len(),
            |k: int|
                (
                    account.asset_to_balance@[k].0,
                    AccountAssetUpdate {
                        balance: account.asset_to_balance@[k].1.balance,
                        locked: account.asset_to_balance@[k].1.locked,
                    },
                ),
        )
    }

    /// The account-update payload covering every asset the account holds.
    pub fn make_account_update(account: &Account) -> (u: AccountUpdate)
        ensures
            u.updates@ == MarketAgent::summary_view(*account),
            u.updates@.len() == account.asset_to_balance@.len(),
            forall|k: int|
                0 <= k < u.updates@.len() ==> (#[trigger] u.updates@[k]).0@
                    == account.asset_to_balance@[k].0@ && u.updates@[k].1 == (AccountAssetUpdate {
                    balance: account.asset_to_balance@[k].1.balance,
                    locked: account.asset_to_balance@[k].1.locked,
                }),
    {
        let mut updates: Vec<(String, AccountAssetUpdate)> = Vec::new();
        let mut i: usize = 0;
        while i < account.asset_to_balance.len()
            invariant
                i <= account.asset_to_balance@.len(),
                updates@.len() == i,
                forall|k: int|
                    0 <= k < i ==> (#[trigger] updates@[k]).0 == account.asset_to_balance@[k].0
                        && updates@[k].1 == (AccountAssetUpdate {
                        balance: account.asset_to_balance@[k].1.balance,
                        locked: account.asset_to_balance@[k].1.locked,
                    }),
            decreases account.asset_to_balance@.len() - i,
        {
            let (asset, b) = &account.asset_to_balance[i];
            updates.push((asset.clone(), AccountAssetUpdate { balance: b.balance, locked: b.locked }));
            i = i + 1;
        }
        proof {
            assert(updates@ =~= MarketAgent::summary_view(*account));
        }
        AccountUpdate { updates }
    }
}

} // verus!
