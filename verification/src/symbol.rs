//! Symbol metadata and per-fill settlement arithmetic.

use vstd::prelude::*;

use vstd::arithmetic::div_mod::lemma_div_is_ordered;
use vstd::arithmetic::div_mod::lemma_div_multiples_vanish;
use vstd::arithmetic::div_mod::lemma_fundamental_div_mod;
use vstd::arithmetic::mul::lemma_mul_inequality;

verus! {

/// Fee rates are expressed in parts per million of the received amount.
pub const FEE_DENOM: u64 = 1000000;

/// Immutable description of one trading pair.
#[derive(Debug)]
pub struct SymbolInfo {
    pub base_asset: String,
    pub quote_asset: String,
    pub fee_ppm: u64,
}

impl SymbolInfo {
    /// A fee can take at most the whole received amount.
    pub open spec fn wf(self) -> bool {
        self.fee_ppm <= FEE_DENOM
    }
}

impl Clone for SymbolInfo {
    fn clone(&self) -> (r: Self)
        ensures
            r == *self,
    {
        SymbolInfo {
            base_asset: self.base_asset.clone(),
            quote_asset: self.quote_asset.clone(),
            fee_ppm: self.fee_ppm,
        }
    }
}

/// Configured trading pairs, keyed by symbol name. Frozen after
/// configuration; each symbol appears at most once.
#[derive(Debug, Default)]
pub struct SymbolInfoManager {
    pub symbol_info: Vec<(String, SymbolInfo)>,
}

/// The metadata recorded for `symbol`, if any.
pub open spec fn seq_info(entries: Seq<(String, SymbolInfo)>, symbol: Seq<char>) -> Option<
    SymbolInfo,
>
    decreases entries.len(),
{
    if entries.len() == 0 {
        None
    } else if entries.last().0@ == symbol {
        Some(entries.last().1)
    } else {
        seq_info(entries.drop_last(), symbol)
    }
}

impl SymbolInfoManager {
    pub open spec fn spec_get(self, symbol: Seq<char>) -> Option<SymbolInfo> {
        seq_info(self.symbol_info@, symbol)
    }

    pub open spec fn wf(self) -> bool {
        &&& forall|i: int, j: int|
            0 <= i < j < self.symbol_info@.len() ==> self.symbol_info@[i].0@
                != self.symbol_info@[j].0@
        &&& forall|i: int| 0 <= i < self.symbol_info@.len() ==> (#[trigger] self.symbol_info@[i].1).wf()
    }

    pub fn new() -> (m: SymbolInfoManager)
        ensures
            m.wf(),
            m.symbol_info@.len() == 0,
    {
        SymbolInfoManager { symbol_info: Vec::new() }
    }

    /// Records one trading pair. A symbol configured twice keeps its first
    /// record.
    pub fn with_symbol_config(
        self,
        symbol: String,
        base_asset: String,
        quote_asset: String,
        fee_ppm: u64,
    ) -> (m: SymbolInfoManager)
        requires
            self.wf(),
            fee_ppm <= FEE_DENOM,
        ensures
            m.wf(),
            m.spec_get(symbol@) == if self.spec_get(symbol@) is Some {
                self.spec_get(symbol@)
            } else {
                Some(SymbolInfo { base_asset, quote_asset, fee_ppm })
            },
            forall|s: Seq<char>| s != symbol@ ==> m.spec_get(s) == self.spec_get(s),
    {
        let mut m = self;
        match m.find_idx(&symbol) {
            Some(_) => {
                proof {
                    lemma_seq_info_found(m.symbol_info@, symbol@);
                }
                m
            },
            None => {
                let ghost entries0 = m.symbol_info@;
                let entry = (symbol, SymbolInfo { base_asset, quote_asset, fee_ppm });
                let ghost e = entry;
                m.symbol_info.push(entry);
                proof {
                    assert(m.symbol_info@ == entries0.push(e));
                    assert forall|s: Seq<char>| #[trigger]
                        seq_info(m.symbol_info@, s) == if s == e.0@ {
                            Some(e.1)
                        } else {
                            seq_info(entries0, s)
                        } by {
                        assert(m.symbol_info@.last() == e);
                        assert(m.symbol_info@.drop_last() =~= entries0);
                    }
                    lemma_seq_info_absent(entries0, e.0@);
                }
                m
            },
        }
    }

    fn find_idx(&self, symbol: &String) -> (r: Option<usize>)
        ensures
            match r {
                Some(i) => i < self.symbol_info@.len() && self.symbol_info@[i as int].0@ == symbol@,
                None => forall|i: int|
                    0 <= i < self.symbol_info@.len() ==> (#[trigger] self.symbol_info@[i]).0@
                        != symbol@,
            },
    {
        let mut i: usize = 0;
        while i < self.symbol_info.len()
            invariant
                i <= self.symbol_info@.len(),
                forall|k: int| 0 <= k < i ==> (#[trigger] self.symbol_info@[k]).0@ != symbol@,
            decreases self.symbol_info@.len() - i,
        {
            if self.symbol_info[i].0 == *symbol {
                return Some(i);
            }
            i = i + 1;
        }
        None
    }

    /// The metadata for `symbol`, if that pair was configured.
    pub fn get(&self, symbol: &String) -> (r: Option<&SymbolInfo>)
        requires
            self.wf(),
        ensures
            match r {
                Some(info) => self.spec_get(symbol@) == Some(*info),
                None => self.spec_get(symbol@) is None,
            },
    {
        match self.find_idx(symbol) {
            Some(i) => {
                proof {
                    lemma_seq_info_at(self.symbol_info@, i as int);
                }
                Some(&self.symbol_info[i].1)
            },
            None => {
                proof {
                    lemma_seq_info_absent(self.symbol_info@, symbol@);
                }
                None
            },
        }
    }
}

proof fn lemma_seq_info_absent(entries: Seq<(String, SymbolInfo)>, symbol: Seq<char>)
    requires
        forall|i: int| 0 <= i < entries.len() ==> (#[trigger] entries[i]).0@ != symbol,
    ensures
        seq_info(entries, symbol) is None,
    decreases entries.len(),
{
    if entries.len() > 0 {
        lemma_seq_info_absent(entries.drop_last(), symbol);
    }
}

proof fn lemma_seq_info_found(entries: Seq<(String, SymbolInfo)>, symbol: Seq<char>)
    requires
        exists|i: int| 0 <= i < entries.len() && (#[trigger] entries[i]).0@ == symbol,
    ensures
        seq_info(entries, symbol) is Some,
    decreases entries.len(),
{
    if entries.last().0@ != symbol {
        let i = choose|i: int| 0 <= i < entries.len() && (#[trigger] entries[i]).0@ == symbol;
        assert(entries.drop_last()[i] == entries[i]);
        lemma_seq_info_found(entries.drop_last(), symbol);
    }
}

proof fn lemma_seq_info_at(entries: Seq<(String, SymbolInfo)>, i: int)
    requires
        forall|k: int, j: int| 0 <= k < j < entries.len() ==> entries[k].0@ != entries[j].0@,
        0 <= i < entries.len(),
    ensures
        seq_info(entries, entries[i].0@) == Some(entries[i].1),
    decreases entries.len(),
{
    if i < entries.len() - 1 {
        assert(entries.last().0@ != entries[i].0@);
        assert(entries.drop_last()[i] == entries[i]);
        lemma_seq_info_at(entries.drop_last(), i);
    }
}

/// Every record a well-formed manager hands out is itself well formed.
pub proof fn lemma_spec_get_wf(m: SymbolInfoManager, symbol: Seq<char>)
    requires
        m.wf(),
        m.spec_get(symbol) is Some,
    ensures
        (m.spec_get(symbol)->Some_0).wf(),
{
    lemma_seq_info_wf(m.symbol_info@, symbol);
}

proof fn lemma_seq_info_wf(entries: Seq<(String, SymbolInfo)>, symbol: Seq<char>)
    requires
        forall|i: int| 0 <= i < entries.len() ==> (#[trigger] entries[i].1).wf(),
        seq_info(entries, symbol) is Some,
    ensures
        (seq_info(entries, symbol)->Some_0).wf(),
    decreases entries.len(),
{
    if entries.len() > 0 && entries.last().0@ != symbol {
        lemma_seq_info_wf(entries.drop_last(), symbol);
    }
}

/// What one fill settles to: the paying and receiving side and the fee,
/// which is charged on the received asset.
#[derive(Debug)]
pub struct SymbolTradeResult {
    pub pay_asset: String,
    pub recv_asset: String,
    pub fee_asset: String,
    pub pay_qty: u64,
    pub recv_qty: u64,
    pub fee_qty: u64,
}

/// The fee taken out of a gross received amount: `fee_ppm` millionths,
/// rounded down.
pub open spec fn spec_fee(gross: u64, fee_ppm: u64) -> int {
    (gross * fee_ppm) / (FEE_DENOM as int)
}

/// A fee never exceeds the gross amount it is charged on.
pub proof fn lemma_fee_within_gross(gross: u64, fee_ppm: u64)
    requires
        fee_ppm <= FEE_DENOM,
    ensures
        0 <= spec_fee(gross, fee_ppm) <= gross,
{
    lemma_mul_inequality(fee_ppm as int, FEE_DENOM as int, gross as int);
    lemma_div_is_ordered(gross * fee_ppm, gross * FEE_DENOM, FEE_DENOM as int);
    lemma_div_multiples_vanish(gross as int, FEE_DENOM as int);
}

/// The net received amount equals the gross scaled by `1 - fee rate`,
/// exactly up to the rounding of the fee: scaled back up by the fee
/// denominator, it lands within one denominator of the exact product.
pub proof fn lemma_net_of_fee(gross: u64, fee_ppm: u64)
    requires
        fee_ppm <= FEE_DENOM,
    ensures
        (FEE_DENOM as int) * (gross - spec_fee(gross, fee_ppm)) >= gross * ((FEE_DENOM - fee_ppm)
            as int),
        (FEE_DENOM as int) * (gross - spec_fee(gross, fee_ppm)) < gross * ((FEE_DENOM - fee_ppm)
            as int) + FEE_DENOM,
{
    let d = FEE_DENOM as int;
    let g = gross as int;
    let p = fee_ppm as int;
    lemma_fundamental_div_mod(g * p, d);
    assert(g * p == d * spec_fee(gross, fee_ppm) + (g * p) % d);
    assert(d * (g - spec_fee(gross, fee_ppm)) == d * g - d * spec_fee(gross, fee_ppm))
        by (nonlinear_arith);
    assert(g * (d - p) == g * d - g * p) by (nonlinear_arith);
    assert(d * g == g * d) by (nonlinear_arith);
}

/// What one fill settles to, over asset names: the paying asset and
/// amount, the receiving asset and net amount, and the fee amount
/// (charged on the receiving asset).
pub open spec fn spec_trade_result(info: SymbolInfo, price: u64, qty: u64, is_buy: bool) -> (
    Seq<char>,
    int,
    Seq<char>,
    int,
    int,
) {
    let pay_asset = if is_buy {
        info.quote_asset@
    } else {
        info.base_asset@
    };
    let recv_asset = if is_buy {
        info.base_asset@
    } else {
        info.quote_asset@
    };
    let pay_qty: int = if is_buy {
        price * qty
    } else {
        qty as int
    };
    let gross: int = if is_buy {
        qty as int
    } else {
        price * qty
    };
    let fee_qty = (gross * info.fee_ppm) / (FEE_DENOM as int);
    (pay_asset, pay_qty, recv_asset, gross - fee_qty, fee_qty)
}

/// Settlement of one fill of `qty` at `price`: a buy pays `price * qty`
/// of the quote asset and receives `qty` of the base asset; a sell is
/// symmetric. The fee comes out of the received amount.
pub fn calc_trade_result(
    symbol_info: &SymbolInfo,
    price: u64,
    qty: u64,
    is_buy: bool,
) -> (r: SymbolTradeResult)
    requires
        symbol_info.wf(),
        price * qty <= u64::MAX,
    ensures
        r.pay_asset@ == if is_buy {
            symbol_info.quote_asset@
        } else {
            symbol_info.base_asset@
        },
        r.recv_asset@ == if is_buy {
            symbol_info.base_asset@
        } else {
            symbol_info.quote_asset@
        },
        r.fee_asset@ == r.recv_asset@,
        r.pay_qty == if is_buy {
            price * qty
        } else {
            qty as int
        },
        ({
            let gross: u64 = if is_buy {
                qty
            } else {
                (price * qty) as u64
            };
            &&& r.fee_qty == spec_fee(gross, symbol_info.fee_ppm)
            &&& r.recv_qty == gross - r.fee_qty
        }),
        ({
            let t = spec_trade_result(*symbol_info, price, qty, is_buy);
            &&& r.pay_asset@ == t.0
            &&& r.pay_qty == t.1
            &&& r.recv_asset@ == t.2
            &&& r.recv_qty == t.3
            &&& r.fee_asset@ == t.2
            &&& r.fee_qty == t.4
        }),
{
    let (pay_qty, pay_asset, gross, recv_asset) = if is_buy {
        (
            price * qty,
            symbol_info.quote_asset.clone(),
            qty,
            symbol_info.base_asset.clone(),
        )
    } else {
        (
            qty,
            symbol_info.base_asset.clone(),
            price * qty,
            symbol_info.quote_asset.clone(),
        )
    };
    let fee_asset = recv_asset.clone();
    proof {
        lemma_fee_within_gross(gross, symbol_info.fee_ppm);
    }
    let fee_wide: u128 = (gross as u128) * (symbol_info.fee_ppm as u128) / (FEE_DENOM as u128);
    let fee_qty: u64 = fee_wide as u64;
    let recv_qty = gross - fee_qty;
    SymbolTradeResult { pay_asset, recv_asset, pay_qty, recv_qty, fee_asset, fee_qty }
}

} // verus!
