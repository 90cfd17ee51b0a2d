//! Recorded market events: individual trades and top-of-book quotes.

use vstd::prelude::*;

verus! {

/// One recorded trade. `is_buyer_maker == true` means the seller was the
/// aggressor. `time` is milliseconds since the epoch.
#[derive(Debug)]
pub struct BinanceTradeTick {
    pub id: u64,
    pub price: u64,
    pub qty: u64,
    pub base_qty: u64,
    pub time: u64,
    pub is_buyer_maker: bool,
    pub symbol: String,
}

impl Clone for BinanceTradeTick {
    fn clone(&self) -> (r: Self)
        ensures
            r == *self,
    {
        BinanceTradeTick {
            id: self.id,
            price: self.price,
            qty: self.qty,
            base_qty: self.base_qty,
            time: self.time,
            is_buyer_maker: self.is_buyer_maker,
            symbol: self.symbol.clone(),
        }
    }
}

/// One top-of-book snapshot. `event_time` is milliseconds since the epoch.
#[derive(Debug)]
pub struct BinanceBookTicker {
    pub update_id: u64,
    pub best_bid_price: u64,
    pub best_bid_qty: u64,
    pub best_ask_price: u64,
    pub best_ask_qty: u64,
    pub transaction_time: u64,
    pub event_time: u64,
    pub symbol: String,
}

impl Clone for BinanceBookTicker {
    fn clone(&self) -> (r: Self)
        ensures
            r == *self,
    {
        BinanceBookTicker {
            update_id: self.update_id,
            best_bid_price: self.best_bid_price,
            best_bid_qty: self.best_bid_qty,
            best_ask_price: self.best_ask_price,
            best_ask_qty: self.best_ask_qty,
            transaction_time: self.transaction_time,
            event_time: self.event_time,
            symbol: self.symbol.clone(),
        }
    }
}

} // verus!
