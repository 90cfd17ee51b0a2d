//! Order-related records exchanged between modules.
//!
//! Prices and quantities are fixed-point integers in units chosen by the
//! caller; one consistent scale must be used across a run.

use vstd::prelude::*;

verus! {

#[derive(Debug, Clone, Copy, PartialEq, Eq, Structural)]
pub enum TradeSide {
    Buy,
    Sell,
}

#[derive(Debug, Clone, Copy, PartialEq, Eq, Structural)]
pub enum TradeType {
    Limit,
    LimitMaker,
    Market,
}

#[derive(Debug, Clone, Copy, PartialEq, Eq, Structural)]
pub enum TimeInForce {
    GoodTilCancelled,
    ImmediateOrCancelled,
    FillOrKill,
}

#[derive(Debug, Clone, Copy, PartialEq, Eq, Structural)]
pub enum OrderStatus {
    New,
    PartiallyFilled,
    Filled,
    Canceled,
    Rejected,
    Expired,
    ExpiredInMatch,
}

/// A request to place an order, carried on the `order` topic.
#[derive(Debug)]
pub struct OrderRequest {
    pub symbol: String,
    pub side: TradeSide,
    pub price: u64,
    pub quantity: u64,
    pub trade_type: TradeType,
    pub time_in_force: TimeInForce,
    pub client_order_id: String,
    pub cancel_order_id: Option<String>,
}

impl Clone for OrderRequest {
    fn clone(&self) -> (r: Self)
        ensures
            r == *self,
    {
        OrderRequest {
            symbol: self.symbol.clone(),
            side: self.side,
            price: self.price,
            quantity: self.quantity,
            trade_type: self.trade_type,
            time_in_force: self.time_in_force,
            client_order_id: self.client_order_id.clone(),
            cancel_order_id: match &self.cancel_order_id {
                Some(id) => Some(id.clone()),
                None => None,
            },
        }
    }
}

/// A request to remove a resting order, carried on the `order` topic.
#[derive(Debug)]
pub struct CancelOrderRequest {
    pub symbol: String,
    pub client_order_id: String,
}

impl Clone for CancelOrderRequest {
    fn clone(&self) -> (r: Self)
        ensures
            r == *self,
    {
        CancelOrderRequest {
            symbol: self.symbol.clone(),
            client_order_id: self.client_order_id.clone(),
        }
    }
}

/// The matching engine's reply about one order, carried on the
/// `order_result` topic.
#[derive(Debug)]
pub struct OrderResult {
    pub symbol: String,
    pub at: u64,
    pub client_order_id: String,
    pub filled_quantity: u64,
    pub price: u64,
    pub is_buy: bool,
    pub status: OrderStatus,
}

impl Clone for OrderResult {
    fn clone(&self) -> (r: Self)
        ensures
            r == *self,
    {
        OrderResult {
            symbol: self.symbol.clone(),
            at: self.at,
            client_order_id: self.client_order_id.clone(),
            filled_quantity: self.filled_quantity,
            price: self.price,
            is_buy: self.is_buy,
            status: self.status,
        }
    }
}

} // verus!
