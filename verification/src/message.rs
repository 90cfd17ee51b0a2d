//! Messages carried on topics: a header with the virtual commit time and
//! one payload variant.

use vstd::prelude::*;

use crate::market_data::BinanceBookTicker;
use crate::market_data::BinanceTradeTick;
use crate::order::CancelOrderRequest;
use crate::order::OrderRequest;
use crate::order::OrderResult;

verus! {

/// Post-event balances of one asset.
#[derive(Debug, Clone, Copy, PartialEq, Eq, Structural)]
pub struct AccountAssetUpdate {
    pub balance: u64,
    pub locked: u64,
}

/// Post-event balances for the touched assets (or all assets, in a
/// periodic summary).
#[derive(Debug)]
pub struct AccountUpdate {
    pub updates: Vec<(String, AccountAssetUpdate)>,
}

/// Two update lists carry the same information when their entries agree.
/// (A `Vec`'s abstract value is not pinned by its contents in specs, so
/// equality of whole `AccountUpdate` values is stated this way instead.)
pub open spec fn account_update_equiv(a: AccountUpdate, b: AccountUpdate) -> bool {
    a.updates@ == b.updates@
}

impl Clone for AccountUpdate {
    fn clone(&self) -> (r: Self)
        ensures
            account_update_equiv(r, *self),
    {
        let mut updates: Vec<(String, AccountAssetUpdate)> = Vec::new();
        let mut i: usize = 0;
        while i < self.updates.len()
            invariant
                i <= self.updates.len(),
                updates@ == self.updates@.subrange(0, i as int),
            decreases self.updates.len() - i,
        {
            let (asset, upd) = &self.updates[i];
            updates.push((asset.clone(), *upd));
            proof {
                assert(updates@ =~= self.updates@.subrange(0, i + 1 as int));
            }
            i = i + 1;
        }
        proof {
            assert(updates@ =~= self.updates@);
        }
        AccountUpdate { updates }
    }
}

/// What a message carries.
#[derive(Debug)]
pub enum Payload {
    BinanceTradeTick(BinanceTradeTick),
    OrderRequest(OrderRequest),
    CancelOrderRequest(CancelOrderRequest),
    OrderResult(OrderResult),
    AccountUpdate(AccountUpdate),
    BinanceBookTicker(BinanceBookTicker),
}

/// Payloads carrying the same information: equal values, except that
/// account updates are compared entry by entry.
pub open spec fn payload_equiv(a: Payload, b: Payload) -> bool {
    match (a, b) {
        (Payload::AccountUpdate(x), Payload::AccountUpdate(y)) => account_update_equiv(x, y),
        _ => a == b,
    }
}

impl Clone for Payload {
    fn clone(&self) -> (r: Self)
        ensures
            payload_equiv(r, *self),
    {
        match self {
            Payload::BinanceTradeTick(t) => Payload::BinanceTradeTick(t.clone()),
            Payload::OrderRequest(t) => Payload::OrderRequest(t.clone()),
            Payload::CancelOrderRequest(t) => Payload::CancelOrderRequest(t.clone()),
            Payload::OrderResult(t) => Payload::OrderResult(t.clone()),
            Payload::AccountUpdate(t) => Payload::AccountUpdate(t.clone()),
            Payload::BinanceBookTicker(t) => Payload::BinanceBookTicker(t.clone()),
        }
    }
}

/// `commit_at` is the virtual-clock instant of publication, in
/// nanoseconds since the epoch.
#[derive(Debug, Clone, Copy, PartialEq, Eq, Structural)]
pub struct MessageHeader {
    pub commit_at: u64,
}

#[derive(Debug)]
pub struct Message {
    pub header: MessageHeader,
    pub payload: Payload,
}

/// Messages carrying the same information at the same commit time.
pub open spec fn message_equiv(a: Message, b: Message) -> bool {
    a.header == b.header && payload_equiv(a.payload, b.payload)
}

impl Clone for Message {
    fn clone(&self) -> (r: Self)
        ensures
            message_equiv(r, *self),
    {
        Message { header: self.header, payload: self.payload.clone() }
    }
}

} // verus!
