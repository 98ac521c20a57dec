//! Requests the engine takes from the order queue, and the entries of the
//! engine's own order log.

use vstd::prelude::*;
use crate::order_utils::{OrderType, Side};

verus! {

/// A request to the matching engine.
#[derive(Debug, Clone, Copy, PartialEq, Eq, Structural)]
pub enum OrderRequest {
    PlaceOrder {
        order_id: u64,
        user_id: u64,
        symbol_id: u32,
        side: Side,
        price: u64,
        quantity: u64,
        order_type: OrderType,
    },
    CancelOrder { order_id: u64, user_id: u64, symbol_id: u32 },
}

/// One trade of a logged trade batch.
#[derive(Debug, Clone, Copy, PartialEq, Eq, Structural)]
pub struct TradeLogEntry {
    pub trade_id: u64,
    pub buy_order_id: u64,
    pub sell_order_id: u64,
    pub price: u64,
    pub quantity: u64,
}

/// An entry of the engine's order log.
#[derive(Debug, Clone)]
pub enum LogEntry {
    PlaceOrder {
        order_id: u64,
        symbol_id: u32,
        side: Side,
        price: u64,
        quantity: u64,
        user_id: u64,
        timestamp: u64,
    },
    CancelOrder { order_id: u64, symbol_id: u32, timestamp: u64 },
    Trade { trade_id: u64, buy_order_id: u64, sell_order_id: u64, price: u64, quantity: u64 },
    TradeBatch(Vec<TradeLogEntry>),
}

} // verus!
