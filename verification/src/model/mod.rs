//! The data that flows between clients and exchanges.
use vstd::prelude::*;
use crate::model::balance::SymbolBalance;
use crate::model::market::Exchange;
use crate::model::order::{Cancelled, Open, Order};
use crate::model::trade::Trade;

pub mod market;
pub mod balance;
pub mod order;
pub mod trade;

verus! {

/// Identifier that the client gave an order: the 128 bits of a UUID.
#[derive(Copy, Clone, Eq, PartialEq, Ord, PartialOrd, Hash, Debug, Structural)]
pub struct ClientOrderId(pub u128);

/// Whether a client can trade.
#[derive(Copy, Clone, Eq, PartialEq, Debug, Structural)]
pub enum ClientStatus {
    Connected,
    CancelOnly,
    Disconnected,
}

/// Whether a connection to an exchange can trade.
#[derive(Copy, Clone, Eq, PartialEq, Debug, Structural)]
pub enum ConnectionStatus {
    Connected,
    CancelOnly,
    Disconnected,
}

/// Identifies an execution client together with its set up.
#[derive(Debug)]
pub enum ClientId {
    Simulated(crate::simulated::Config),
}

/// An event of an account, with the time it was received (milliseconds since the Unix epoch)
/// and the exchange it came from.
#[derive(Debug)]
pub struct AccountEvent {
    pub received_time: i64,
    pub exchange: Exchange,
    pub kind: AccountEventKind,
}

/// What happened to an account.
#[derive(Debug)]
pub enum AccountEventKind {
    Balances(Vec<SymbolBalance>),
    OrdersOpen(Vec<Order<Open>>),
    OrdersNew(Vec<Order<Open>>),
    OrdersCancelled(Vec<Order<Cancelled>>),
    Balance(SymbolBalance),
    Trade(Trade),
}

} // verus!
