//! Errors of execution clients and of the simulated exchange.
use vstd::prelude::*;
use crate::model::ClientOrderId;
use crate::model::market::Instrument;
use crate::socket::SocketError;

verus! {

/// An error of an execution client.
#[derive(Debug)]
pub enum ExecutionError {
    Socket(SocketError),
    Simulated(SimulatedError),
}

/// An error of the simulated exchange.
#[derive(Debug)]
pub enum SimulatedError {
    /// An order was requested for an instrument that the exchange is not configured for.
    OpenUnknownInstrument(Instrument),
    /// A cancel was requested for an instrument that the exchange is not configured for.
    CancelUnknownInstrument(Instrument),
    /// A cancel was requested for a client order id of no open order.
    CancelUnknownClientOrderId(ClientOrderId),
    /// A balance would leave the range of an `i128`.
    BalanceOverflow,
    /// The trade number would leave the range of a `u64`.
    TradeNumberOverflow,
}

} // verus!
