//! The messages exchanged with Binance for live market data. The connection and the
//! transformation of Binance's messages are the caller's.
use vstd::prelude::*;

verus! {

/// A request sent to Binance.
#[derive(Copy, Clone, Debug)]
pub struct BinanceRequest;

/// A message in Barter's own terms.
#[derive(Copy, Clone, Debug)]
pub struct BarterMessage;

} // verus!
