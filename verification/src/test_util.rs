//! Values that tests and examples start from.
use vstd::prelude::*;
use crate::model::ClientOrderId;
use crate::model::market::{Exchange, Instrument, InstrumentKind, Side, Symbol};
use crate::model::order::{Open, Order, OrderId};
use crate::support::uuid_v4;

verus! {

/// An open btc/usdt perpetual order on "exchange", with id "id" and a random client order id.
pub fn order_open(side: Side, price: u64, quantity: u64, filled: u64) -> (r: Order<Open>)
    ensures
        r.exchange@ == "exchange"@,
        r.instrument.base@ == "btc"@,
        r.instrument.quote@ == "usdt"@,
        r.instrument.kind == InstrumentKind::FuturePerpetual,
        r.state.id@ == "id"@,
        r.state.side == side,
        r.state.price == price,
        r.state.quantity == quantity,
        r.state.filled_quantity == filled,
{
    Order {
        exchange: Exchange("exchange".to_owned()),
        instrument: Instrument {
            base: Symbol("btc".to_owned()),
            quote: Symbol("usdt".to_owned()),
            kind: InstrumentKind::FuturePerpetual,
        },
        cid: ClientOrderId(uuid_v4()),
        state: Open { id: OrderId("id".to_owned()), side, price, quantity, filled_quantity: filled },
    }
}

} // verus!
