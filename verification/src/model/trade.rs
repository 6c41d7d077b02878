//! Trades of the account's own orders.
use vstd::prelude::*;
use crate::model::market::{Instrument, Side, Symbol};
use crate::model::order::OrderId;

verus! {

/// Identifier of a trade.
#[derive(Debug, Eq, Hash)]
pub struct TradeId(pub String);

impl View for TradeId {
    type V = Seq<char>;

    open spec fn view(&self) -> Seq<char> {
        self.0@
    }
}

impl Clone for TradeId {
    fn clone(&self) -> (r: Self)
        ensures
            r == *self,
    {
        TradeId(self.0.clone())
    }
}

impl PartialEq for TradeId {
    fn eq(&self, other: &Self) -> (r: bool) {
        self.0 == other.0
    }
}

impl vstd::std_specs::cmp::PartialEqSpecImpl for TradeId {
    open spec fn obeys_eq_spec() -> bool {
        true
    }

    open spec fn eq_spec(&self, other: &Self) -> bool {
        self@ == other@
    }
}

impl TradeId {
    pub fn new<S: Into<String>>(id: S) -> (r: Self)
        ensures
            call_ensures(<S as Into<String>>::into, (id,), r.0),
    {
        Self(id.into())
    }
}

/// Fees of a trade, in millionths of the smallest unit of `symbol`.
#[derive(Debug, Eq)]
pub struct SymbolFees {
    pub symbol: Symbol,
    pub fees: u128,
}

impl Clone for SymbolFees {
    fn clone(&self) -> (r: Self)
        ensures
            r == *self,
    {
        SymbolFees { symbol: self.symbol.clone(), fees: self.fees }
    }
}

impl PartialEq for SymbolFees {
    fn eq(&self, other: &Self) -> (r: bool) {
        self.symbol == other.symbol && self.fees == other.fees
    }
}

impl vstd::std_specs::cmp::PartialEqSpecImpl for SymbolFees {
    open spec fn obeys_eq_spec() -> bool {
        true
    }

    open spec fn eq_spec(&self, other: &Self) -> bool {
        self.symbol@ == other.symbol@ && self.fees == other.fees
    }
}

impl SymbolFees {
    pub fn new(symbol: Symbol, fees: u128) -> (r: Self)
        ensures
            r.symbol == symbol,
            r.fees == fees,
    {
        SymbolFees { symbol, fees }
    }
}

/// A trade of one of the account's orders.
#[derive(Debug, Eq)]
pub struct Trade {
    pub id: TradeId,
    pub order_id: OrderId,
    pub instrument: Instrument,
    pub side: Side,
    pub price: u64,
    pub quantity: u64,
    pub fees: SymbolFees,
}

impl PartialEq for Trade {
    fn eq(&self, other: &Self) -> (r: bool) {
        self.id == other.id && self.order_id == other.order_id && self.instrument
            == other.instrument && self.side == other.side && self.price == other.price
            && self.quantity == other.quantity && self.fees == other.fees
    }
}

impl vstd::std_specs::cmp::PartialEqSpecImpl for Trade {
    open spec fn obeys_eq_spec() -> bool {
        true
    }

    open spec fn eq_spec(&self, other: &Self) -> bool {
        &&& self.id@ == other.id@
        &&& self.order_id@ == other.order_id@
        &&& self.instrument@ == other.instrument@
        &&& self.side == other.side
        &&& self.price == other.price
        &&& self.quantity == other.quantity
        &&& self.fees.symbol@ == other.fees.symbol@
        &&& self.fees.fees == other.fees.fees
    }
}

} // verus!
