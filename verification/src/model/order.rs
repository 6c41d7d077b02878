//! Orders and the states an order passes through.
use vstd::prelude::*;
use vstd::std_specs::cmp::PartialEqSpec;
use crate::model::ClientOrderId;
use crate::model::market::{Exchange, Instrument, Side};

verus! {

/// An order on an exchange, in the state `State`.
#[derive(Debug, Eq)]
pub struct Order<State> {
    pub exchange: Exchange,
    pub instrument: Instrument,
    pub cid: ClientOrderId,
    pub state: State,
}

impl<State: Clone> Clone for Order<State> {
    fn clone(&self) -> (r: Self)
        ensures
            r.exchange == self.exchange,
            r.instrument == self.instrument,
            r.cid == self.cid,
            cloned::<State>(self.state, r.state),
    {
        Order {
            exchange: self.exchange.clone(),
            instrument: self.instrument.clone(),
            cid: self.cid,
            state: self.state.clone(),
        }
    }
}

impl<State: PartialEq> PartialEq for Order<State> {
    fn eq(&self, other: &Self) -> (r: bool) {
        self.exchange == other.exchange && self.instrument == other.instrument && self.cid
            == other.cid && self.state == other.state
    }
}

impl<State: PartialEq> vstd::std_specs::cmp::PartialEqSpecImpl for Order<State> {
    open spec fn obeys_eq_spec() -> bool {
        State::obeys_eq_spec()
    }

    open spec fn eq_spec(&self, other: &Self) -> bool {
        &&& self.exchange@ == other.exchange@
        &&& self.instrument@ == other.instrument@
        &&& self.cid == other.cid
        &&& self.state.eq_spec(&other.state)
    }
}

/// A request to open an order. Price is in quote units per base unit, quantity in base units.
#[derive(Copy, Clone, Eq, PartialEq, Debug, Structural)]
pub struct RequestOpen {
    pub kind: OrderKind,
    pub side: Side,
    pub price: u64,
    pub quantity: u64,
}

/// How an order is to be executed.
#[derive(Copy, Clone, Eq, PartialEq, Hash, Debug, Structural)]
pub enum OrderKind {
    Market,
    Limit,
    PostOnly,
    ImmediateOrCancel,
}

/// An order that was sent and has not been answered yet.
#[derive(Copy, Clone, Eq, PartialEq, Hash, Debug, Structural)]
pub struct InFlight;

/// A request to cancel an order.
#[derive(Copy, Clone, Eq, PartialEq, Hash, Debug, Structural)]
pub struct RequestCancel;

/// An order resting on the exchange. `filled_quantity` of `quantity` has been traded.
#[derive(Debug, Eq)]
pub struct Open {
    pub id: OrderId,
    pub side: Side,
    pub price: u64,
    pub quantity: u64,
    pub filled_quantity: u64,
}

impl Clone for Open {
    fn clone(&self) -> (r: Self)
        ensures
            r == *self,
    {
        Open {
            id: self.id.clone(),
            side: self.side,
            price: self.price,
            quantity: self.quantity,
            filled_quantity: self.filled_quantity,
        }
    }
}

impl PartialEq for Open {
    fn eq(&self, other: &Self) -> (r: bool) {
        self.id == other.id && self.side == other.side && self.price == other.price
            && self.quantity == other.quantity && self.filled_quantity == other.filled_quantity
    }
}

impl vstd::std_specs::cmp::PartialEqSpecImpl for Open {
    open spec fn obeys_eq_spec() -> bool {
        true
    }

    open spec fn eq_spec(&self, other: &Self) -> bool {
        &&& self.id@ == other.id@
        &&& self.side == other.side
        &&& self.price == other.price
        &&& self.quantity == other.quantity
        &&& self.filled_quantity == other.filled_quantity
    }
}

impl Open {
    /// The quantity that is still to be traded.
    pub open spec fn spec_remaining_quantity(&self) -> int {
        self.quantity - self.filled_quantity
    }

    /// The quantity that is still to be traded; negative where more than the quantity traded.
    pub fn remaining_quantity(&self) -> (r: i128)
        ensures
            r == self.spec_remaining_quantity(),
    {
        self.quantity as i128 - self.filled_quantity as i128
    }
}

/// An order that has been cancelled.
#[derive(Copy, Clone, Eq, PartialEq, Hash, Debug, Structural)]
pub struct Cancelled;

/// Identifier that the exchange gave an order.
#[derive(Debug, Eq, Hash)]
pub struct OrderId(pub String);

impl View for OrderId {
    type V = Seq<char>;

    open spec fn view(&self) -> Seq<char> {
        self.0@
    }
}

impl Clone for OrderId {
    fn clone(&self) -> (r: Self)
        ensures
            r == *self,
    {
        OrderId(self.0.clone())
    }
}

impl PartialEq for OrderId {
    fn eq(&self, other: &Self) -> (r: bool) {
        self.0 == other.0
    }
}

impl vstd::std_specs::cmp::PartialEqSpecImpl for OrderId {
    open spec fn obeys_eq_spec() -> bool {
        true
    }

    open spec fn eq_spec(&self, other: &Self) -> bool {
        self@ == other@
    }
}

impl OrderId {
    pub fn new<S: Into<String>>(id: S) -> (r: Self)
        ensures
            call_ensures(<S as Into<String>>::into, (id,), r.0),
    {
        Self(id.into())
    }
}

impl<'a> From<&'a Order<RequestOpen>> for Order<InFlight> {
    fn from(request: &'a Order<RequestOpen>) -> (r: Self) {
        Order {
            exchange: request.exchange.clone(),
            instrument: request.instrument.clone(),
            cid: request.cid,
            state: InFlight,
        }
    }
}

impl<'a> vstd::std_specs::convert::FromSpecImpl<&'a Order<RequestOpen>> for Order<InFlight> {
    open spec fn obeys_from_spec() -> bool {
        true
    }

    open spec fn from_spec(request: &'a Order<RequestOpen>) -> Self {
        Order {
            exchange: request.exchange,
            instrument: request.instrument,
            cid: request.cid,
            state: InFlight,
        }
    }
}

} // verus!
