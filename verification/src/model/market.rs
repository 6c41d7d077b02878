//! Market identifiers: exchanges, symbols, instruments, sides and public trades.
use vstd::prelude::*;

verus! {

/// Name of an exchange, such as "binance".
#[derive(Debug, Eq, Hash)]
pub struct Exchange(pub String);

impl View for Exchange {
    type V = Seq<char>;

    open spec fn view(&self) -> Seq<char> {
        self.0@
    }
}

impl Clone for Exchange {
    fn clone(&self) -> (r: Self)
        ensures
            r == *self,
    {
        Exchange(self.0.clone())
    }
}

impl PartialEq for Exchange {
    fn eq(&self, other: &Self) -> (r: bool) {
        self.0 == other.0
    }
}

impl vstd::std_specs::cmp::PartialEqSpecImpl for Exchange {
    open spec fn obeys_eq_spec() -> bool {
        true
    }

    open spec fn eq_spec(&self, other: &Self) -> bool {
        self@ == other@
    }
}

/// Name of an asset, such as "btc" or "usdt".
#[derive(Debug, Eq, Hash)]
pub struct Symbol(pub String);

impl View for Symbol {
    type V = Seq<char>;

    open spec fn view(&self) -> Seq<char> {
        self.0@
    }
}

impl Clone for Symbol {
    fn clone(&self) -> (r: Self)
        ensures
            r == *self,
    {
        Symbol(self.0.clone())
    }
}

impl PartialEq for Symbol {
    fn eq(&self, other: &Self) -> (r: bool) {
        self.0 == other.0
    }
}

impl vstd::std_specs::cmp::PartialEqSpecImpl for Symbol {
    open spec fn obeys_eq_spec() -> bool {
        true
    }

    open spec fn eq_spec(&self, other: &Self) -> bool {
        self@ == other@
    }
}

/// Kind of an instrument.
#[derive(Copy, Clone, Eq, PartialEq, Hash, Debug, Structural)]
pub enum InstrumentKind {
    Spot,
    FuturePerpetual,
}

/// A base/quote pair and its kind, such as btc/usdt spot.
#[derive(Debug, Eq, Hash)]
pub struct Instrument {
    pub base: Symbol,
    pub quote: Symbol,
    pub kind: InstrumentKind,
}

impl View for Instrument {
    type V = (Seq<char>, Seq<char>, InstrumentKind);

    open spec fn view(&self) -> (Seq<char>, Seq<char>, InstrumentKind) {
        (self.base@, self.quote@, self.kind)
    }
}

impl Clone for Instrument {
    fn clone(&self) -> (r: Self)
        ensures
            r == *self,
    {
        Instrument { base: self.base.clone(), quote: self.quote.clone(), kind: self.kind }
    }
}

impl PartialEq for Instrument {
    fn eq(&self, other: &Self) -> (r: bool) {
        self.base == other.base && self.quote == other.quote && self.kind == other.kind
    }
}

impl vstd::std_specs::cmp::PartialEqSpecImpl for Instrument {
    open spec fn obeys_eq_spec() -> bool {
        true
    }

    open spec fn eq_spec(&self, other: &Self) -> bool {
        self@ == other@
    }
}

/// Direction of an order or a trade.
#[derive(Copy, Clone, Eq, PartialEq, Hash, Debug, Structural)]
pub enum Side {
    Buy,
    Sell,
}

/// A trade that happened in the public market. Prices are in quote units per base unit and
/// quantities in base units, both as integers of the smallest unit.
#[derive(Debug)]
pub struct PublicTrade {
    pub id: String,
    pub price: u64,
    pub quantity: u64,
    pub side: Side,
}

} // verus!
