//! Balances of symbols held by an account.
use vstd::prelude::*;
use crate::model::market::Symbol;

verus! {

/// Total and available amount of one symbol, in millionths of its smallest unit.
#[derive(Copy, Clone, PartialEq, Eq, Debug, Structural)]
pub struct Balance {
    pub total: i128,
    pub available: i128,
}

/// The balance of a named symbol.
#[derive(Debug, Eq)]
pub struct SymbolBalance {
    pub symbol: Symbol,
    pub balance: Balance,
}

impl Clone for SymbolBalance {
    fn clone(&self) -> (r: Self)
        ensures
            r == *self,
    {
        SymbolBalance { symbol: self.symbol.clone(), balance: self.balance }
    }
}

impl PartialEq for SymbolBalance {
    fn eq(&self, other: &Self) -> (r: bool) {
        self.symbol == other.symbol && self.balance == other.balance
    }
}

impl vstd::std_specs::cmp::PartialEqSpecImpl for SymbolBalance {
    open spec fn obeys_eq_spec() -> bool {
        true
    }

    open spec fn eq_spec(&self, other: &Self) -> bool {
        self.symbol@ == other.symbol@ && self.balance == other.balance
    }
}

impl SymbolBalance {
    pub fn new(symbol: Symbol, balance: Balance) -> (r: Self)
        ensures
            r.symbol == symbol,
            r.balance == balance,
    {
        SymbolBalance { symbol, balance }
    }
}

} // verus!
