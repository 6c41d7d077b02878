//! The account that the simulated exchange keeps for its client: balances, resting orders per
//! instrument, and the matching of those orders against public trades.
use vstd::prelude::*;
use crate::model::balance::{Balance, SymbolBalance};
use crate::model::market::{Instrument, PublicTrade, Side, Symbol};
use crate::model::order::{Open, Order};
use crate::model::trade::{SymbolFees, Trade, TradeId};
use crate::model::{AccountEvent, AccountEventKind};
use crate::error::{ExecutionError, SimulatedError};
use crate::simulated::book::{book_has, book_index, book_wf, clone_orders, Book};
use crate::support::{decimal, u64_to_string};

verus! {

/// Fees are charged in parts per million of the traded amount, and balances and fees are
/// counted in millionths of a unit, so that every fee is exact.
pub const FEE_SCALE: u64 = 1_000_000;

/// Every order in `s` has traded at most its quantity.
pub open spec fn orders_wf(s: Seq<Order<Open>>) -> bool {
    forall|i: int| 0 <= i < s.len() ==> #[trigger] s[i].state.filled_quantity <= s[i].state.quantity
}

/// Bids are kept in ascending price order, so the best (highest) bid is last.
pub open spec fn bids_sorted(s: Seq<Order<Open>>) -> bool {
    forall|i: int, j: int| 0 <= i <= j < s.len() ==> s[i].state.price <= s[j].state.price
}

/// Asks are kept in descending price order, so the best (lowest) ask is last.
pub open spec fn asks_sorted(s: Seq<Order<Open>>) -> bool {
    forall|i: int, j: int| 0 <= i <= j < s.len() ==> s[i].state.price >= s[j].state.price
}

/// The open orders of the client for one instrument.
#[derive(Debug)]
pub struct ClientOrders {
    pub bids: Vec<Order<Open>>,
    pub asks: Vec<Order<Open>>,
}

impl ClientOrders {
    /// Both sides are sorted with the best order last, and no order has traded more than its
    /// quantity.
    pub open spec fn wf(&self) -> bool {
        &&& bids_sorted(self.bids@)
        &&& asks_sorted(self.asks@)
        &&& orders_wf(self.bids@)
        &&& orders_wf(self.asks@)
    }

    /// The best bid is at or above the trade's price.
    pub open spec fn spec_has_matching_bid(&self, trade_price: u64) -> bool {
        self.bids@.len() > 0 && self.bids@.last().state.price >= trade_price
    }

    /// The best ask is at or below the trade's price.
    pub open spec fn spec_has_matching_ask(&self, trade_price: u64) -> bool {
        self.asks@.len() > 0 && self.asks@.last().state.price <= trade_price
    }

    pub fn has_matching_bid(&self, trade: &PublicTrade) -> (r: bool)
        ensures
            r == self.spec_has_matching_bid(trade.price),
    {
        match self.bids.last() {
            Some(best_bid) => best_bid.state.price >= trade.price,
            None => false,
        }
    }

    pub fn has_matching_ask(&self, trade: &PublicTrade) -> (r: bool)
        ensures
            r == self.spec_has_matching_ask(trade.price),
    {
        match self.asks.last() {
            Some(best_ask) => best_ask.state.price <= trade.price,
            None => false,
        }
    }

    pub fn num_orders(&self) -> (r: usize)
        requires
            self.bids@.len() + self.asks@.len() <= usize::MAX,
        ensures
            r == self.bids@.len() + self.asks@.len(),
    {
        self.bids.len() + self.asks.len()
    }
}

/// The orders of one instrument in the account's table.
#[derive(Debug)]
pub struct InstrumentOrders {
    pub instrument: Instrument,
    pub orders: ClientOrders,
}

/// Whether a matched order is filled whole or in part.
#[derive(Copy, Clone, PartialEq, Eq, Debug, Structural)]
pub enum OrderFill {
    Full,
    Partial,
}

/// Some balance in `b` is of the symbol `s`.
pub open spec fn has_symbol(b: Seq<SymbolBalance>, s: Seq<char>) -> bool {
    exists|i: int| 0 <= i < b.len() && #[trigger] b[i].symbol@ == s
}

/// The position of the balance of `s` in `b`.
pub open spec fn symbol_index(b: Seq<SymbolBalance>, s: Seq<char>) -> int {
    choose|i: int| 0 <= i < b.len() && #[trigger] b[i].symbol@ == s
}

/// No symbol has two balances.
pub open spec fn symbols_distinct(b: Seq<SymbolBalance>) -> bool {
    forall|i: int, j: int|
        0 <= i < b.len() && 0 <= j < b.len() && #[trigger] b[i].symbol@ == #[trigger] b[j].symbol@
            ==> i == j
}

/// Some entry of `o` holds the orders of the instrument `ins`.
pub open spec fn has_instrument(
    o: Seq<InstrumentOrders>,
    ins: (Seq<char>, Seq<char>, crate::model::market::InstrumentKind),
) -> bool {
    exists|i: int| 0 <= i < o.len() && #[trigger] o[i].instrument@ == ins
}

/// The position of the orders of `ins` in `o`.
pub open spec fn instrument_index(
    o: Seq<InstrumentOrders>,
    ins: (Seq<char>, Seq<char>, crate::model::market::InstrumentKind),
) -> int {
    choose|i: int| 0 <= i < o.len() && #[trigger] o[i].instrument@ == ins
}

/// No instrument has two entries.
pub open spec fn instruments_distinct(o: Seq<InstrumentOrders>) -> bool {
    forall|i: int, j: int|
        0 <= i < o.len() && 0 <= j < o.len() && #[trigger] o[i].instrument@
            == #[trigger] o[j].instrument@ ==> i == j
}

/// Fees on `amount` units at `fees_ppm` parts per million, in millionths of a unit: exact.
pub open spec fn fee_of(fees_ppm: u64, amount: int) -> int {
    amount * fees_ppm
}

/// The price times the quantity of a match of `quantity` of `order`, in millionths of a unit,
/// fits in a `u128`.
pub open spec fn match_in_range(order: Order<Open>, quantity: u64) -> bool {
    order.state.price * quantity * FEE_SCALE <= u128::MAX
}

/// The symbol in which a match of `order` is charged: the base for a buy, the quote for a sell.
pub open spec fn fee_symbol(order: Order<Open>) -> Symbol {
    match order.state.side {
        Side::Buy => order.instrument.base,
        Side::Sell => order.instrument.quote,
    }
}

/// The fees of a match of `quantity` of `order`: a share of the quantity bought, or of the price
/// times the quantity sold.
pub open spec fn fee_amount(fees_ppm: u64, order: Order<Open>, quantity: u64) -> int {
    match order.state.side {
        Side::Buy => fee_of(fees_ppm, quantity as int),
        Side::Sell => fee_of(fees_ppm, order.state.price * quantity),
    }
}

/// The fees of a match of `quantity` of `order`, with their symbol.
pub open spec fn match_fees(fees_ppm: u64, order: Order<Open>, quantity: u64) -> SymbolFees {
    SymbolFees { symbol: fee_symbol(order), fees: fee_amount(fees_ppm, order, quantity) as u128 }
}

pub open spec fn in_i128(x: int) -> bool {
    i128::MIN <= x <= i128::MAX
}

/// The base total, base available, quote total and quote available after a match of `quantity`
/// at `price` with `fees`. A buy adds the quantity less fees to the base and takes the price
/// times the quantity from the quote total (the quote available was taken when the order
/// opened). A sell takes the quantity from the base total and adds the price times the quantity
/// less fees to the quote (the base available was taken when the order opened).
pub open spec fn matched_amounts(
    side: Side,
    base: Balance,
    quote: Balance,
    price: u64,
    quantity: u64,
    fees: int,
) -> (int, int, int, int) {
    match side {
        Side::Buy => (
            base.total + quantity * FEE_SCALE - fees,
            base.available + quantity * FEE_SCALE - fees,
            quote.total - price * quantity * FEE_SCALE,
            quote.available as int,
        ),
        Side::Sell => (
            base.total - quantity * FEE_SCALE,
            base.available as int,
            quote.total + price * quantity * FEE_SCALE - fees,
            quote.available + price * quantity * FEE_SCALE - fees,
        ),
    }
}

pub open spec fn amounts_fit(a: (int, int, int, int)) -> bool {
    in_i128(a.0) && in_i128(a.1) && in_i128(a.2) && in_i128(a.3)
}

pub open spec fn base_of(a: (int, int, int, int)) -> Balance {
    Balance { total: a.0 as i128, available: a.1 as i128 }
}

pub open spec fn quote_of(a: (int, int, int, int)) -> Balance {
    Balance { total: a.2 as i128, available: a.3 as i128 }
}

/// The amounts after matching `quantity` of `order` with fees `fees`, from the balances `bal`.
pub open spec fn step_amounts(
    bal: Seq<SymbolBalance>,
    order: Order<Open>,
    quantity: u64,
    fees: int,
) -> (int, int, int, int) {
    matched_amounts(
        order.state.side,
        bal[symbol_index(bal, order.instrument.base@)].balance,
        bal[symbol_index(bal, order.instrument.quote@)].balance,
        order.state.price,
        quantity,
        fees,
    )
}

/// `bal` with the base balance of `order` set and then its quote balance set, from `a`.
pub open spec fn write_amounts(
    bal: Seq<SymbolBalance>,
    order: Order<Open>,
    a: (int, int, int, int),
) -> Seq<SymbolBalance> {
    let bi = symbol_index(bal, order.instrument.base@);
    let qi = symbol_index(bal, order.instrument.quote@);
    let b1 = bal.update(bi, SymbolBalance { symbol: bal[bi].symbol, balance: base_of(a) });
    b1.update(qi, SymbolBalance { symbol: b1[qi].symbol, balance: quote_of(a) })
}

/// Every event of `events` was received at `time`.
pub open spec fn received_at(events: Seq<AccountEvent>, time: i64) -> bool {
    forall|k: int| 0 <= k < events.len() ==> (#[trigger] events[k]).received_time == time
}

/// `e` reports the new base and quote balances `a` of a match of `order`.
#[verifier::opaque]
pub open spec fn is_balance_event(e: AccountEvent, order: Order<Open>, a: (int, int, int, int)) -> bool {
    &&& e.exchange == order.exchange
    &&& e.kind matches AccountEventKind::Balances(v) && v@ == seq![
        SymbolBalance { symbol: order.instrument.base, balance: base_of(a) },
        SymbolBalance { symbol: order.instrument.quote, balance: quote_of(a) },
    ]
}

/// `e` reports trade number `number` of `quantity` of `order`, with `fees`.
#[verifier::opaque]
pub open spec fn is_trade_event(
    e: AccountEvent,
    order: Order<Open>,
    quantity: u64,
    fees: SymbolFees,
    number: int,
) -> bool {
    &&& e.exchange == order.exchange
    &&& e.kind matches AccountEventKind::Trade(t) && {
        &&& t.id@ == decimal(number as nat)
        &&& t.order_id == order.state.id
        &&& t.instrument == order.instrument
        &&& t.side == order.state.side
        &&& t.price == order.state.price
        &&& t.quantity == quantity
        &&& t.fees == fees
    }
}

/// Matching the bids `bids` (best, highest, last) against a public trade at `price` with
/// `liquidity` left to trade. The best bid is taken while its price is at or above the trade's
/// and liquidity is left: a bid that the liquidity covers is filled whole and leaves the book
/// (matching stops once the liquidity is used up exactly), a bid it does not cover trades the
/// rest of the liquidity and stays as it was. Returns the bids that remain and the matches, best bid
/// first, each the order and the quantity it traded.
pub open spec fn bid_matches(bids: Seq<Order<Open>>, price: u64, liquidity: u64) -> (
    Seq<Order<Open>>,
    Seq<(Order<Open>, u64)>,
)
    decreases bids.len(),
{
    if bids.len() == 0 {
        (bids, Seq::empty())
    } else {
        let best = bids.last();
        let remaining = best.state.spec_remaining_quantity();
        if best.state.price < price || liquidity == 0 {
            (bids, Seq::empty())
        } else if remaining <= liquidity {
            let fill = (best, remaining as u64);
            let left = (liquidity - remaining) as u64;
            if left == 0 {
                (bids.drop_last(), seq![fill])
            } else {
                let rest = bid_matches(bids.drop_last(), price, left);
                (rest.0, seq![fill] + rest.1)
            }
        } else {
            (bids, seq![(best, liquidity)])
        }
    }
}

/// What is left of the bids after matching is a prefix of them, and the `k`-th match is of the
/// `k`-th best bid.
pub proof fn lemma_bid_matches_shape(bids: Seq<Order<Open>>, price: u64, liquidity: u64)
    ensures
        ({
            let m = bid_matches(bids, price, liquidity);
            &&& m.0.len() <= bids.len()
            &&& m.0 == bids.take(m.0.len() as int)
            &&& m.1.len() <= bids.len()
            &&& forall|k: int| 0 <= k < m.1.len() ==> (#[trigger] m.1[k]).0 == bids[bids.len() - 1 - k]
        }),
    decreases bids.len(),
{
    if bids.len() > 0 {
        let best = bids.last();
        let remaining = best.state.spec_remaining_quantity();
        assert(bids.take(bids.len() as int) =~= bids);
        if !(best.state.price < price || liquidity == 0) && remaining <= liquidity {
            let left = (liquidity - remaining) as u64;
            lemma_bid_matches_shape(bids.drop_last(), price, left);
            let rest = bid_matches(bids.drop_last(), price, left);
            assert(bids.drop_last().take(rest.0.len() as int) =~= bids.take(rest.0.len() as int));
            assert(bids.drop_last().take(bids.len() - 1) =~= bids.drop_last());
        }
    }
}

/// The matches of the best bids of `bids`, the `k`-th trading `quantities[k]`.
pub open spec fn fills_of(bids: Seq<Order<Open>>, quantities: Seq<u64>) -> Seq<(Order<Open>, u64)> {
    Seq::new(quantities.len(), |k: int| (bids[bids.len() - 1 - k], quantities[k]))
}

/// Plans the matching of `bids` against a trade at `price` with `liquidity`: returns how many
/// bids remain and the quantities traded, the `k`-th by the `k`-th best bid.
fn plan_bid_matches(bids: &Vec<Order<Open>>, price: u64, liquidity: u64) -> (r: (usize, Vec<u64>))
    requires
        orders_wf(bids@),
    ensures
        r.0 <= bids@.len(),
        bid_matches(bids@, price, liquidity).0 == bids@.take(r.0 as int),
        r.1@.len() <= bids@.len(),
        bid_matches(bids@, price, liquidity).1 == fills_of(bids@, r.1@),
{
    let ghost all = bid_matches(bids@, price, liquidity);
    let mut n: usize = bids.len();
    let mut left: u64 = liquidity;
    let mut fills: Vec<u64> = Vec::new();
    assert(bids@.take(n as int) =~= bids@);
    loop
        invariant
            n <= bids@.len(),
            orders_wf(bids@),
            all == bid_matches(bids@, price, liquidity),
            fills@.len() == bids@.len() - n,
            ({
                let rest = bid_matches(bids@.take(n as int), price, left);
                &&& all.0 == rest.0
                &&& all.1 == Seq::new(
                    fills@.len(),
                    |k: int| (bids@[bids@.len() - 1 - k], fills@[k]),
                ) + rest.1
            }),
        decreases n,
    {
        let ghost cur = bids@.take(n as int);
        let ghost done = Seq::new(fills@.len(), |k: int| (bids@[bids@.len() - 1 - k], fills@[k]));
        if n == 0 {
            assert(all.1 =~= done);
            assert(all.0 =~= bids@.take(0));
            return (0, fills);
        }
        let best = &bids[n - 1];
        assert(cur.last() == bids@[n - 1]);
        if best.state.price < price || left == 0 {
            assert(all.1 =~= done);
            return (n, fills);
        }
        let remaining = best.state.quantity - best.state.filled_quantity;
        assert(cur.drop_last() =~= bids@.take(n - 1));
        if remaining <= left {
            left = left - remaining;
            fills.push(remaining);
            n = n - 1;
            let ghost done2 = Seq::new(
                fills@.len(),
                |k: int| (bids@[bids@.len() - 1 - k], fills@[k]),
            );
            assert(done2 =~= done + seq![(bids@[n as int], remaining)]);
            if left == 0 {
                assert(all.1 =~= done2);
                return (n, fills);
            }
        } else {
            fills.push(left);
            let ghost done2 = Seq::new(
                fills@.len(),
                |k: int| (bids@[bids@.len() - 1 - k], fills@[k]),
            );
            assert(done2 =~= done + seq![(bids@[n - 1], left)]);
            assert(all.1 =~= done2);
            return (n, fills);
        }
    }
}

/// The balances after applying `fills` in turn, from `bal`, or `None` where an amount of some
/// match does not fit in an `i128`, or its price times quantity, in millionths, not in a `u128`.
pub open spec fn balances_after_matches(
    fees_ppm: u64,
    bal: Seq<SymbolBalance>,
    fills: Seq<(Order<Open>, u64)>,
) -> Option<Seq<SymbolBalance>>
    decreases fills.len(),
{
    if fills.len() == 0 {
        Some(bal)
    } else {
        match balances_after_matches(fees_ppm, bal, fills.drop_last()) {
            None => None,
            Some(b) => {
                let o = fills.last().0;
                let q = fills.last().1;
                let a = step_amounts(b, o, q, fee_amount(fees_ppm, o, q));
                if match_in_range(o, q) && amounts_fit(a) {
                    Some(write_amounts(b, o, a))
                } else {
                    None
                }
            },
        }
    }
}

/// The balances just before the `j`-th of `fills` is applied.
pub open spec fn balances_before_match(
    fees_ppm: u64,
    bal: Seq<SymbolBalance>,
    fills: Seq<(Order<Open>, u64)>,
    j: int,
) -> Seq<SymbolBalance> {
    balances_after_matches(fees_ppm, bal, fills.take(j)).unwrap()
}

/// The base and quote symbols of every matched order have balances.
pub open spec fn matches_configured(bal: Seq<SymbolBalance>, fills: Seq<(Order<Open>, u64)>) -> bool {
    forall|k: int|
        0 <= k < fills.len() ==> has_symbol(bal, (#[trigger] fills[k]).0.instrument.base@)
            && has_symbol(bal, fills[k].0.instrument.quote@)
}

/// `events` report `fills` in turn, each by a trade event and a balances event, the trades
/// numbered on from `trade_number`.
pub open spec fn reports_matches(
    events: Seq<AccountEvent>,
    fees_ppm: u64,
    bal: Seq<SymbolBalance>,
    fills: Seq<(Order<Open>, u64)>,
    trade_number: int,
) -> bool {
    &&& events.len() == 2 * fills.len()
    &&& forall|j: int|
        0 <= j < fills.len() ==> {
            &&& is_trade_event(
                events[2 * j],
                (#[trigger] fills[j]).0,
                fills[j].1,
                match_fees(fees_ppm, fills[j].0, fills[j].1),
                trade_number + j + 1,
            )
            &&& is_balance_event(
                events[2 * j + 1],
                fills[j].0,
                step_amounts(
                    balances_before_match(fees_ppm, bal, fills, j),
                    fills[j].0,
                    fills[j].1,
                    fee_amount(fees_ppm, fills[j].0, fills[j].1),
                ),
            )
        }
}

/// Writing the amounts of a match changes balances, never symbols.
proof fn lemma_write_keeps_symbols(bal: Seq<SymbolBalance>, o: Order<Open>, a: (int, int, int, int))
    requires
        has_symbol(bal, o.instrument.base@),
        has_symbol(bal, o.instrument.quote@),
    ensures
        write_amounts(bal, o, a).len() == bal.len(),
        forall|i: int|
            0 <= i < bal.len() ==> (#[trigger] write_amounts(bal, o, a)[i]).symbol == bal[i].symbol,
{
    let bi = symbol_index(bal, o.instrument.base@);
    let qi = symbol_index(bal, o.instrument.quote@);
    assert(0 <= bi < bal.len() && 0 <= qi < bal.len());
}

/// Balances with the same symbols at the same places have the same symbols and find them at the
/// same places.
proof fn lemma_same_symbols(b1: Seq<SymbolBalance>, b2: Seq<SymbolBalance>)
    requires
        b1.len() == b2.len(),
        forall|i: int| 0 <= i < b1.len() ==> (#[trigger] b2[i]).symbol == b1[i].symbol,
        symbols_distinct(b1),
    ensures
        symbols_distinct(b2),
        forall|s: Seq<char>| #[trigger] has_symbol(b2, s) == has_symbol(b1, s),
        forall|s: Seq<char>| has_symbol(b1, s) ==> #[trigger] symbol_index(b2, s) == symbol_index(b1, s),
{
    assert forall|i: int, j: int|
        0 <= i < b2.len() && 0 <= j < b2.len() && #[trigger] b2[i].symbol@ == #[trigger] b2[j].symbol@
        implies i == j by {
        assert(b1[i].symbol@ == b1[j].symbol@);
    }
    assert forall|s: Seq<char>| #[trigger] has_symbol(b2, s) == has_symbol(b1, s) by {
        if has_symbol(b1, s) {
            let i = symbol_index(b1, s);
            assert(b2[i].symbol@ == s);
        }
        if has_symbol(b2, s) {
            let i = symbol_index(b2, s);
            assert(b1[i].symbol@ == s);
        }
    }
    assert forall|s: Seq<char>| has_symbol(b1, s) implies #[trigger] symbol_index(b2, s) == symbol_index(b1, s) by {
        let i = symbol_index(b1, s);
        assert(b2[i].symbol@ == s);
        assert(has_symbol(b2, s));
        let j = symbol_index(b2, s);
        assert(b2[j].symbol@ == s);
        assert(b1[j].symbol@ == s);
    }
}

/// Applying one more match: the balances after `k + 1` matches come from those after `k`.
proof fn lemma_matches_step(fees_ppm: u64, bal: Seq<SymbolBalance>, fills: Seq<(Order<Open>, u64)>, k: int)
    requires
        0 <= k < fills.len(),
    ensures
        balances_after_matches(fees_ppm, bal, fills.take(k + 1)) == match balances_after_matches(
            fees_ppm,
            bal,
            fills.take(k),
        ) {
            None => None,
            Some(b) => {
                let o = fills[k].0;
                let q = fills[k].1;
                let a = step_amounts(b, o, q, fee_amount(fees_ppm, o, q));
                if match_in_range(o, q) && amounts_fit(a) {
                    Some(write_amounts(b, o, a))
                } else {
                    None
                }
            },
        },
{
    assert(fills.take(k + 1).drop_last() =~= fills.take(k));
    assert(fills.take(k + 1).last() == fills[k]);
}

/// The matches change balances, never symbols.
proof fn lemma_matches_keep_symbols(fees_ppm: u64, bal: Seq<SymbolBalance>, fills: Seq<(Order<Open>, u64)>)
    requires
        symbols_distinct(bal),
        matches_configured(bal, fills),
        balances_after_matches(fees_ppm, bal, fills) is Some,
    ensures
        balances_after_matches(fees_ppm, bal, fills).unwrap().len() == bal.len(),
        forall|i: int|
            0 <= i < bal.len() ==> (#[trigger] balances_after_matches(fees_ppm, bal, fills).unwrap()[i]).symbol
                == bal[i].symbol,
    decreases fills.len(),
{
    if fills.len() > 0 {
        let rest = fills.drop_last();
        assert(matches_configured(bal, rest)) by {
            assert forall|k: int| 0 <= k < rest.len() implies has_symbol(bal, (#[trigger] rest[k]).0.instrument.base@)
                && has_symbol(bal, rest[k].0.instrument.quote@) by {
                assert(rest[k] == fills[k]);
            }
        }
        lemma_matches_keep_symbols(fees_ppm, bal, rest);
        let b = balances_after_matches(fees_ppm, bal, rest).unwrap();
        lemma_same_symbols(bal, b);
        let o = fills.last().0;
        assert(fills.last() == fills[fills.len() - 1]);
        let a = step_amounts(b, o, fills.last().1, fee_amount(fees_ppm, o, fills.last().1));
        lemma_write_keeps_symbols(b, o, a);
    }
}

/// Applying `f1` and then `f2` is applying `f1 + f2`.
proof fn lemma_matches_concat(
    fees_ppm: u64,
    bal: Seq<SymbolBalance>,
    f1: Seq<(Order<Open>, u64)>,
    f2: Seq<(Order<Open>, u64)>,
)
    ensures
        balances_after_matches(fees_ppm, bal, f1 + f2) == match balances_after_matches(
            fees_ppm,
            bal,
            f1,
        ) {
            None => None,
            Some(b) => balances_after_matches(fees_ppm, b, f2),
        },
    decreases f2.len(),
{
    if f2.len() == 0 {
        assert(f1 + f2 =~= f1);
        if balances_after_matches(fees_ppm, bal, f1) is Some {
            let b = balances_after_matches(fees_ppm, bal, f1).unwrap();
            assert(balances_after_matches(fees_ppm, b, f2) == Some(b));
        }
    } else {
        assert((f1 + f2).drop_last() =~= f1 + f2.drop_last());
        assert((f1 + f2).last() == f2.last());
        lemma_matches_concat(fees_ppm, bal, f1, f2.drop_last());
    }
}

/// Events that report `f1` followed by events that report `f2` (from the balances and the
/// trade number after `f1`) report `f1 + f2`.
proof fn lemma_reports_concat(
    e1: Seq<AccountEvent>,
    e2: Seq<AccountEvent>,
    fees_ppm: u64,
    bal: Seq<SymbolBalance>,
    f1: Seq<(Order<Open>, u64)>,
    f2: Seq<(Order<Open>, u64)>,
    trade_number: int,
)
    requires
        balances_after_matches(fees_ppm, bal, f1) is Some,
        reports_matches(e1, fees_ppm, bal, f1, trade_number),
        reports_matches(
            e2,
            fees_ppm,
            balances_after_matches(fees_ppm, bal, f1).unwrap(),
            f2,
            trade_number + f1.len(),
        ),
    ensures
        reports_matches(e1 + e2, fees_ppm, bal, f1 + f2, trade_number),
{
    let f = f1 + f2;
    let e = e1 + e2;
    assert forall|j: int| 0 <= j < f.len() implies #[trigger] report_at(e, fees_ppm, bal, f, trade_number, j) by {
        if j < f1.len() {
            lemma_report_concat_left(e1, e2, fees_ppm, bal, f1, f2, trade_number, j);
        } else {
            lemma_report_concat_right(e1, e2, fees_ppm, bal, f1, f2, trade_number, j);
        }
    }
    lemma_reports_by_index(e, fees_ppm, bal, f, trade_number);
}

/// The events at `2 * j` and `2 * j + 1` report the `j`-th of `fills`.
pub open spec fn report_at(
    events: Seq<AccountEvent>,
    fees_ppm: u64,
    bal: Seq<SymbolBalance>,
    fills: Seq<(Order<Open>, u64)>,
    trade_number: int,
    j: int,
) -> bool {
    &&& is_trade_event(
        events[2 * j],
        fills[j].0,
        fills[j].1,
        match_fees(fees_ppm, fills[j].0, fills[j].1),
        trade_number + j + 1,
    )
    &&& is_balance_event(
        events[2 * j + 1],
        fills[j].0,
        step_amounts(
            balances_before_match(fees_ppm, bal, fills, j),
            fills[j].0,
            fills[j].1,
            fee_amount(fees_ppm, fills[j].0, fills[j].1),
        ),
    )
}

proof fn lemma_reports_by_index(
    e: Seq<AccountEvent>,
    fees_ppm: u64,
    bal: Seq<SymbolBalance>,
    f: Seq<(Order<Open>, u64)>,
    trade_number: int,
)
    requires
        e.len() == 2 * f.len(),
        forall|j: int| 0 <= j < f.len() ==> #[trigger] report_at(e, fees_ppm, bal, f, trade_number, j),
    ensures
        reports_matches(e, fees_ppm, bal, f, trade_number),
{
    assert forall|j: int| 0 <= j < f.len() implies {
        &&& is_trade_event(
            e[2 * j],
            (#[trigger] f[j]).0,
            f[j].1,
            match_fees(fees_ppm, f[j].0, f[j].1),
            trade_number + j + 1,
        )
        &&& is_balance_event(
            e[2 * j + 1],
            f[j].0,
            step_amounts(
                balances_before_match(fees_ppm, bal, f, j),
                f[j].0,
                f[j].1,
                fee_amount(fees_ppm, f[j].0, f[j].1),
            ),
        )
    } by {
        assert(report_at(e, fees_ppm, bal, f, trade_number, j));
    }
}

proof fn lemma_report_at_of(
    e: Seq<AccountEvent>,
    fees_ppm: u64,
    bal: Seq<SymbolBalance>,
    f: Seq<(Order<Open>, u64)>,
    trade_number: int,
    j: int,
)
    requires
        reports_matches(e, fees_ppm, bal, f, trade_number),
        0 <= j < f.len(),
    ensures
        report_at(e, fees_ppm, bal, f, trade_number, j),
{
    assert(f[j] == f[j]);
}

proof fn lemma_report_concat_left(
    e1: Seq<AccountEvent>,
    e2: Seq<AccountEvent>,
    fees_ppm: u64,
    bal: Seq<SymbolBalance>,
    f1: Seq<(Order<Open>, u64)>,
    f2: Seq<(Order<Open>, u64)>,
    trade_number: int,
    j: int,
)
    requires
        reports_matches(e1, fees_ppm, bal, f1, trade_number),
        0 <= j < f1.len(),
    ensures
        report_at(e1 + e2, fees_ppm, bal, f1 + f2, trade_number, j),
{
    lemma_report_at_of(e1, fees_ppm, bal, f1, trade_number, j);
    let f = f1 + f2;
    let e = e1 + e2;
    assert(f[j] == f1[j]);
    assert(f.take(j) =~= f1.take(j));
    assert(e[2 * j] == e1[2 * j]);
    assert(e[2 * j + 1] == e1[2 * j + 1]);
}

proof fn lemma_report_concat_right(
    e1: Seq<AccountEvent>,
    e2: Seq<AccountEvent>,
    fees_ppm: u64,
    bal: Seq<SymbolBalance>,
    f1: Seq<(Order<Open>, u64)>,
    f2: Seq<(Order<Open>, u64)>,
    trade_number: int,
    j: int,
)
    requires
        balances_after_matches(fees_ppm, bal, f1) is Some,
        e1.len() == 2 * f1.len(),
        reports_matches(
            e2,
            fees_ppm,
            balances_after_matches(fees_ppm, bal, f1).unwrap(),
            f2,
            trade_number + f1.len(),
        ),
        f1.len() <= j < f1.len() + f2.len(),
    ensures
        report_at(e1 + e2, fees_ppm, bal, f1 + f2, trade_number, j),
{
    let k = j - f1.len();
    let b1 = balances_after_matches(fees_ppm, bal, f1).unwrap();
    lemma_report_at_of(e2, fees_ppm, b1, f2, trade_number + f1.len(), k);
    let f = f1 + f2;
    let e = e1 + e2;
    assert(f[j] == f2[k]);
    assert(f.take(j) =~= f1 + f2.take(k));
    lemma_matches_concat(fees_ppm, bal, f1, f2.take(k));
    assert(balances_before_match(fees_ppm, bal, f, j) == balances_before_match(fees_ppm, b1, f2, k));
    assert(e[2 * j] == e2[2 * k]);
    assert(e[2 * j + 1] == e2[2 * k + 1]);
    assert(trade_number + j + 1 == (trade_number + f1.len()) + k + 1);
}

/// Once a match fails, so do all that follow.
proof fn lemma_matches_fail_on(fees_ppm: u64, bal: Seq<SymbolBalance>, fills: Seq<(Order<Open>, u64)>, k: int)
    requires
        0 <= k <= fills.len(),
        balances_after_matches(fees_ppm, bal, fills.take(k)) is None,
    ensures
        balances_after_matches(fees_ppm, bal, fills) is None,
    decreases fills.len() - k,
{
    if k == fills.len() {
        assert(fills.take(k) =~= fills);
    } else {
        lemma_matches_step(fees_ppm, bal, fills, k);
        lemma_matches_fail_on(fees_ppm, bal, fills, k + 1);
    }
}

/// Fees on `amount` units at `fees_ppm` parts per million, in millionths of a unit.
fn fee_on(amount: u128, fees_ppm: u64) -> (r: u128)
    requires
        fees_ppm <= FEE_SCALE,
        amount * FEE_SCALE <= u128::MAX,
    ensures
        r == fee_of(fees_ppm, amount as int),
        r <= amount * FEE_SCALE,
{
    assert(amount * fees_ppm <= amount * FEE_SCALE) by (nonlinear_arith)
        requires
            fees_ppm <= FEE_SCALE,
    ;
    amount * (fees_ppm as u128)
}

/// Whether the price times `quantity` of `order`, in millionths of a unit, fits in a `u128`.
fn check_match_in_range(order: &Order<Open>, quantity: u64) -> (r: bool)
    ensures
        r == match_in_range(*order, quantity),
{
    notional(order.state.price, quantity).checked_mul(FEE_SCALE as u128).is_some()
}

/// Finds the balance of `symbol` in `balances`.
fn find_symbol(balances: &Vec<SymbolBalance>, symbol: &Symbol) -> (r: Option<usize>)
    requires
        symbols_distinct(balances@),
    ensures
        match r {
            Some(i) => {
                &&& i < balances@.len()
                &&& balances@[i as int].symbol@ == symbol@
                &&& i == symbol_index(balances@, symbol@)
                &&& has_symbol(balances@, symbol@)
            },
            None => !has_symbol(balances@, symbol@),
        },
{
    let mut i: usize = 0;
    while i < balances.len()
        invariant
            i <= balances@.len(),
            symbols_distinct(balances@),
            forall|j: int| 0 <= j < i ==> balances@[j].symbol@ != symbol@,
        decreases balances@.len() - i,
    {
        if balances[i].symbol == *symbol {
            proof {
                let k = symbol_index(balances@, symbol@);
                assert(balances@[i as int].symbol@ == symbol@);
                assert(has_symbol(balances@, symbol@));
                assert(balances@[k].symbol@ == symbol@);
            }
            return Some(i);
        }
        i += 1;
    }
    None
}

/// The new base and quote balances of a match of `quantity` of `order` with `fees`, from
/// `balances`, or `None` where an amount does not fit in an `i128`.
fn checked_match_amounts(
    balances: &Vec<SymbolBalance>,
    order: &Order<Open>,
    quantity: u64,
    fees: u128,
) -> (r: Option<(Balance, Balance)>)
    requires
        symbols_distinct(balances@),
        has_symbol(balances@, order.instrument.base@),
        has_symbol(balances@, order.instrument.quote@),
        match_in_range(*order, quantity),
    ensures
        match r {
            Some((b, q)) => {
                &&& amounts_fit(step_amounts(balances@, *order, quantity, fees as int))
                &&& b == base_of(step_amounts(balances@, *order, quantity, fees as int))
                &&& q == quote_of(step_amounts(balances@, *order, quantity, fees as int))
            },
            None => !amounts_fit(step_amounts(balances@, *order, quantity, fees as int)),
        },
{
    let bi = find_symbol(balances, &order.instrument.base).unwrap();
    let qi = find_symbol(balances, &order.instrument.quote).unwrap();
    let base = balances[bi].balance;
    let quote = balances[qi].balance;
    let price = order.state.price;
    assert(quantity * FEE_SCALE <= u64::MAX * FEE_SCALE) by (nonlinear_arith)
        requires
            quantity <= u64::MAX,
    ;
    let units = (quantity as u128) * (FEE_SCALE as u128);
    let amount = notional(price, quantity) * (FEE_SCALE as u128);
    let (bt, ba, qt, qa) = match order.state.side {
        // A buy adds the quantity less fees to the base, and the quote total pays the price
        // (the quote's available amount was taken when the order opened).
        Side::Buy => (
            apply_delta(base.total, units, fees),
            apply_delta(base.available, units, fees),
            apply_delta(quote.total, 0, amount),
            Some(quote.available),
        ),
        // A sell takes the quantity from the base total (its available amount was taken when
        // the order opened), and adds the price less fees to the quote.
        Side::Sell => (
            apply_delta(base.total, 0, units),
            Some(base.available),
            apply_delta(quote.total, amount, fees),
            apply_delta(quote.available, amount, fees),
        ),
    };
    match (bt, ba, qt, qa) {
        (Some(bt), Some(ba), Some(qt), Some(qa)) => Some(
            (Balance { total: bt, available: ba }, Balance { total: qt, available: qa }),
        ),
        _ => None,
    }
}

/// The price times the quantity, which a `u128` always holds.
pub(crate) fn notional(price: u64, quantity: u64) -> (r: u128)
    ensures
        r == price * quantity,
{
    assert(price * quantity <= u64::MAX * u64::MAX) by (nonlinear_arith)
        requires
            price <= u64::MAX,
            quantity <= u64::MAX,
    ;
    (price as u128) * (quantity as u128)
}

/// `value + gain - loss`, or `None` where that is not an `i128`.
pub(crate) fn apply_delta(value: i128, gain: u128, loss: u128) -> (r: Option<i128>)
    ensures
        match r {
            Some(v) => v == value + gain - loss,
            None => !in_i128(value + gain - loss),
        },
{
    let half: u128 = 0x8000_0000_0000_0000_0000_0000_0000_0000;
    let shifted: u128 = if value >= 0 {
        value as u128 + half
    } else {
        ((value + 0x7fff_ffff_ffff_ffff_ffff_ffff_ffff_ffff) + 1) as u128
    };
    assert(shifted == value + half);
    let moved = if gain >= loss {
        shifted.checked_add(gain - loss)
    } else {
        shifted.checked_sub(loss - gain)
    };
    match moved {
        None => None,
        Some(m) => {
            if m >= half {
                Some((m - half) as i128)
            } else {
                Some((m as i128 - 0x7fff_ffff_ffff_ffff_ffff_ffff_ffff_ffff) - 1)
            }
        },
    }
}

/// The account of a client on the simulated exchange.
#[derive(Debug)]
pub struct ClientAccount {
    /// Fees in parts per million of the traded amount.
    pub fees_ppm: u64,
    pub balances: Vec<SymbolBalance>,
    pub orders: Vec<InstrumentOrders>,
    /// The number of trades so far; the id of the next trade is one more.
    pub trade_number: u64,
}

impl ClientAccount {
    /// The fee rate is at most the whole amount, each symbol and instrument has one entry, and
    /// every instrument's orders are well formed.
    pub open spec fn wf(&self) -> bool {
        &&& self.fees_ppm <= FEE_SCALE
        &&& symbols_distinct(self.balances@)
        &&& instruments_distinct(self.orders@)
        &&& forall|i: int| 0 <= i < self.orders@.len() ==> (#[trigger] self.orders@[i]).orders.wf()
    }

    /// An account charging `fees_ppm`, holding `balances`, with no order yet for each of
    /// `instruments` and no trade yet. `None` where the fees exceed the whole amount, or a
    /// symbol or an instrument is given twice.
    pub fn from_config(fees_ppm: u64, balances: Vec<SymbolBalance>, instruments: Vec<Instrument>) -> (r:
        Option<ClientAccount>)
        ensures
            match r {
                Some(account) => {
                    &&& account.wf()
                    &&& account.fees_ppm == fees_ppm
                    &&& account.balances@ == balances@
                    &&& account.trade_number == 0
                    &&& account.orders@.len() == instruments@.len()
                    &&& forall|i: int|
                        0 <= i < instruments@.len() ==> {
                            &&& (#[trigger] account.orders@[i]).instrument == instruments@[i]
                            &&& account.orders@[i].orders.bids@.len() == 0
                            &&& account.orders@[i].orders.asks@.len() == 0
                        }
                },
                None => !(fees_ppm <= FEE_SCALE && symbols_distinct(balances@) && forall|i: int, j: int|
                    0 <= i < instruments@.len() && 0 <= j < instruments@.len()
                        && #[trigger] instruments@[i]@ == #[trigger] instruments@[j]@ ==> i == j),
            },
    {
        if fees_ppm > FEE_SCALE {
            return None;
        }
        let mut i: usize = 0;
        while i < balances.len()
            invariant
                i <= balances@.len(),
                forall|a: int, b: int|
                    0 <= a < i && 0 <= b < balances@.len() && #[trigger] balances@[a].symbol@
                        == #[trigger] balances@[b].symbol@ ==> a == b,
            decreases balances@.len() - i,
        {
            let mut j: usize = 0;
            while j < balances.len()
                invariant
                    i < balances@.len(),
                    j <= balances@.len(),
                    forall|b: int| 0 <= b < j && balances@[i as int].symbol@ == #[trigger] balances@[b].symbol@ ==> b == i,
                decreases balances@.len() - j,
            {
                if j != i && balances[i].symbol == balances[j].symbol {
                    return None;
                }
                j += 1;
            }
            i += 1;
        }
        let mut i: usize = 0;
        while i < instruments.len()
            invariant
                i <= instruments@.len(),
                symbols_distinct(balances@),
                forall|a: int, b: int|
                    0 <= a < i && 0 <= b < instruments@.len() && #[trigger] instruments@[a]@
                        == #[trigger] instruments@[b]@ ==> a == b,
            decreases instruments@.len() - i,
        {
            let mut j: usize = 0;
            while j < instruments.len()
                invariant
                    i < instruments@.len(),
                    j <= instruments@.len(),
                    forall|b: int| 0 <= b < j && instruments@[i as int]@ == #[trigger] instruments@[b]@ ==> b == i,
                decreases instruments@.len() - j,
            {
                if j != i && instruments[i] == instruments[j] {
                    return None;
                }
                j += 1;
            }
            i += 1;
        }
        let ghost given = instruments@;
        let mut rest = instruments;
        let mut orders: Vec<InstrumentOrders> = Vec::new();
        while rest.len() > 0
            invariant
                orders@.len() <= given.len(),
                rest@ == given.skip(orders@.len() as int),
                forall|k: int|
                    0 <= k < orders@.len() ==> {
                        &&& (#[trigger] orders@[k]).instrument == given[k]
                        &&& orders@[k].orders.bids@.len() == 0
                        &&& orders@[k].orders.asks@.len() == 0
                    },
            decreases rest@.len(),
        {
            let ghost k = orders@.len() as int;
            let instrument = rest.remove(0);
            assert(instrument == given[k]);
            assert(rest@ =~= given.skip(k + 1));
            orders.push(InstrumentOrders { instrument, orders: ClientOrders { bids: Vec::new(), asks: Vec::new() } });
        }
        let account = ClientAccount { fees_ppm, balances, orders, trade_number: 0 };
        proof {
            assert forall|a: int, b: int|
                0 <= a < account.orders@.len() && 0 <= b < account.orders@.len()
                    && #[trigger] account.orders@[a].instrument@ == #[trigger] account.orders@[b].instrument@
                implies a == b by {
                assert(given[a]@ == given[b]@);
            }
            assert forall|k: int| 0 <= k < account.orders@.len() implies (#[trigger] account.orders@[k]).orders.wf() by {
                assert(account.orders@[k].orders.bids@.len() == 0);
                assert(account.orders@[k].orders.asks@.len() == 0);
            }
        }
        Some(account)
    }

    /// The account's book: for each configured instrument, its bids and asks.
    pub open spec fn book(&self) -> Book {
        Seq::new(
            self.orders@.len(),
            |i: int| (self.orders@[i].instrument, self.orders@[i].orders.bids@, self.orders@[i].orders.asks@),
        )
    }

    /// The book finds the same instruments as the orders table, at the same places, and is well
    /// formed where the account is.
    pub proof fn lemma_book(&self)
        requires
            instruments_distinct(self.orders@),
        ensures
            forall|ins: (Seq<char>, Seq<char>, crate::model::market::InstrumentKind)|
                #[trigger] book_has(self.book(), ins) == has_instrument(self.orders@, ins),
            forall|ins: (Seq<char>, Seq<char>, crate::model::market::InstrumentKind)|
                has_instrument(self.orders@, ins) ==> #[trigger] book_index(self.book(), ins)
                    == instrument_index(self.orders@, ins),
            self.wf() ==> book_wf(self.book()),
    {
        let b = self.book();
        assert forall|ins: (Seq<char>, Seq<char>, crate::model::market::InstrumentKind)|
            #[trigger] book_has(b, ins) == has_instrument(self.orders@, ins) by {
            if has_instrument(self.orders@, ins) {
                let i = instrument_index(self.orders@, ins);
                assert(b[i].0@ == ins);
            }
            if book_has(b, ins) {
                let i = book_index(b, ins);
                assert(self.orders@[i].instrument@ == ins);
            }
        }
        assert forall|ins: (Seq<char>, Seq<char>, crate::model::market::InstrumentKind)|
            has_instrument(self.orders@, ins) implies #[trigger] book_index(b, ins) == instrument_index(
                self.orders@,
                ins,
            ) by {
            let i = instrument_index(self.orders@, ins);
            assert(b[i].0@ == ins);
            assert(book_has(b, ins));
            let j = book_index(b, ins);
            assert(self.orders@[j].instrument@ == ins);
        }
        if self.wf() {
            assert forall|i: int, j: int|
                0 <= i < b.len() && 0 <= j < b.len() && #[trigger] b[i].0@ == #[trigger] b[j].0@ implies i == j by {
                assert(self.orders@[i].instrument@ == self.orders@[j].instrument@);
            }
            assert forall|i: int| 0 <= i < b.len() implies {
                &&& bids_sorted((#[trigger] b[i]).1)
                &&& asks_sorted(b[i].2)
                &&& orders_wf(b[i].1)
                &&& orders_wf(b[i].2)
            } by {
                assert(self.orders@[i].orders.wf());
            }
        }
    }

    pub open spec fn spec_has_instrument(&self, ins: &Instrument) -> bool {
        has_instrument(self.orders@, ins@)
    }

    pub open spec fn spec_has_symbol(&self, symbol: &Symbol) -> bool {
        has_symbol(self.balances@, symbol@)
    }

    /// The orders of `ins` in this account.
    pub open spec fn spec_orders(&self, ins: &Instrument) -> ClientOrders {
        self.orders@[instrument_index(self.orders@, ins@)].orders
    }

    /// The balance of `symbol` in this account.
    pub open spec fn spec_balance(&self, symbol: &Symbol) -> Balance {
        self.balances@[symbol_index(self.balances@, symbol@)].balance
    }

    /// Finds the entry of `instrument` in the orders table.
    pub fn instrument_position(&self, instrument: &Instrument) -> (r: Option<usize>)
        requires
            instruments_distinct(self.orders@),
        ensures
            match r {
                Some(i) => {
                    &&& i < self.orders@.len()
                    &&& self.orders@[i as int].instrument@ == instrument@
                    &&& i == instrument_index(self.orders@, instrument@)
                    &&& self.spec_has_instrument(instrument)
                },
                None => !self.spec_has_instrument(instrument),
            },
    {
        let mut i: usize = 0;
        while i < self.orders.len()
            invariant
                i <= self.orders@.len(),
                instruments_distinct(self.orders@),
                forall|j: int| 0 <= j < i ==> self.orders@[j].instrument@ != instrument@,
            decreases self.orders@.len() - i,
        {
            if self.orders[i].instrument == *instrument {
                proof {
                    let k = instrument_index(self.orders@, instrument@);
                    assert(self.orders@[i as int].instrument@ == instrument@);
                    assert(has_instrument(self.orders@, instrument@));
                    assert(self.orders@[k].instrument@ == instrument@);
                }
                return Some(i);
            }
            i += 1;
        }
        None
    }

    /// Finds the balance of `symbol`.
    pub fn symbol_position(&self, symbol: &Symbol) -> (r: Option<usize>)
        requires
            symbols_distinct(self.balances@),
        ensures
            match r {
                Some(i) => {
                    &&& i < self.balances@.len()
                    &&& self.balances@[i as int].symbol@ == symbol@
                    &&& i == symbol_index(self.balances@, symbol@)
                    &&& self.spec_has_symbol(symbol)
                },
                None => !self.spec_has_symbol(symbol),
            },
    {
        find_symbol(&self.balances, symbol)
    }

    /// The orders of `instrument`; the exchange must be configured for it.
    pub fn orders(&self, instrument: &Instrument) -> (r: &ClientOrders)
        requires
            instruments_distinct(self.orders@),
            self.spec_has_instrument(instrument),
        ensures
            *r == self.spec_orders(instrument),
    {
        let i = self.instrument_position(instrument).unwrap();
        &self.orders[i].orders
    }

    /// The orders of `instrument`, to change; the exchange must be configured for it.
    pub fn orders_mut(&mut self, instrument: &Instrument) -> (r: &mut ClientOrders)
        requires
            instruments_distinct(old(self).orders@),
            old(self).spec_has_instrument(instrument),
        ensures
            *r == old(self).spec_orders(instrument),
            final(self).fees_ppm == old(self).fees_ppm,
            final(self).balances == old(self).balances,
            final(self).trade_number == old(self).trade_number,
            final(self).orders@.len() == old(self).orders@.len(),
            forall|j: int|
                0 <= j < old(self).orders@.len() ==> (#[trigger] final(self).orders@[j]).instrument
                    == old(self).orders@[j].instrument,
            forall|j: int|
                0 <= j < old(self).orders@.len() && j != instrument_index(
                    old(self).orders@,
                    instrument@,
                ) ==> (#[trigger] final(self).orders@[j]).orders == old(self).orders@[j].orders,
            final(self).orders@[instrument_index(old(self).orders@, instrument@)].orders == *final(r),
    {
        let i = self.instrument_position(instrument).unwrap();
        &mut self.orders[i].orders
    }

    /// The balance of `symbol`; the exchange must be configured for it.
    pub fn balance(&self, symbol: &Symbol) -> (r: &Balance)
        requires
            symbols_distinct(self.balances@),
            self.spec_has_symbol(symbol),
        ensures
            *r == self.spec_balance(symbol),
    {
        let i = self.symbol_position(symbol).unwrap();
        &self.balances[i].balance
    }

    /// The balance of `symbol`, to change; the exchange must be configured for it.
    pub fn balance_mut(&mut self, symbol: &Symbol) -> (r: &mut Balance)
        requires
            symbols_distinct(old(self).balances@),
            old(self).spec_has_symbol(symbol),
        ensures
            *r == old(self).spec_balance(symbol),
            final(self).fees_ppm == old(self).fees_ppm,
            final(self).orders == old(self).orders,
            final(self).trade_number == old(self).trade_number,
            final(self).balances@ == old(self).balances@.update(
                symbol_index(old(self).balances@, symbol@),
                SymbolBalance {
                    symbol: old(self).balances@[symbol_index(old(self).balances@, symbol@)].symbol,
                    balance: *final(r),
                },
            ),
    {
        let i = self.symbol_position(symbol).unwrap();
        &mut self.balances[i].balance
    }

    /// The fees of a match of `trade_quantity` of `order`: in the base symbol for a buy, in the
    /// quote symbol for a sell.
    pub fn calculate_fees(&self, order: &Order<Open>, trade_quantity: u64) -> (r: SymbolFees)
        requires
            self.fees_ppm <= FEE_SCALE,
            order.state.side == Side::Sell ==> match_in_range(*order, trade_quantity),
        ensures
            r == match_fees(self.fees_ppm, *order, trade_quantity),
            r.fees == fee_amount(self.fees_ppm, *order, trade_quantity),
    {
        match order.state.side {
            Side::Buy => {
                assert(trade_quantity * FEE_SCALE <= u64::MAX * FEE_SCALE) by (nonlinear_arith)
                    requires
                        trade_quantity <= u64::MAX,
                ;
                let fees = fee_on(trade_quantity as u128, self.fees_ppm);
                SymbolFees::new(order.instrument.base.clone(), fees)
            },
            Side::Sell => {
                let amount = notional(order.state.price, trade_quantity);
                let fees = fee_on(amount, self.fees_ppm);
                SymbolFees::new(order.instrument.quote.clone(), fees)
            },
        }
    }

    /// Applies a match of `trade_quantity` of `order` with `fees` to the base and quote
    /// balances of the order's instrument, and reports both new balances. Where base and quote
    /// are one symbol, the quote's new balance is the one kept.
    pub fn update_balance_from_match(
        &mut self,
        order: &Order<Open>,
        trade_quantity: u64,
        fees: &SymbolFees,
        received_time: i64,
    ) -> (event: AccountEvent)
        requires
            symbols_distinct(old(self).balances@),
            has_symbol(old(self).balances@, order.instrument.base@),
            has_symbol(old(self).balances@, order.instrument.quote@),
            match_in_range(*order, trade_quantity),
            amounts_fit(step_amounts(old(self).balances@, *order, trade_quantity, fees.fees as int)),
        ensures
            final(self).balances@ == write_amounts(
                old(self).balances@,
                *order,
                step_amounts(old(self).balances@, *order, trade_quantity, fees.fees as int),
            ),
            final(self).fees_ppm == old(self).fees_ppm,
            final(self).orders == old(self).orders,
            final(self).trade_number == old(self).trade_number,
            is_balance_event(
                event,
                *order,
                step_amounts(old(self).balances@, *order, trade_quantity, fees.fees as int),
            ),
            event.received_time == received_time,
    {
        reveal(is_balance_event);
        let ghost a = step_amounts(self.balances@, *order, trade_quantity, fees.fees as int);
        let base = &order.instrument.base;
        let quote = &order.instrument.quote;
        let (new_base_balance, new_quote_balance) = checked_match_amounts(
            &self.balances,
            order,
            trade_quantity,
            fees.fees,
        ).unwrap();
        let ghost b0 = self.balances@;
        *self.balance_mut(base) = new_base_balance;
        assert(symbols_distinct(self.balances@)) by {
            assert forall|i: int| 0 <= i < self.balances@.len() implies #[trigger] self.balances@[i].symbol@
                == b0[i].symbol@ by {}
        }
        assert(has_symbol(self.balances@, quote@)) by {
            let qi = symbol_index(b0, quote@);
            assert(self.balances@[qi].symbol@ == quote@);
        }
        assert(symbol_index(self.balances@, quote@) == symbol_index(b0, quote@)) by {
            let qi = symbol_index(b0, quote@);
            assert(self.balances@[qi].symbol@ == quote@);
            let qj = symbol_index(self.balances@, quote@);
            assert(self.balances@[qj].symbol@ == quote@);
        }
        *self.balance_mut(quote) = new_quote_balance;
        assert(self.balances@ =~= write_amounts(b0, *order, a));
        AccountEvent {
            received_time,
            exchange: order.exchange.clone(),
            kind: AccountEventKind::Balances(
                vec![
                    SymbolBalance::new(base.clone(), new_base_balance),
                    SymbolBalance::new(quote.clone(), new_quote_balance),
                ],
            ),
        }
    }

    /// The id of the next trade: the trade number, counted up by one, in decimal.
    fn trade_id(&mut self) -> (r: TradeId)
        requires
            old(self).trade_number < u64::MAX,
        ensures
            final(self).trade_number == old(self).trade_number + 1,
            r@ == decimal(final(self).trade_number as nat),
            final(self).fees_ppm == old(self).fees_ppm,
            final(self).balances == old(self).balances,
            final(self).orders == old(self).orders,
    {
        self.trade_number = self.trade_number + 1;
        TradeId(u64_to_string(self.trade_number))
    }

    /// Applies a match of `trade_quantity` of `order`: charges its fees, updates the balances,
    /// and returns the trade event and then the balances event that report it.
    pub fn update_from_match(&mut self, order: Order<Open>, trade_quantity: u64, received_time: i64) -> (events: Vec<AccountEvent>)
        requires
            old(self).fees_ppm <= FEE_SCALE,
            symbols_distinct(old(self).balances@),
            has_symbol(old(self).balances@, order.instrument.base@),
            has_symbol(old(self).balances@, order.instrument.quote@),
            match_in_range(order, trade_quantity),
            amounts_fit(
                step_amounts(
                    old(self).balances@,
                    order,
                    trade_quantity,
                    fee_amount(old(self).fees_ppm, order, trade_quantity),
                ),
            ),
            old(self).trade_number < u64::MAX,
        ensures
            final(self).balances@ == write_amounts(
                old(self).balances@,
                order,
                step_amounts(
                    old(self).balances@,
                    order,
                    trade_quantity,
                    fee_amount(old(self).fees_ppm, order, trade_quantity),
                ),
            ),
            final(self).trade_number == old(self).trade_number + 1,
            final(self).fees_ppm == old(self).fees_ppm,
            final(self).orders == old(self).orders,
            events@.len() == 2,
            is_trade_event(
                events@[0],
                order,
                trade_quantity,
                match_fees(old(self).fees_ppm, order, trade_quantity),
                final(self).trade_number as int,
            ),
            is_balance_event(
                events@[1],
                order,
                step_amounts(
                    old(self).balances@,
                    order,
                    trade_quantity,
                    fee_amount(old(self).fees_ppm, order, trade_quantity),
                ),
            ),
            received_at(events@, received_time),
    {
        reveal(is_trade_event);
        let fees = self.calculate_fees(&order, trade_quantity);
        let balance_event = self.update_balance_from_match(&order, trade_quantity, &fees, received_time);
        let id = self.trade_id();
        let trade_event = AccountEvent {
            received_time,
            exchange: order.exchange,
            kind: AccountEventKind::Trade(
                Trade {
                    id,
                    order_id: order.state.id,
                    instrument: order.instrument,
                    side: order.state.side,
                    price: order.state.price,
                    quantity: trade_quantity,
                    fees,
                },
            ),
        };
        let events = vec![trade_event, balance_event];
        assert(events@[0].received_time == received_time && events@[1].received_time == received_time);
        events
    }

    /// `post` is `pre` after `fills` were applied in turn and the bids of the `i`-th instrument
    /// became `bids`: the balances and the trade number follow the matches, and nothing else
    /// changed.
    pub open spec fn matched(
        pre: ClientAccount,
        post: ClientAccount,
        i: int,
        bids: Seq<Order<Open>>,
        fills: Seq<(Order<Open>, u64)>,
    ) -> bool {
        &&& post.fees_ppm == pre.fees_ppm
        &&& balances_after_matches(pre.fees_ppm, pre.balances@, fills) == Some(post.balances@)
        &&& post.trade_number == pre.trade_number + fills.len()
        &&& post.orders@.len() == pre.orders@.len()
        &&& forall|j: int|
            0 <= j < pre.orders@.len() ==> (#[trigger] post.orders@[j]).instrument
                == pre.orders@[j].instrument
        &&& forall|j: int|
            0 <= j < pre.orders@.len() && j != i ==> (#[trigger] post.orders@[j]).orders
                == pre.orders@[j].orders
        &&& post.orders@[i].orders.bids@ == bids
        &&& post.orders@[i].orders.asks == pre.orders@[i].orders.asks
    }

    /// `post` is `pre` after the bids of `ins` were matched against a trade at `price` of
    /// `quantity`.
    pub open spec fn bids_matched(
        pre: ClientAccount,
        post: ClientAccount,
        ins: (Seq<char>, Seq<char>, crate::model::market::InstrumentKind),
        price: u64,
        quantity: u64,
    ) -> bool {
        let i = instrument_index(pre.orders@, ins);
        let m = bid_matches(pre.orders@[i].orders.bids@, price, quantity);
        Self::matched(pre, post, i, m.0, m.1)
    }

    /// The matches of the bids of `instrument` against `trade`.
    pub open spec fn spec_bid_matches(&self, instrument: &Instrument, trade: &PublicTrade) -> Seq<(Order<Open>, u64)> {
        bid_matches(self.spec_orders(instrument).bids@, trade.price, trade.quantity).1
    }

    /// Whether every match of `quantities` of the best `bids`, in turn, keeps the balances in
    /// range. Tried on a copy of the balances.
    fn matches_fit(&self, bids: &Vec<Order<Open>>, quantities: &Vec<u64>) -> (r: bool)
        requires
            self.fees_ppm <= FEE_SCALE,
            symbols_distinct(self.balances@),
            quantities@.len() <= bids@.len(),
            matches_configured(self.balances@, fills_of(bids@, quantities@)),
        ensures
            r == balances_after_matches(
                self.fees_ppm,
                self.balances@,
                fills_of(bids@, quantities@),
            ) is Some,
    {
        let start = self.balances.clone();
        assert(start@ =~= self.balances@);
        self.matches_fit_from(start, bids, quantities).is_some()
    }

    /// The balances `start` after every match of `quantities` of the best `bids`, in turn;
    /// `None` where one leaves the range of an `i128`.
    fn matches_fit_from(&self, start: Vec<SymbolBalance>, bids: &Vec<Order<Open>>, quantities: &Vec<u64>) -> (r:
        Option<Vec<SymbolBalance>>)
        requires
            self.fees_ppm <= FEE_SCALE,
            symbols_distinct(start@),
            quantities@.len() <= bids@.len(),
            matches_configured(start@, fills_of(bids@, quantities@)),
        ensures
            r is Some <==> balances_after_matches(self.fees_ppm, start@, fills_of(bids@, quantities@)) is Some,
            r matches Some(b) ==> Some(b@) == balances_after_matches(
                self.fees_ppm,
                start@,
                fills_of(bids@, quantities@),
            ),
    {
        let ghost fills = fills_of(bids@, quantities@);
        let ghost bal0 = start@;
        let n_bids = bids.len();
        let mut sim = start;
        assert(fills.take(0) =~= Seq::<(Order<Open>, u64)>::empty());
        let mut k: usize = 0;
        while k < quantities.len()
            invariant
                k <= quantities@.len(),
                quantities@.len() <= n_bids,
                n_bids == bids@.len(),
                fills == fills_of(bids@, quantities@),
                self.fees_ppm <= FEE_SCALE,
                bal0 == start@,
                symbols_distinct(bal0),
                matches_configured(bal0, fills),
                balances_after_matches(self.fees_ppm, bal0, fills.take(k as int)) == Some(sim@),
                sim@.len() == bal0.len(),
                forall|i: int| 0 <= i < bal0.len() ==> (#[trigger] sim@[i]).symbol == bal0[i].symbol,
            decreases quantities@.len() - k,
        {
            proof {
                lemma_same_symbols(bal0, sim@);
                lemma_matches_step(self.fees_ppm, bal0, fills, k as int);
            }
            let order = &bids[n_bids - 1 - k];
            let quantity = quantities[k];
            assert(fills[k as int] == (*order, quantity));
            if !check_match_in_range(order, quantity) {
                proof {
                    lemma_matches_fail_on(self.fees_ppm, bal0, fills, k + 1);
                }
                return None;
            }
            let fees = self.calculate_fees(order, quantity);
            match checked_match_amounts(&sim, order, quantity, fees.fees) {
                None => {
                    proof {
                        lemma_matches_fail_on(self.fees_ppm, bal0, fills, k + 1);
                    }
                    return None;
                },
                Some((new_base, new_quote)) => {
                    let ghost a = step_amounts(sim@, *order, quantity, fees.fees as int);
                    let ghost s0 = sim@;
                    let bi = find_symbol(&sim, &order.instrument.base).unwrap();
                    sim[bi].balance = new_base;
                    proof {
                        lemma_same_symbols(s0, sim@);
                    }
                    let qi = find_symbol(&sim, &order.instrument.quote).unwrap();
                    sim[qi].balance = new_quote;
                    proof {
                        assert(sim@ =~= write_amounts(s0, *order, a));
                        lemma_write_keeps_symbols(s0, *order, a);
                    }
                },
            }
            k += 1;
        }
        assert(fills.take(fills.len() as int) =~= fills);
        Some(sim)
    }

    /// Applies the matches of `quantities` of the best bids of the `idx`-th instrument, in turn,
    /// and returns the events that report them.
    fn apply_matches(&mut self, idx: usize, quantities: &Vec<u64>, received_time: i64) -> (events: Vec<AccountEvent>)
        requires
            idx < old(self).orders@.len(),
            quantities@.len() <= old(self).orders@[idx as int].orders.bids@.len(),
            old(self).fees_ppm <= FEE_SCALE,
            symbols_distinct(old(self).balances@),
            matches_configured(
                old(self).balances@,
                fills_of(old(self).orders@[idx as int].orders.bids@, quantities@),
            ),
            balances_after_matches(
                old(self).fees_ppm,
                old(self).balances@,
                fills_of(old(self).orders@[idx as int].orders.bids@, quantities@),
            ) is Some,
            old(self).trade_number + quantities@.len() <= u64::MAX,
        ensures
            Some(final(self).balances@) == balances_after_matches(
                old(self).fees_ppm,
                old(self).balances@,
                fills_of(old(self).orders@[idx as int].orders.bids@, quantities@),
            ),
            final(self).trade_number == old(self).trade_number + quantities@.len(),
            final(self).orders == old(self).orders,
            final(self).fees_ppm == old(self).fees_ppm,
            reports_matches(
                events@,
                old(self).fees_ppm,
                old(self).balances@,
                fills_of(old(self).orders@[idx as int].orders.bids@, quantities@),
                old(self).trade_number as int,
            ),
            received_at(events@, received_time),
    {
        let ghost pre = *self;
        let ghost bids0 = self.orders@[idx as int].orders.bids@;
        let ghost fills = fills_of(bids0, quantities@);
        let ghost bal0 = self.balances@;
        let n_bids = self.orders[idx].orders.bids.len();
        let mut events: Vec<AccountEvent> = Vec::new();
        assert(fills.take(0) =~= Seq::<(Order<Open>, u64)>::empty());
        let mut k: usize = 0;
        while k < quantities.len()
            invariant
                k <= quantities@.len(),
                quantities@.len() <= n_bids,
                n_bids == bids0.len(),
                idx < self.orders@.len(),
                fills == fills_of(bids0, quantities@),
                self.orders == pre.orders,
                bids0 == pre.orders@[idx as int].orders.bids@,
                self.fees_ppm == pre.fees_ppm,
                self.fees_ppm <= FEE_SCALE,
                self.trade_number == pre.trade_number + k,
                pre.trade_number + quantities@.len() <= u64::MAX,
                bal0 == pre.balances@,
                symbols_distinct(bal0),
                matches_configured(bal0, fills),
                balances_after_matches(self.fees_ppm, bal0, fills) is Some,
                balances_after_matches(self.fees_ppm, bal0, fills.take(k as int)) == Some(
                    self.balances@,
                ),
                self.balances@.len() == bal0.len(),
                forall|i: int|
                    0 <= i < bal0.len() ==> (#[trigger] self.balances@[i]).symbol == bal0[i].symbol,
                events@.len() == 2 * k,
                received_at(events@, received_time),
                forall|j: int|
                    0 <= j < k ==> {
                        &&& is_trade_event(
                            events@[2 * j],
                            (#[trigger] fills[j]).0,
                            fills[j].1,
                            match_fees(pre.fees_ppm, fills[j].0, fills[j].1),
                            pre.trade_number + j + 1,
                        )
                        &&& is_balance_event(
                            events@[2 * j + 1],
                            fills[j].0,
                            step_amounts(
                                balances_before_match(pre.fees_ppm, bal0, fills, j),
                                fills[j].0,
                                fills[j].1,
                                fee_amount(pre.fees_ppm, fills[j].0, fills[j].1),
                            ),
                        )
                    },
            decreases quantities@.len() - k,
        {
            proof {
                lemma_same_symbols(bal0, self.balances@);
                lemma_matches_step(self.fees_ppm, bal0, fills, k as int);
                if balances_after_matches(self.fees_ppm, bal0, fills.take(k + 1)) is None {
                    lemma_matches_fail_on(self.fees_ppm, bal0, fills, k + 1);
                }
            }
            let order = self.orders[idx].orders.bids[n_bids - 1 - k].clone();
            let quantity = quantities[k];
            assert(order == fills[k as int].0);
            let ghost b = self.balances@;
            let ghost a = step_amounts(b, order, quantity, fee_amount(self.fees_ppm, order, quantity));
            let mut reported = self.update_from_match(order, quantity, received_time);
            proof {
                lemma_write_keeps_symbols(b, fills[k as int].0, a);
            }
            let ghost old_events = events@;
            let ghost rep = reported@;
            events.append(&mut reported);
            assert(events@ =~= old_events + rep);
            assert(received_at(events@, received_time)) by {
                assert forall|j: int| 0 <= j < events@.len() implies (#[trigger] events@[j]).received_time
                    == received_time by {
                    if j < old_events.len() {
                        assert(events@[j] == old_events[j]);
                    } else {
                        assert(events@[j] == rep[j - old_events.len()]);
                    }
                }
            }
            k += 1;
            assert forall|j: int| 0 <= j < k implies {
                &&& is_trade_event(
                    events@[2 * j],
                    (#[trigger] fills[j]).0,
                    fills[j].1,
                    match_fees(pre.fees_ppm, fills[j].0, fills[j].1),
                    pre.trade_number + j + 1,
                )
                &&& is_balance_event(
                    events@[2 * j + 1],
                    fills[j].0,
                    step_amounts(
                        balances_before_match(pre.fees_ppm, bal0, fills, j),
                        fills[j].0,
                        fills[j].1,
                        fee_amount(pre.fees_ppm, fills[j].0, fills[j].1),
                    ),
                )
            } by {
                if j < k - 1 {
                    assert(events@[2 * j] == old_events[2 * j]);
                    assert(events@[2 * j + 1] == old_events[2 * j + 1]);
                } else {
                    assert(events@[2 * j] == rep[0]);
                    assert(events@[2 * j + 1] == rep[1]);
                }
            }
        }
        assert(fills.take(fills.len() as int) =~= fills);
        events
    }

    /// Matches the bids of `instrument`, best first, against a public trade: each matched bid
    /// trades and its trade and new balances are reported. Fails, changing nothing, where a
    /// balance or the trade number would overflow.
    pub fn match_bids(&mut self, instrument: &Instrument, trade: &PublicTrade, received_time: i64) -> (r: Result<
        Vec<AccountEvent>,
        ExecutionError,
    >)
        requires
            old(self).wf(),
            old(self).spec_has_instrument(instrument),
            matches_configured(old(self).balances@, old(self).spec_bid_matches(instrument, trade)),
        ensures
            ({
                let fills = old(self).spec_bid_matches(instrument, trade);
                let after = balances_after_matches(old(self).fees_ppm, old(self).balances@, fills);
                match r {
                    Ok(events) => {
                        &&& after is Some
                        &&& old(self).trade_number + fills.len() <= u64::MAX
                        &&& Self::bids_matched(
                            *old(self),
                            *final(self),
                            instrument@,
                            trade.price,
                            trade.quantity,
                        )
                        &&& reports_matches(
                            events@,
                            old(self).fees_ppm,
                            old(self).balances@,
                            fills,
                            old(self).trade_number as int,
                        )
                        &&& received_at(events@, received_time)
                    },
                    Err(e) => {
                        &&& *final(self) == *old(self)
                        &&& after is None ==> e == ExecutionError::Simulated(
                            SimulatedError::BalanceOverflow,
                        )
                        &&& after is Some ==> {
                            &&& old(self).trade_number + fills.len() > u64::MAX
                            &&& e == ExecutionError::Simulated(SimulatedError::TradeNumberOverflow)
                        }
                    },
                }
            }),
            final(self).wf(),
    {
        let ghost pre = *self;
        let idx = self.instrument_position(instrument).unwrap();
        let ghost bids0 = self.orders@[idx as int].orders.bids@;
        let ghost m = bid_matches(bids0, trade.price, trade.quantity);
        assert(self.orders@[idx as int].orders.wf());
        let (keep, quantities) = plan_bid_matches(
            &self.orders[idx].orders.bids,
            trade.price,
            trade.quantity,
        );
        if !self.matches_fit(&self.orders[idx].orders.bids, &quantities) {
            return Err(ExecutionError::Simulated(SimulatedError::BalanceOverflow));
        }
        if self.trade_number > u64::MAX - (quantities.len() as u64) {
            return Err(ExecutionError::Simulated(SimulatedError::TradeNumberOverflow));
        }
        let events = self.apply_matches(idx, &quantities, received_time);
        self.orders[idx].orders.bids.truncate(keep);
        proof {
            assert(self.orders@[idx as int].orders.bids@ =~= m.0);
            assert forall|j: int| 0 <= j < self.orders@.len() implies (#[trigger] self.orders@[j]).orders.wf() by {
                if j != idx {
                    assert(self.orders@[j] == pre.orders@[j]);
                } else {
                    assert(pre.orders@[j].orders.wf());
                    assert(self.orders@[j].orders.asks == pre.orders@[j].orders.asks);
                }
            }
            assert(instruments_distinct(self.orders@)) by {
                assert forall|a: int, b: int|
                    0 <= a < self.orders@.len() && 0 <= b < self.orders@.len()
                        && #[trigger] self.orders@[a].instrument@
                        == #[trigger] self.orders@[b].instrument@ implies a == b by {
                    assert(pre.orders@[a].instrument@ == pre.orders@[b].instrument@);
                }
            }
            let fills = fills_of(bids0, quantities@);
            let bal1 = balances_after_matches(pre.fees_ppm, pre.balances@, fills).unwrap();
            assert forall|i: int| 0 <= i < pre.balances@.len() implies (#[trigger] self.balances@[i]).symbol == pre.balances@[i].symbol by {
                lemma_matches_keep_symbols(pre.fees_ppm, pre.balances@, fills);
            }
            lemma_matches_keep_symbols(pre.fees_ppm, pre.balances@, fills);
            lemma_same_symbols(pre.balances@, self.balances@);
        }
        Ok(events)
    }

    /// The bids that remain and the matches that `match_orders` makes: the bids' matches, and
    /// where the best ask is at or below the trade's price, the bids' matches once more on what
    /// is left, from the trade's whole quantity.
    pub open spec fn orders_matches(
        bids: Seq<Order<Open>>,
        asks: Seq<Order<Open>>,
        price: u64,
        quantity: u64,
    ) -> (Seq<Order<Open>>, Seq<(Order<Open>, u64)>) {
        let m1 = bid_matches(bids, price, quantity);
        if asks.len() > 0 && asks.last().state.price <= price {
            let m2 = bid_matches(m1.0, price, quantity);
            (m2.0, m1.1 + m2.1)
        } else {
            m1
        }
    }

    /// The matches of `match_orders`, for `instrument` and `trade`.
    pub open spec fn spec_orders_matches(&self, instrument: &Instrument, trade: &PublicTrade) -> (
        Seq<Order<Open>>,
        Seq<(Order<Open>, u64)>,
    ) {
        Self::orders_matches(
            self.spec_orders(instrument).bids@,
            self.spec_orders(instrument).asks@,
            trade.price,
            trade.quantity,
        )
    }

    /// Matches the client's orders of `instrument` against a public trade: the bids where the
    /// best bid is at or above the trade's price, and the bids once more where the best ask is
    /// at or below it. Fails, changing nothing, where a balance or the trade number would
    /// overflow in either pass.
    pub fn match_orders(&mut self, instrument: &Instrument, trade: &PublicTrade, received_time: i64) -> (r: Result<
        Vec<AccountEvent>,
        ExecutionError,
    >)
        requires
            old(self).wf(),
            old(self).spec_has_instrument(instrument),
            matches_configured(old(self).balances@, old(self).spec_orders_matches(instrument, trade).1),
        ensures
            ({
                let i = instrument_index(old(self).orders@, instrument@);
                let mm = old(self).spec_orders_matches(instrument, trade);
                let after = balances_after_matches(old(self).fees_ppm, old(self).balances@, mm.1);
                match r {
                    Ok(events) => {
                        &&& after is Some
                        &&& old(self).trade_number + mm.1.len() <= u64::MAX
                        &&& Self::matched(*old(self), *final(self), i, mm.0, mm.1)
                        &&& reports_matches(
                            events@,
                            old(self).fees_ppm,
                            old(self).balances@,
                            mm.1,
                            old(self).trade_number as int,
                        )
                        &&& received_at(events@, received_time)
                    },
                    Err(e) => {
                        &&& *final(self) == *old(self)
                        &&& after is None ==> e == ExecutionError::Simulated(
                            SimulatedError::BalanceOverflow,
                        )
                        &&& after is Some ==> {
                            &&& old(self).trade_number + mm.1.len() > u64::MAX
                            &&& e == ExecutionError::Simulated(SimulatedError::TradeNumberOverflow)
                        }
                    },
                }
            }),
            final(self).wf(),
    {
        let ghost pre = *self;
        let ghost i = instrument_index(self.orders@, instrument@);
        let ghost bids0 = self.spec_orders(instrument).bids@;
        let ghost asks0 = self.spec_orders(instrument).asks@;
        let ghost m1 = bid_matches(bids0, trade.price, trade.quantity);
        let ghost mm = Self::orders_matches(bids0, asks0, trade.price, trade.quantity);
        let ghost m2 = bid_matches(m1.0, trade.price, trade.quantity);
        assert(matches_configured(pre.balances@, m1.1)) by {
            if asks0.len() > 0 && asks0.last().state.price <= trade.price {
                assert forall|k: int| 0 <= k < m1.1.len() implies has_symbol(pre.balances@, (#[trigger] m1.1[k]).0.instrument.base@)
                    && has_symbol(pre.balances@, m1.1[k].0.instrument.quote@) by {
                    assert(mm.1[k] == m1.1[k]);
                }
            }
        }
        // Both passes are planned and checked before anything changes.
        proof {
            self.lemma_book();
        }
        let idx = self.instrument_position(instrument).unwrap();
        assert(self.orders@[idx as int].orders.wf());
        assert(bids0 == self.orders@[idx as int].orders.bids@);
        assert(asks0 == self.orders@[idx as int].orders.asks@);
        let (keep, first) = plan_bid_matches(&self.orders[idx].orders.bids, trade.price, trade.quantity);
        let again = self.orders[idx].orders.has_matching_ask(trade);
        let mut rest = clone_orders(&self.orders[idx].orders.bids);
        rest.truncate(keep);
        assert(rest@ == m1.0);
        assert(orders_wf(rest@)) by {
            assert forall|k: int| 0 <= k < rest@.len() implies #[trigger] rest@[k].state.filled_quantity
                <= rest@[k].state.quantity by {
                assert(rest@[k] == bids0[k]);
            }
        }
        let second: Vec<u64> = if again {
            let (_, q) = plan_bid_matches(&rest, trade.price, trade.quantity);
            q
        } else {
            Vec::new()
        };
        let ghost f2 = fills_of(rest@, second@);
        assert(mm.1 == m1.1 + f2) by {
            if again {
                assert(f2 == m2.1);
            } else {
                assert(f2 =~= Seq::<(Order<Open>, u64)>::empty());
                assert(m1.1 + f2 =~= m1.1);
            }
        }
        proof {
            lemma_matches_concat(pre.fees_ppm, pre.balances@, m1.1, f2);
        }
        let start = self.balances.clone();
        assert(start@ =~= pre.balances@);
        let fitted = match self.matches_fit_from(start, &self.orders[idx].orders.bids, &first) {
            None => None,
            Some(mid) => {
                proof {
                    lemma_matches_keep_symbols(pre.fees_ppm, pre.balances@, m1.1);
                    lemma_same_symbols(pre.balances@, mid@);
                    assert forall|k: int| 0 <= k < f2.len() implies has_symbol(mid@, (#[trigger] f2[k]).0.instrument.base@)
                        && has_symbol(mid@, f2[k].0.instrument.quote@) by {
                        assert(mm.1[m1.1.len() + k] == f2[k]);
                    }
                }
                self.matches_fit_from(mid, &rest, &second)
            },
        };
        if fitted.is_none() {
            return Err(ExecutionError::Simulated(SimulatedError::BalanceOverflow));
        }
        let n1 = first.len() as u64;
        let n2 = second.len() as u64;
        if self.trade_number > u64::MAX - n1 || self.trade_number + n1 > u64::MAX - n2 {
            return Err(ExecutionError::Simulated(SimulatedError::TradeNumberOverflow));
        }
        assert(balances_after_matches(pre.fees_ppm, pre.balances@, mm.1) is Some);
        assert(balances_after_matches(pre.fees_ppm, pre.balances@, m1.1) is Some);
        assert(pre.trade_number + mm.1.len() <= u64::MAX);
        let mut events: Vec<AccountEvent> = Vec::new();
        if self.orders(instrument).has_matching_bid(trade) {
            proof {
                if asks0.len() > 0 && asks0.last().state.price <= trade.price {
                    lemma_matches_concat(pre.fees_ppm, pre.balances@, m1.1, m2.1);
                }
            }
            match self.match_bids(instrument, trade, received_time) {
                Ok(first) => {
                    events = first;
                },
                Err(e) => {
                    proof {
                        assert(false);
                    }
                    return Err(e);
                },
            }
        } else {
            assert(bids0.len() == 0 || bids0.last().state.price < trade.price);
            assert(m1.1 =~= Seq::<(Order<Open>, u64)>::empty());
            assert(m1.0 == bids0);
            assert(balances_after_matches(pre.fees_ppm, pre.balances@, m1.1) == Some(pre.balances@));
            assert(Self::matched(pre, *self, i, m1.0, m1.1)) by {
                assert(self.orders@[i].orders.bids@ == bids0);
            }
            assert(reports_matches(events@, pre.fees_ppm, pre.balances@, m1.1, pre.trade_number as int));
        }
        let ghost mid = *self;
        assert(Self::matched(pre, mid, i, m1.0, m1.1));
        assert(instrument_index(mid.orders@, instrument@) == i) by {
            assert(mid.orders@[i].instrument@ == instrument@);
        }
        if self.orders(instrument).has_matching_ask(trade) {
            assert(self.spec_orders(instrument).asks == pre.spec_orders(instrument).asks);
            assert(mm.1 == m1.1 + m2.1);
            proof {
                lemma_matches_keep_symbols(pre.fees_ppm, pre.balances@, m1.1);
                lemma_same_symbols(pre.balances@, mid.balances@);
                assert forall|k: int| 0 <= k < m2.1.len() implies has_symbol(mid.balances@, (#[trigger] m2.1[k]).0.instrument.base@)
                    && has_symbol(mid.balances@, m2.1[k].0.instrument.quote@) by {
                    assert(mm.1[m1.1.len() + k] == m2.1[k]);
                }
                lemma_matches_concat(pre.fees_ppm, pre.balances@, m1.1, m2.1);
            }
            let more = self.match_bids(instrument, trade, received_time);
            match more {
                Ok(mut more_events) => {
                    proof {
                        lemma_reports_concat(
                            events@,
                            more_events@,
                            pre.fees_ppm,
                            pre.balances@,
                            m1.1,
                            m2.1,
                            pre.trade_number as int,
                        );
                    }
                    let ghost e1 = events@;
                    let ghost e2 = more_events@;
                    events.append(&mut more_events);
                    assert(received_at(events@, received_time)) by {
                        assert(events@ =~= e1 + e2);
                        assert forall|j: int| 0 <= j < events@.len() implies (#[trigger] events@[j]).received_time
                            == received_time by {
                            if j < e1.len() {
                                assert(events@[j] == e1[j]);
                            } else {
                                assert(events@[j] == e2[j - e1.len()]);
                            }
                        }
                    }
                    proof {
                        assert forall|j: int| 0 <= j < pre.orders@.len() && j != i implies (#[trigger] self.orders@[j]).orders
                            == pre.orders@[j].orders by {
                            assert(mid.orders@[j].orders == pre.orders@[j].orders);
                        }
                    }
                },
                Err(e) => {
                    proof {
                        assert(false);
                    }
                    return Err(e);
                },
            }
        } else {
            assert(mm == m1);
        }
        Ok(events)
    }

    /// Whether the base and quote symbols of every order among the matches of `quantities` of
    /// the best `bids` have balances.
    fn matches_configured_exec(&self, bids: &Vec<Order<Open>>, quantities: &Vec<u64>) -> (r: bool)
        requires
            symbols_distinct(self.balances@),
            quantities@.len() <= bids@.len(),
        ensures
            r == matches_configured(self.balances@, fills_of(bids@, quantities@)),
    {
        let ghost fills = fills_of(bids@, quantities@);
        let n = bids.len();
        let mut k: usize = 0;
        while k < quantities.len()
            invariant
                k <= quantities@.len(),
                quantities@.len() <= n,
                n == bids@.len(),
                fills == fills_of(bids@, quantities@),
                symbols_distinct(self.balances@),
                forall|j: int|
                    0 <= j < k ==> has_symbol(self.balances@, (#[trigger] fills[j]).0.instrument.base@)
                        && has_symbol(self.balances@, fills[j].0.instrument.quote@),
            decreases quantities@.len() - k,
        {
            let order = &bids[n - 1 - k];
            assert(fills[k as int].0 == *order);
            if self.symbol_position(&order.instrument.base).is_none()
                || self.symbol_position(&order.instrument.quote).is_none() {
                return false;
            }
            k += 1;
        }
        true
    }

    /// Whether the exchange is configured for `match_orders` of `trade` on `instrument`: for the
    /// instrument, and for the base and quote symbols of every order it would match.
    pub fn is_configured_for_match(&self, instrument: &Instrument, trade: &PublicTrade) -> (r: bool)
        requires
            self.wf(),
        ensures
            r == (self.spec_has_instrument(instrument) && matches_configured(
                self.balances@,
                self.spec_orders_matches(instrument, trade).1,
            )),
    {
        let idx = match self.instrument_position(instrument) {
            Some(i) => i,
            None => {
                return false;
            },
        };
        let ghost bids0 = self.orders@[idx as int].orders.bids@;
        let ghost m1 = bid_matches(bids0, trade.price, trade.quantity);
        let ghost mm = self.spec_orders_matches(instrument, trade);
        assert(self.orders@[idx as int].orders.wf());
        let (keep, first) = plan_bid_matches(&self.orders[idx].orders.bids, trade.price, trade.quantity);
        let first_ok = self.matches_configured_exec(&self.orders[idx].orders.bids, &first);
        if !self.orders[idx].orders.has_matching_ask(trade) {
            assert(mm == m1);
            return first_ok;
        }
        let mut rest = clone_orders(&self.orders[idx].orders.bids);
        rest.truncate(keep);
        assert(rest@ == m1.0);
        assert(orders_wf(rest@)) by {
            assert forall|i: int| 0 <= i < rest@.len() implies #[trigger] rest@[i].state.filled_quantity
                <= rest@[i].state.quantity by {
                assert(rest@[i] == bids0[i]);
            }
        }
        let (_, second) = plan_bid_matches(&rest, trade.price, trade.quantity);
        let second_ok = self.matches_configured_exec(&rest, &second);
        proof {
            let m2 = bid_matches(m1.0, trade.price, trade.quantity);
            assert(mm.1 == m1.1 + m2.1);
            if first_ok && second_ok {
                assert forall|k: int| 0 <= k < mm.1.len() implies has_symbol(self.balances@, (#[trigger] mm.1[k]).0.instrument.base@)
                    && has_symbol(self.balances@, mm.1[k].0.instrument.quote@) by {
                    if k < m1.1.len() {
                        assert(mm.1[k] == m1.1[k]);
                    } else {
                        assert(mm.1[k] == m2.1[k - m1.1.len()]);
                    }
                }
            }
            if !first_ok {
                let k = choose|k: int| 0 <= k < m1.1.len() && !(has_symbol(self.balances@, (#[trigger] m1.1[k]).0.instrument.base@)
                    && has_symbol(self.balances@, m1.1[k].0.instrument.quote@));
                assert(mm.1[k] == m1.1[k]);
            } else if !second_ok {
                let k = choose|k: int| 0 <= k < m2.1.len() && !(has_symbol(self.balances@, (#[trigger] m2.1[k]).0.instrument.base@)
                    && has_symbol(self.balances@, m2.1[k].0.instrument.quote@));
                assert(mm.1[m1.1.len() + k] == m2.1[k]);
            }
        }
        first_ok && second_ok
    }

    /// Whether `order` is filled whole by `liquidity`.
    pub fn fill_kind(order: &Order<Open>, liquidity: u64) -> (r: OrderFill)
        ensures
            r == (if order.state.spec_remaining_quantity() <= liquidity {
                OrderFill::Full
            } else {
                OrderFill::Partial
            }),
    {
        if order.state.remaining_quantity() <= liquidity as i128 {
            OrderFill::Full
        } else {
            OrderFill::Partial
        }
    }
}

} // verus!
