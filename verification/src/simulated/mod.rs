//! A simulated exchange that keeps its client's account and answers the client's requests:
//! fetching open orders and balances, opening and cancelling orders. The waiting and the
//! channels around it are the caller's.
use vstd::prelude::*;
use crate::error::{ExecutionError, SimulatedError};
use crate::model::ClientOrderId;
use crate::model::balance::{Balance, SymbolBalance};
use crate::model::market::{Instrument, Side, Symbol};
use crate::model::order::{Open, Order, OrderId, RequestCancel, RequestOpen};
use crate::simulated::account::{
    apply_delta, has_symbol, in_i128, notional, symbol_index, symbols_distinct, ClientAccount,
    InstrumentOrders, FEE_SCALE,
};
use crate::simulated::book::{
    all_orders, book_after_opens, book_has, book_index, book_with_open, cancel_one,
    cancels_outcome, cancels_unambiguous, cid_indexes, clone_orders, insert_ask, insert_bid,
    lemma_cid_indexes, lemma_cid_indexes_remove, Book,
};
use crate::support::{is_v4, uuid_hyphenated, uuid_to_string, uuid_v4};

pub mod account;
pub mod book;
pub mod laws;

verus! {

/// How a simulated exchange is set up: the fees it charges, in parts per million of the traded
/// amount, and how long it takes to answer.
#[derive(Debug)]
pub struct Config {
    pub fees_ppm: u64,
    pub latency: std::time::Duration,
}

/// The simulated exchange: how long it takes to answer, and its client's account.
#[derive(Debug)]
pub struct SimulatedExchange {
    pub latency: std::time::Duration,
    pub account: ClientAccount,
}

/// `open` is the order that opening `request` makes: the request's fields, nothing traded yet,
/// and as id the hyphenated form of a version 4 UUID.
pub open spec fn opened_from(open: Order<Open>, request: Order<RequestOpen>) -> bool {
    &&& open.exchange == request.exchange
    &&& open.instrument == request.instrument
    &&& open.cid == request.cid
    &&& open.state.side == request.state.side
    &&& open.state.price == request.state.price
    &&& open.state.quantity == request.state.quantity
    &&& open.state.filled_quantity == 0
    &&& exists|u: u128| is_v4(u) && open.state.id@ == uuid_hyphenated(u)
}

/// The symbol whose available amount an order of `side` on `instrument` reserves when it
/// opens: the quote for a buy, the base for a sell.
pub open spec fn reserved_symbol(side: Side, instrument: Instrument) -> Symbol {
    match side {
        Side::Buy => instrument.quote,
        Side::Sell => instrument.base,
    }
}

/// The amount, in millionths of a unit, that an order of `side`, `price` and `quantity`
/// reserves when it opens: the price times the quantity, in the quote, for a buy; the quantity,
/// in the base, for a sell.
pub open spec fn reserved_amount(side: Side, price: u64, quantity: u64) -> int {
    match side {
        Side::Buy => price * quantity * FEE_SCALE,
        Side::Sell => quantity * FEE_SCALE,
    }
}

/// `bal` with `amount` taken from the available amount of `symbol`; its total stays.
pub open spec fn balances_reserved(bal: Seq<SymbolBalance>, symbol: Symbol, amount: int) -> Seq<SymbolBalance> {
    let i = symbol_index(bal, symbol@);
    bal.update(
        i,
        SymbolBalance {
            symbol: bal[i].symbol,
            balance: Balance {
                total: bal[i].balance.total,
                available: (bal[i].balance.available - amount) as i128,
            },
        },
    )
}

/// Why opening `request` fails on `book` and balances `bal`, if it does: its instrument is not
/// configured, or its reserved symbol has a balance and the reservation would leave the range of
/// an `i128`.
pub open spec fn open_failure(book: Book, bal: Seq<SymbolBalance>, request: Order<RequestOpen>) -> Option<
    ExecutionError,
> {
    let symbol = reserved_symbol(request.state.side, request.instrument);
    let amount = reserved_amount(request.state.side, request.state.price, request.state.quantity);
    if !book_has(book, request.instrument@) {
        Some(ExecutionError::Simulated(SimulatedError::OpenUnknownInstrument(request.instrument)))
    } else if has_symbol(bal, symbol@) && !in_i128(bal[symbol_index(bal, symbol@)].balance.available - amount) {
        Some(ExecutionError::Simulated(SimulatedError::BalanceOverflow))
    } else {
        None
    }
}

/// `bal` after the reservation of the opened order `o`, where its reserved symbol has a balance;
/// `bal` as it is where it has none.
pub open spec fn balances_with_open(bal: Seq<SymbolBalance>, o: Order<Open>) -> Seq<SymbolBalance> {
    if has_symbol(bal, reserved_symbol(o.state.side, o.instrument)@) {
        balances_reserved(
            bal,
            reserved_symbol(o.state.side, o.instrument),
            reserved_amount(o.state.side, o.state.price, o.state.quantity),
        )
    } else {
        bal
    }
}

/// `bal` after the reservations of the orders that opened among `results`, in turn.
pub open spec fn balances_after_opens(bal: Seq<SymbolBalance>, results: Seq<Result<Order<Open>, ExecutionError>>) -> Seq<
    SymbolBalance,
>
    decreases results.len(),
{
    if results.len() == 0 {
        bal
    } else {
        let b = balances_after_opens(bal, results.drop_last());
        match results.last() {
            Ok(o) => balances_with_open(b, o),
            Err(_) => b,
        }
    }
}

/// The entries of `b2` are of the instruments of `b1`, at the same places.
pub open spec fn same_instruments(b1: Book, b2: Book) -> bool {
    &&& b1.len() == b2.len()
    &&& forall|i: int| 0 <= i < b1.len() ==> (#[trigger] b2[i]).0 == b1[i].0
}

/// Books with the same instruments find them at the same places.
pub proof fn lemma_same_instruments(b1: Book, b2: Book)
    requires
        same_instruments(b1, b2),
    ensures
        forall|ins: (Seq<char>, Seq<char>, crate::model::market::InstrumentKind)|
            #[trigger] book_has(b2, ins) == book_has(b1, ins),
        forall|ins: (Seq<char>, Seq<char>, crate::model::market::InstrumentKind)|
            book_has(b1, ins) && (forall|i: int, j: int|
                0 <= i < b1.len() && 0 <= j < b1.len() && #[trigger] b1[i].0@ == #[trigger] b1[j].0@
                    ==> i == j) ==> #[trigger] book_index(b2, ins) == book_index(b1, ins),
{
    assert forall|ins: (Seq<char>, Seq<char>, crate::model::market::InstrumentKind)|
        #[trigger] book_has(b2, ins) == book_has(b1, ins) by {
        if book_has(b1, ins) {
            let i = book_index(b1, ins);
            assert(b2[i].0@ == ins);
        }
        if book_has(b2, ins) {
            let i = book_index(b2, ins);
            assert(b1[i].0@ == ins);
        }
    }
    assert forall|ins: (Seq<char>, Seq<char>, crate::model::market::InstrumentKind)|
        book_has(b1, ins) && (forall|i: int, j: int|
            0 <= i < b1.len() && 0 <= j < b1.len() && #[trigger] b1[i].0@ == #[trigger] b1[j].0@ ==> i
                == j) implies #[trigger] book_index(b2, ins) == book_index(b1, ins) by {
        let i = book_index(b1, ins);
        assert(b2[i].0@ == ins);
        assert(book_has(b2, ins));
        let j = book_index(b2, ins);
        assert(b1[j].0@ == ins);
    }
}

impl SimulatedExchange {
    /// The account is well formed.
    pub open spec fn wf(&self) -> bool {
        self.account.wf()
    }

    /// All open orders: for each configured instrument, its bids and then its asks.
    pub fn fetch_orders_open(&self) -> (r: Result<Vec<Order<Open>>, ExecutionError>)
        ensures
            r matches Ok(orders) && orders@ == all_orders(self.account.book()),
    {
        let ghost book = self.account.book();
        let mut orders: Vec<Order<Open>> = Vec::new();
        let mut i: usize = 0;
        assert(book.take(0) =~= Seq::<(crate::model::market::Instrument, Seq<Order<Open>>, Seq<Order<Open>>)>::empty());
        while i < self.account.orders.len()
            invariant
                i <= self.account.orders@.len(),
                book == self.account.book(),
                orders@ == all_orders(book.take(i as int)),
            decreases self.account.orders@.len() - i,
        {
            let mut bids = clone_orders(&self.account.orders[i].orders.bids);
            let mut asks = clone_orders(&self.account.orders[i].orders.asks);
            let ghost before = orders@;
            let ghost b = bids@;
            let ghost a = asks@;
            orders.append(&mut bids);
            orders.append(&mut asks);
            assert(book.take(i + 1).drop_last() =~= book.take(i as int));
            assert(book.take(i + 1).last() == book[i as int]);
            i += 1;
            assert(orders@ =~= before + b + a);
        }
        assert(book.take(book.len() as int) =~= book);
        Ok(orders)
    }

    /// The balances of every configured symbol.
    pub fn fetch_balances(&self) -> (r: Result<Vec<SymbolBalance>, ExecutionError>)
        ensures
            r matches Ok(balances) && balances@ == self.account.balances@,
    {
        let balances = self.account.balances.clone();
        assert(balances@ =~= self.account.balances@);
        Ok(balances)
    }

    /// The positions, ascending, of the orders with the client order id `cid`.
    pub fn find_order_indexes(orders: &[Order<Open>], cid: &ClientOrderId) -> (r: Vec<usize>)
        ensures
            r@ == cid_indexes(orders@, *cid),
    {
        let mut open_indexes: Vec<usize> = Vec::new();
        let mut i: usize = 0;
        assert(orders@.take(0) =~= Seq::<Order<Open>>::empty());
        while i < orders.len()
            invariant
                i <= orders@.len(),
                open_indexes@ == cid_indexes(orders@.take(i as int), *cid),
            decreases orders@.len() - i,
        {
            assert(orders@.take(i + 1).drop_last() =~= orders@.take(i as int));
            assert(orders@.take(i + 1).last() == orders@[i as int]);
            if orders[i].cid == *cid {
                open_indexes.push(i);
            }
            i += 1;
        }
        assert(orders@.take(orders@.len() as int) =~= orders@);
        open_indexes
    }

    /// Opens `request` as an order resting on its instrument's side, and reserves its amount
    /// from the available amount of its reserved symbol where that symbol has a balance. Fails,
    /// changing nothing, where the exchange is not configured for the instrument, or the
    /// available amount would leave the range of an `i128`.
    fn open_order(&mut self, request: Order<RequestOpen>) -> (r: Result<Order<Open>, ExecutionError>)
        requires
            old(self).wf(),
        ensures
            final(self).wf(),
            final(self).latency == old(self).latency,
            final(self).account.fees_ppm == old(self).account.fees_ppm,
            final(self).account.trade_number == old(self).account.trade_number,
            same_instruments(old(self).account.book(), final(self).account.book()),
            match r {
                Ok(open) => {
                    &&& open_failure(old(self).account.book(), old(self).account.balances@, request) is None
                    &&& opened_from(open, request)
                    &&& final(self).account.book() == book_with_open(old(self).account.book(), open)
                    &&& final(self).account.balances@ == balances_with_open(old(self).account.balances@, open)
                },
                Err(e) => {
                    &&& open_failure(old(self).account.book(), old(self).account.balances@, request) == Some(e)
                    &&& final(self).account.book() == old(self).account.book()
                    &&& final(self).account.balances == old(self).account.balances
                },
            },
    {
        let ghost pre = self.account;
        proof {
            self.account.lemma_book();
        }
        let idx = match self.account.instrument_position(&request.instrument) {
            Some(i) => i,
            None => {
                return Err(
                    ExecutionError::Simulated(SimulatedError::OpenUnknownInstrument(request.instrument)),
                );
            },
        };
        let (symbol, whole) = match request.state.side {
            Side::Buy => (&request.instrument.quote, notional(request.state.price, request.state.quantity)),
            Side::Sell => (&request.instrument.base, request.state.quantity as u128),
        };
        let scaled = whole.checked_mul(FEE_SCALE as u128);
        assert(*symbol == reserved_symbol(request.state.side, request.instrument));
        assert(whole * FEE_SCALE == reserved_amount(request.state.side, request.state.price, request.state.quantity));
        match self.account.symbol_position(symbol) {
            None => {},
            Some(si) => {
                let held = self.account.balances[si].balance;
                let amount = match scaled {
                    Some(a) => a,
                    None => {
                        return Err(ExecutionError::Simulated(SimulatedError::BalanceOverflow));
                    },
                };
                let available = match apply_delta(held.available, 0, amount) {
                    Some(v) => v,
                    None => {
                        return Err(ExecutionError::Simulated(SimulatedError::BalanceOverflow));
                    },
                };
                let reserved = SymbolBalance {
                    symbol: self.account.balances[si].symbol.clone(),
                    balance: Balance { total: held.total, available },
                };
                self.account.balances.set(si, reserved);
                proof {
                    assert(self.account.balances@ =~= balances_reserved(pre.balances@, *symbol, amount as int));
                    assert(symbols_distinct(self.account.balances@)) by {
                        assert forall|a: int, b: int|
                            0 <= a < self.account.balances@.len() && 0 <= b < self.account.balances@.len()
                                && #[trigger] self.account.balances@[a].symbol@
                                == #[trigger] self.account.balances@[b].symbol@ implies a == b by {
                            assert(self.account.balances@[a].symbol == pre.balances@[a].symbol);
                            assert(self.account.balances@[b].symbol == pre.balances@[b].symbol);
                        }
                    }
                }
            },
        }
        let ghost mid = self.account;
        let u = uuid_v4();
        let id = OrderId(uuid_to_string(u));
        let open = Order {
            exchange: request.exchange,
            instrument: request.instrument,
            cid: request.cid,
            state: Open {
                id,
                side: request.state.side,
                price: request.state.price,
                quantity: request.state.quantity,
                filled_quantity: 0,
            },
        };
        assert(is_v4(u) && open.state.id@ == uuid_hyphenated(u));
        let resting = open.clone();
        assert(resting == open);
        assert(self.account.orders@[idx as int].orders.wf());
        match open.state.side {
            Side::Buy => {
                insert_bid(&mut self.account.orders[idx].orders.bids, resting);
            },
            Side::Sell => {
                insert_ask(&mut self.account.orders[idx].orders.asks, resting);
            },
        }
        proof {
            assert(mid.book() == pre.book());
            assert(self.account.book() =~= book_with_open(pre.book(), open));
            assert forall|j: int| 0 <= j < self.account.orders@.len() implies (#[trigger] self.account.orders@[j]).orders.wf() by {
                if j != idx {
                    assert(self.account.orders@[j] == pre.orders@[j]);
                }
            }
            assert(crate::simulated::account::instruments_distinct(self.account.orders@)) by {
                assert forall|a: int, b: int|
                    0 <= a < self.account.orders@.len() && 0 <= b < self.account.orders@.len()
                        && #[trigger] self.account.orders@[a].instrument@
                        == #[trigger] self.account.orders@[b].instrument@ implies a == b by {
                    assert(pre.orders@[a].instrument@ == pre.orders@[b].instrument@);
                }
            }
        }
        Ok(open)
    }

    /// Opens each request in turn, as an order resting on its instrument's side that reserves
    /// its amount from the available amount of its reserved symbol, where that symbol has a
    /// balance; a request fails alone, and changes nothing, where its instrument is not
    /// configured or the reservation would leave the range of an `i128`.
    #[verifier::rlimit(60)]
    pub fn open_orders(&mut self, open_requests: Vec<Order<RequestOpen>>) -> (results: Vec<
        Result<Order<Open>, ExecutionError>,
    >)
        requires
            old(self).wf(),
        ensures
            final(self).wf(),
            final(self).latency == old(self).latency,
            final(self).account.fees_ppm == old(self).account.fees_ppm,
            final(self).account.trade_number == old(self).account.trade_number,
            results@.len() == open_requests@.len(),
            final(self).account.book() == book_after_opens(old(self).account.book(), results@),
            final(self).account.balances@ == balances_after_opens(old(self).account.balances@, results@),
            forall|k: int|
                0 <= k < open_requests@.len() ==> match #[trigger] results@[k] {
                    Ok(open) => {
                        &&& open_failure(
                            old(self).account.book(),
                            balances_after_opens(old(self).account.balances@, results@.take(k)),
                            open_requests@[k],
                        ) is None
                        &&& opened_from(open, open_requests@[k])
                    },
                    Err(e) => open_failure(
                        old(self).account.book(),
                        balances_after_opens(old(self).account.balances@, results@.take(k)),
                        open_requests@[k],
                    ) == Some(e),
                },
    {
        let ghost pre = *self;
        let ghost book0 = self.account.book();
        let ghost bal0 = self.account.balances@;
        let ghost reqs = open_requests@;
        let mut requests = open_requests;
        let mut results: Vec<Result<Order<Open>, ExecutionError>> = Vec::new();
        assert(requests@ =~= reqs.skip(0));
        while requests.len() > 0
            invariant
                results@.len() <= reqs.len(),
                requests@ == reqs.skip(results@.len() as int),
                self.wf(),
                self.latency == pre.latency,
                self.account.fees_ppm == pre.account.fees_ppm,
                self.account.trade_number == pre.account.trade_number,
                bal0 == pre.account.balances@,
                same_instruments(book0, self.account.book()),
                self.account.book() == book_after_opens(book0, results@),
                self.account.balances@ == balances_after_opens(bal0, results@),
                forall|k: int|
                    0 <= k < results@.len() ==> match #[trigger] results@[k] {
                        Ok(open) => {
                            &&& open_failure(book0, balances_after_opens(bal0, results@.take(k)), reqs[k]) is None
                            &&& opened_from(open, reqs[k])
                        },
                        Err(e) => open_failure(book0, balances_after_opens(bal0, results@.take(k)), reqs[k])
                            == Some(e),
                    },
            decreases requests@.len(),
        {
            let ghost k = results@.len() as int;
            let ghost cur = self.account.book();
            let ghost cur_bal = self.account.balances@;
            let request = requests.remove(0);
            assert(request == reqs[k]);
            assert(requests@ =~= reqs.skip(k + 1));
            proof {
                lemma_same_instruments(book0, cur);
                assert(open_failure(cur, cur_bal, request) == open_failure(book0, cur_bal, request));
            }
            let result = self.open_order(request);
            let ghost before = results@;
            results.push(result);
            proof {
                assert(results@.drop_last() =~= before);
                assert(results@.take(k) =~= before);
                let next = self.account.book();
                assert(same_instruments(book0, next)) by {
                    assert forall|i: int| 0 <= i < book0.len() implies (#[trigger] next[i]).0 == book0[i].0 by {
                        assert(cur[i].0 == book0[i].0);
                    }
                }
                assert forall|j: int| 0 <= j < results@.len() implies match #[trigger] results@[j] {
                    Ok(open) => {
                        &&& open_failure(book0, balances_after_opens(bal0, results@.take(j)), reqs[j]) is None
                        &&& opened_from(open, reqs[j])
                    },
                    Err(e) => open_failure(book0, balances_after_opens(bal0, results@.take(j)), reqs[j])
                        == Some(e),
                } by {
                    if j < k {
                        assert(results@[j] == before[j]);
                        assert(results@.take(j) =~= before.take(j));
                    }
                }
            }
        }
        assert(results@.len() == reqs.len());
        results
    }

    /// Cancels `request`: the one order of its instrument with its client order id leaves the
    /// book and its id is returned.
    fn cancel_order(&mut self, request: Order<RequestCancel>) -> (r: Result<OrderId, ExecutionError>)
        requires
            old(self).wf(),
            book_has(old(self).account.book(), request.instrument@) ==> cid_indexes(
                old(self).account.book()[book_index(old(self).account.book(), request.instrument@)].1,
                request.cid,
            ).len() + cid_indexes(
                old(self).account.book()[book_index(old(self).account.book(), request.instrument@)].2,
                request.cid,
            ).len() <= 1,
        ensures
            final(self).wf(),
            final(self).latency == old(self).latency,
            final(self).account.fees_ppm == old(self).account.fees_ppm,
            final(self).account.balances == old(self).account.balances,
            final(self).account.trade_number == old(self).account.trade_number,
            (final(self).account.book(), r) == cancel_one(old(self).account.book(), request),
            forall|i: int, c: ClientOrderId|
                0 <= i < old(self).account.book().len() ==> #[trigger] cid_indexes(
                    final(self).account.book()[i].1,
                    c,
                ).len() <= cid_indexes(old(self).account.book()[i].1, c).len(),
            forall|i: int, c: ClientOrderId|
                0 <= i < old(self).account.book().len() ==> #[trigger] cid_indexes(
                    final(self).account.book()[i].2,
                    c,
                ).len() <= cid_indexes(old(self).account.book()[i].2, c).len(),
    {
        let ghost pre = self.account;
        proof {
            self.account.lemma_book();
        }
        let idx = match self.account.instrument_position(&request.instrument) {
            Some(i) => i,
            None => {
                return Err(
                    ExecutionError::Simulated(SimulatedError::CancelUnknownInstrument(request.instrument)),
                );
            },
        };
        let ghost bids = self.account.orders@[idx as int].orders.bids@;
        let ghost asks = self.account.orders@[idx as int].orders.asks@;
        assert(self.account.orders@[idx as int].orders.wf());
        let bid_indexes = Self::find_order_indexes(&self.account.orders[idx].orders.bids, &request.cid);
        let ask_indexes = Self::find_order_indexes(&self.account.orders[idx].orders.asks, &request.cid);
        let _n_bids = self.account.orders[idx].orders.bids.len();
        let _n_asks = self.account.orders[idx].orders.asks.len();
        proof {
            lemma_cid_indexes(bids, request.cid);
            lemma_cid_indexes(asks, request.cid);
        }
        if bid_indexes.len() == 0 && ask_indexes.len() == 0 {
            return Err(
                ExecutionError::Simulated(SimulatedError::CancelUnknownClientOrderId(request.cid)),
            );
        }
        let removed = if bid_indexes.len() == 1 && ask_indexes.len() == 0 {
            let i = bid_indexes[0];
            self.account.orders[idx].orders.bids.remove(i)
        } else {
            let i = ask_indexes[0];
            self.account.orders[idx].orders.asks.remove(i)
        };
        proof {
            let e = self.account.orders@[idx as int].orders;
            assert(self.account.book() =~= cancel_one(pre.book(), request).0);
            assert forall|i: int, c: ClientOrderId| 0 <= i < pre.book().len() implies #[trigger] cid_indexes(
                self.account.book()[i].1,
                c,
            ).len() <= cid_indexes(pre.book()[i].1, c).len() by {
                if i == idx && bid_indexes@.len() == 1 && ask_indexes@.len() == 0 {
                    lemma_cid_indexes_remove(bids, bid_indexes@[0] as int, c);
                }
            }
            assert forall|i: int, c: ClientOrderId| 0 <= i < pre.book().len() implies #[trigger] cid_indexes(
                self.account.book()[i].2,
                c,
            ).len() <= cid_indexes(pre.book()[i].2, c).len() by {
                if i == idx && !(bid_indexes@.len() == 1 && ask_indexes@.len() == 0) {
                    lemma_cid_indexes_remove(asks, ask_indexes@[0] as int, c);
                }
            }
            assert(e.wf()) by {
                assert forall|a: int, b: int| 0 <= a <= b < e.bids@.len() implies e.bids@[a].state.price
                    <= e.bids@[b].state.price by {
                    if bid_indexes@.len() == 1 && ask_indexes@.len() == 0 {
                        let i = bid_indexes@[0] as int;
                        let x = if a < i { a } else { a + 1 };
                        let y = if b < i { b } else { b + 1 };
                        assert(e.bids@[a] == bids[x] && e.bids@[b] == bids[y]);
                    }
                }
                assert forall|a: int, b: int| 0 <= a <= b < e.asks@.len() implies e.asks@[a].state.price
                    >= e.asks@[b].state.price by {
                    if !(bid_indexes@.len() == 1 && ask_indexes@.len() == 0) {
                        let i = ask_indexes@[0] as int;
                        let x = if a < i { a } else { a + 1 };
                        let y = if b < i { b } else { b + 1 };
                        assert(e.asks@[a] == asks[x] && e.asks@[b] == asks[y]);
                    }
                }
                assert forall|a: int| 0 <= a < e.bids@.len() implies #[trigger] e.bids@[a].state.filled_quantity
                    <= e.bids@[a].state.quantity by {
                    if bid_indexes@.len() == 1 && ask_indexes@.len() == 0 {
                        let i = bid_indexes@[0] as int;
                        let x = if a < i { a } else { a + 1 };
                        assert(e.bids@[a] == bids[x]);
                    }
                }
                assert forall|a: int| 0 <= a < e.asks@.len() implies #[trigger] e.asks@[a].state.filled_quantity
                    <= e.asks@[a].state.quantity by {
                    if !(bid_indexes@.len() == 1 && ask_indexes@.len() == 0) {
                        let i = ask_indexes@[0] as int;
                        let x = if a < i { a } else { a + 1 };
                        assert(e.asks@[a] == asks[x]);
                    }
                }
            }
            assert forall|j: int| 0 <= j < self.account.orders@.len() implies (#[trigger] self.account.orders@[j]).orders.wf() by {
                if j != idx {
                    assert(self.account.orders@[j] == pre.orders@[j]);
                }
            }
            assert(crate::simulated::account::instruments_distinct(self.account.orders@)) by {
                assert forall|a: int, b: int|
                    0 <= a < self.account.orders@.len() && 0 <= b < self.account.orders@.len()
                        && #[trigger] self.account.orders@[a].instrument@
                        == #[trigger] self.account.orders@[b].instrument@ implies a == b by {
                    assert(pre.orders@[a].instrument@ == pre.orders@[b].instrument@);
                }
            }
        }
        Ok(removed.state.id)
    }

    /// Cancels each request in turn: the one order of its instrument with its client order id
    /// leaves the book and its id is returned. A request fails alone where the exchange is not
    /// configured for its instrument, or no order has its client order id.
    pub fn cancel_orders(&mut self, cancel_requests: Vec<Order<RequestCancel>>) -> (results: Vec<
        Result<OrderId, ExecutionError>,
    >)
        requires
            old(self).wf(),
            cancels_unambiguous(old(self).account.book(), cancel_requests@),
        ensures
            final(self).wf(),
            final(self).latency == old(self).latency,
            final(self).account.fees_ppm == old(self).account.fees_ppm,
            final(self).account.balances == old(self).account.balances,
            final(self).account.trade_number == old(self).account.trade_number,
            (final(self).account.book(), results@) == cancels_outcome(
                old(self).account.book(),
                cancel_requests@,
            ),
    {
        let ghost pre = *self;
        let ghost book0 = self.account.book();
        let ghost reqs = cancel_requests@;
        proof {
            self.account.lemma_book();
        }
        let mut requests = cancel_requests;
        let mut results: Vec<Result<OrderId, ExecutionError>> = Vec::new();
        assert(requests@ =~= reqs.skip(0));
        assert(reqs.take(0) =~= Seq::<Order<RequestCancel>>::empty());
        while requests.len() > 0
            invariant
                results@.len() <= reqs.len(),
                requests@ == reqs.skip(results@.len() as int),
                self.wf(),
                crate::simulated::book::book_wf(book0),
                cancels_unambiguous(book0, reqs),
                self.latency == pre.latency,
                self.account.fees_ppm == pre.account.fees_ppm,
                self.account.balances == pre.account.balances,
                self.account.trade_number == pre.account.trade_number,
                same_instruments(book0, self.account.book()),
                (self.account.book(), results@) == cancels_outcome(
                    book0,
                    reqs.take(results@.len() as int),
                ),
                forall|i: int, c: ClientOrderId|
                    0 <= i < book0.len() ==> #[trigger] cid_indexes(self.account.book()[i].1, c).len()
                        <= cid_indexes(book0[i].1, c).len(),
                forall|i: int, c: ClientOrderId|
                    0 <= i < book0.len() ==> #[trigger] cid_indexes(self.account.book()[i].2, c).len()
                        <= cid_indexes(book0[i].2, c).len(),
            decreases requests@.len(),
        {
            let ghost k = results@.len() as int;
            let ghost cur = self.account.book();
            let request = requests.remove(0);
            assert(request == reqs[k]);
            assert(requests@ =~= reqs.skip(k + 1));
            proof {
                lemma_same_instruments(book0, cur);
                if book_has(book0, request.instrument@) {
                    let i = book_index(book0, request.instrument@);
                    assert(cid_indexes(cur[i].1, request.cid).len() <= cid_indexes(book0[i].1, request.cid).len());
                    assert(cid_indexes(cur[i].2, request.cid).len() <= cid_indexes(book0[i].2, request.cid).len());
                }
            }
            let result = self.cancel_order(request);
            let ghost before = results@;
            results.push(result);
            proof {
                assert(reqs.take(k + 1).drop_last() =~= reqs.take(k));
                assert(reqs.take(k + 1).last() == reqs[k]);
                let next = self.account.book();
                assert(same_instruments(book0, next)) by {
                    assert forall|i: int| 0 <= i < book0.len() implies (#[trigger] next[i]).0 == book0[i].0 by {
                        assert(cur[i].0 == book0[i].0);
                    }
                }
                assert forall|i: int, c: ClientOrderId| 0 <= i < book0.len() implies #[trigger] cid_indexes(next[i].1, c).len()
                    <= cid_indexes(book0[i].1, c).len() by {
                    assert(cid_indexes(cur[i].1, c).len() <= cid_indexes(book0[i].1, c).len());
                }
                assert forall|i: int, c: ClientOrderId| 0 <= i < book0.len() implies #[trigger] cid_indexes(next[i].2, c).len()
                    <= cid_indexes(book0[i].2, c).len() by {
                    assert(cid_indexes(cur[i].2, c).len() <= cid_indexes(book0[i].2, c).len());
                }
            }
        }
        assert(reqs.take(reqs.len() as int) =~= reqs);
        results
    }

    /// Whether no request asks to cancel a client order id that two orders of its instrument
    /// hold.
    pub fn cancels_are_unambiguous(&self, requests: &Vec<Order<RequestCancel>>) -> (r: bool)
        requires
            self.wf(),
        ensures
            r == cancels_unambiguous(self.account.book(), requests@),
    {
        let ghost book = self.account.book();
        proof {
            self.account.lemma_book();
        }
        let mut k: usize = 0;
        while k < requests.len()
            invariant
                k <= requests@.len(),
                self.wf(),
                book == self.account.book(),
                forall|ins: (Seq<char>, Seq<char>, crate::model::market::InstrumentKind)|
                    #[trigger] book_has(book, ins) == crate::simulated::account::has_instrument(self.account.orders@, ins),
                forall|ins: (Seq<char>, Seq<char>, crate::model::market::InstrumentKind)|
                    crate::simulated::account::has_instrument(self.account.orders@, ins) ==> #[trigger] book_index(book, ins)
                        == crate::simulated::account::instrument_index(self.account.orders@, ins),
                forall|j: int|
                    0 <= j < k && book_has(book, (#[trigger] requests@[j]).instrument@) ==> cid_indexes(
                        book[book_index(book, requests@[j].instrument@)].1,
                        requests@[j].cid,
                    ).len() + cid_indexes(book[book_index(book, requests@[j].instrument@)].2, requests@[j].cid).len()
                        <= 1,
            decreases requests@.len() - k,
        {
            let request = &requests[k];
            match self.account.instrument_position(&request.instrument) {
                None => {},
                Some(idx) => {
                    let in_bids = Self::find_order_indexes(&self.account.orders[idx].orders.bids, &request.cid);
                    let in_asks = Self::find_order_indexes(&self.account.orders[idx].orders.asks, &request.cid);
                    if in_bids.len() > 1 || in_asks.len() > 1 || (in_bids.len() == 1 && in_asks.len() == 1) {
                        return false;
                    }
                },
            }
            k += 1;
        }
        true
    }

    /// Cancels every open order.
    pub fn cancel_orders_all(&mut self) -> (r: Result<(), ExecutionError>)
        requires
            old(self).wf(),
        ensures
            r is Ok,
            final(self).wf(),
            final(self).latency == old(self).latency,
            final(self).account.fees_ppm == old(self).account.fees_ppm,
            final(self).account.balances == old(self).account.balances,
            final(self).account.trade_number == old(self).account.trade_number,
            same_instruments(old(self).account.book(), final(self).account.book()),
            forall|i: int|
                0 <= i < final(self).account.book().len() ==> (#[trigger] final(self).account.book()[i]).1.len()
                    == 0 && final(self).account.book()[i].2.len() == 0,
    {
        let ghost pre = self.account;
        let ghost latency = self.latency;
        let mut i: usize = 0;
        while i < self.account.orders.len()
            invariant
                i <= self.account.orders@.len(),
                self.latency == latency,
                self.account.orders@.len() == pre.orders@.len(),
                self.account.fees_ppm == pre.fees_ppm,
                self.account.balances == pre.balances,
                self.account.trade_number == pre.trade_number,
                forall|j: int|
                    0 <= j < pre.orders@.len() ==> (#[trigger] self.account.orders@[j]).instrument
                        == pre.orders@[j].instrument,
                forall|j: int|
                    0 <= j < i ==> (#[trigger] self.account.orders@[j]).orders.bids@.len() == 0
                        && self.account.orders@[j].orders.asks@.len() == 0,
                forall|j: int|
                    i <= j < pre.orders@.len() ==> (#[trigger] self.account.orders@[j]).orders
                        == pre.orders@[j].orders,
            decreases pre.orders@.len() - i,
        {
            self.account.orders[i].orders.bids.clear();
            self.account.orders[i].orders.asks.clear();
            i += 1;
        }
        proof {
            assert forall|j: int| 0 <= j < self.account.orders@.len() implies (#[trigger] self.account.orders@[j]).orders.wf() by {
                assert(self.account.orders@[j].orders.bids@.len() == 0);
                assert(self.account.orders@[j].orders.asks@.len() == 0);
            }
            assert(crate::simulated::account::instruments_distinct(self.account.orders@)) by {
                assert forall|a: int, b: int|
                    0 <= a < self.account.orders@.len() && 0 <= b < self.account.orders@.len()
                        && #[trigger] self.account.orders@[a].instrument@
                        == #[trigger] self.account.orders@[b].instrument@ implies a == b by {
                    assert(pre.orders@[a].instrument@ == pre.orders@[b].instrument@);
                }
            }
        }
        Ok(())
    }
}

} // verus!
