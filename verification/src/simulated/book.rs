//! The client's order book on the simulated exchange, seen as plain sequences: where an opened
//! order rests, which order a cancel removes, and what the book holds after a batch of either.
use vstd::prelude::*;
use crate::error::{ExecutionError, SimulatedError};
use crate::model::ClientOrderId;
use crate::model::market::{Instrument, InstrumentKind, Side};
use crate::model::order::{Open, Order, OrderId, RequestCancel};
use crate::simulated::account::{asks_sorted, bids_sorted, orders_wf};

verus! {

/// The book: for each configured instrument, its bids and its asks.
pub type Book = Seq<(Instrument, Seq<Order<Open>>, Seq<Order<Open>>)>;

/// Some entry of `book` is of the instrument `ins`.
pub open spec fn book_has(book: Book, ins: (Seq<char>, Seq<char>, InstrumentKind)) -> bool {
    exists|i: int| 0 <= i < book.len() && #[trigger] book[i].0@ == ins
}

/// The position of the entry of `ins` in `book`.
pub open spec fn book_index(book: Book, ins: (Seq<char>, Seq<char>, InstrumentKind)) -> int {
    choose|i: int| 0 <= i < book.len() && #[trigger] book[i].0@ == ins
}

/// Each entry of `book` is of another instrument, and each side is sorted with the best order
/// last, with no order traded over its quantity.
pub open spec fn book_wf(book: Book) -> bool {
    &&& forall|i: int, j: int|
        0 <= i < book.len() && 0 <= j < book.len() && #[trigger] book[i].0@ == #[trigger] book[j].0@
            ==> i == j
    &&& forall|i: int|
        0 <= i < book.len() ==> {
            &&& bids_sorted((#[trigger] book[i]).1)
            &&& asks_sorted(book[i].2)
            &&& orders_wf(book[i].1)
            &&& orders_wf(book[i].2)
        }
}

/// `bids` (ascending in price) with `o` placed after every bid priced at or below it.
pub open spec fn bids_insert(bids: Seq<Order<Open>>, o: Order<Open>) -> Seq<Order<Open>>
    decreases bids.len(),
{
    if bids.len() == 0 || bids.last().state.price <= o.state.price {
        bids.push(o)
    } else {
        bids_insert(bids.drop_last(), o).push(bids.last())
    }
}

/// `asks` (descending in price) with `o` placed after every ask priced at or above it.
pub open spec fn asks_insert(asks: Seq<Order<Open>>, o: Order<Open>) -> Seq<Order<Open>>
    decreases asks.len(),
{
    if asks.len() == 0 || asks.last().state.price >= o.state.price {
        asks.push(o)
    } else {
        asks_insert(asks.drop_last(), o).push(asks.last())
    }
}

/// `book` with the opened order `o` resting on its side of the entry of its instrument.
pub open spec fn book_with_open(book: Book, o: Order<Open>) -> Book {
    let i = book_index(book, o.instrument@);
    let e = book[i];
    match o.state.side {
        Side::Buy => book.update(i, (e.0, bids_insert(e.1, o), e.2)),
        Side::Sell => book.update(i, (e.0, e.1, asks_insert(e.2, o))),
    }
}

/// `book` after the orders that opened among `results` rest, in turn.
pub open spec fn book_after_opens(book: Book, results: Seq<Result<Order<Open>, ExecutionError>>) -> Book
    decreases results.len(),
{
    if results.len() == 0 {
        book
    } else {
        let b = book_after_opens(book, results.drop_last());
        match results.last() {
            Ok(o) => book_with_open(b, o),
            Err(_) => b,
        }
    }
}

/// The positions, ascending, of the orders of `orders` with the client order id `cid`.
pub open spec fn cid_indexes(orders: Seq<Order<Open>>, cid: ClientOrderId) -> Seq<usize>
    decreases orders.len(),
{
    if orders.len() == 0 {
        Seq::empty()
    } else if orders.last().cid == cid {
        cid_indexes(orders.drop_last(), cid).push((orders.len() - 1) as usize)
    } else {
        cid_indexes(orders.drop_last(), cid)
    }
}

/// Cancelling `request` on `book`: where its instrument is configured and exactly one of its
/// orders has the request's client order id, that order leaves the book and its id is returned.
pub open spec fn cancel_one(book: Book, request: Order<RequestCancel>) -> (Book, Result<OrderId, ExecutionError>) {
    if !book_has(book, request.instrument@) {
        (book, Err(ExecutionError::Simulated(SimulatedError::CancelUnknownInstrument(request.instrument))))
    } else {
        let i = book_index(book, request.instrument@);
        let e = book[i];
        let in_bids = cid_indexes(e.1, request.cid);
        let in_asks = cid_indexes(e.2, request.cid);
        if in_bids.len() == 1 && in_asks.len() == 0 {
            (book.update(i, (e.0, e.1.remove(in_bids[0] as int), e.2)), Ok(e.1[in_bids[0] as int].state.id))
        } else if in_bids.len() == 0 && in_asks.len() == 1 {
            (book.update(i, (e.0, e.1, e.2.remove(in_asks[0] as int))), Ok(e.2[in_asks[0] as int].state.id))
        } else {
            (book, Err(ExecutionError::Simulated(SimulatedError::CancelUnknownClientOrderId(request.cid))))
        }
    }
}

/// The book and the results after cancelling `requests` in turn.
pub open spec fn cancels_outcome(book: Book, requests: Seq<Order<RequestCancel>>) -> (
    Book,
    Seq<Result<OrderId, ExecutionError>>,
)
    decreases requests.len(),
{
    if requests.len() == 0 {
        (book, Seq::empty())
    } else {
        let before = cancels_outcome(book, requests.drop_last());
        let step = cancel_one(before.0, requests.last());
        (step.0, before.1.push(step.1))
    }
}

/// No request asks to cancel a client order id that two orders of its instrument hold.
pub open spec fn cancels_unambiguous(book: Book, requests: Seq<Order<RequestCancel>>) -> bool {
    forall|k: int|
        0 <= k < requests.len() && book_has(book, (#[trigger] requests[k]).instrument@) ==> cid_indexes(
            book[book_index(book, requests[k].instrument@)].1,
            requests[k].cid,
        ).len() + cid_indexes(book[book_index(book, requests[k].instrument@)].2, requests[k].cid).len()
            <= 1
}

/// All the orders of `book`: for each entry in turn, its bids and then its asks.
pub open spec fn all_orders(book: Book) -> Seq<Order<Open>>
    decreases book.len(),
{
    if book.len() == 0 {
        Seq::empty()
    } else {
        all_orders(book.drop_last()) + book.last().1 + book.last().2
    }
}


/// Placing `o` into `bids` goes at `k`, where every bid from `k` on is priced above `o` and the
/// one before `k` (if any) is not.
pub proof fn lemma_bids_insert_at(bids: Seq<Order<Open>>, o: Order<Open>, k: int)
    requires
        0 <= k <= bids.len(),
        forall|i: int| k <= i < bids.len() ==> (#[trigger] bids[i]).state.price > o.state.price,
        k == 0 || bids[k - 1].state.price <= o.state.price,
    ensures
        bids_insert(bids, o) == bids.insert(k, o),
    decreases bids.len(),
{
    if bids.len() == 0 || bids.last().state.price <= o.state.price {
        if bids.len() > 0 {
            assert(k == bids.len()) by {
                if k < bids.len() {
                    assert(bids[bids.len() - 1].state.price > o.state.price);
                }
            }
        }
        assert(bids.push(o) =~= bids.insert(k, o));
    } else {
        let d = bids.drop_last();
        assert(k < bids.len());
        assert(forall|i: int| k <= i < d.len() ==> (#[trigger] d[i]) == bids[i]);
        lemma_bids_insert_at(d, o, k);
        assert(d.insert(k, o).push(bids.last()) =~= bids.insert(k, o));
    }
}

/// Placing `o` into `asks` goes at `k`, where every ask from `k` on is priced below `o` and the
/// one before `k` (if any) is not.
pub proof fn lemma_asks_insert_at(asks: Seq<Order<Open>>, o: Order<Open>, k: int)
    requires
        0 <= k <= asks.len(),
        forall|i: int| k <= i < asks.len() ==> (#[trigger] asks[i]).state.price < o.state.price,
        k == 0 || asks[k - 1].state.price >= o.state.price,
    ensures
        asks_insert(asks, o) == asks.insert(k, o),
    decreases asks.len(),
{
    if asks.len() == 0 || asks.last().state.price >= o.state.price {
        if asks.len() > 0 {
            assert(k == asks.len()) by {
                if k < asks.len() {
                    assert(asks[asks.len() - 1].state.price < o.state.price);
                }
            }
        }
        assert(asks.push(o) =~= asks.insert(k, o));
    } else {
        let d = asks.drop_last();
        assert(k < asks.len());
        assert(forall|i: int| k <= i < d.len() ==> (#[trigger] d[i]) == asks[i]);
        lemma_asks_insert_at(d, o, k);
        assert(d.insert(k, o).push(asks.last()) =~= asks.insert(k, o));
    }
}

/// Every position that `cid_indexes` gives holds an order of that client order id.
pub proof fn lemma_cid_indexes(orders: Seq<Order<Open>>, cid: ClientOrderId)
    requires
        orders.len() <= usize::MAX,
    ensures
        forall|m: int|
            0 <= m < cid_indexes(orders, cid).len() ==> {
                &&& (#[trigger] cid_indexes(orders, cid)[m]) < orders.len()
                &&& orders[cid_indexes(orders, cid)[m] as int].cid == cid
            },
    decreases orders.len(),
{
    if orders.len() > 0 {
        let d = orders.drop_last();
        lemma_cid_indexes(d, cid);
        let c = cid_indexes(orders, cid);
        let cd = cid_indexes(d, cid);
        assert forall|m: int| 0 <= m < c.len() implies {
            &&& (#[trigger] c[m]) < orders.len()
            &&& orders[c[m] as int].cid == cid
        } by {
            if orders.last().cid == cid {
                assert(c == cd.push((orders.len() - 1) as usize));
            } else {
                assert(c == cd);
            }
            if m < cd.len() {
                assert(c[m] == cd[m]);
                assert(d[cd[m] as int] == orders[cd[m] as int]);
            }
        }
    }
}

/// Counting the orders of a client order id adds up over a concatenation.
pub proof fn lemma_cid_indexes_concat(a: Seq<Order<Open>>, b: Seq<Order<Open>>, cid: ClientOrderId)
    ensures
        cid_indexes(a + b, cid).len() == cid_indexes(a, cid).len() + cid_indexes(b, cid).len(),
    decreases b.len(),
{
    if b.len() == 0 {
        assert(a + b =~= a);
    } else {
        assert((a + b).drop_last() =~= a + b.drop_last());
        assert((a + b).last() == b.last());
        lemma_cid_indexes_concat(a, b.drop_last(), cid);
    }
}

/// Removing an order never adds an order of a client order id.
pub proof fn lemma_cid_indexes_remove(orders: Seq<Order<Open>>, i: int, cid: ClientOrderId)
    requires
        0 <= i < orders.len(),
    ensures
        cid_indexes(orders.remove(i), cid).len() <= cid_indexes(orders, cid).len(),
{
    let a = orders.take(i);
    let b = orders.skip(i + 1);
    assert(orders.remove(i) =~= a + b);
    assert(orders =~= (a + seq![orders[i]]) + b);
    lemma_cid_indexes_concat(a, b, cid);
    lemma_cid_indexes_concat(a + seq![orders[i]], b, cid);
    lemma_cid_indexes_concat(a, seq![orders[i]], cid);
}


/// Places `o` among `bids`: after every bid priced at or below it.
pub fn insert_bid(bids: &mut Vec<Order<Open>>, o: Order<Open>)
    requires
        bids_sorted(old(bids)@),
        orders_wf(old(bids)@),
        o.state.filled_quantity <= o.state.quantity,
    ensures
        final(bids)@ == bids_insert(old(bids)@, o),
        bids_sorted(final(bids)@),
        orders_wf(final(bids)@),
{
    let mut k = bids.len();
    while k > 0 && bids[k - 1].state.price > o.state.price
        invariant
            k <= bids@.len(),
            forall|i: int| k <= i < bids@.len() ==> (#[trigger] bids@[i]).state.price > o.state.price,
        decreases k,
    {
        k -= 1;
    }
    let ghost s = bids@;
    proof {
        lemma_bids_insert_at(s, o, k as int);
    }
    bids.insert(k, o);
    proof {
        let t = bids@;
        assert forall|i: int, j: int| 0 <= i <= j < t.len() implies t[i].state.price <= t[j].state.price by {
            if j < k {
                assert(t[i] == s[i] && t[j] == s[j]);
            } else if j == k {
                if i < k {
                    assert(t[i] == s[i]);
                    assert(s[i].state.price <= s[k - 1].state.price);
                }
            } else {
                assert(t[j] == s[j - 1]);
                if i < k {
                    assert(t[i] == s[i]);
                } else if i > k {
                    assert(t[i] == s[i - 1]);
                }
            }
        }
        assert forall|i: int| 0 <= i < t.len() implies #[trigger] t[i].state.filled_quantity <= t[i].state.quantity by {
            if i < k {
                assert(t[i] == s[i]);
            } else if i > k {
                assert(t[i] == s[i - 1]);
            }
        }
    }
}

/// Places `o` among `asks`: after every ask priced at or above it.
pub fn insert_ask(asks: &mut Vec<Order<Open>>, o: Order<Open>)
    requires
        asks_sorted(old(asks)@),
        orders_wf(old(asks)@),
        o.state.filled_quantity <= o.state.quantity,
    ensures
        final(asks)@ == asks_insert(old(asks)@, o),
        asks_sorted(final(asks)@),
        orders_wf(final(asks)@),
{
    let mut k = asks.len();
    while k > 0 && asks[k - 1].state.price < o.state.price
        invariant
            k <= asks@.len(),
            forall|i: int| k <= i < asks@.len() ==> (#[trigger] asks@[i]).state.price < o.state.price,
        decreases k,
    {
        k -= 1;
    }
    let ghost s = asks@;
    proof {
        lemma_asks_insert_at(s, o, k as int);
    }
    asks.insert(k, o);
    proof {
        let t = asks@;
        assert forall|i: int, j: int| 0 <= i <= j < t.len() implies t[i].state.price >= t[j].state.price by {
            if j < k {
                assert(t[i] == s[i] && t[j] == s[j]);
            } else if j == k {
                if i < k {
                    assert(t[i] == s[i]);
                    assert(s[i].state.price >= s[k - 1].state.price);
                }
            } else {
                assert(t[j] == s[j - 1]);
                if i < k {
                    assert(t[i] == s[i]);
                } else if i > k {
                    assert(t[i] == s[i - 1]);
                }
            }
        }
        assert forall|i: int| 0 <= i < t.len() implies #[trigger] t[i].state.filled_quantity <= t[i].state.quantity by {
            if i < k {
                assert(t[i] == s[i]);
            } else if i > k {
                assert(t[i] == s[i - 1]);
            }
        }
    }
}

/// A copy of `orders`.
pub fn clone_orders(orders: &Vec<Order<Open>>) -> (r: Vec<Order<Open>>)
    ensures
        r@ == orders@,
{
    let mut r: Vec<Order<Open>> = Vec::new();
    let mut i: usize = 0;
    while i < orders.len()
        invariant
            i <= orders@.len(),
            r@ == orders@.take(i as int),
        decreases orders@.len() - i,
    {
        let o = orders[i].clone();
        assert(o == orders@[i as int]);
        r.push(o);
        i += 1;
        assert(r@ =~= orders@.take(i as int));
    }
    assert(orders@.take(orders@.len() as int) =~= orders@);
    r
}

} // verus!
