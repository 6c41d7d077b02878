//! What holds of the simulated exchange across its operations and for all inputs.
use vstd::prelude::*;
use crate::error::{ExecutionError, SimulatedError};
use crate::model::balance::SymbolBalance;
use crate::model::market::Side;
use crate::model::order::{Open, Order, RequestCancel};
use crate::simulated::account::{
    base_of, bid_matches, bids_sorted, fee_of, has_symbol, in_i128, matched_amounts, orders_wf, quote_of,
    symbol_index, symbols_distinct, write_amounts, FEE_SCALE,
};
use crate::simulated::{balances_with_open, reserved_amount, reserved_symbol};
use crate::support::decimal;
use crate::simulated::book::{
    all_orders, asks_insert, bids_insert, book_after_opens, book_has, book_index, book_wf,
    book_with_open, cancel_one, cancels_outcome, cancels_unambiguous, cid_indexes, Book,
};

verus! {

/// The total quantity of `fills`.
pub open spec fn matched_quantity(fills: Seq<(Order<Open>, u64)>) -> int
    decreases fills.len(),
{
    if fills.len() == 0 {
        0
    } else {
        matched_quantity(fills.drop_last()) + fills.last().1
    }
}

/// Matching bids against a trade never trades more than the trade's quantity, only matches bids
/// priced at or above the trade, and never trades more of a bid than it has left.
pub proof fn law_matching_within_trade(bids: Seq<Order<Open>>, price: u64, liquidity: u64)
    requires
        orders_wf(bids),
    ensures
        ({
            let fills = bid_matches(bids, price, liquidity).1;
            &&& matched_quantity(fills) <= liquidity
            &&& forall|k: int|
                0 <= k < fills.len() ==> {
                    &&& (#[trigger] fills[k]).0.state.price >= price
                    &&& fills[k].1 <= fills[k].0.state.spec_remaining_quantity()
                }
        }),
    decreases bids.len(),
{
    let fills = bid_matches(bids, price, liquidity).1;
    if bids.len() > 0 {
        let best = bids.last();
        let remaining = best.state.spec_remaining_quantity();
        assert(best == bids[bids.len() - 1]);
        if !(best.state.price < price || liquidity == 0) {
            if remaining <= liquidity {
                let left = (liquidity - remaining) as u64;
                let fill = (best, remaining as u64);
                if left == 0 {
                    assert(fills =~= seq![fill]);
                    assert(fills.drop_last() =~= Seq::<(Order<Open>, u64)>::empty());
                    assert(fills.last() == fill);
                    assert(matched_quantity(Seq::<(Order<Open>, u64)>::empty()) == 0);
                    assert(matched_quantity(fills) == matched_quantity(fills.drop_last()) + fills.last().1);
                    assert(fills[0] == fill);
                } else {
                    let d = bids.drop_last();
                    assert(orders_wf(d)) by {
                        assert forall|i: int| 0 <= i < d.len() implies #[trigger] d[i].state.filled_quantity
                            <= d[i].state.quantity by {
                            assert(d[i] == bids[i]);
                        }
                    }
                    law_matching_within_trade(d, price, left);
                    let rest = bid_matches(d, price, left).1;
                    assert(fills == seq![fill] + rest);
                    lemma_matched_quantity_prepend(fill, rest);
                    assert forall|k: int| 0 <= k < fills.len() implies {
                        &&& (#[trigger] fills[k]).0.state.price >= price
                        &&& fills[k].1 <= fills[k].0.state.spec_remaining_quantity()
                    } by {
                        if k > 0 {
                            assert(fills[k] == rest[k - 1]);
                        }
                    }
                }
            } else {
                assert(fills =~= seq![(best, liquidity)]);
                assert(fills.drop_last() =~= Seq::<(Order<Open>, u64)>::empty());
                assert(fills.last() == (best, liquidity));
                assert(matched_quantity(Seq::<(Order<Open>, u64)>::empty()) == 0);
                assert(matched_quantity(fills) == matched_quantity(fills.drop_last()) + fills.last().1);
                assert(fills[0] == (best, liquidity));
            }
        } else {
            assert(fills =~= Seq::<(Order<Open>, u64)>::empty());
            assert(matched_quantity(fills) == 0);
        }
    } else {
        assert(fills =~= Seq::<(Order<Open>, u64)>::empty());
        assert(matched_quantity(fills) == 0);
    }
}

proof fn lemma_matched_quantity_prepend(fill: (Order<Open>, u64), rest: Seq<(Order<Open>, u64)>)
    ensures
        matched_quantity(seq![fill] + rest) == fill.1 + matched_quantity(rest),
    decreases rest.len(),
{
    let all = seq![fill] + rest;
    if rest.len() == 0 {
        assert(all =~= seq![fill]);
        assert(all.drop_last() =~= Seq::<(Order<Open>, u64)>::empty());
        assert(all.last() == fill);
        assert(matched_quantity(Seq::<(Order<Open>, u64)>::empty()) == 0);
        assert(matched_quantity(all) == matched_quantity(all.drop_last()) + all.last().1);
    } else {
        assert(all.drop_last() =~= seq![fill] + rest.drop_last());
        assert(all.last() == rest.last());
        lemma_matched_quantity_prepend(fill, rest.drop_last());
        assert(matched_quantity(all) == matched_quantity(all.drop_last()) + all.last().1);
        assert(matched_quantity(rest) == matched_quantity(rest.drop_last()) + rest.last().1);
    }
}

/// Matching keeps the bids sorted with the best last, and every bid within its quantity.
pub proof fn law_matching_keeps_bids_wf(bids: Seq<Order<Open>>, price: u64, liquidity: u64)
    requires
        bids_sorted(bids),
        orders_wf(bids),
    ensures
        bids_sorted(bid_matches(bids, price, liquidity).0),
        orders_wf(bid_matches(bids, price, liquidity).0),
{
    crate::simulated::account::lemma_bid_matches_shape(bids, price, liquidity);
    let left = bid_matches(bids, price, liquidity).0;
    assert forall|i: int| 0 <= i < left.len() implies #[trigger] left[i] == bids[i] by {}
}

/// Where no bid is at or above the trade's price, matching changes nothing.
pub proof fn law_no_match_below_best_bid(bids: Seq<Order<Open>>, price: u64, liquidity: u64)
    requires
        bids.len() == 0 || bids.last().state.price < price,
    ensures
        bid_matches(bids, price, liquidity) == (bids, Seq::<(Order<Open>, u64)>::empty()),
{
}

/// The fees of a match are never more than the amount they are charged on (in millionths of a
/// unit, as fees are counted).
pub proof fn law_fees_at_most_amount(fees_ppm: u64, amount: int)
    requires
        fees_ppm <= FEE_SCALE,
        amount >= 0,
    ensures
        0 <= fee_of(fees_ppm, amount) <= amount * FEE_SCALE,
{
    assert(0 <= amount * fees_ppm <= amount * 1_000_000) by (nonlinear_arith)
        requires
            amount >= 0,
            fees_ppm <= 1_000_000,
    ;
}

/// A buy match adds the quantity less fees to the base, total and available, and takes the
/// price times the quantity from the quote total; a sell match takes the quantity from the base
/// total and adds the price times the quantity less fees to the quote, total and available.
/// Nothing else moves. Balances and fees count millionths of a unit.
pub proof fn law_match_moves_balances(
    side: Side,
    base: crate::model::balance::Balance,
    quote: crate::model::balance::Balance,
    price: u64,
    quantity: u64,
    fees: int,
)
    ensures
        ({
            let a = matched_amounts(side, base, quote, price, quantity, fees);
            match side {
                Side::Buy => {
                    &&& a.0 - base.total == quantity * FEE_SCALE - fees
                    &&& a.1 - base.available == quantity * FEE_SCALE - fees
                    &&& quote.total - a.2 == price * quantity * FEE_SCALE
                    &&& a.3 == quote.available
                },
                Side::Sell => {
                    &&& base.total - a.0 == quantity * FEE_SCALE
                    &&& a.1 == base.available
                    &&& a.2 - quote.total == price * quantity * FEE_SCALE - fees
                    &&& a.3 - quote.available == price * quantity * FEE_SCALE - fees
                },
            }
        }),
{
}

/// A match changes the balances of its base and quote symbols only, to the matched amounts.
pub proof fn law_match_touches_only_its_symbols(
    bal: Seq<SymbolBalance>,
    order: Order<Open>,
    a: (int, int, int, int),
)
    requires
        symbols_distinct(bal),
        has_symbol(bal, order.instrument.base@),
        has_symbol(bal, order.instrument.quote@),
        order.instrument.base@ != order.instrument.quote@,
    ensures
        ({
            let after = write_amounts(bal, order, a);
            let bi = symbol_index(bal, order.instrument.base@);
            let qi = symbol_index(bal, order.instrument.quote@);
            &&& after.len() == bal.len()
            &&& after[bi].symbol == bal[bi].symbol
            &&& after[bi].balance == base_of(a)
            &&& after[qi].symbol == bal[qi].symbol
            &&& after[qi].balance == quote_of(a)
            &&& forall|i: int| 0 <= i < bal.len() && i != bi && i != qi ==> #[trigger] after[i] == bal[i]
        }),
{
    let bi = symbol_index(bal, order.instrument.base@);
    let qi = symbol_index(bal, order.instrument.quote@);
    assert(bal[bi].symbol@ == order.instrument.base@);
    assert(bal[qi].symbol@ == order.instrument.quote@);
    assert(bi != qi);
}

/// Placing an order among bids puts it at one place, keeping the others in order.
pub proof fn lemma_bids_insert_is_insert(bids: Seq<Order<Open>>, o: Order<Open>)
    ensures
        exists|k: int| 0 <= k <= bids.len() && #[trigger] bids.insert(k, o) == bids_insert(bids, o),
    decreases bids.len(),
{
    if bids.len() == 0 || bids.last().state.price <= o.state.price {
        assert(bids.insert(bids.len() as int, o) =~= bids.push(o));
    } else {
        let d = bids.drop_last();
        lemma_bids_insert_is_insert(d, o);
        let k = choose|k: int| 0 <= k <= d.len() && #[trigger] d.insert(k, o) == bids_insert(d, o);
        assert(d.insert(k, o).push(bids.last()) =~= bids.insert(k, o));
    }
}

/// Placing an order among asks puts it at one place, keeping the others in order.
pub proof fn lemma_asks_insert_is_insert(asks: Seq<Order<Open>>, o: Order<Open>)
    ensures
        exists|k: int| 0 <= k <= asks.len() && #[trigger] asks.insert(k, o) == asks_insert(asks, o),
    decreases asks.len(),
{
    if asks.len() == 0 || asks.last().state.price >= o.state.price {
        assert(asks.insert(asks.len() as int, o) =~= asks.push(o));
    } else {
        let d = asks.drop_last();
        lemma_asks_insert_is_insert(d, o);
        let k = choose|k: int| 0 <= k <= d.len() && #[trigger] d.insert(k, o) == asks_insert(d, o);
        assert(d.insert(k, o).push(asks.last()) =~= asks.insert(k, o));
    }
}

/// Where no order but the one at `p` has the client order id, its positions are just `p`.
proof fn lemma_cid_indexes_single(orders: Seq<Order<Open>>, cid: crate::model::ClientOrderId, p: int)
    requires
        0 <= p < orders.len() <= usize::MAX,
        orders[p].cid == cid,
        forall|i: int| 0 <= i < orders.len() && i != p ==> (#[trigger] orders[i]).cid != cid,
    ensures
        cid_indexes(orders, cid) == seq![p as usize],
    decreases orders.len(),
{
    let d = orders.drop_last();
    if p == orders.len() - 1 {
        lemma_cid_indexes_none(d, cid);
        assert(cid_indexes(d, cid).push(p as usize) =~= seq![p as usize]);
    } else {
        assert forall|i: int| 0 <= i < d.len() && i != p implies (#[trigger] d[i]).cid != cid by {
            assert(d[i] == orders[i]);
        }
        assert(d[p] == orders[p]);
        lemma_cid_indexes_single(d, cid, p);
    }
}

/// Where no order has the client order id, it has no positions.
proof fn lemma_cid_indexes_none(orders: Seq<Order<Open>>, cid: crate::model::ClientOrderId)
    requires
        forall|i: int| 0 <= i < orders.len() ==> (#[trigger] orders[i]).cid != cid,
    ensures
        cid_indexes(orders, cid) == Seq::<usize>::empty(),
    decreases orders.len(),
{
    if orders.len() > 0 {
        let d = orders.drop_last();
        assert forall|i: int| 0 <= i < d.len() implies (#[trigger] d[i]).cid != cid by {
            assert(d[i] == orders[i]);
        }
        lemma_cid_indexes_none(d, cid);
        assert(orders.last() == orders[orders.len() - 1]);
    }
}

/// After an opening, the book finds each instrument where it found it before.
proof fn lemma_open_keeps_index(book: Book, open: Order<Open>)
    requires
        book_wf(book),
        book_has(book, open.instrument@),
    ensures
        book_has(book_with_open(book, open), open.instrument@),
        book_index(book_with_open(book, open), open.instrument@) == book_index(book, open.instrument@),
        book_with_open(book, open).len() == book.len(),
{
    let i = book_index(book, open.instrument@);
    let after = book_with_open(book, open);
    assert(after[i].0 == book[i].0);
    assert(book_has(after, open.instrument@));
    let j = book_index(after, open.instrument@);
    assert(after[j].0@ == open.instrument@);
    if j != i {
        assert(after[j].0 == book[j].0);
        assert(book[j].0@ == book[i].0@);
    }
}

/// Placing `open` into `orders`, where no order has its client order id, puts it at the one
/// position of that id, and removing that position gives `orders` back.
proof fn lemma_insert_then_find(orders: Seq<Order<Open>>, open: Order<Open>, placed: Seq<Order<Open>>)
    requires
        exists|k: int| 0 <= k <= orders.len() && #[trigger] orders.insert(k, open) == placed,
        forall|i: int| 0 <= i < orders.len() ==> (#[trigger] orders[i]).cid != open.cid,
        orders.len() < usize::MAX,
    ensures
        cid_indexes(placed, open.cid).len() == 1,
        placed.remove(cid_indexes(placed, open.cid)[0] as int) == orders,
        placed[cid_indexes(placed, open.cid)[0] as int] == open,
{
    let k = choose|k: int| 0 <= k <= orders.len() && #[trigger] orders.insert(k, open) == placed;
    assert forall|x: int| 0 <= x < placed.len() && x != k implies (#[trigger] placed[x]).cid != open.cid by {
        if x < k {
            assert(placed[x] == orders[x]);
        } else {
            assert(placed[x] == orders[x - 1]);
        }
    }
    lemma_cid_indexes_single(placed, open.cid, k);
    assert(placed.remove(k) =~= orders);
}

/// Opening an order whose client order id no order of its instrument has, and then cancelling
/// that client order id on that instrument, gives back the book as it was and the opened order's
/// id.
pub proof fn law_cancel_undoes_open(book: Book, open: Order<Open>, request: Order<RequestCancel>)
    requires
        book_wf(book),
        book_has(book, open.instrument@),
        forall|i: int|
            0 <= i < book[book_index(book, open.instrument@)].1.len() ==> (#[trigger] book[book_index(
                book,
                open.instrument@,
            )].1[i]).cid != open.cid,
        forall|i: int|
            0 <= i < book[book_index(book, open.instrument@)].2.len() ==> (#[trigger] book[book_index(
                book,
                open.instrument@,
            )].2[i]).cid != open.cid,
        book[book_index(book, open.instrument@)].1.len() < usize::MAX,
        book[book_index(book, open.instrument@)].2.len() < usize::MAX,
        request.instrument@ == open.instrument@,
        request.cid == open.cid,
    ensures
        cancel_one(book_with_open(book, open), request) == (
            book,
            Ok::<crate::model::order::OrderId, ExecutionError>(open.state.id),
        ),
{
    let i = book_index(book, open.instrument@);
    let e = book[i];
    let after = book_with_open(book, open);
    lemma_open_keeps_index(book, open);
    assert(book.update(i, (e.0, e.1, e.2)) =~= book);
    match open.state.side {
        Side::Buy => {
            lemma_bids_insert_is_insert(e.1, open);
            lemma_insert_then_find(e.1, open, bids_insert(e.1, open));
            lemma_cid_indexes_none(e.2, open.cid);
            assert(after[i] == (e.0, bids_insert(e.1, open), e.2));
        },
        Side::Sell => {
            lemma_asks_insert_is_insert(e.2, open);
            lemma_insert_then_find(e.2, open, asks_insert(e.2, open));
            lemma_cid_indexes_none(e.1, open.cid);
            assert(after[i] == (e.0, e.1, asks_insert(e.2, open)));
        },
    }
}

/// A book whose entries all have no bids and no asks holds no order.
pub proof fn law_empty_book_has_no_orders(book: Book)
    requires
        forall|i: int| 0 <= i < book.len() ==> (#[trigger] book[i]).1.len() == 0 && book[i].2.len() == 0,
    ensures
        all_orders(book) == Seq::<Order<Open>>::empty(),
    decreases book.len(),
{
    if book.len() > 0 {
        let d = book.drop_last();
        assert forall|i: int| 0 <= i < d.len() implies (#[trigger] d[i]).1.len() == 0 && d[i].2.len() == 0 by {
            assert(d[i] == book[i]);
        }
        law_empty_book_has_no_orders(d);
        assert(book.last() == book[book.len() - 1]);
        assert(all_orders(book) =~= Seq::<Order<Open>>::empty());
    }
}


/// Opening one order and then cancelling its client order id, as batches: the book is as it was
/// and the cancel returns the opened order's id.
pub proof fn law_cancel_batch_undoes_open_batch(book: Book, open: Order<Open>, request: Order<RequestCancel>)
    requires
        book_wf(book),
        book_has(book, open.instrument@),
        forall|i: int|
            0 <= i < book[book_index(book, open.instrument@)].1.len() ==> (#[trigger] book[book_index(
                book,
                open.instrument@,
            )].1[i]).cid != open.cid,
        forall|i: int|
            0 <= i < book[book_index(book, open.instrument@)].2.len() ==> (#[trigger] book[book_index(
                book,
                open.instrument@,
            )].2[i]).cid != open.cid,
        book[book_index(book, open.instrument@)].1.len() < usize::MAX,
        book[book_index(book, open.instrument@)].2.len() < usize::MAX,
        request.instrument@ == open.instrument@,
        request.cid == open.cid,
    ensures
        crate::simulated::book::cancels_outcome(
            crate::simulated::book::book_after_opens(
                book,
                seq![Ok::<Order<Open>, ExecutionError>(open)],
            ),
            seq![request],
        ) == (book, seq![Ok::<crate::model::order::OrderId, ExecutionError>(open.state.id)]),
{
    let opens = seq![Ok::<Order<Open>, ExecutionError>(open)];
    assert(opens.drop_last() =~= Seq::<Result<Order<Open>, ExecutionError>>::empty());
    assert(opens.last() == Ok::<Order<Open>, ExecutionError>(open));
    assert(crate::simulated::book::book_after_opens(book, opens.drop_last()) == book);
    let after = crate::simulated::book::book_after_opens(book, opens);
    assert(after == book_with_open(book, open));
    let reqs = seq![request];
    assert(reqs.drop_last() =~= Seq::<Order<RequestCancel>>::empty());
    assert(reqs.last() == request);
    assert(crate::simulated::book::cancels_outcome(after, reqs.drop_last()) == (
        after,
        Seq::<Result<crate::model::order::OrderId, ExecutionError>>::empty(),
    ));
    law_cancel_undoes_open(book, open, request);
    assert(Seq::<Result<crate::model::order::OrderId, ExecutionError>>::empty().push(
        Ok::<crate::model::order::OrderId, ExecutionError>(open.state.id),
    ) =~= seq![Ok::<crate::model::order::OrderId, ExecutionError>(open.state.id)]);
}

/// Opening one order and then cancelling its client order id, as batches, is a cancel that the
/// exchange takes (no other order holds that id); it gives back the book as it was and the
/// opened order's id. Cancelling the same id once more fails, as an unknown client order id,
/// and changes nothing.
pub proof fn law_open_then_cancel_twice(book: Book, open: Order<Open>, request: Order<RequestCancel>)
    requires
        book_wf(book),
        book_has(book, open.instrument@),
        forall|i: int|
            0 <= i < book[book_index(book, open.instrument@)].1.len() ==> (#[trigger] book[book_index(
                book,
                open.instrument@,
            )].1[i]).cid != open.cid,
        forall|i: int|
            0 <= i < book[book_index(book, open.instrument@)].2.len() ==> (#[trigger] book[book_index(
                book,
                open.instrument@,
            )].2[i]).cid != open.cid,
        book[book_index(book, open.instrument@)].1.len() < usize::MAX,
        book[book_index(book, open.instrument@)].2.len() < usize::MAX,
        request.instrument@ == open.instrument@,
        request.cid == open.cid,
    ensures
        cancels_unambiguous(book_after_opens(book, seq![Ok::<Order<Open>, ExecutionError>(open)]), seq![request]),
        cancels_outcome(book_after_opens(book, seq![Ok::<Order<Open>, ExecutionError>(open)]), seq![request])
            == (book, seq![Ok::<crate::model::order::OrderId, ExecutionError>(open.state.id)]),
        cancels_unambiguous(book, seq![request]),
        cancels_outcome(book, seq![request]) == (
            book,
            seq![Err::<crate::model::order::OrderId, ExecutionError>(
                ExecutionError::Simulated(SimulatedError::CancelUnknownClientOrderId(request.cid)),
            )],
        ),
{
    law_cancel_batch_undoes_open_batch(book, open, request);
    let opens = seq![Ok::<Order<Open>, ExecutionError>(open)];
    assert(opens.drop_last() =~= Seq::<Result<Order<Open>, ExecutionError>>::empty());
    assert(book_after_opens(book, opens.drop_last()) == book);
    let after = book_after_opens(book, opens);
    assert(after == book_with_open(book, open));
    let i = book_index(book, open.instrument@);
    let e = book[i];
    lemma_open_keeps_index(book, open);
    lemma_cid_indexes_none(e.1, open.cid);
    lemma_cid_indexes_none(e.2, open.cid);
    match open.state.side {
        Side::Buy => {
            lemma_bids_insert_is_insert(e.1, open);
            lemma_insert_then_find(e.1, open, bids_insert(e.1, open));
            assert(after[i].2 == e.2);
        },
        Side::Sell => {
            lemma_asks_insert_is_insert(e.2, open);
            lemma_insert_then_find(e.2, open, asks_insert(e.2, open));
            assert(after[i].1 == e.1);
        },
    }
    let reqs = seq![request];
    assert(reqs[0] == request);
    assert(reqs.drop_last() =~= Seq::<Order<RequestCancel>>::empty());
    assert(reqs.last() == request);
    assert(cancels_outcome(book, reqs.drop_last()) == (
        book,
        Seq::<Result<crate::model::order::OrderId, ExecutionError>>::empty(),
    ));
    assert(Seq::<Result<crate::model::order::OrderId, ExecutionError>>::empty().push(
        Err::<crate::model::order::OrderId, ExecutionError>(
            ExecutionError::Simulated(SimulatedError::CancelUnknownClientOrderId(request.cid)),
        ),
    ) =~= seq![Err::<crate::model::order::OrderId, ExecutionError>(
        ExecutionError::Simulated(SimulatedError::CancelUnknownClientOrderId(request.cid)),
    )]);
}

/// An order of an entry of the book is among all the book's orders.
proof fn lemma_all_orders_holds(book: Book, i: int, o: Order<Open>)
    requires
        0 <= i < book.len(),
        book[i].1.contains(o) || book[i].2.contains(o),
    ensures
        all_orders(book).contains(o),
    decreases book.len(),
{
    let d = book.drop_last();
    let all = all_orders(book);
    assert(all == all_orders(d) + book.last().1 + book.last().2);
    if i == book.len() - 1 {
        if book[i].1.contains(o) {
            let k = choose|k: int| 0 <= k < book[i].1.len() && book[i].1[k] == o;
            assert(all[all_orders(d).len() + k] == o);
        } else {
            let k = choose|k: int| 0 <= k < book[i].2.len() && book[i].2[k] == o;
            assert(all[all_orders(d).len() + book[i].1.len() + k] == o);
        }
    } else {
        assert(d[i] == book[i]);
        lemma_all_orders_holds(d, i, o);
        let k = choose|k: int| 0 <= k < all_orders(d).len() && all_orders(d)[k] == o;
        assert(all[k] == o);
    }
}

/// An order that opens on an instrument of the book is among the open orders fetched after.
pub proof fn law_fetch_finds_opened(book: Book, open: Order<Open>)
    requires
        book_has(book, open.instrument@),
    ensures
        all_orders(book_with_open(book, open)).contains(open),
{
    let i = book_index(book, open.instrument@);
    let e = book[i];
    let after = book_with_open(book, open);
    match open.state.side {
        Side::Buy => {
            lemma_bids_insert_is_insert(e.1, open);
            let k = choose|k: int| 0 <= k <= e.1.len() && #[trigger] e.1.insert(k, open) == bids_insert(e.1, open);
            assert(after[i].1[k] == open);
        },
        Side::Sell => {
            lemma_asks_insert_is_insert(e.2, open);
            let k = choose|k: int| 0 <= k <= e.2.len() && #[trigger] e.2.insert(k, open) == asks_insert(e.2, open);
            assert(after[i].2[k] == open);
        },
    }
    lemma_all_orders_holds(after, i, open);
}

/// Opening an order takes its reserved amount from the available amount of its reserved symbol,
/// where that symbol has a balance (the price times the quantity of the quote for a buy, the
/// quantity of the base for a sell, in millionths); every total, and every other balance, stays.
pub proof fn law_open_reserves(bal: Seq<SymbolBalance>, open: Order<Open>)
    requires
        symbols_distinct(bal),
        has_symbol(bal, reserved_symbol(open.state.side, open.instrument)@),
        in_i128(
            bal[symbol_index(bal, reserved_symbol(open.state.side, open.instrument)@)].balance.available
                - reserved_amount(open.state.side, open.state.price, open.state.quantity),
        ),
    ensures
        ({
            let after = balances_with_open(bal, open);
            let i = symbol_index(bal, reserved_symbol(open.state.side, open.instrument)@);
            &&& after.len() == bal.len()
            &&& after[i].symbol == bal[i].symbol
            &&& after[i].balance.total == bal[i].balance.total
            &&& after[i].balance.available == bal[i].balance.available - match open.state.side {
                Side::Buy => open.state.price * open.state.quantity * FEE_SCALE,
                Side::Sell => open.state.quantity * FEE_SCALE,
            }
            &&& forall|j: int| 0 <= j < bal.len() && j != i ==> #[trigger] after[j] == bal[j]
        }),
{
}

/// The quantity that the bids of `bids`, best (last) first, have left to trade while they are
/// priced at or above `price`.
pub open spec fn matchable(bids: Seq<Order<Open>>, price: u64) -> int
    decreases bids.len(),
{
    if bids.len() == 0 || bids.last().state.price < price {
        0
    } else {
        bids.last().state.spec_remaining_quantity() + matchable(bids.drop_last(), price)
    }
}

proof fn lemma_matchable_nonneg(bids: Seq<Order<Open>>, price: u64)
    requires
        orders_wf(bids),
    ensures
        matchable(bids, price) >= 0,
    decreases bids.len(),
{
    if bids.len() > 0 {
        let d = bids.drop_last();
        assert(orders_wf(d)) by {
            assert forall|i: int| 0 <= i < d.len() implies #[trigger] d[i].state.filled_quantity
                <= d[i].state.quantity by {
                assert(d[i] == bids[i]);
            }
        }
        lemma_matchable_nonneg(d, price);
        assert(bids.last() == bids[bids.len() - 1]);
    }
}

/// Matching bids against a trade trades, in all, the smaller of the trade's quantity and what
/// the bids priced at or above the trade have left.
pub proof fn law_matching_trades_the_lesser(bids: Seq<Order<Open>>, price: u64, liquidity: u64)
    requires
        orders_wf(bids),
    ensures
        matched_quantity(bid_matches(bids, price, liquidity).1) == if liquidity <= matchable(bids, price) {
            liquidity as int
        } else {
            matchable(bids, price)
        },
    decreases bids.len(),
{
    let fills = bid_matches(bids, price, liquidity).1;
    lemma_matchable_nonneg(bids, price);
    if bids.len() > 0 {
        let best = bids.last();
        let remaining = best.state.spec_remaining_quantity();
        assert(best == bids[bids.len() - 1]);
        let d = bids.drop_last();
        assert(orders_wf(d)) by {
            assert forall|i: int| 0 <= i < d.len() implies #[trigger] d[i].state.filled_quantity
                <= d[i].state.quantity by {
                assert(d[i] == bids[i]);
            }
        }
        lemma_matchable_nonneg(d, price);
        if !(best.state.price < price || liquidity == 0) {
            if remaining <= liquidity {
                let left = (liquidity - remaining) as u64;
                let fill = (best, remaining as u64);
                if left == 0 {
                    assert(fills =~= seq![fill]);
                    lemma_matched_quantity_prepend(fill, Seq::<(Order<Open>, u64)>::empty());
                    assert(seq![fill] + Seq::<(Order<Open>, u64)>::empty() =~= seq![fill]);
                    assert(matched_quantity(Seq::<(Order<Open>, u64)>::empty()) == 0);
                } else {
                    law_matching_trades_the_lesser(d, price, left);
                    let rest = bid_matches(d, price, left).1;
                    assert(fills == seq![fill] + rest);
                    lemma_matched_quantity_prepend(fill, rest);
                }
            } else {
                assert(fills =~= seq![(best, liquidity)]);
                lemma_matched_quantity_prepend((best, liquidity), Seq::<(Order<Open>, u64)>::empty());
                assert(seq![(best, liquidity)] + Seq::<(Order<Open>, u64)>::empty() =~= seq![(best, liquidity)]);
                assert(matched_quantity(Seq::<(Order<Open>, u64)>::empty()) == 0);
            }
        } else {
            assert(fills =~= Seq::<(Order<Open>, u64)>::empty());
            assert(matched_quantity(fills) == 0);
        }
    } else {
        assert(fills =~= Seq::<(Order<Open>, u64)>::empty());
        assert(matched_quantity(fills) == 0);
    }
}

/// The decimal digits of a number give the number back: two numbers with the same digits are
/// the same.
proof fn lemma_decimal_injective(n: nat, m: nat)
    requires
        decimal(n) == decimal(m),
    ensures
        n == m,
    decreases n,
{
    if n < 10 && m < 10 {
        assert(decimal(n) == seq![(48 + n) as char]);
        assert(decimal(m) == seq![(48 + m) as char]);
        assert(seq![(48 + n) as char][0] == (48 + n) as char);
        assert(seq![(48 + m) as char][0] == (48 + m) as char);
        assert((48 + n) as char == (48 + m) as char);
        assert(((48 + n) as char) as int == 48 + n);
        assert(((48 + m) as char) as int == 48 + m);
    } else if n < 10 {
        assert(decimal(m).len() == decimal((m / 10) as nat).len() + 1);
        assert(decimal((m / 10) as nat).len() >= 1);
    } else if m < 10 {
        assert(decimal(n).len() == decimal((n / 10) as nat).len() + 1);
        assert(decimal((n / 10) as nat).len() >= 1);
    } else {
        let dn = decimal((n / 10) as nat);
        let dm = decimal((m / 10) as nat);
        assert(decimal(n) == dn.push((48 + n % 10) as char));
        assert(decimal(m) == dm.push((48 + m % 10) as char));
        assert(decimal(n).drop_last() =~= dn);
        assert(decimal(m).drop_last() =~= dm);
        assert(decimal(n).last() == (48 + n % 10) as char);
        assert(decimal(m).last() == (48 + m % 10) as char);
        assert((48 + n % 10) as char == (48 + m % 10) as char);
        lemma_decimal_injective((n / 10) as nat, (m / 10) as nat);
    }
}

/// Trade ids never repeat: the trades numbered `n` and `m`, with `n != m`, get different ids
/// (each call of `update_from_match` numbers its trade one more than the trade number before).
pub proof fn law_trade_ids_never_repeat(n: nat, m: nat)
    requires
        n != m,
    ensures
        decimal(n) != decimal(m),
{
    if decimal(n) == decimal(m) {
        lemma_decimal_injective(n, m);
    }
}

/// How many of `fills` trade the whole of what their order had left.
pub open spec fn full_fills(fills: Seq<(Order<Open>, u64)>) -> int
    decreases fills.len(),
{
    if fills.len() == 0 {
        0
    } else {
        (if fills[0].1 == fills[0].0.state.spec_remaining_quantity() { 1int } else { 0int })
            + full_fills(fills.skip(1))
    }
}

proof fn lemma_full_fills_prepend(fill: (Order<Open>, u64), rest: Seq<(Order<Open>, u64)>)
    ensures
        full_fills(seq![fill] + rest) == (if fill.1 == fill.0.state.spec_remaining_quantity() {
            1int
        } else {
            0int
        }) + full_fills(rest),
{
    let all = seq![fill] + rest;
    assert(all[0] == fill);
    assert(all.skip(1) =~= rest);
}

/// A bid that a match fills whole leaves the book, and only those do: the bids left after
/// matching are the original bids with the fully filled best ones taken off the top, so the
/// bids left and the full fills together count the original bids.
pub proof fn law_full_fills_leave_the_book(bids: Seq<Order<Open>>, price: u64, liquidity: u64)
    requires
        orders_wf(bids),
    ensures
        ({
            let m = bid_matches(bids, price, liquidity);
            &&& m.0 == bids.take(m.0.len() as int)
            &&& m.0.len() + full_fills(m.1) == bids.len()
        }),
    decreases bids.len(),
{
    let m = bid_matches(bids, price, liquidity);
    if bids.len() == 0 {
        assert(m.1 =~= Seq::<(Order<Open>, u64)>::empty());
        assert(bids.take(0) =~= bids);
    } else {
        let best = bids.last();
        let remaining = best.state.spec_remaining_quantity();
        assert(best == bids[bids.len() - 1]);
        let d = bids.drop_last();
        assert(orders_wf(d)) by {
            assert forall|i: int| 0 <= i < d.len() implies #[trigger] d[i].state.filled_quantity
                <= d[i].state.quantity by {
                assert(d[i] == bids[i]);
            }
        }
        if best.state.price < price || liquidity == 0 {
            assert(m.1 =~= Seq::<(Order<Open>, u64)>::empty());
            assert(bids.take(bids.len() as int) =~= bids);
        } else if remaining <= liquidity {
            let left = (liquidity - remaining) as u64;
            let fill = (best, remaining as u64);
            assert(fill.1 == fill.0.state.spec_remaining_quantity());
            if left == 0 {
                assert(m.1 =~= seq![fill]);
                lemma_full_fills_prepend(fill, Seq::<(Order<Open>, u64)>::empty());
                assert(seq![fill] + Seq::<(Order<Open>, u64)>::empty() =~= seq![fill]);
                assert(full_fills(Seq::<(Order<Open>, u64)>::empty()) == 0);
                assert(bids.take(d.len() as int) =~= d);
            } else {
                law_full_fills_leave_the_book(d, price, left);
                crate::simulated::account::lemma_bid_matches_shape(d, price, left);
                let rest = bid_matches(d, price, left);
                assert(m.1 == seq![fill] + rest.1);
                lemma_full_fills_prepend(fill, rest.1);
                assert(bids.take(rest.0.len() as int) =~= d.take(rest.0.len() as int));
            }
        } else {
            assert(m.1 =~= seq![(best, liquidity)]);
            lemma_full_fills_prepend((best, liquidity), Seq::<(Order<Open>, u64)>::empty());
            assert(seq![(best, liquidity)] + Seq::<(Order<Open>, u64)>::empty() =~= seq![(best, liquidity)]);
            assert(full_fills(Seq::<(Order<Open>, u64)>::empty()) == 0);
            assert(bids.take(bids.len() as int) =~= bids);
        }
    }
}

/// Opening an order on a configured instrument succeeds whenever taking its amount (the price
/// times the quantity of the quote for a buy, the quantity of the base for a sell, in
/// millionths) from the available amount of that symbol stays an `i128`, or that symbol has no
/// balance: how far the available amount goes below zero does not matter. On an instrument
/// that is not configured, it fails as an unknown instrument.
pub proof fn law_open_fails_only_out_of_range(
    book: Book,
    bal: Seq<SymbolBalance>,
    request: Order<crate::model::order::RequestOpen>,
)
    ensures
        ({
            let symbol = match request.state.side {
                Side::Buy => request.instrument.quote,
                Side::Sell => request.instrument.base,
            };
            let amount = match request.state.side {
                Side::Buy => request.state.price * request.state.quantity * FEE_SCALE,
                Side::Sell => request.state.quantity * FEE_SCALE,
            };
            &&& book_has(book, request.instrument@) && (has_symbol(bal, symbol@) ==> in_i128(
                bal[symbol_index(bal, symbol@)].balance.available - amount,
            )) ==> crate::simulated::open_failure(book, bal, request) is None
            &&& !book_has(book, request.instrument@) ==> crate::simulated::open_failure(book, bal, request)
                == Some(ExecutionError::Simulated(SimulatedError::OpenUnknownInstrument(request.instrument)))
        }),
{
}

/// `match_orders` matches the bids a second time exactly when the client's orders have a
/// matching ask, as `ClientOrders::has_matching_ask` answers it: the best (last, lowest) ask is
/// at or below the trade's price. Otherwise it makes the first pass alone.
pub proof fn law_second_pass_on_matching_ask(orders: crate::simulated::account::ClientOrders, price: u64, quantity: u64)
    ensures
        ({
            let first = bid_matches(orders.bids@, price, quantity);
            let second = bid_matches(first.0, price, quantity);
            crate::simulated::account::ClientAccount::orders_matches(orders.bids@, orders.asks@, price, quantity)
                == if orders.spec_has_matching_ask(price) {
                (second.0, first.1 + second.1)
            } else {
                first
            }
        }),
{
}

} // verus!
