use barter_execution::error::{ExecutionError, SimulatedError};
use barter_execution::model::balance::{Balance, SymbolBalance};
use barter_execution::model::market::{Exchange, Instrument, InstrumentKind, PublicTrade, Side, Symbol};
use barter_execution::model::order::{Open, Order, OrderId, OrderKind, RequestCancel, RequestOpen};
use barter_execution::model::trade::SymbolFees;
use barter_execution::model::{AccountEvent, AccountEventKind, ClientOrderId};
use barter_execution::simulated::account::{ClientAccount, ClientOrders, InstrumentOrders, OrderFill};
use barter_execution::simulated::SimulatedExchange;
use barter_execution::test_util::order_open;

fn btc_usdt() -> Instrument {
    Instrument {
        base: Symbol("btc".to_string()),
        quote: Symbol("usdt".to_string()),
        kind: InstrumentKind::FuturePerpetual,
    }
}

fn eth_usdt() -> Instrument {
    Instrument {
        base: Symbol("eth".to_string()),
        quote: Symbol("usdt".to_string()),
        kind: InstrumentKind::Spot,
    }
}

/// Balances count millionths of a unit.
const MILLIONTHS: i128 = 1_000_000;

fn raw_balance(symbol: &str, total: i128, available: i128) -> SymbolBalance {
    SymbolBalance::new(Symbol(symbol.to_string()), Balance { total, available })
}

/// A balance of whole units.
fn balance(symbol: &str, total: i128, available: i128) -> SymbolBalance {
    raw_balance(symbol, total * MILLIONTHS, available * MILLIONTHS)
}

fn trade(side: Side, price: u64, quantity: u64) -> PublicTrade {
    PublicTrade { id: "id".to_string(), price, quantity, side }
}

fn with_cid(mut order: Order<Open>, cid: u128) -> Order<Open> {
    order.cid = ClientOrderId(cid);
    order
}

fn account(
    fees_ppm: u64,
    balances: Vec<SymbolBalance>,
    bids: Vec<Order<Open>>,
    asks: Vec<Order<Open>>,
) -> ClientAccount {
    ClientAccount {
        fees_ppm,
        balances,
        orders: vec![InstrumentOrders { instrument: btc_usdt(), orders: ClientOrders { bids, asks } }],
        trade_number: 0,
    }
}

fn exchange(account: ClientAccount) -> SimulatedExchange {
    SimulatedExchange { latency: std::time::Duration::from_millis(0), account }
}

fn request_open(side: Side, price: u64, quantity: u64, cid: u128, instrument: Instrument) -> Order<RequestOpen> {
    Order {
        exchange: Exchange("exchange".to_string()),
        instrument,
        cid: ClientOrderId(cid),
        state: RequestOpen { kind: OrderKind::Limit, side, price, quantity },
    }
}

fn request_cancel(cid: u128, instrument: Instrument) -> Order<RequestCancel> {
    Order { exchange: Exchange("exchange".to_string()), instrument, cid: ClientOrderId(cid), state: RequestCancel }
}

fn balances_of(event: &AccountEvent) -> Vec<SymbolBalance> {
    match &event.kind {
        AccountEventKind::Balances(balances) => balances.clone(),
        other => panic!("expected balances, got {:?}", other),
    }
}

#[test]
fn buy_match_fills_bid_and_moves_balances() {
    // btc { total: 0, available: 0 }, usdt { total: 100, available: 0 }: the bid to buy 1 btc
    // for 100 usdt took the usdt available when it opened.
    let mut account = account(
        0,
        vec![balance("btc", 0, 0), balance("usdt", 100, 0)],
        vec![order_open(Side::Buy, 100, 1, 0)],
        vec![],
    );
    let events = account.match_orders(&btc_usdt(), &trade(Side::Sell, 100, 1), 1_000).unwrap();
    assert_eq!(events.len(), 2);
    match &events[0].kind {
        AccountEventKind::Trade(t) => {
            assert_eq!(t.id.0, "1");
            assert_eq!(t.order_id, OrderId("id".to_string()));
            assert_eq!(t.side, Side::Buy);
            assert_eq!(t.price, 100);
            assert_eq!(t.quantity, 1);
            assert_eq!(t.fees, SymbolFees::new(Symbol("btc".to_string()), 0));
        }
        other => panic!("expected a trade, got {:?}", other),
    }
    assert_eq!(events[0].exchange, Exchange("exchange".to_string()));
    assert!(events[0].received_time > 0);
    assert_eq!(balances_of(&events[1]), vec![balance("btc", 1, 1), balance("usdt", 0, 0)]);
    assert_eq!(account.balances, vec![balance("btc", 1, 1), balance("usdt", 0, 0)]);
    assert!(account.orders[0].orders.bids.is_empty());
    assert_eq!(account.trade_number, 1);
}

#[test]
fn partial_buy_match_keeps_bid() {
    let bid = order_open(Side::Buy, 100, 2, 0);
    let mut account = account(0, vec![balance("btc", 0, 0), balance("usdt", 200, 0)], vec![bid.clone()], vec![]);
    let events = account.match_orders(&btc_usdt(), &trade(Side::Sell, 100, 1), 1_000).unwrap();
    assert_eq!(events.len(), 2);
    assert_eq!(balances_of(&events[1]), vec![balance("btc", 1, 1), balance("usdt", 100, 0)]);
    // The partly filled bid goes back to the book as it was.
    assert_eq!(account.orders[0].orders.bids, vec![bid]);
}

#[test]
fn sell_match_moves_balances_with_fees() {
    // A sell of 1 btc at 100 usdt, with fees of 10%: the quote gains 100 less 10.
    let mut account = account(
        100_000,
        vec![balance("btc", 1, 0), balance("usdt", 0, 0)],
        vec![order_open(Side::Sell, 100, 1, 0)],
        vec![],
    );
    let events = account.match_orders(&btc_usdt(), &trade(Side::Buy, 100, 1), 1_000).unwrap();
    match &events[0].kind {
        AccountEventKind::Trade(t) => {
            assert_eq!(t.fees, SymbolFees::new(Symbol("usdt".to_string()), 10 * 1_000_000));
        }
        other => panic!("expected a trade, got {:?}", other),
    }
    assert_eq!(account.balances, vec![balance("btc", 0, 0), balance("usdt", 90, 90)]);
}

#[test]
fn best_bids_fill_first_until_liquidity_runs_out() {
    let low = order_open(Side::Buy, 100, 3, 0);
    let mid = order_open(Side::Buy, 110, 2, 0);
    let high = order_open(Side::Buy, 120, 1, 0);
    let mut account = account(
        0,
        vec![balance("btc", 0, 0), balance("usdt", 1000, 0)],
        vec![low.clone(), mid.clone(), high.clone()],
        vec![],
    );
    let events = account.match_orders(&btc_usdt(), &trade(Side::Sell, 105, 2), 1_000).unwrap();
    // The 120 bid fills whole (1), the 110 bid trades the last 1 and stays.
    assert_eq!(events.len(), 4);
    assert_eq!(account.orders[0].orders.bids, vec![low, mid]);
    assert_eq!(account.balances, vec![balance("btc", 2, 2), balance("usdt", 1000 - 120 - 110, 0)]);
    match (&events[0].kind, &events[2].kind) {
        (AccountEventKind::Trade(a), AccountEventKind::Trade(b)) => {
            assert_eq!((a.id.0.as_str(), a.price, a.quantity), ("1", 120, 1));
            assert_eq!((b.id.0.as_str(), b.price, b.quantity), ("2", 110, 1));
        }
        other => panic!("expected trades, got {:?}", other),
    }
}

#[test]
fn no_match_below_best_bid() {
    let mut account = account(
        0,
        vec![balance("btc", 0, 0), balance("usdt", 100, 0)],
        vec![order_open(Side::Buy, 90, 1, 0)],
        vec![order_open(Side::Sell, 150, 1, 0)],
    );
    let events = account.match_orders(&btc_usdt(), &trade(Side::Sell, 100, 1), 1_000).unwrap();
    assert!(events.is_empty());
    assert_eq!(account.orders[0].orders.bids.len(), 1);
    assert_eq!(account.balances, vec![balance("btc", 0, 0), balance("usdt", 100, 0)]);
    assert_eq!(account.trade_number, 0);
}

#[test]
fn matching_ask_matches_bids_again() {
    // Where the best ask is at or below the trade's price, the bids are matched a second time,
    // from the trade's whole quantity.
    let mut account = account(
        0,
        vec![balance("btc", 0, 0), balance("usdt", 1000, 0)],
        vec![order_open(Side::Buy, 100, 1, 0), order_open(Side::Buy, 120, 1, 0)],
        vec![order_open(Side::Sell, 90, 1, 0)],
    );
    let events = account.match_orders(&btc_usdt(), &trade(Side::Buy, 100, 1), 1_000).unwrap();
    assert_eq!(events.len(), 4);
    assert!(account.orders[0].orders.bids.is_empty());
    assert_eq!(account.orders[0].orders.asks.len(), 1);
    assert_eq!(account.balances, vec![balance("btc", 2, 2), balance("usdt", 1000 - 120 - 100, 0)]);
}

#[test]
fn asks_alone_never_fill() {
    let mut account = account(
        0,
        vec![balance("btc", 1, 0), balance("usdt", 0, 0)],
        vec![],
        vec![order_open(Side::Sell, 100, 1, 0)],
    );
    let events = account.match_orders(&btc_usdt(), &trade(Side::Buy, 150, 1), 1_000).unwrap();
    assert!(events.is_empty());
    assert_eq!(account.orders[0].orders.asks.len(), 1);
}

#[test]
fn balance_overflow_changes_nothing() {
    let bid = order_open(Side::Buy, 100, 1, 0);
    let mut account = account(
        0,
        vec![raw_balance("btc", i128::MAX, i128::MAX), balance("usdt", 100, 0)],
        vec![bid.clone()],
        vec![],
    );
    let result = account.match_bids(&btc_usdt(), &trade(Side::Sell, 100, 1), 1_000);
    assert!(matches!(result, Err(ExecutionError::Simulated(SimulatedError::BalanceOverflow))));
    assert_eq!(account.orders[0].orders.bids, vec![bid]);
    assert_eq!(account.balances, vec![raw_balance("btc", i128::MAX, i128::MAX), balance("usdt", 100, 0)]);
    assert_eq!(account.trade_number, 0);
}

#[test]
fn overflow_in_second_pass_changes_nothing() {
    let bids = vec![order_open(Side::Buy, 100, 1, 0), order_open(Side::Buy, 120, 1, 0)];
    let start = vec![raw_balance("btc", i128::MAX - MILLIONTHS, i128::MAX - MILLIONTHS), balance("usdt", 1000, 0)];
    let mut account = account(0, start.clone(), bids.clone(), vec![order_open(Side::Sell, 90, 1, 0)]);
    let result = account.match_orders(&btc_usdt(), &trade(Side::Buy, 100, 1), 1_000);
    assert!(matches!(result, Err(ExecutionError::Simulated(SimulatedError::BalanceOverflow))));
    assert_eq!(account.orders[0].orders.bids, bids);
    assert_eq!(account.balances, start);
    assert_eq!(account.trade_number, 0);
}

#[test]
fn trade_number_overflow_changes_nothing() {
    let mut account = account(
        0,
        vec![balance("btc", 0, 0), balance("usdt", 100, 0)],
        vec![order_open(Side::Buy, 100, 1, 0)],
        vec![],
    );
    account.trade_number = u64::MAX;
    let result = account.match_bids(&btc_usdt(), &trade(Side::Sell, 100, 1), 1_000);
    assert!(matches!(result, Err(ExecutionError::Simulated(SimulatedError::TradeNumberOverflow))));
    assert_eq!(account.orders[0].orders.bids.len(), 1);
    assert_eq!(account.trade_number, u64::MAX);
}

#[test]
fn configured_for_match_needs_symbols_of_matched_orders() {
    let account = account(
        0,
        vec![balance("usdt", 100, 0)],
        vec![order_open(Side::Buy, 100, 1, 0)],
        vec![],
    );
    assert!(!account.is_configured_for_match(&btc_usdt(), &trade(Side::Sell, 100, 1)));
    // Nothing would match below the best bid, so no symbol is needed.
    assert!(account.is_configured_for_match(&btc_usdt(), &trade(Side::Sell, 200, 1)));
    assert!(!account.is_configured_for_match(&eth_usdt(), &trade(Side::Sell, 200, 1)));
}

#[test]
fn fill_kind_full_and_partial() {
    let order = order_open(Side::Buy, 100, 5, 2);
    assert_eq!(ClientAccount::fill_kind(&order, 3), OrderFill::Full);
    assert_eq!(ClientAccount::fill_kind(&order, 4), OrderFill::Full);
    assert_eq!(ClientAccount::fill_kind(&order, 2), OrderFill::Partial);
    let overfilled = order_open(Side::Buy, 100, 2, 5);
    assert_eq!(overfilled.state.remaining_quantity(), -3);
    assert_eq!(ClientAccount::fill_kind(&overfilled, 0), OrderFill::Full);
}

#[test]
fn calculate_fees_is_exact() {
    // Fees count millionths of a unit, so a rate in parts per million is charged exactly.
    let account = account(1_000, vec![], vec![], vec![]);
    let buy = order_open(Side::Buy, 30_000, 1, 0);
    assert_eq!(account.calculate_fees(&buy, 1_999_999), SymbolFees::new(Symbol("btc".to_string()), 1_999_999_000));
    let sell = order_open(Side::Sell, 30_000, 1, 0);
    assert_eq!(account.calculate_fees(&sell, 3), SymbolFees::new(Symbol("usdt".to_string()), 90_000_000));
    // Half of a sell of 1 at price 3 is 1.5 units.
    let half = self::account(500_000, vec![], vec![], vec![]);
    let sell = order_open(Side::Sell, 3, 1, 0);
    assert_eq!(half.calculate_fees(&sell, 1), SymbolFees::new(Symbol("usdt".to_string()), 1_500_000));
}

#[test]
fn update_balance_from_match_reports_new_balances() {
    let mut account = account(0, vec![balance("btc", 5, 5), balance("usdt", 1000, 400)], vec![], vec![]);
    let order = order_open(Side::Buy, 100, 2, 0);
    let fees = SymbolFees::new(Symbol("btc".to_string()), 1_000_000);
    let event = account.update_balance_from_match(&order, 2, &fees, 1_000);
    assert_eq!(event.received_time, 1_000);
    assert_eq!(balances_of(&event), vec![balance("btc", 6, 6), balance("usdt", 800, 400)]);
    assert_eq!(account.balances, vec![balance("btc", 6, 6), balance("usdt", 800, 400)]);
}

#[test]
fn update_from_match_numbers_trades() {
    let mut account = account(0, vec![balance("btc", 0, 0), balance("usdt", 1000, 0)], vec![], vec![]);
    account.trade_number = 41;
    let events = account.update_from_match(order_open(Side::Buy, 100, 1, 0), 1, 1_000);
    match &events[0].kind {
        AccountEventKind::Trade(t) => assert_eq!(t.id.0, "42"),
        other => panic!("expected a trade, got {:?}", other),
    }
    assert_eq!(account.trade_number, 42);
    assert!(events.iter().all(|e| e.received_time == 1_000));
    // A second match gets the next trade id: ids never repeat.
    let more = account.update_from_match(order_open(Side::Buy, 100, 1, 0), 1, 2_000);
    match &more[0].kind {
        AccountEventKind::Trade(t) => assert_eq!(t.id.0, "43"),
        other => panic!("expected a trade, got {:?}", other),
    }
    assert_eq!(account.trade_number, 43);
}

#[test]
fn accessors_find_configured_entries() {
    let mut account = account(0, vec![raw_balance("btc", 3, 2), raw_balance("usdt", 1, 1)], vec![], vec![]);
    assert_eq!(*account.balance(&Symbol("btc".to_string())), Balance { total: 3, available: 2 });
    account.balance_mut(&Symbol("usdt".to_string())).total = 7;
    assert_eq!(account.balances[1], raw_balance("usdt", 7, 1));
    assert!(account.orders(&btc_usdt()).bids.is_empty());
    account.orders_mut(&btc_usdt()).bids.push(order_open(Side::Buy, 1, 1, 0));
    assert_eq!(account.orders[0].orders.bids.len(), 1);
    assert_eq!(account.instrument_position(&eth_usdt()), None);
    assert_eq!(account.symbol_position(&Symbol("usdt".to_string())), Some(1));
}

#[test]
fn open_orders_rest_sorted_with_uuid_ids() {
    let mut exchange = exchange(account(0, vec![balance("btc", 10, 10), balance("usdt", 1000, 1000)], vec![], vec![]));
    let results = exchange.open_orders(vec![
        request_open(Side::Buy, 100, 1, 1, btc_usdt()),
        request_open(Side::Buy, 120, 1, 2, btc_usdt()),
        request_open(Side::Buy, 110, 1, 3, btc_usdt()),
        request_open(Side::Sell, 150, 1, 4, btc_usdt()),
        request_open(Side::Sell, 170, 1, 5, btc_usdt()),
        request_open(Side::Sell, 160, 1, 6, btc_usdt()),
        request_open(Side::Buy, 100, 1, 7, eth_usdt()),
    ]);
    assert_eq!(results.len(), 7);
    for result in &results[..6] {
        let open = result.as_ref().unwrap();
        let id = &open.state.id.0;
        assert_eq!(id.len(), 36);
        for (i, c) in id.chars().enumerate() {
            if i == 8 || i == 13 || i == 18 || i == 23 {
                assert_eq!(c, '-');
            } else {
                assert!(c.is_ascii_hexdigit() && !c.is_ascii_uppercase());
            }
        }
        assert_eq!(open.state.filled_quantity, 0);
    }
    assert!(matches!(
        &results[6],
        Err(ExecutionError::Simulated(SimulatedError::OpenUnknownInstrument(i))) if *i == eth_usdt()
    ));
    let orders = &exchange.account.orders[0].orders;
    let bid_prices: Vec<u64> = orders.bids.iter().map(|o| o.state.price).collect();
    let ask_prices: Vec<u64> = orders.asks.iter().map(|o| o.state.price).collect();
    assert_eq!(bid_prices, vec![100, 110, 120]);
    assert_eq!(ask_prices, vec![170, 160, 150]);
    assert_eq!(exchange.account.balances, vec![balance("btc", 10, 7), balance("usdt", 1000, 670)]);
}

#[test]
fn open_reserves_the_available_amount() {
    let mut exchange = exchange(account(0, vec![balance("btc", 1, 1), balance("usdt", 100, 100)], vec![], vec![]));
    let results = exchange.open_orders(vec![request_open(Side::Buy, 100, 1, 1, btc_usdt())]);
    assert!(results[0].is_ok());
    assert_eq!(exchange.account.balances, vec![balance("btc", 1, 1), balance("usdt", 100, 0)]);
    let results = exchange.open_orders(vec![request_open(Side::Sell, 100, 1, 2, btc_usdt())]);
    assert!(results[0].is_ok());
    assert_eq!(exchange.account.balances, vec![balance("btc", 1, 0), balance("usdt", 100, 0)]);
}

#[test]
fn open_without_reserved_balance_opens_and_overflow_fails_alone() {
    // usdt has no balance: the buy opens and reserves nothing; the sell reserves 1 btc.
    let mut exchange = exchange(account(0, vec![balance("btc", 1, 1)], vec![], vec![]));
    let results = exchange.open_orders(vec![
        request_open(Side::Buy, 100, 1, 1, btc_usdt()),
        request_open(Side::Sell, 100, 1, 2, btc_usdt()),
    ]);
    assert!(results[0].is_ok());
    assert!(results[1].is_ok());
    assert_eq!(exchange.account.orders[0].orders.bids.len(), 1);
    assert_eq!(exchange.account.orders[0].orders.asks.len(), 1);
    assert_eq!(exchange.account.balances, vec![balance("btc", 1, 0)]);

    // No balance at all: two sells open and rest as asks priced 150 then 100.
    let mut bare = self::exchange(account(0, vec![], vec![], vec![]));
    let results = bare.open_orders(vec![
        request_open(Side::Sell, 100, 1, 1, btc_usdt()),
        request_open(Side::Sell, 150, 1, 2, btc_usdt()),
    ]);
    assert!(results.iter().all(|r| r.is_ok()));
    let asks: Vec<(u64, u128)> = bare.account.orders[0].orders.asks.iter().map(|o| (o.state.price, o.cid.0)).collect();
    assert_eq!(asks, vec![(150, 2), (100, 1)]);
    assert!(bare.account.orders[0].orders.bids.is_empty());

    let mut low = self::exchange(account(0, vec![raw_balance("btc", 0, i128::MIN), balance("usdt", 0, 0)], vec![], vec![]));
    let results = low.open_orders(vec![request_open(Side::Sell, 100, 1, 3, btc_usdt())]);
    assert!(matches!(&results[0], Err(ExecutionError::Simulated(SimulatedError::BalanceOverflow))));
    assert_eq!(low.account.orders[0].orders.asks.len(), 0);
    assert_eq!(low.account.balances, vec![raw_balance("btc", 0, i128::MIN), balance("usdt", 0, 0)]);
}

#[test]
fn open_equal_price_rests_after_older_orders() {
    let mut exchange = exchange(account(0, vec![balance("btc", 0, 0), balance("usdt", 1000, 1000)], vec![], vec![]));
    exchange.open_orders(vec![
        request_open(Side::Buy, 100, 1, 1, btc_usdt()),
        request_open(Side::Buy, 100, 1, 2, btc_usdt()),
    ]);
    let cids: Vec<u128> = exchange.account.orders[0].orders.bids.iter().map(|o| o.cid.0).collect();
    assert_eq!(cids, vec![1, 2]);
}

#[test]
fn cancel_orders_removes_by_client_order_id() {
    let bid = with_cid(order_open(Side::Buy, 100, 1, 0), 1);
    let ask = with_cid(order_open(Side::Sell, 150, 1, 0), 2);
    let mut exchange = exchange(account(0, vec![], vec![bid.clone()], vec![ask.clone()]));
    let results = exchange.cancel_orders(vec![
        request_cancel(2, btc_usdt()),
        request_cancel(3, btc_usdt()),
        request_cancel(1, eth_usdt()),
        request_cancel(1, btc_usdt()),
        request_cancel(1, btc_usdt()),
    ]);
    assert_eq!(results.len(), 5);
    assert_eq!(results[0].as_ref().unwrap(), &OrderId("id".to_string()));
    assert!(matches!(
        &results[1],
        Err(ExecutionError::Simulated(SimulatedError::CancelUnknownClientOrderId(ClientOrderId(3))))
    ));
    assert!(matches!(
        &results[2],
        Err(ExecutionError::Simulated(SimulatedError::CancelUnknownInstrument(i))) if *i == eth_usdt()
    ));
    assert!(results[3].is_ok());
    assert!(matches!(
        &results[4],
        Err(ExecutionError::Simulated(SimulatedError::CancelUnknownClientOrderId(ClientOrderId(1))))
    ));
    assert_eq!(exchange.account.orders[0].orders.num_orders(), 0);
}

#[test]
fn find_order_indexes_lists_positions() {
    let orders = vec![
        with_cid(order_open(Side::Buy, 1, 1, 0), 7),
        with_cid(order_open(Side::Buy, 2, 1, 0), 8),
        with_cid(order_open(Side::Buy, 3, 1, 0), 7),
    ];
    assert_eq!(SimulatedExchange::find_order_indexes(&orders, &ClientOrderId(7)), vec![0, 2]);
    assert_eq!(SimulatedExchange::find_order_indexes(&orders, &ClientOrderId(8)), vec![1]);
    assert!(SimulatedExchange::find_order_indexes(&orders, &ClientOrderId(9)).is_empty());
}

#[test]
fn fetch_and_cancel_all() {
    let bid = order_open(Side::Buy, 100, 1, 0);
    let ask = order_open(Side::Sell, 150, 1, 0);
    let mut exchange = exchange(account(
        0,
        vec![balance("btc", 1, 1), balance("usdt", 2, 2)],
        vec![bid.clone()],
        vec![ask.clone()],
    ));
    assert_eq!(exchange.fetch_orders_open().unwrap(), vec![bid, ask]);
    assert_eq!(exchange.fetch_balances().unwrap(), vec![balance("btc", 1, 1), balance("usdt", 2, 2)]);
    assert!(exchange.cancel_orders_all().is_ok());
    assert!(exchange.fetch_orders_open().unwrap().is_empty());
    assert_eq!(exchange.account.orders[0].instrument, btc_usdt());
}
