use barter_execution::model::balance::{Balance, SymbolBalance};
use barter_execution::model::market::{Exchange, Instrument, InstrumentKind, PublicTrade, Side, Symbol};
use barter_execution::model::order::{Order, OrderKind, RequestCancel, RequestOpen};
use barter_execution::model::ClientOrderId;
use barter_execution::simulated::account::{ClientAccount, ClientOrders, InstrumentOrders};
use barter_execution::simulated::SimulatedExchange;
use barter_execution::test_util::order_open;

fn btc_usdt() -> Instrument {
    Instrument {
        base: Symbol("btc".to_string()),
        quote: Symbol("usdt".to_string()),
        kind: InstrumentKind::FuturePerpetual,
    }
}

/// Balances count millionths of a unit.
const MILLIONTHS: i128 = 1_000_000;

fn raw_balance(symbol: &str, total: i128, available: i128) -> SymbolBalance {
    SymbolBalance::new(Symbol(symbol.to_string()), Balance { total, available })
}

/// A balance of whole units.
fn balance(symbol: &str, total: i128, available: i128) -> SymbolBalance {
    raw_balance(symbol, total * MILLIONTHS, available * MILLIONTHS)
}

fn exchange(bids_prices: &[u64], asks_prices: &[u64]) -> SimulatedExchange {
    SimulatedExchange {
        latency: std::time::Duration::from_millis(0),
        account: ClientAccount {
            fees_ppm: 0,
            balances: vec![balance("btc", 10, 10), balance("usdt", 10_000, 10_000)],
            orders: vec![InstrumentOrders {
                instrument: btc_usdt(),
                orders: ClientOrders {
                    bids: bids_prices.iter().map(|p| order_open(Side::Buy, *p, 1, 0)).collect(),
                    asks: asks_prices.iter().map(|p| order_open(Side::Sell, *p, 1, 0)).collect(),
                },
            }],
            trade_number: 0,
        },
    }
}

#[test]
fn cancel_undoes_open() {
    for side in [Side::Buy, Side::Sell] {
        let mut exchange = exchange(&[90, 100, 110], &[130, 120]);
        let before = exchange.fetch_orders_open().unwrap();
        let opened = exchange.open_orders(vec![Order {
            exchange: Exchange("exchange".to_string()),
            instrument: btc_usdt(),
            cid: ClientOrderId(42),
            state: RequestOpen { kind: OrderKind::Limit, side, price: 105, quantity: 1 },
        }]);
        let id = opened[0].as_ref().unwrap().state.id.clone();
        assert_eq!(exchange.fetch_orders_open().unwrap().len(), before.len() + 1);
        let cancelled = exchange.cancel_orders(vec![Order {
            exchange: Exchange("exchange".to_string()),
            instrument: btc_usdt(),
            cid: ClientOrderId(42),
            state: RequestCancel,
        }]);
        assert_eq!(cancelled[0].as_ref().unwrap(), &id);
        assert_eq!(exchange.fetch_orders_open().unwrap(), before);
        let again = exchange.cancel_orders(vec![Order {
            exchange: Exchange("exchange".to_string()),
            instrument: btc_usdt(),
            cid: ClientOrderId(42),
            state: RequestCancel,
        }]);
        assert!(again[0].is_err());
        assert_eq!(exchange.fetch_orders_open().unwrap(), before);
    }
}

#[test]
fn fetch_finds_opened_order() {
    for side in [Side::Buy, Side::Sell] {
        let mut exchange = exchange(&[90, 110], &[130, 120]);
        let opened = exchange.open_orders(vec![Order {
            exchange: Exchange("exchange".to_string()),
            instrument: btc_usdt(),
            cid: ClientOrderId(7),
            state: RequestOpen { kind: OrderKind::Limit, side, price: 100, quantity: 3 },
        }]);
        let open = opened[0].as_ref().unwrap().clone();
        assert!(exchange.fetch_orders_open().unwrap().contains(&open));
    }
}

#[test]
fn cancel_all_leaves_no_orders() {
    let mut exchange = exchange(&[90, 100], &[120]);
    exchange.cancel_orders_all().unwrap();
    assert!(exchange.fetch_orders_open().unwrap().is_empty());
}

#[test]
fn matching_stays_within_trade_and_keeps_bids_sorted() {
    let mut exchange = exchange(&[90, 100, 110, 120], &[]);
    let trade = PublicTrade { id: "t".to_string(), price: 100, quantity: 2, side: Side::Sell };
    let events = exchange.account.match_orders(&btc_usdt(), &trade, 1_000).unwrap();
    let traded: u64 = events
        .iter()
        .filter_map(|e| match &e.kind {
            barter_execution::model::AccountEventKind::Trade(t) => Some(t.quantity),
            _ => None,
        })
        .sum();
    assert!(traded <= trade.quantity);
    let prices: Vec<u64> = exchange.account.orders[0].orders.bids.iter().map(|o| o.state.price).collect();
    assert_eq!(prices, vec![90, 100]);
}

#[test]
fn fees_never_exceed_amount() {
    // At the whole amount the fee is the amount itself, in millionths of a unit.
    let account = ClientAccount { fees_ppm: 1_000_000, balances: vec![], orders: vec![], trade_number: 0 };
    let fees = account.calculate_fees(&order_open(Side::Sell, 1_000_000, 1, 0), 1_000);
    assert_eq!(fees.fees, 1_000_000_000 * 1_000_000);
}

#[test]
fn fills_add_up_to_the_lesser_quantity() {
    // Bids of 1, 2 and 3 left at 120, 110 and 90; a trade at 100 can take 3 of them.
    let mut exchange = exchange(&[], &[]);
    exchange.account.orders[0].orders.bids = vec![
        order_open(Side::Buy, 90, 3, 0),
        order_open(Side::Buy, 110, 2, 0),
        order_open(Side::Buy, 120, 1, 0),
    ];
    for (quantity, expected) in [(2u64, 2u64), (3, 3), (5, 3)] {
        let mut account = ClientAccount {
            fees_ppm: 0,
            balances: exchange.account.balances.clone(),
            orders: vec![InstrumentOrders {
                instrument: btc_usdt(),
                orders: ClientOrders {
                    bids: exchange.account.orders[0].orders.bids.clone(),
                    asks: vec![],
                },
            }],
            trade_number: 0,
        };
        let trade = PublicTrade { id: "t".to_string(), price: 100, quantity, side: Side::Sell };
        let events = account.match_bids(&btc_usdt(), &trade, 1_000).unwrap();
        let traded: u64 = events
            .iter()
            .filter_map(|e| match &e.kind {
                barter_execution::model::AccountEventKind::Trade(t) => Some(t.quantity),
                _ => None,
            })
            .sum();
        assert_eq!(traded, expected);
    }
}

#[test]
fn only_base_and_quote_balances_move() {
    let mut exchange = exchange(&[100], &[]);
    exchange.account.balances.push(balance("eth", 5, 5));
    let trade = PublicTrade { id: "t".to_string(), price: 100, quantity: 1, side: Side::Sell };
    exchange.account.match_orders(&btc_usdt(), &trade, 1_000).unwrap();
    assert_eq!(
        exchange.account.balances,
        vec![balance("btc", 11, 11), balance("usdt", 9_900, 10_000), balance("eth", 5, 5)]
    );
}
