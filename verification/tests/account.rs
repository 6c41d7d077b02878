use barter_execution::model::market::{PublicTrade, Side};
use barter_execution::model::order::{Open, Order};
use barter_execution::simulated::account::ClientOrders;
use barter_execution::test_util::order_open;

fn client_orders(bids: Vec<Order<Open>>, asks: Vec<Order<Open>>) -> ClientOrders {
    ClientOrders { bids, asks }
}

fn open_order(side: Side, price: u64, quantity: u64, filled_quantity: u64) -> Order<Open> {
    order_open(side, price, quantity, filled_quantity)
}

fn trade(side: Side, price: u64, quantity: u64) -> PublicTrade {
    PublicTrade { id: "id".to_string(), price, quantity, side }
}

#[test]
fn test_client_orders_has_matching_bid() {
    struct TestCase {
        client_orders: ClientOrders,
        input_trade: PublicTrade,
        expected: bool,
    }

    let tests = vec![
        TestCase {
            // TC0: No matching bids for trade since no bids
            client_orders: client_orders(vec![], vec![]),
            input_trade: trade(Side::Buy, 100, 1),
            expected: false,
        },
        TestCase {
            // TC1: No matching bids for trade
            client_orders: client_orders(vec![open_order(Side::Buy, 50, 1, 0)], vec![]),
            input_trade: trade(Side::Buy, 100, 1),
            expected: false,
        },
        TestCase {
            // TC2: Exact matching bid for trade
            client_orders: client_orders(vec![open_order(Side::Buy, 100, 1, 0)], vec![]),
            input_trade: trade(Side::Buy, 100, 1),
            expected: true,
        },
        TestCase {
            // TC3: Matching bid for trade
            client_orders: client_orders(vec![open_order(Side::Buy, 150, 1, 0)], vec![]),
            input_trade: trade(Side::Buy, 100, 1),
            expected: true,
        },
        TestCase {
            // TC4: No matching bid for trade even though there is an intersecting ask
            client_orders: client_orders(vec![], vec![open_order(Side::Sell, 150, 1, 0)]),
            input_trade: trade(Side::Buy, 100, 1),
            expected: false,
        },
    ];

    for (index, test) in tests.into_iter().enumerate() {
        let actual = test.client_orders.has_matching_bid(&test.input_trade);
        assert_eq!(actual, test.expected, "TC{} failed", index);
    }
}

#[test]
fn test_client_orders_has_matching_ask() {
    struct TestCase {
        client_orders: ClientOrders,
        input_trade: PublicTrade,
        expected: bool,
    }

    let tests = vec![
        TestCase {
            // TC0: No matching ask for trade since no asks
            client_orders: client_orders(vec![], vec![]),
            input_trade: trade(Side::Sell, 100, 1),
            expected: false,
        },
        TestCase {
            // TC1: No matching ask for trade
            client_orders: client_orders(vec![], vec![open_order(Side::Sell, 150, 1, 0)]),
            input_trade: trade(Side::Sell, 100, 1),
            expected: false,
        },
        TestCase {
            // TC2: Exact matching ask for trade
            client_orders: client_orders(vec![], vec![open_order(Side::Sell, 100, 1, 0)]),
            input_trade: trade(Side::Sell, 100, 1),
            expected: true,
        },
        TestCase {
            // TC3: Matching ask for trade
            client_orders: client_orders(vec![], vec![open_order(Side::Sell, 150, 1, 0)]),
            input_trade: trade(Side::Sell, 200, 1),
            expected: true,
        },
        TestCase {
            // TC4: No matching ask for trade even though there is an intersecting bid
            client_orders: client_orders(vec![open_order(Side::Sell, 150, 1, 0)], vec![]),
            input_trade: trade(Side::Buy, 200, 1),
            expected: false,
        },
    ];

    for (index, test) in tests.into_iter().enumerate() {
        let actual = test.client_orders.has_matching_ask(&test.input_trade);
        assert_eq!(actual, test.expected, "TC{} failed", index);
    }
}

#[test]
fn num_orders_counts_both_sides() {
    let orders = client_orders(
        vec![open_order(Side::Buy, 90, 1, 0), open_order(Side::Buy, 100, 1, 0)],
        vec![open_order(Side::Sell, 120, 1, 0)],
    );
    assert_eq!(orders.num_orders(), 3);
    assert_eq!(client_orders(vec![], vec![]).num_orders(), 0);
}
