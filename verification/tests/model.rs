use barter_execution::model::market::{Exchange, Instrument, InstrumentKind, Symbol};
use barter_execution::model::order::{InFlight, Order, OrderId, OrderKind, RequestOpen};
use barter_execution::model::trade::TradeId;
use barter_execution::model::ClientOrderId;
use barter_execution::exchange::simulated::collect_results;
use barter_execution::exchange::sushiswapv3::{timestamp_after, valid_timestamp};
use barter_execution::error::{ExecutionError, SimulatedError};
use barter_execution::model::market::Side;
use barter_execution::test_util::order_open;
use barter_execution::ClientId;

#[test]
fn client_id_names() {
    assert_eq!(ClientId::Simulated.as_str(), "simulated");
    assert_eq!(ClientId::Ftx.as_str(), "ftx");
}

#[test]
fn ids_from_strings() {
    assert_eq!(OrderId::new("abc"), OrderId("abc".to_string()));
    assert_eq!(OrderId::new(String::from("x")).0, "x");
    assert_eq!(TradeId::new("7"), TradeId("7".to_string()));
}

#[test]
fn in_flight_from_request() {
    let request = Order {
        exchange: Exchange("binance".to_string()),
        instrument: Instrument {
            base: Symbol("btc".to_string()),
            quote: Symbol("usdt".to_string()),
            kind: InstrumentKind::Spot,
        },
        cid: ClientOrderId(5),
        state: RequestOpen { kind: OrderKind::Market, side: Side::Buy, price: 1, quantity: 2 },
    };
    let in_flight = Order::<InFlight>::from(&request);
    assert_eq!(in_flight.exchange, request.exchange);
    assert_eq!(in_flight.instrument, request.instrument);
    assert_eq!(in_flight.cid, ClientOrderId(5));
    assert_eq!(in_flight.state, InFlight);
}

#[test]
fn order_open_fields() {
    let a = order_open(Side::Sell, 10, 3, 1);
    let b = order_open(Side::Sell, 10, 3, 1);
    assert_eq!(a.exchange.0, "exchange");
    assert_eq!(a.instrument.base.0, "btc");
    assert_eq!(a.instrument.quote.0, "usdt");
    assert_eq!(a.instrument.kind, InstrumentKind::FuturePerpetual);
    assert_eq!(a.state.id.0, "id");
    assert_eq!((a.state.price, a.state.quantity, a.state.filled_quantity), (10, 3, 1));
    assert_eq!(a.state.remaining_quantity(), 2);
    // Each order gets a fresh random client order id.
    assert_ne!(a.cid, b.cid);
}

#[test]
fn collect_results_all_ok() {
    let results: Vec<Result<u32, ExecutionError>> = vec![Ok(1), Ok(2), Ok(3)];
    assert_eq!(collect_results(results).unwrap(), vec![1, 2, 3]);
    let empty: Vec<Result<u32, ExecutionError>> = vec![];
    assert!(collect_results(empty).unwrap().is_empty());
}

#[test]
fn collect_results_first_error() {
    let results: Vec<Result<u32, ExecutionError>> = vec![
        Ok(1),
        Err(ExecutionError::Simulated(SimulatedError::BalanceOverflow)),
        Err(ExecutionError::Simulated(SimulatedError::TradeNumberOverflow)),
    ];
    assert!(matches!(
        collect_results(results),
        Err(ExecutionError::Simulated(SimulatedError::BalanceOverflow))
    ));
}

#[test]
fn timestamps_in_the_future() {
    assert_eq!(timestamp_after(1_000, 300_000), 301_000);
    let before = std::time::SystemTime::now()
        .duration_since(std::time::UNIX_EPOCH)
        .unwrap()
        .as_millis();
    let t = valid_timestamp(300_000).unwrap();
    assert!(t >= before + 300_000);
    assert!(t < before + 300_000 + 60_000);
}
