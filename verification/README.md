# barter_execution

Order execution for the Barter trading ecosystem, with a simulated exchange whose logic is
verified with Verus.

## Layout

- `src/` — the verified library.
  - `model/` — orders and their states, balances, trades, account events, market types.
    Prices and quantities are whole numbers of smallest units; fees are charged in parts per
    million of the traded amount, and balances and fees count millionths of a unit, so every
    fee is exact.
  - `simulated/account.rs` — the client's account on the simulated exchange: balances, the
    resting bids and asks of each instrument, and the matching of bids against public trades.
  - `simulated/book.rs` — the account's orders as a mathematical book, and how opening and
    cancelling change it.
  - `simulated/mod.rs` — the simulated exchange's requests: fetch open orders and balances,
    open orders (reserving their amount from the available balance, where the symbol has one),
    cancel orders, cancel all.
  - `simulated/laws.rs` — properties across operations: matching stays within the trade and
    keeps the book sorted, fees never exceed the amount, cancelling undoes opening, an opened
    order is among the open orders fetched after, and more.
  - `socket/` — what a WebSocket message means to an exchange socket.
  - `exchange/` — what the execution clients compute: gathering batch results; for SushiSwap,
    its account addresses, swap deadlines and the swap transaction.
  - `support.rs` — the calls into `uuid` and std that the logic makes, each behind a
    trusted contract.
- `tests/` — tests of the library on concrete values.
- `app/` — the asynchronous and networked parts around the library: the execution client
  trait, the simulated exchange's event loop and client, the SushiSwap V3 client, exchange
  sockets, Binance market data, and serialisable copies of the library's types.
