# secondary_market

A secondary stock market kept as a state machine and verified with Verus.
The sudo key lets firms issue shares up to a limit; firms issue and retire
shares; holders trade them with limit orders, which are matched against the
opposite side of the book when they are placed and otherwise listed.

- `src/types.rs` – orders, origins, calls, events and errors.
- `src/model.rs` – the abstract state (`MarketView`) and what every call
  does to it.
- `src/market.rs` – the module (`Module`), each call proved to do what
  `model.rs` says.
- `src/books.rs` – selecting, removing and stably sorting orders.
- `src/ledger.rs` – the currency: free and reserved balances.
- `src/hashing.rs` – order ids: BLAKE2b-256 of the SCALE encoding of the
  block's random seed, the sender and a nonce.
- `src/laws.rs`, `src/conservation.rs` – properties across calls: issued
  shares stay within their limits, trading conserves shares and money, only
  the sudo key sets the rules, round trips, the matching order.
- `app/` – the SCALE storage encoding of order books.
