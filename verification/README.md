# nautilus_mint

A Verus-verified core for mint-aware market data:

- `src/solana_address.rs` — parsing and validation of Solana addresses (Base58,
  at most 44 characters, stored NUL-padded in a 45-byte buffer), with exact
  error reporting and round-trip laws.
- `src/trade.rs` — the trade tick, its checked constructor, text form,
  serialization metadata and Arrow field list.
- `src/dynamic_aggregation.rs` — the bookkeeping of a manager that keeps one bar
  aggregator per mint address and drops inactive ones, with its laws.
- `src/model.rs` — identifiers, fixed-point prices and quantities, bar enums.
- `src/decimal.rs` — decimal and fixed-point rendering.

`app/` holds what Verus does not take: serde, `Display`/`Debug`, `CStr`, the
`anyhow` and panicking constructors, the trade tick builder, and the driver that
owns the clock and the aggregators.
