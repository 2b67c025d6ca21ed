# quasar_vaults

The decision logic of the Quasar CosmWasm contracts (the concentrated-liquidity
vault, the basic vault, the airdrop and the burn contract), written in Verus and
proved against contracts stated over mathematical models.

Layout:

- `src/math` — 256- and 512-bit integers and the two fixed-point decimals, with
  the CosmWasm arithmetic they stand for.
- `src/coin.rs`, `src/text.rs` — coins, their ordering and sorting, decimal text.
- `src/cl_vault` — ticks and prices, liquidity math, coin lists and rewards,
  position ratios and fund allocation, swaps, merges, admin transfer, the
  auto-compounding migration and the instantiation plan.
- `src/basic_vault` — payments, deposit splits by weight, bonds, the bond and
  unbond callbacks, the deposit cap.
- `src/airdrop` — the configuration rules and the table of users.
- `src/burn.rs` — the totals of burnt coins.
- `tests/` — tests of the library on concrete values.
- `app/` — the CosmWasm glue: storage, queries and messages, around the library.

Properties that span several calls are stated and proved as `law_*` proof
functions next to the functions they speak of.
