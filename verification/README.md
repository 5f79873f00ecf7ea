# dex_math_core

Deterministic, integer-only math for decentralised exchanges: constant-product pools (Uniswap V2),
concentrated liquidity (Uniswap V3, Uniswap V4 with hooks, Kyber Elastic), StableSwap and crypto
pools (Curve) and weighted pools (Balancer).

The functions in `src/` carry contracts that Verus proves, but for the small wrappers around calls
into other crates: what a wrapper claims of the crate it calls is believed. Quotes fail closed: where
a snapshot is incomplete, a number does not fit or a swap does not end within its steps, the caller
gets an error and never a guess.

## Layout

- `src/u256.rs` — 256-bit integers with a mathematical view
- `src/text.rs` — decimal and hexadecimal texts, used by the error messages
- `src/base/` — errors, basis points and exact amounts, addresses and pool keys
- `src/data/` — pool states, the Kyber state manager, the Curve registry
- `src/dex/` — shared swap arithmetic, and for each exchange a `math` module with the formulas and
  an `adapter_math` module with snapshots and exact-input quotes
- `src/dex/curve/newton.rs`, `newton_start.rs`, `closed_form.rs` — proofs that the solvers of the
  crypto pools divide by no zero on the pools that `solver_range.rs` lets through
- `src/harness.rs`, `src/parity.rs` — what the measuring programs decide: rounds, drawn cases, and
  the comparison of quotes
- `tests/` — tests on concrete values
- `app/` — conversions, display helpers, downcasting, the JSON registry, the shared manager and the
  programs

What other crates compute (256-bit arithmetic, tick and price ratios, swap steps, powers, crypto
pool solvers, address parsing) is called behind the wrappers, each marked
`#[verifier::external_body]`, with a comment that says what is relied on.
