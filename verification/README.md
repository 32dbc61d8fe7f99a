# rpte

A trading engine for simulations, verified with Verus. Tokens, accounts, orders, pairs and
contracts are nodes of one ledger and act on each other by messages. The engine handles the
messages one frame at a time: it moves money, closes orders, opens orders, matches them by price and
then by time, trades market orders in batches at one price, charges fees and runs contracts, among
them a lending contract with its own virtual pair.

What each operation does is stated by its contract, over a mathematical model of the engine, and
proved. What holds of the whole is stated and proved in the modules whose names end in `_laws`:
among others, that a frame without contracts makes and loses no money but what it issues (where the
sums of decimal numbers are exact) and leaves nobody overdrawn without leave, that a pair is never
left crossed and closes exactly the orders that it takes out of its book, that the prices of a
market order's trades never improve, that no market order is overspent, and that what is borrowed is
covered.

## Layout

- `src/`: the verified library. The documentation of `src/lib.rs` lists its modules.
- `tests/`: tests of the library as its users see it.
- `app/`: what talks to the outside: the loop that runs frames at a given rate, and a terminal
  console drawn with crossterm, ratatui and ratatui-plt.

## What is trusted

Decimal arithmetic, rounding, comparison, parsing and printing are those of `rust_decimal`; the
wrappers in `src/decimal.rs` say what is taken from it. The few string functions of the standard
library that are used without a specification of their own are listed in `src/text.rs`.

## Example

```rust
use rpte::Rpte;

let mut engine = Rpte::new("USDT", 4);
let btc = engine.register_token("BTC");
let alice = engine.register_account();
let bob = engine.register_account();
engine.issue(alice, 0, 1000u64).unwrap();
engine.issue(bob, btc, 10u64).unwrap();
engine.make(bob, btc, 0, 2u64, 100u64);
engine.make(alice, 0, btc, 100u64, 100u64);
engine.step().unwrap();
engine.step().unwrap();
```
