# NarrowSwap

A concentrated liquidity automated market maker. Liquidity providers deposit tokens into
price ranges of their choice, and swaps move the price through those ranges.

The library under `src/` is written in Verus: every function states what it returns, and
Verus proves it.

- `tick_manager`: the price-range index. Tick arrays, the tick bitmap, tick prices.
- `pool_core`: the swap engine. The pool, the arithmetic of a swap step, the search for tick
  boundaries in tick array data, and the walk of a swap from boundary to boundary.
- `position_mgr`: ownership of liquidity. Positions, their fees, deposits and withdrawals.
  Whoever holds a position's NFT may close it and collect its fees.
- `accounts`, `pubkey`, `bytes`, `arith`: token accounts, addresses, little-endian integers
  and wide arithmetic.

Instructions take their accounts as plain values. They change the accounts they own in place,
and return what other programs have to do: token transfers, tick updates, NFT minting and
burning. Functions named `law_...` state what holds across functions and calls.

Inside its range a position stands for the amounts of the whole range, whatever the price. A
position that is opened outside its range and closed inside it can therefore be paid more
than its deposit and the swaps in between have brought in.

A price limit ends a swap once the price has come to it or past it. While a tick boundary is
ahead, the swap heads for that boundary, even where it lies beyond the limit.

`app/` holds the three on-chain programs around the library: account layouts, account
loading, dispatch and the calls to other programs. `tests/` runs the library.
