# solend_liquidator

The verified core of a liquidation bot for the Solend lending protocol on
Solana.

`src/` is the library, verified with Verus:

- `wide`, `decimal`: 256-bit integers and the protocol's fixed-point
  decimals (18 places) with checked arithmetic, each operation stated over
  its exact mathematical value. The lending program's decimal arithmetic,
  collateral exchange rate and interest accrual are written and proved
  here from their definitions rather than called from the program's crate;
  a reserve's total supply is its available plus its borrowed liquidity,
  with no protocol fees deducted.
- `lending`: reserves, obligations and price data, and `refresh_obligation`,
  which revalues an obligation against current reserves and prices; the
  revalued totals are proved to be the sums of the revalued positions, and
  revaluing twice changes nothing.
- `liquidation`: which obligations are underwater, which deposit and borrow
  to act on, how much to repay, and which accounts a liquidation touches.
- `markets`: the state kept per market between passes.
- `switchboard`: reading Switchboard feed, bundle and VRF accounts;
  `wire` checks their protobuf framing before they are decoded.
- `accounts`, `oracle`, `constants`: addresses, token balances and price
  scaling.
- `performance`, `log`, `model`: timing points, logger flag, and the
  published market configuration.

`app/` is the program around it: command line, RPC reads and writes, JSON,
and the floating-point steps of reading a price feed.
