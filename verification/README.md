# polytrade

A paper trader for Polymarket's five-minute BTC markets, with a verified core.

- `src/` is the library. Verus proves its functions against their contracts; a few wrappers
  around outside calls are trusted, and say so.
  - `numeric` holds IEEE 754 doubles by their bits, with exact arithmetic.
  - `json`, `text` and `time` read documents, words and the clock.
  - `market_data` follows BTC trades and the market of the current window.
  - `probability` estimates how far a market has yet to move.
  - `strategy` decides on entries; `paper` and `risk` keep the positions in bounds.
  - `storage` lays out what is written to Redis.
- `app/` is the program: sockets, requests, Redis, logging, and the settings file.
- `tests/` run the library on examples.

Doubles are compared and combined through methods (`lt`, `add`, `mul`). Functions whose
name ends in `_at` take the time as an argument; the ones without it read the clock.
