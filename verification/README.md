# price_oracle

A server for the dollar price of bitcoin at every block height, as the on-chain price oracle
computes it. The library in `src/` is verified with Verus and performs no I/O; the crate in `app/`
does the reading, writing and fetching around it.

- `calendar`, `text`: dates as timestamps, decimal numbers, fields and lines
- `record`, `storage`: the two flat files of prices and timestamps, and what a record is in them
- `lookup`: the search for a timestamp and the scan of a range
- `api`: what each request is answered
- `sync`: how the store is brought to the chain's tip and kept there

Searches, scans, requests and synchronisation are machines that are driven from outside: each names
the next thing to read or do, is told what came of it, and goes on. Prices are carried as the bit
patterns of their floating-point numbers; `app/` does the arithmetic on them.

What holds of the library as a whole is stated by the proof functions named `law_*`.
