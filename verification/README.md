# alch_arbitrage

Finds items of Old School RuneScape that can be bought on the Grand Exchange
for less than the High Alchemy spell pays for them, and keeps the price data
fresh with a small once-a-second scheduler.

- `src/` is the library, verified with Verus: the items database and its
  loading from the wiki's `/mapping` and `/latest` answers, the ranking of
  opportunities, the timers and the scheduler's tick, and the API's URLs.
- `app/` is the program around it: HTTP requests, JSON, the save file, the
  clock, the reports printed to the terminal, and the scheduler loop.
- `tests/` exercises the library on concrete values.
