# oxidize

A dashboard for Firefly III: charts of balances, earned against spent,
spending by category and budget, budget comparisons, average costs, Sankey
flows, card paydown, monthly summaries and reimbursements.

## Layout

- `src/` is the verified library (Verus). It holds the logic of the
  dashboard: calendar arithmetic and the parsing of dates, chart period keys,
  month-long chunks of a range, journal classification (earned, spent,
  internal transfers, work expenses and reimbursements), exclusions, chart
  series labels, Sankey links, card paydown classification, cache keys and
  the in-memory cache, category grouping, query parsing and the route table.
  Each public function states what it returns in its contract, and the
  laws of the library are proof functions beside the code they speak of.
- `app/` is the server around it: HTTP handlers (actix-web), the Firefly III
  client (reqwest), SQLite storage (rusqlite), configuration from the
  environment, and the floating-point sums over amounts.
- `tests/` runs the library on concrete values.
