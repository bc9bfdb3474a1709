# pagewatch

A terminal website change tracker, built around a verified library.

The library (`src/`) holds the rules of the program and their proofs:

- `text` — character-level text work: Unicode whitespace trimming,
  substring search, joining, comma-separated keyword lists, decimal numbers
  and lexicographic order.
- `models` — the watched pages (`Watch`, `TrackingMode`, `Timestamp`) and the
  bounded error history.
- `checker` — what a check extracts from a fetched page in each tracking
  mode (full text, price, availability, keywords, HTML section) and how the
  outcome of a check is recorded on a watch.
- `listing` — which watches the list shows for a search and in which order,
  for each sort column and direction; the order is proved unique.
- `app` — the list screen as a state machine: keys (including marking
  watches for bulk checks and deletion), check results and the periodic
  tick, with what the caller has to do next.
- `display` — the texts the screen shows: the cells of the list, its title
  and the status line.

The program (`app/`) does the input and output: the terminal, the HTTP
requests, the background tasks, and `watches.json` (through copies of the
library's types that carry the serde derives).
