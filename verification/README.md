# calendar

Serves a Bangumi user's game wish list as an iCalendar feed: a request for
`/game/bangumi/user/<username>/wish.ics` reads the user's wish-listed games
from the Bangumi API, keeps those released from a chosen number of days ago
on, and lists each as an all-day event.

- `src/` is the library, written in Verus: routing and query-string reading
  (`route.rs`, `query.rs`), the Bangumi data and the page-by-page loading of a
  wish list (`bangumi.rs`, `wishlist.rs`), dates (`domain.rs`, `dates.rs`),
  and the iCalendar rendering (`renderers/ics.rs`). Each function states what
  it returns in its contract; the proof functions named `lemma_*` state the
  properties that hold across them.
- `app/` is the HTTP server around it: the `axum` routes, the `reqwest`
  client, the JSON reading with `serde`, and the asynchronous loop that asks
  the loader which page to fetch next.
- `tests/` runs the library on concrete inputs.

Query options: `name` (or `title`) = `original`/`orig`/`jp`/`ja` or
`cn`/`zh`/`chinese`; `past_days=N`; `past_months=N` (31 days each);
`past=N`, `past=Nd` or `past=Nm`.
