# bart

A library for the [BART Legacy API](https://api.bart.gov/docs/overview/index.aspx),
written in Verus: its logic is proved against the contracts it states.

## Layout

- `src/` — the verified library.
  - `common.rs`: directions and hex colors.
  - `decimal.rs`: the API's numeric strings and decimal rendering.
  - `fields.rs`: the API's `"0"`/`"1"` flags and numeric fields.
  - `etd.rs`: departure estimates, and the split of a station's departures into
    northbound and southbound groups, each stably sorted by next departure.
  - `station.rs`, `route.rs`: stations and routes (lookup, sorting by name,
    filtering by direction).
  - `parse.rs`: reading response envelopes (API errors, missing payloads).
  - `request.rs`: the requests the client sends, each carrying the client's key.
  - `render.rs`: the station list, route list and departure boards the command
    line prints; `board.rs`: the pieces of a live board (refresh schedule,
    the browser board's state, events and what it shows,
    "updated" label, compact times).
  - `cli.rs`: the command line's direction filter.
- `app/` — the `bart` command line: HTTP (reqwest), JSON (serde), argument
  parsing (clap) and the terminal loop, around the library. The loop's
  decisions (when to fetch, what to show, when to stop) are
  `board::WatchState::step`.
- The browser front-end (a Leptos page) is not part of this crate: its views
  and event wiring need a browser. What it decides stands in `src/`:
  `board::app_view` (nothing, the picker, a board or the unknown-station
  card), `board::BoardState` and `board::board_view` (the board's state and
  card), `board::board_message`, `board::board_times` and `board::dot_color`,
  and `station::sort_by_name` for the picker's list.
- `tests/` — tests of the library.
