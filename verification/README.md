# glance-anki

An extension for the Glance dashboard that shows Anki review activity as a
contribution-style heatmap.

## Layout

- `src/` is the verified library (Verus):
  - `anki` and its modules `types`, `db`, `scheduling`, `stats`: tallying review-log rows by
    day and kind, the review-log query text, day offsets and their dates, the rollover hour,
    deck selection from the collection's stored JSON, and the statistics of a window of days;
  - `summary`: totals, streaks, best day and quartiles over a window;
  - `api`: request parameters, heatmap layout, month labels and the widget title;
  - `calendar`: day numbers and the calendar conversions chrono performs on them;
  - `json`: JSON values as plain data, read from text and bytes with serde_json;
  - `color`, `config`, `templates`, `text`.
- `app/` is the server: reading the collection with rusqlite, the clock, floating-point
  colour arithmetic, templates rendered with askama, and the actix-web endpoint.
- `tests/` exercises the library.
