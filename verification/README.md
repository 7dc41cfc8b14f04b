# xunfollow

Two small programs share one verified library:

- an X (Twitter) batch-unfollow desktop app: a queue of usernames imported
  from a text file, rate limits (daily, hourly, per session) with random
  delays, a pausable session, and a history that can be exported;
- a procedural garden: L-system plants grown across a seeded hillside.

## Layout

- `src/` is the library, verified with Verus. Each public function states
  what it returns or changes in its `ensures`; the laws that tie several
  functions together (a saved state reads back unchanged, an exported queue
  imports back unchanged, a rewrite pass distributes over concatenation, ...)
  are public proof functions next to the code they speak of.
  - `text`: decimal rendering and parsing, whitespace trimming, case folding.
  - `lsystem`: rule tables, rewrite passes and the length budget.
  - `rng`, `species`, `world`: the integer side of the garden (generator,
    colour parsing, species assignment, per-plant seeds).
  - `csv`, `csv_refactored`: username validation, import planning and tally,
    queue export.
  - `settings`, `state`, `rate_limiter`: stored settings, session state and
    rate limiter, each with its read-back law (for the limiter, when its two
    period starts lie within chrono's date range; every limiter built or
    reset from the clock is shown to have such starts).
  - `unfollow`: the session and the decision function of the work loop.
  - `utils`, `constants`: ETA text, timestamps, shared numbers.
- `tests/` exercises the library on concrete values.
- `app/` is the unverified shell: the macroquad window, the Tauri commands,
  SQLite access, the web view and the loop that performs the actions the
  library decides on.
