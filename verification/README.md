# Peek

A match companion for VALORANT: while a match loads it shows every player's
rank, recent form, party and the user's history with them.

The crate is in two parts.

- `src/` is the library, written in Verus and verified: the JSON readers for
  Riot's and valorant-api's documents, the roster (rows, parties inferred from
  shared match history), the statistics (KAST, ADR, headshot share, streaks,
  the smurf read), the encounter memory, the poll loop's decisions and the
  Discord status. Every public function states its result in `ensures`; the
  `law_*` proof functions state what holds across calls, such as a match
  being counted once or linked players sharing one party.
- `app/` is the desktop shell around it: HTTP and websocket traffic, files
  on disk, the Discord connection, the window and the tray. It hands the
  library plain values and shows what comes back.

`tests/` exercises the library from outside.
