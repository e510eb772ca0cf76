# rue

A verified engine core for a ten-column block-stacking game: banded
bitboards, pieces and packed placements, line clears, garbage queues, attack
rules, the evaluation features of a position, text rendering, and the
decisions of an online client (room settings checks, command permissions,
chat commands, the command registry and its help text, argument reading).

## Layout

- `src/` — the library, written and proved with Verus.
  - `bits`, `header` — bit-level facts and the board's column masks.
  - `board` — the bitboard: cells, shifts, line clears, placements
    (`do_move`, and `do_move_masked` from the `data` mask table).
  - `piece`, `rotation`, `spin`, `placement`, `data` — pieces, rotations,
    packed moves, rotated cells and place masks.
  - `buffer`, `history`, `rng`, `garbage`, `envelope`, `render`, `text`.
  - `versus` — two-player matches: the winner and the garbage exchange.
  - `game` — the game state (`Game`: playing a placement and settling
    incoming garbage), attack assembly, the first-in first-out segment
    garbage queue, the search state.
  - `eval` — board features (`features`, `simple`) and the integer
    features of a placement (`score`).
  - `client` — room settings constraints (`settings`, and the twenty
    checks of a game in `game_settings`) and the reaction to
    a room update (`room`), command permissions and bot state (`control`),
    reading commands out of chat (`chat`), the command registry and help
    text (`registry`), a book of commands with the calls a message asks for
    (`commands`), and argument reading (`arguments`).
- `tests/` — tests of the library.
- `app/` — a small command-line program around the library, holding the
  floating-point parts (attack scaling, weighted evaluation, recency) and
  the environment reading.
