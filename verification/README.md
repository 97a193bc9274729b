# fiction_session

The session of an interactive-fiction player: what a turn prints, what it draws, where it
puts the player on the map, what is on the screen, and what a save keeps of it. The
interpreters run outside; the library is told what they left behind and answers with what
the player sees.

- `src/` is the library. Everything in it is verified with Verus; what it takes from the
  `image` crate and from std stands behind a few small functions whose contracts are stated
  beside them.
- `tests/` runs it on concrete games, screens and pictures.
- `app/` is the host around it: it drives an interpreter from input to input, carries out
  what a turn does to a map, names the game, and keeps saved screens.

Where to start: `session` for a turn from input to output, `events` and `layers` for
pictures, `screen` for the screen as it is shown, `roundtrip` for what a save brings back,
`mapping` for the map, `disasm` and `objwords` for what a turn makes stale, and `scott` for
two-word adventures.
