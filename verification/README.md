# fighter

The rules of a two-player fighting game, verified with Verus.

- `src/` is the library: button tokens and transition keys (`input`, `combo`), an
  insertion-ordered name table (`table`), the fighter state machine (`fighter`), data
  checking (`validation`), hit bookkeeping (`hits`) and cross-cutting properties (`laws`).
- `app/` is the game program built on macroquad: it loads `.ron` data, keeps the
  floating-point physics (velocities, stun and state clocks, box geometry), draws, and asks
  the library for every change of state.
- `tests/` runs the library on concrete fighters.
