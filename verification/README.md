# bombermanterm

A bomb game for the terminal, alone against enemies or in a match of two to four
players over a network.

- `src/` is the library: the rules of the game, the board, the enemies, the menu,
  the pictures, the tunes, and the protocol and bookkeeping of network matches.
  Its contracts are proved with Verus. The rules of a tick are written down in
  `src/game/rules.rs`; what follows from them for every game is proved in
  `src/game/laws.rs`.
- `app/` is the program around it: keys, drawing, sound and sockets. It embeds the
  picture `assets/intro.png`, which it shows at the start.
- `tests/` run the library on concrete values.

Chance (`rand`) and pictures (`image`) are called from the library through a few
declarations that are believed without proof: `src/chance.rs`,
`src/render/intro.rs`, and two functions of `String` in `src/menu.rs`.

Time is counted in nanoseconds, speed in thousandths of the normal speed, and
sound in whole numbers, so that nothing in the library depends on rounding.
