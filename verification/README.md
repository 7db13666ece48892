# tigtag

The rules of TigTag, a chase game on a maze of dots, as a library verified with Verus.
The player eats the dots while four chasers hunt it; in the title demo a program plays.

- `src/` is the library. Every function carries a contract that Verus proves: building
  the maze (it has no dead ends), counting dots, how the player, the demo player and the
  chasers choose their ways, the search for risky walks in the demo, scoring, stage clear
  and collisions, the countdowns, the pause menu and the header texts.
  The only trusted item is `random::random_below`, which draws a number with `rand`.
- `tests/` runs the library on concrete boards and inputs.
- `app/` is a console run of the demo: it builds a maze and lets the demo player and the
  chasers play on it grid by grid, printing the board. Graphics, sound and input devices
  are not part of this crate.
