# one_thousand_deaths

The game logic of a small roguelike, written in Verus: every function in `src/` carries a
contract that Verus proves.

- `src/` is the library: points and shortest paths, objects and their tags, cells, the
  level models (`model`, `lookup`, `level`), reading text level maps into a lookup
  (`make::level`, with the extra armor placed by `make::add_extra`), the value store, the scheduler's time units,
  the live game with its snapshot, and the saved-game file format.
- `tests/` runs the library on concrete cases.
- `app/` is the terminal program around it: the console, file I/O, and the random
  numbers drawn from normal distributions.

Hash maps and sets use the FNV hasher through small wrappers whose contracts state what
the map or set holds; the postcard, byteorder and rand calls sit behind wrappers too.
