# gameoflife

Conway's Game of Life and a generalised life-like automaton (survival and
birth tables, cells that decay through several states, Moore or von Neumann
neighbourhoods), verified with Verus.

- `src/grid.rs`: the rectangular field, stored row-major.
- `src/neighbors.rs`: counting living neighbours, and why a windowed count or
  a convolution gives that number.
- `src/convolution.rs`: neighbour counting by `ndarray_ndimage::convolve`.
- `src/game_of_life.rs`: Conway's game, by counting and by convolution.
- `src/gameoflife.rs`: the generalised game, by counting and by convolution.
- `src/arguments.rs`: the decisions of the command line and of the dialogue.
- `src/presentation.rs`: what the GIF and terminal views show.
- `app/`: the program itself (command line, dialogue, GIF file, terminal).
