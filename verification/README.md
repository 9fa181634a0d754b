# Monte Catano

A Monte Carlo tree search engine for a four-player hex-board trading and building
game (villages, cities, roads, development cards, harbours and a robber), written in
Verus: the rules engine, the move generation and the search tree are verified against
their specifications.

## Layout

- `src/` is the verified library.
  - `topology.rs`: the fixed adjacency tables of the 19 hexes, 54 vertices, 72 edges and
    9 harbours.
  - `types.rs`: players, resources, development cards and the bank-trade numbering.
  - `bits.rs`: bit sets in machine words: members, counts, lowest and `k`-th members.
  - `player_state.rs`: one player's pieces, cards and counters, and the longest road.
  - `board.rs`: the board, its command-line string (writing and parsing, with a proof
    that parsing gives back what was written), fair number layouts and the layout of
    its picture.
  - `game_state.rs`: a position, building, and the generation of the available actions.
  - `apply.rs`: what each action requires of a position and the position it leads to.
  - `legality.rs`: every generated action can be applied to a position within
    ordinary bounds, and the positions in which a random step is sure to succeed.
  - `graph.rs`: actions, sets of untried actions, search-tree nodes and their arena.
  - `game_data.rs`: a game with its history and random generator, random playouts to
    the end of a game, and the turn order of a match against another engine.
  - `mcts.rs`: the search tree, its expansion, the rest of a playout after selection,
    backpropagation and the choice of move; every operation keeps the tree's links
    well formed, every node below the root and counting one visit per win.
  - `uci.rs`: reading the command lines of the console protocol.
  - `rng.rs`, `cli.rs`: the random generator's draws and the command-line types.
- `app/` is the executable around the library: the console loop, self-play, the SPRT
  runner, coloured board pictures, RON messages and the floating-point parts of the
  search (selection by upper confidence bounds, the SPRT statistics).
- `tests/` holds the tests of the library.
