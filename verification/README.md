# resource_simulation

A terminal game in which autonomous robots explore a procedurally generated
grid and bring its deposits back to a base, while the player steers a ship,
breaks walls and buys upgrades between games.

The library (`src/`) holds the game's rules, verified with Verus:

- `types`, `pos_map`: positions, directions, deposits, and a finite map keyed by cells.
- `map`: the terrain, wall damage, seed mixing and map generation.
- `pathfinding`: neighbours and breadth-first search, proved to return a
  shortest route exactly when one exists.
- `simulation`: the shared game state and the player's actions (moves, wall
  shots, scout rally).
- `robot`: what a scout, a collector and the base do on each tick.
- `store`, `save`, `config`, `levels`: upgrades and their prices, the saved
  progression and favourite maps, game parameters and difficulty levels.
- `menu`: what each key does on each screen.
- `rng`: the few calls into `rand`, with the contracts the library relies on, and the two generators (`MapRng`, `RobotRng`) that keep a ghost record of every request made of them.

`app/` is the program around it: terminal drawing (ratatui, crossterm), the
threads that run the robots, the Perlin-noise wall pattern, and `save.json`.
