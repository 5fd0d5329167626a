# Bathtub

Control of a GRBL gantry for people who do not write G-code: destinations
(nodes) with coordinates and neighbours, actions made of G-code commands,
and recipes of steps that go to a destination and run an action there.

The library under `src/` holds the logic, each function with a contract
that Verus proves:

- `nodes`, `paths`, `grid`, `tracker`: the node graph, the hover nodes above
  destinations, the path search between two nodes, the button grid of manual
  control, and where the gantry is along its path.
- `grbl`, `grbl_tab`, `manual`: the controller protocol (commands, replies,
  status reports, settings) and the terminal of manual control.
- `run`, `recipe`, `recipe_run`: recipe steps, the run state and how the
  application reacts to the operator, and a recipe run as a sequence of
  requests to its surroundings.
- `build_tab`, `config`, `action_tab`, `editor`, `naming`: the recipe
  builder with its step numbering, the node and action editors, and fresh
  names for new entries.
- `logger`, `log_tab`: log files, their names and order, and log search.
- `style`, `text`: widget colours and the string helpers the rest builds on.

The program under `app/` holds the window (iced), the serial connection, the
files and the threads, and hands plain values to the library.
