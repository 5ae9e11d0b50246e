# rts_core

The rules of a small real-time strategy game, written in Verus and proved
against their contracts, with the game program around them.

- `src/` is the library. Every function in it is verified except three
  small trusted wrappers, whose contracts are taken on trust: `pop_char` and
  `clear_text` (around `String::pop` and `String::clear`) and `random_in`
  (around `rand::random_range`). The library covers the pathfinding
  grid and its A* search, the spatial hash, terrain, fog of war, building
  placement and siting, the economy and harvesters, production queues and
  power, target acquisition and pursuit, group moves and formations, the
  computer opponent's decisions (economy, production, army, scouting), the
  game-over rules and the debug console's parser. Positions are held in
  thousandths of a cell, times in milliseconds, costs in hundredths and
  damage modifiers in percent, so that everything the rules decide is
  integer arithmetic. Properties that relate several calls are stated as
  public proof functions named `law_*`.
- `tests/` runs the library on concrete values.
- `app/` is the Bevy program: windowing, rendering, input, asset and save
  file handling, the camera and the floating-point movement of units. It
  converts between the engine's floats and the library's integers and asks
  the library for the game's decisions, except those made by scoring in
  floating point: which target the computer's army attacks, whether its
  field army has regrouped, and which unit a computer player trains next.
