# pixel_spaceships_core

The ship-building core of a small pixel spaceship game, written in Verus.

`src/` is the verified library:

- `vec`, `direction`, `color`: grid vectors, the four cardinal directions,
  RGBA colours.
- `cell_map`: positions mapped to cells over a `HashMap` keyed by a packed
  `u64`; its view is a `Map<(int, int), V>`.
- `module`, `blueprint`: the fixed module kinds and a ship blueprint with
  exact whole-unit totals of mass, power and thrust.
- `ship`: the editor's ship grid (placement, bounding box, RGBA
  rasterizing, the firing faces of thrusters in a fixed order), the canvas
  texel/cell transform, pilot commands.
- `config`, `noise`: the editor canvas, and the integer hash that scatters
  stars.

`app/` is the game around it: the floating-point physics (module tuning,
derived ship figures, thrust allocation, the flight model) and the bevy/egui
user interface.
