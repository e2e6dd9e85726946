# roundabout_simulation

A traffic simulation of multi-lane roundabouts. The library in `src/` holds the
discrete logic of the simulation, verified with Verus; the Bevy application in `app/`
draws the roundabout, runs the driver model and the user interface around it.

## Layout

- `src/blueprint.rs`: the dimensions a roundabout may have and the order of its arms.
- `src/layout/`: the layout itself. `topology.rs` numbers the entities of every arm and
  lane, `assembly.rs` wires the segments together, `routes.rs` proves that every spawn
  point reaches every arm along the expected route, `conflict_points.rs` and
  `yield_points.rs` name the points where entering vehicles meet circulating lanes, and
  `assembled.rs` proves what every assembled layout offers: conflict and yield points
  for every entry lane, and a spawn point and a route for every vehicle queued at an arm.
- `src/simulation/`: routes (`pathfinding.rs`), the random choice of destinations
  (`random.rs`, through `rand`), the spawn queue (`spawning.rs`), navigation along a
  route (`components.rs`), the vehicle ahead and the circulating vehicles that an
  entering vehicle minds (`kinematics.rs`, with `sector_map.rs` through `bimap`), where
  a vehicle stands relative to the yield point of its entry (`yielding.rs`), and
  statistics.
- `src/graphics.rs`: the colours of segments and the selection of a highlighted segment.
- `tests/`: tests of the library on concrete values.
- `app/`: the Bevy application: geometry, the intelligent driver model, spawning at a
  Poisson rate, drawing and the control panel.
