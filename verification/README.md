# cavegame

The core of a voxel game engine, written in Verus: every rule the game applies to its world
is a verified function with a contract.

- `src/` is the verified library: block and item registries, packed palettes, chunk storage
  and its run-length encoding, terrain generation from density probes, the world manager
  (block, fluid and light queries and edits), sky lighting inside a chunk and across chunks,
  fluid simulation, greedy meshing of solid faces and meshing of fluid surfaces, chunk
  streaming (what to load and unload, how a loaded chunk joins the world, what to remesh),
  player interaction rules, and the block texture array read from a resource pack (through
  the `zip` and `image` crates).
- `tests/` runs the library on concrete worlds.
- `app/` is the game around it on Bevy: windows, input, ECS systems, asynchronous tasks,
  disk I/O, noise sampling and the floating-point physics and camera.
