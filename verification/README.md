# hurno

The logic of a small voxel game, written in Verus and proved against its contracts.

`src/` is the verified library:

- `block` — block kinds, their one-byte codes and the block palette.
- `chunk` — a 16x256x16 column of blocks stored one byte per cell.
- `coords` — block coordinates to chunk coordinates, and the keys chunks are filed under.
- `world` — the map of loaded chunks: reading and writing blocks, loading and unloading around
  a position, collision queries, which chunks need a new mesh and the per-frame mesh schedule.
- `inventory` — hotbar and backpack, selection scrolling and item use.
- `event` — a per-frame event queue.
- `region` — region files: a header of 1024 four-byte sector offsets, one per chunk slot,
  then 4096-byte sectors holding chunk records; storing a chunk and loading it back.
- `mesh` — which block faces of a chunk are drawn, and the index list of their quads.
- `atlas` — the procedural texture atlas.
- `terrain` — the layering of generated terrain, from the noise comparisons at a cell.
- `trees` — tree decoration of generated chunks, from the draws of a seeded generator.
- `player` — the block edits a frame's input asks for.

`app/` is the game around it: window and input (winit), GPU rendering (wgpu), floating-point
movement, ray casting and terrain noise, configuration and file I/O.
