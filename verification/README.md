# voxel_engine

A voxel world engine whose logic is verified with Verus.

- `src/` — the verified library: voxel chunks (`domain`, `voxel_world`),
  tetrahedral chunks (`tetra_world`, `tetra_meshing`), terrain classification
  from per-cell samples (`terrain`), the cube mesh plan (`meshing`), chunk
  streaming around the camera (`chunk_system`, `tetra_chunk_system`),
  collision probes (`collision`) and the editor's view switching (`ui_logic`).
- `app/` — the Bevy program around it: floating-point terrain noise, mesh
  vertices and colours, the camera controller, ECS systems and the UI.
- `tests/` — tests of the library.
