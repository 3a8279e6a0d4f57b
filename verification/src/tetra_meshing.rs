use vstd::prelude::*;
use crate::tetra_world::{TetraChunk, tetra_at};
use crate::voxel_world::{CHUNK_RESOLUTION, VoxelKind, in_bounds};

verus! {

/// Whether the face of a tetrahedron whose neighbour across the face is
/// tetrahedron `nt` of the cell at offset `(dx, dy, dz)` from `(x, y, z)` must
/// be drawn: always at the chunk border, otherwise exactly when the neighbour
/// is air or water.
pub fn is_face_visible(
    chunk: &TetraChunk,
    x: usize,
    y: usize,
    z: usize,
    dx: i32,
    dy: i32,
    dz: i32,
    nt: usize,
) -> (r: bool)
    requires
        chunk.wf(),
        in_bounds(x as int, y as int, z as int),
    ensures
        r == (!in_bounds(x + dx, y + dy, z + dz) || tetra_at(
            chunk.tetras@,
            x + dx,
            y + dy,
            z + dz,
            nt as int,
        ) == VoxelKind::Air || tetra_at(chunk.tetras@, x + dx, y + dy, z + dz, nt as int)
            == VoxelKind::Water),
{
    let nx: i64 = x as i64 + dx as i64;
    let ny: i64 = y as i64 + dy as i64;
    let nz: i64 = z as i64 + dz as i64;
    let size: i64 = CHUNK_RESOLUTION as i64;
    if nx < 0 || ny < 0 || nz < 0 || nx >= size || ny >= size || nz >= size {
        return true;
    }
    let nk = chunk.get(nx as usize, ny as usize, nz as usize, nt);
    if nk != VoxelKind::Air && nk != VoxelKind::Water {
        return false;
    }
    true
}

} // verus!
