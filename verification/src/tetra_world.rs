use vstd::prelude::*;
use crate::terrain::{DepthBand, TerrainSample};
use crate::voxel_world::{CHUNK_RESOLUTION, CHUNK_VOLUME, VoxelKind, in_bounds, cell_index};

verus! {

/// Number of tetrahedra each cubic cell is split into.
pub const TETRAS_PER_CELL: usize = 5;

/// Number of tetrahedra in a chunk.
pub const TETRA_VOLUME: usize = CHUNK_VOLUME * TETRAS_PER_CELL;

/// Whether `(x, y, z, t)` names a tetrahedron of a chunk.
pub open spec fn tetra_in_bounds(x: int, y: int, z: int, t: int) -> bool {
    in_bounds(x, y, z) && 0 <= t < TETRAS_PER_CELL
}

/// Position of tetrahedron `t` of cell `(x, y, z)` in the flat array.
pub open spec fn tetra_index(x: int, y: int, z: int, t: int) -> int {
    cell_index(x, y, z) * TETRAS_PER_CELL + t
}

/// The kind of tetrahedron `(x, y, z, t)` in the flat array `s`; air outside the chunk.
pub open spec fn tetra_at(s: Seq<VoxelKind>, x: int, y: int, z: int, t: int) -> VoxelKind {
    if tetra_in_bounds(x, y, z, t) {
        s[tetra_index(x, y, z, t)]
    } else {
        VoxelKind::Air
    }
}

/// The flat array `s` with tetrahedron `(x, y, z, t)` set to `k`; unchanged outside the chunk.
pub open spec fn with_tetra(s: Seq<VoxelKind>, x: int, y: int, z: int, t: int, k: VoxelKind) -> Seq<
    VoxelKind,
> {
    if tetra_in_bounds(x, y, z, t) {
        s.update(tetra_index(x, y, z, t), k)
    } else {
        s
    }
}

/// The kind that terrain generation gives every tetrahedron of a cell with sample `s`.
pub open spec fn tetra_type(s: TerrainSample) -> VoxelKind {
    if s.bedrock {
        VoxelKind::Bedrock
    } else if s.above_ground || s.cave {
        if s.underwater {
            VoxelKind::Water
        } else {
            VoxelKind::Air
        }
    } else {
        match s.depth {
            DepthBand::Surface => VoxelKind::Grass,
            DepthBand::Subsoil => VoxelKind::Dirt,
            DepthBand::Deep => VoxelKind::Stone,
        }
    }
}

/// Distinct tetrahedra occupy distinct slots of the flat array, all below `TETRA_VOLUME`.
pub proof fn lemma_tetra_index_injective(
    x: int,
    y: int,
    z: int,
    t: int,
    a: int,
    b: int,
    c: int,
    u: int,
)
    requires
        tetra_in_bounds(x, y, z, t),
        tetra_in_bounds(a, b, c, u),
    ensures
        0 <= tetra_index(x, y, z, t) < TETRA_VOLUME,
        tetra_index(x, y, z, t) == tetra_index(a, b, c, u) ==> (x == a && y == b && z == c && t
            == u),
{
}

/// Reading a tetrahedron after writing one gives the written kind at the
/// written tetrahedron (inside the chunk) and what was there before everywhere else.
pub proof fn lemma_tetra_read_after_write(
    s: Seq<VoxelKind>,
    x: int,
    y: int,
    z: int,
    t: int,
    k: VoxelKind,
    a: int,
    b: int,
    c: int,
    u: int,
)
    requires
        s.len() == TETRA_VOLUME,
    ensures
        with_tetra(s, x, y, z, t, k).len() == TETRA_VOLUME,
        tetra_at(with_tetra(s, x, y, z, t, k), a, b, c, u) == if tetra_in_bounds(x, y, z, t) && x
            == a && y == b && z == c && t == u {
            k
        } else {
            tetra_at(s, a, b, c, u)
        },
{
    if tetra_in_bounds(x, y, z, t) && tetra_in_bounds(a, b, c, u) {
        lemma_tetra_index_injective(x, y, z, t, a, b, c, u);
    }
}

/// The kind of every tetrahedron of a cell given the cell's terrain sample.
pub fn determine_tetra_type(s: &TerrainSample) -> (r: VoxelKind)
    ensures
        r == tetra_type(*s),
{
    if s.bedrock {
        return VoxelKind::Bedrock;
    }
    if s.above_ground {
        if s.underwater {
            return VoxelKind::Water;
        }
        return VoxelKind::Air;
    }
    if s.cave {
        if s.underwater {
            return VoxelKind::Water;
        }
        return VoxelKind::Air;
    }
    match s.depth {
        DepthBand::Surface => VoxelKind::Grass,
        DepthBand::Subsoil => VoxelKind::Dirt,
        DepthBand::Deep => VoxelKind::Stone,
    }
}

/// The corners (numbered 0 to 7 as in the cell's corner table) of tetrahedron `t`.
pub open spec fn tetra_corners(t: int) -> Seq<usize> {
    if t == 0 {
        seq![0usize, 1, 3, 4]
    } else if t == 1 {
        seq![1usize, 2, 3, 6]
    } else if t == 2 {
        seq![1usize, 4, 5, 6]
    } else if t == 3 {
        seq![3usize, 4, 6, 7]
    } else {
        seq![1usize, 3, 4, 6]
    }
}

/// The four cell corners that tetrahedron `t` of a cell spans.
pub fn tetra_vertices(t: usize) -> (r: [usize; 4])
    requires
        t < TETRAS_PER_CELL,
    ensures
        r@ == tetra_corners(t as int),
{
    let r = if t == 0 {
        [0, 1, 3, 4]
    } else if t == 1 {
        [1, 2, 3, 6]
    } else if t == 2 {
        [1, 4, 5, 6]
    } else if t == 3 {
        [3, 4, 6, 7]
    } else {
        [1, 3, 4, 6]
    };
    assert(r@ =~= tetra_corners(t as int));
    r
}

/// Each tetrahedron spans four distinct corners of its cell.
pub proof fn lemma_tetra_corners_distinct(t: int, i: int, j: int)
    requires
        0 <= t < TETRAS_PER_CELL,
        0 <= i < 4,
        0 <= j < 4,
        i != j,
    ensures
        tetra_corners(t).len() == 4,
        tetra_corners(t)[i] < 8,
        tetra_corners(t)[i] != tetra_corners(t)[j],
{
}

/// A chunk of tetrahedral voxels: every cubic cell holds five tetrahedra.
#[derive(Clone)]
pub struct TetraChunk {
    /// Kind of every tetrahedron; index `(x + y*S + z*S*S) * 5 + t`.
    pub tetras: Vec<VoxelKind>,
}

impl TetraChunk {
    /// The array has one slot per tetrahedron.
    pub open spec fn wf(&self) -> bool {
        self.tetras@.len() == TETRA_VOLUME
    }

    /// A chunk whose every tetrahedron is air.
    pub fn new_empty() -> (r: Self)
        ensures
            r.wf(),
            forall|i: int| 0 <= i < TETRA_VOLUME ==> #[trigger] r.tetras@[i] == VoxelKind::Air,
    {
        let mut tetras: Vec<VoxelKind> = Vec::new();
        let mut i: usize = 0;
        while i < TETRA_VOLUME
            invariant
                i <= TETRA_VOLUME,
                tetras@.len() == i,
                forall|j: int| 0 <= j < i ==> #[trigger] tetras@[j] == VoxelKind::Air,
            decreases TETRA_VOLUME - i,
        {
            tetras.push(VoxelKind::Air);
            i = i + 1;
        }
        TetraChunk { tetras }
    }

    /// Slot of tetrahedron `t` of cell `(x, y, z)`.
    fn idx(x: usize, y: usize, z: usize, t: usize) -> (r: usize)
        requires
            tetra_in_bounds(x as int, y as int, z as int, t as int),
        ensures
            r == tetra_index(x as int, y as int, z as int, t as int),
            r < TETRA_VOLUME,
    {
        (x + y * CHUNK_RESOLUTION + z * CHUNK_RESOLUTION * CHUNK_RESOLUTION) * TETRAS_PER_CELL + t
    }

    /// The kind of tetrahedron `t` of cell `(x, y, z)`; air outside the chunk.
    pub fn get(&self, x: usize, y: usize, z: usize, t: usize) -> (r: VoxelKind)
        requires
            self.wf(),
        ensures
            r == tetra_at(self.tetras@, x as int, y as int, z as int, t as int),
    {
        if x < CHUNK_RESOLUTION && y < CHUNK_RESOLUTION && z < CHUNK_RESOLUTION && t
            < TETRAS_PER_CELL {
            self.tetras[Self::idx(x, y, z, t)]
        } else {
            VoxelKind::Air
        }
    }

    /// Writes `kind` to tetrahedron `t` of cell `(x, y, z)`; does nothing outside the chunk.
    pub fn set(&mut self, x: usize, y: usize, z: usize, t: usize, kind: VoxelKind)
        requires
            old(self).wf(),
        ensures
            final(self).wf(),
            final(self).tetras@ == with_tetra(
                old(self).tetras@,
                x as int,
                y as int,
                z as int,
                t as int,
                kind,
            ),
    {
        if x < CHUNK_RESOLUTION && y < CHUNK_RESOLUTION && z < CHUNK_RESOLUTION && t
            < TETRAS_PER_CELL {
            let idx = Self::idx(x, y, z, t);
            self.tetras.set(idx, kind);
        }
    }

    /// Hilly terrain from the same noise as the cube world.
    ///
    /// `samples` holds the terrain sample of every cell, laid out like a cube
    /// chunk's voxel array; all five tetrahedra of a cell get the kind that the
    /// cell's sample gives.
    pub fn new_hilly_terrain(samples: &Vec<TerrainSample>) -> (r: Self)
        requires
            samples@.len() == CHUNK_VOLUME,
        ensures
            r.wf(),
            forall|c: int, t: int|
                0 <= c < CHUNK_VOLUME && 0 <= t < TETRAS_PER_CELL ==> #[trigger] r.tetras@[c
                    * TETRAS_PER_CELL + t] == tetra_type(samples@[c]),
    {
        let mut tetras: Vec<VoxelKind> = Vec::new();
        let mut c: usize = 0;
        while c < CHUNK_VOLUME
            invariant
                c <= CHUNK_VOLUME,
                samples@.len() == CHUNK_VOLUME,
                tetras@.len() == c * TETRAS_PER_CELL,
                forall|d: int, t: int|
                    0 <= d < c && 0 <= t < TETRAS_PER_CELL ==> #[trigger] tetras@[d
                        * TETRAS_PER_CELL + t] == tetra_type(samples@[d]),
            decreases CHUNK_VOLUME - c,
        {
            let kind = determine_tetra_type(&samples[c]);
            let mut t: usize = 0;
            while t < TETRAS_PER_CELL
                invariant
                    c < CHUNK_VOLUME,
                    t <= TETRAS_PER_CELL,
                    samples@.len() == CHUNK_VOLUME,
                    kind == tetra_type(samples@[c as int]),
                    tetras@.len() == c * TETRAS_PER_CELL + t,
                    forall|d: int, u: int|
                        0 <= d < c && 0 <= u < TETRAS_PER_CELL ==> #[trigger] tetras@[d
                            * TETRAS_PER_CELL + u] == tetra_type(samples@[d]),
                    forall|u: int|
                        0 <= u < t ==> #[trigger] tetras@[c * TETRAS_PER_CELL + u] == kind,
                decreases TETRAS_PER_CELL - t,
            {
                tetras.push(kind);
                t = t + 1;
            }
            c = c + 1;
            assert forall|d: int, t: int|
                0 <= d < c && 0 <= t < TETRAS_PER_CELL implies #[trigger] tetras@[d
                * TETRAS_PER_CELL + t] == tetra_type(samples@[d]) by {
                if d == c - 1 {
                } else {
                }
            }
        }
        TetraChunk { tetras }
    }
}


/// The tetra terrain table: bedrock wins; a cell above the ground or inside a
/// cave is water at or below the water level and air above it; any other cell
/// is grass in the surface band, dirt in the subsoil band and stone deeper
/// down. Roads, the rainbow road and bridges do not exist in the tetra world.
pub proof fn lemma_tetra_table(s: TerrainSample)
    ensures
        s.bedrock ==> tetra_type(s) == VoxelKind::Bedrock,
        !s.bedrock && (s.above_ground || s.cave) && s.underwater ==> tetra_type(s)
            == VoxelKind::Water,
        !s.bedrock && (s.above_ground || s.cave) && !s.underwater ==> tetra_type(s)
            == VoxelKind::Air,
        !s.bedrock && !s.above_ground && !s.cave && s.depth == DepthBand::Surface ==> tetra_type(s)
            == VoxelKind::Grass,
        !s.bedrock && !s.above_ground && !s.cave && s.depth == DepthBand::Subsoil ==> tetra_type(s)
            == VoxelKind::Dirt,
        !s.bedrock && !s.above_ground && !s.cave && s.depth == DepthBand::Deep ==> tetra_type(s)
            == VoxelKind::Stone,
{
}

/// Every tetrahedron outside a chunk (or with `t >= 5`) reads as air;
/// tetrahedra are laid out five per cell, cells x fastest, then y, then z.
pub proof fn lemma_tetra_outside_is_air(s: Seq<VoxelKind>, x: int, y: int, z: int, t: int)
    ensures
        !(0 <= x < 32 && 0 <= y < 32 && 0 <= z < 32 && 0 <= t < 5) ==> tetra_at(s, x, y, z, t)
            == VoxelKind::Air,
        (0 <= x < 32 && 0 <= y < 32 && 0 <= z < 32 && 0 <= t < 5) ==> tetra_at(s, x, y, z, t)
            == s[(x + 32 * y + 1024 * z) * 5 + t],
{
}

} // verus!
