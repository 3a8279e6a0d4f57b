use vstd::prelude::*;
use crate::terrain::{DepthBand, TerrainSample};

verus! {

/// The material of one voxel.
#[derive(Clone, Copy, PartialEq, Eq, Debug, Structural)]
pub enum VoxelKind {
    Air,
    Dirt,
    Grass,
    Stone,
    Water,
    Road,
    Bridge,
    Rainbow,
    Bedrock,
}

/// One cell of a chunk.
#[derive(Clone, Copy, PartialEq, Eq, Debug, Structural)]
pub struct Voxel {
    pub kind: VoxelKind,
}

/// The air voxel, which every cell outside a chunk reads as.
pub open spec fn air_voxel() -> Voxel {
    Voxel { kind: VoxelKind::Air }
}

impl Voxel {
    /// Whether the voxel is air.
    pub fn is_air(&self) -> (r: bool)
        ensures
            r == (self.kind == VoxelKind::Air),
    {
        self.kind == VoxelKind::Air
    }

    /// Whether the voxel is water.
    pub fn is_water(&self) -> (r: bool)
        ensures
            r == (self.kind == VoxelKind::Water),
    {
        self.kind == VoxelKind::Water
    }
}

/// Number of voxels along each edge of a chunk.
pub const CHUNK_RESOLUTION: usize = 32;

/// How many chunks around the camera are kept loaded.
pub const RENDER_DISTANCE: i32 = 20;

/// Number of voxels in a chunk.
pub const CHUNK_VOLUME: usize = CHUNK_RESOLUTION * CHUNK_RESOLUTION * CHUNK_RESOLUTION;

/// Whether `(x, y, z)` names a cell of a chunk.
pub open spec fn in_bounds(x: int, y: int, z: int) -> bool {
    &&& 0 <= x < CHUNK_RESOLUTION
    &&& 0 <= y < CHUNK_RESOLUTION
    &&& 0 <= z < CHUNK_RESOLUTION
}

/// Position of cell `(x, y, z)` in the flat voxel array (x fastest, then y, then z).
pub open spec fn cell_index(x: int, y: int, z: int) -> int {
    x + y * CHUNK_RESOLUTION + z * CHUNK_RESOLUTION * CHUNK_RESOLUTION
}

/// The voxel that cell `(x, y, z)` of the flat array `s` holds; air outside the chunk.
pub open spec fn voxel_at(s: Seq<Voxel>, x: int, y: int, z: int) -> Voxel {
    if in_bounds(x, y, z) {
        s[cell_index(x, y, z)]
    } else {
        air_voxel()
    }
}

/// The flat array `s` with cell `(x, y, z)` replaced by `v`; unchanged outside the chunk.
pub open spec fn with_voxel(s: Seq<Voxel>, x: int, y: int, z: int, v: Voxel) -> Seq<Voxel> {
    if in_bounds(x, y, z) {
        s.update(cell_index(x, y, z), v)
    } else {
        s
    }
}

/// The voxel type that terrain generation gives a cell with sample `s`.
pub open spec fn terrain_type(s: TerrainSample) -> VoxelKind {
    if s.bedrock {
        VoxelKind::Bedrock
    } else if s.rainbow {
        VoxelKind::Rainbow
    } else if s.bridge {
        VoxelKind::Bridge
    } else if s.above_ground || s.cave {
        if s.underwater {
            VoxelKind::Water
        } else {
            VoxelKind::Air
        }
    } else {
        match s.depth {
            DepthBand::Surface => if s.road {
                VoxelKind::Road
            } else {
                VoxelKind::Grass
            },
            DepthBand::Subsoil => VoxelKind::Dirt,
            DepthBand::Deep => VoxelKind::Stone,
        }
    }
}

/// Distinct cells of a chunk occupy distinct slots of the flat array, all below `CHUNK_VOLUME`.
pub proof fn lemma_cell_index_injective(x: int, y: int, z: int, a: int, b: int, c: int)
    requires
        in_bounds(x, y, z),
        in_bounds(a, b, c),
    ensures
        0 <= cell_index(x, y, z) < CHUNK_VOLUME,
        cell_index(x, y, z) == cell_index(a, b, c) ==> (x == a && y == b && z == c),
{
}

/// Every slot of the flat array belongs to exactly one cell.
pub proof fn lemma_cell_index_onto(i: int)
    requires
        0 <= i < CHUNK_VOLUME,
    ensures
        in_bounds(i % 32, (i / 32) % 32, i / 1024),
        cell_index(i % 32, (i / 32) % 32, i / 1024) == i,
{
}

/// Reading a cell after writing one gives the written voxel at the written cell
/// (inside the chunk) and what was there before everywhere else.
pub proof fn lemma_read_after_write(s: Seq<Voxel>, x: int, y: int, z: int, v: Voxel, a: int, b: int, c: int)
    requires
        s.len() == CHUNK_VOLUME,
    ensures
        with_voxel(s, x, y, z, v).len() == CHUNK_VOLUME,
        voxel_at(with_voxel(s, x, y, z, v), a, b, c) == if in_bounds(x, y, z) && x == a && y == b
            && z == c {
            v
        } else {
            voxel_at(s, a, b, c)
        },
{
    if in_bounds(x, y, z) && in_bounds(a, b, c) {
        lemma_cell_index_injective(x, y, z, a, b, c);
    }
}

/// A chunk: a cube of `CHUNK_RESOLUTION`³ voxels stored as a flat array.
#[derive(Clone)]
pub struct Chunk {
    /// Flat 3D array, `x + y*S + z*S*S`.
    pub voxels: Vec<Voxel>,
}

impl Chunk {
    /// The voxel array has one slot per cell.
    pub open spec fn wf(&self) -> bool {
        self.voxels@.len() == CHUNK_VOLUME
    }

    /// A chunk whose every cell is air.
    pub fn new_empty() -> (r: Self)
        ensures
            r.wf(),
            forall|i: int| 0 <= i < CHUNK_VOLUME ==> #[trigger] r.voxels@[i] == air_voxel(),
    {
        let mut voxels: Vec<Voxel> = Vec::new();
        let mut i: usize = 0;
        while i < CHUNK_VOLUME
            invariant
                i <= CHUNK_VOLUME,
                voxels@.len() == i,
                forall|j: int| 0 <= j < i ==> #[trigger] voxels@[j] == air_voxel(),
            decreases CHUNK_VOLUME - i,
        {
            voxels.push(Voxel { kind: VoxelKind::Air });
            i = i + 1;
        }
        Chunk { voxels }
    }

    /// The voxel type of a cell given its terrain sample.
    pub fn classify(s: &TerrainSample) -> (r: VoxelKind)
        ensures
            r == terrain_type(*s),
    {
        if s.bedrock {
            VoxelKind::Bedrock
        } else if s.rainbow {
            VoxelKind::Rainbow
        } else if s.bridge {
            VoxelKind::Bridge
        } else if s.above_ground || s.cave {
            if s.underwater {
                VoxelKind::Water
            } else {
                VoxelKind::Air
            }
        } else {
            match s.depth {
                DepthBand::Surface => if s.road {
                    VoxelKind::Road
                } else {
                    VoxelKind::Grass
                },
                DepthBand::Subsoil => VoxelKind::Dirt,
                DepthBand::Deep => VoxelKind::Stone,
            }
        }
    }

    /// Hilly terrain with bedrock, rainbow road, bridges, roads, water, caves, tunnels and shafts.
    ///
    /// `samples` holds the terrain sample of every cell, laid out like the voxel
    /// array; each cell's voxel is the type that its sample gives.
    pub fn new_hilly_terrain(samples: &Vec<TerrainSample>) -> (r: Self)
        requires
            samples@.len() == CHUNK_VOLUME,
        ensures
            r.wf(),
            forall|i: int|
                0 <= i < CHUNK_VOLUME ==> #[trigger] r.voxels@[i] == (Voxel {
                    kind: terrain_type(samples@[i]),
                }),
    {
        let mut voxels: Vec<Voxel> = Vec::new();
        let mut i: usize = 0;
        while i < CHUNK_VOLUME
            invariant
                i <= CHUNK_VOLUME,
                samples@.len() == CHUNK_VOLUME,
                voxels@.len() == i,
                forall|j: int|
                    0 <= j < i ==> #[trigger] voxels@[j] == (Voxel {
                        kind: terrain_type(samples@[j]),
                    }),
            decreases CHUNK_VOLUME - i,
        {
            let t = Self::classify(&samples[i]);
            voxels.push(Voxel { kind: t });
            i = i + 1;
        }
        Chunk { voxels }
    }

    /// Slot of cell `(x, y, z)` in the voxel array.
    fn idx(x: usize, y: usize, z: usize) -> (r: usize)
        requires
            in_bounds(x as int, y as int, z as int),
        ensures
            r == cell_index(x as int, y as int, z as int),
            r < CHUNK_VOLUME,
    {
        x + y * CHUNK_RESOLUTION + z * CHUNK_RESOLUTION * CHUNK_RESOLUTION
    }

    /// The voxel at `(x, y, z)`; air outside the chunk.
    pub fn get(&self, x: usize, y: usize, z: usize) -> (r: Voxel)
        requires
            self.wf(),
        ensures
            r == voxel_at(self.voxels@, x as int, y as int, z as int),
    {
        if x < CHUNK_RESOLUTION && y < CHUNK_RESOLUTION && z < CHUNK_RESOLUTION {
            self.voxels[Self::idx(x, y, z)]
        } else {
            Voxel { kind: VoxelKind::Air }
        }
    }

    /// Writes `voxel` at `(x, y, z)`; does nothing outside the chunk.
    pub fn set(&mut self, x: usize, y: usize, z: usize, voxel: Voxel)
        requires
            old(self).wf(),
        ensures
            final(self).wf(),
            final(self).voxels@ == with_voxel(old(self).voxels@, x as int, y as int, z as int, voxel),
    {
        if x < CHUNK_RESOLUTION && y < CHUNK_RESOLUTION && z < CHUNK_RESOLUTION {
            let idx = Self::idx(x, y, z);
            self.voxels.set(idx, voxel);
        }
    }
}


/// The flat array `s` with every cell that `inside` marks turned to air.
pub open spec fn carved(s: Seq<Voxel>, inside: Seq<bool>) -> Seq<Voxel> {
    Seq::new(s.len(), |i: int| if inside[i] { air_voxel() } else { s[i] })
}

/// Digs a hole: a copy of `chunk` in which every cell that `inside` marks is
/// turned to air. `inside` is laid out like the voxel array and marks the cells that
/// lie within the sphere; `chunk` itself is left as it was.
pub fn carve_sphere(chunk: &Chunk, inside: &Vec<bool>) -> (r: Chunk)
    requires
        chunk.wf(),
        inside@.len() == CHUNK_VOLUME,
    ensures
        r.wf(),
        r.voxels@ == carved(chunk.voxels@, inside@),
        r.voxels@.len() == chunk.voxels@.len(),
        forall|i: int|
            0 <= i < CHUNK_VOLUME ==> #[trigger] r.voxels@[i] == if inside@[i] {
                Voxel { kind: VoxelKind::Air }
            } else {
                chunk.voxels@[i]
            },
{
    let mut voxels: Vec<Voxel> = Vec::new();
    let mut i: usize = 0;
    while i < CHUNK_VOLUME
        invariant
            i <= CHUNK_VOLUME,
            chunk.wf(),
            inside@.len() == CHUNK_VOLUME,
            voxels@ == carved(chunk.voxels@, inside@).take(i as int),
        decreases CHUNK_VOLUME - i,
    {
        let v = if inside[i] {
            Voxel { kind: VoxelKind::Air }
        } else {
            chunk.voxels[i]
        };
        voxels.push(v);
        i = i + 1;
        assert(voxels@ =~= carved(chunk.voxels@, inside@).take(i as int));
    }
    assert(voxels@ =~= carved(chunk.voxels@, inside@));
    Chunk { voxels }
}

/// Carving the same cells a second time changes nothing.
pub proof fn lemma_carve_idempotent(s: Seq<Voxel>, inside: Seq<bool>)
    requires
        inside.len() == s.len(),
    ensures
        carved(carved(s, inside), inside) == carved(s, inside),
{
    assert(carved(carved(s, inside), inside) =~= carved(s, inside));
}

/// Carving never fills a cell: a cell that was air stays air, and a cell
/// that `inside` marks is air afterwards.
pub proof fn lemma_carve_only_empties(s: Seq<Voxel>, inside: Seq<bool>, i: int)
    requires
        inside.len() == s.len(),
        0 <= i < s.len(),
    ensures
        carved(s, inside)[i] == air_voxel() <== (s[i] == air_voxel() || inside[i]),
        carved(s, inside)[i] != s[i] ==> carved(s, inside)[i] == air_voxel(),
{
}


/// The terrain table, cell by cell: bedrock wins over everything; then the
/// rainbow road, then bridges; a cell above the ground or inside a cave is
/// water at or below the water level and air above it; any other cell is
/// road (on a road) or grass in the surface band, dirt in the subsoil band and
/// stone deeper down.
pub proof fn lemma_terrain_table(s: TerrainSample)
    ensures
        s.bedrock ==> terrain_type(s) == VoxelKind::Bedrock,
        !s.bedrock && s.rainbow ==> terrain_type(s) == VoxelKind::Rainbow,
        !s.bedrock && !s.rainbow && s.bridge ==> terrain_type(s) == VoxelKind::Bridge,
        !s.bedrock && !s.rainbow && !s.bridge && (s.above_ground || s.cave) && s.underwater
            ==> terrain_type(s) == VoxelKind::Water,
        !s.bedrock && !s.rainbow && !s.bridge && (s.above_ground || s.cave) && !s.underwater
            ==> terrain_type(s) == VoxelKind::Air,
        !s.bedrock && !s.rainbow && !s.bridge && !s.above_ground && !s.cave && s.depth
            == DepthBand::Surface && s.road ==> terrain_type(s) == VoxelKind::Road,
        !s.bedrock && !s.rainbow && !s.bridge && !s.above_ground && !s.cave && s.depth
            == DepthBand::Surface && !s.road ==> terrain_type(s) == VoxelKind::Grass,
        !s.bedrock && !s.rainbow && !s.bridge && !s.above_ground && !s.cave && s.depth
            == DepthBand::Subsoil ==> terrain_type(s) == VoxelKind::Dirt,
        !s.bedrock && !s.rainbow && !s.bridge && !s.above_ground && !s.cave && s.depth
            == DepthBand::Deep ==> terrain_type(s) == VoxelKind::Stone,
{
}

/// Carving changes exactly the marked cells, each to air, and leaves every
/// other cell as it was.
pub proof fn lemma_carve_frame(s: Seq<Voxel>, inside: Seq<bool>, i: int)
    requires
        inside.len() == s.len(),
        0 <= i < s.len(),
    ensures
        carved(s, inside).len() == s.len(),
        !inside[i] ==> carved(s, inside)[i] == s[i],
        inside[i] ==> carved(s, inside)[i].kind == VoxelKind::Air,
{
}

/// Every cell outside a chunk reads as air.
pub proof fn lemma_outside_is_air(s: Seq<Voxel>, x: int, y: int, z: int)
    ensures
        !in_bounds(x, y, z) ==> voxel_at(s, x, y, z).kind == VoxelKind::Air,
        in_bounds(x, y, z) <==> (0 <= x < 32 && 0 <= y < 32 && 0 <= z < 32),
        cell_index(x, y, z) == x + 32 * y + 1024 * z,
        in_bounds(x, y, z) ==> voxel_at(s, x, y, z) == s[x + 32 * y + 1024 * z],
{
}

} // verus!
