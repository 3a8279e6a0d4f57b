use vstd::prelude::*;
use crate::voxel_world::{CHUNK_RESOLUTION, CHUNK_VOLUME, Chunk, Voxel, VoxelKind, voxel_at};

verus! {

/// The six faces of a cube, in the order in which they are emitted.
#[derive(Clone, Copy, PartialEq, Eq, Debug, Structural)]
pub enum FaceDir {
    /// +Y
    Top,
    /// -Y
    Bottom,
    /// +X
    Right,
    /// -X
    Left,
    /// +Z
    Front,
    /// -Z
    Back,
}

/// One visible square face of a (possibly level-of-detail enlarged) voxel.
#[derive(Clone, Copy, PartialEq, Eq, Debug, Structural)]
pub struct FaceQuad {
    /// Cell of the chunk the face belongs to.
    pub x: usize,
    pub y: usize,
    pub z: usize,
    /// Which side of the cell the face lies on.
    pub dir: FaceDir,
    /// The voxel that the face is drawn for.
    pub voxel: Voxel,
}

/// The integer part of a chunk mesh: the faces to draw, in drawing order, and
/// the triangle index buffer over their four corners each.
pub struct MeshPlan {
    pub faces: Vec<FaceQuad>,
    pub indices: Vec<u32>,
}

/// Whether a voxel is drawn at all.
pub open spec fn solid_for_sampling(v: Voxel) -> bool {
    v.kind != VoxelKind::Air
}

/// First non-air voxel at `(x, y, z + sz)`, `(x, y, z + sz + 1)`, ... below `z + step`.
pub open spec fn rep_z(s: Seq<Voxel>, x: int, y: int, z: int, step: int, sz: int) -> Option<Voxel>
    decreases step - sz,
{
    if sz >= step {
        None
    } else if solid_for_sampling(voxel_at(s, x, y, z + sz)) {
        Some(voxel_at(s, x, y, z + sz))
    } else {
        rep_z(s, x, y, z, step, sz + 1)
    }
}

/// First non-air voxel of the rows `y + sy`, `y + sy + 1`, ... below `y + step`.
pub open spec fn rep_y(s: Seq<Voxel>, x: int, y: int, z: int, step: int, sy: int) -> Option<Voxel>
    decreases step - sy,
{
    if sy >= step {
        None
    } else {
        match rep_z(s, x, y + sy, z, step, 0) {
            Some(v) => Some(v),
            None => rep_y(s, x, y, z, step, sy + 1),
        }
    }
}

/// First non-air voxel of the slices `x + sx`, `x + sx + 1`, ... below `x + step`.
pub open spec fn rep_x(s: Seq<Voxel>, x: int, y: int, z: int, step: int, sx: int) -> Option<Voxel>
    decreases step - sx,
{
    if sx >= step {
        None
    } else {
        match rep_y(s, x + sx, y, z, step, 0) {
            Some(v) => Some(v),
            None => rep_x(s, x, y, z, step, sx + 1),
        }
    }
}

/// The voxel that stands for the `step`³ block at `(x, y, z)`: the first
/// non-air voxel of the block in x-major, then y, then z order.
pub open spec fn representative(s: Seq<Voxel>, x: int, y: int, z: int, step: int) -> Option<Voxel> {
    rep_x(s, x, y, z, step, 0)
}

/// The cell `lod` cells away from `(x, y, z)` in direction `d`.
pub open spec fn neighbor(x: int, y: int, z: int, d: FaceDir, lod: int) -> (int, int, int) {
    match d {
        FaceDir::Top => (x, y + lod, z),
        FaceDir::Bottom => (x, y - lod, z),
        FaceDir::Right => (x + lod, y, z),
        FaceDir::Left => (x - lod, y, z),
        FaceDir::Front => (x, y, z + lod),
        FaceDir::Back => (x, y, z - lod),
    }
}

/// A face is drawn when the neighbouring cell is outside the chunk, air or water.
pub open spec fn face_visible(s: Seq<Voxel>, x: int, y: int, z: int, d: FaceDir, lod: int) -> bool {
    let (a, b, c) = neighbor(x, y, z, d, lod);
    let n = voxel_at(s, a, b, c);
    n.kind == VoxelKind::Air || n.kind == VoxelKind::Water
}

/// The face on side `d` of cell `(x, y, z)` if it is drawn.
pub open spec fn face_if(s: Seq<Voxel>, x: int, y: int, z: int, d: FaceDir, lod: int, v: Voxel) -> Seq<
    FaceQuad,
> {
    if face_visible(s, x, y, z, d, lod) {
        seq![FaceQuad { x: x as usize, y: y as usize, z: z as usize, dir: d, voxel: v }]
    } else {
        Seq::empty()
    }
}

/// The faces drawn for the block at `(x, y, z)`, in the order top, bottom,
/// right, left, front, back.
pub open spec fn cell_faces(s: Seq<Voxel>, x: int, y: int, z: int, lod: int) -> Seq<FaceQuad> {
    match representative(s, x, y, z, lod) {
        None => Seq::empty(),
        Some(v) => face_if(s, x, y, z, FaceDir::Top, lod, v) + face_if(
            s,
            x,
            y,
            z,
            FaceDir::Bottom,
            lod,
            v,
        ) + face_if(s, x, y, z, FaceDir::Right, lod, v) + face_if(s, x, y, z, FaceDir::Left, lod, v)
            + face_if(s, x, y, z, FaceDir::Front, lod, v) + face_if(
            s,
            x,
            y,
            z,
            FaceDir::Back,
            lod,
            v,
        ),
    }
}

/// Faces of the blocks `(x, y, z)`, `(x, y, z + lod)`, ... inside the chunk.
pub open spec fn faces_z(s: Seq<Voxel>, x: int, y: int, z: int, lod: int) -> Seq<FaceQuad>
    decreases CHUNK_RESOLUTION + lod - z,
{
    if z >= CHUNK_RESOLUTION || lod < 1 {
        Seq::empty()
    } else {
        cell_faces(s, x, y, z, lod) + faces_z(s, x, y, z + lod, lod)
    }
}

/// Faces of the rows `y`, `y + lod`, ... of slice `x`.
pub open spec fn faces_y(s: Seq<Voxel>, x: int, y: int, lod: int) -> Seq<FaceQuad>
    decreases CHUNK_RESOLUTION + lod - y,
{
    if y >= CHUNK_RESOLUTION || lod < 1 {
        Seq::empty()
    } else {
        faces_z(s, x, y, 0, lod) + faces_y(s, x, y + lod, lod)
    }
}

/// Faces of the slices `x`, `x + lod`, ... of the chunk.
pub open spec fn faces_x(s: Seq<Voxel>, x: int, lod: int) -> Seq<FaceQuad>
    decreases CHUNK_RESOLUTION + lod - x,
{
    if x >= CHUNK_RESOLUTION || lod < 1 {
        Seq::empty()
    } else {
        faces_y(s, x, 0, lod) + faces_x(s, x + lod, lod)
    }
}

/// All faces of a chunk's mesh at level of detail `lod`, in drawing order.
pub open spec fn mesh_faces(s: Seq<Voxel>, lod: int) -> Seq<FaceQuad> {
    faces_x(s, 0, lod)
}

/// Offset of the `j`-th index of a face's two triangles from its first vertex.
pub open spec fn quad_corner(j: int) -> int {
    if j == 0 {
        0
    } else if j == 1 {
        1
    } else if j == 2 {
        2
    } else if j == 3 {
        2
    } else if j == 4 {
        3
    } else {
        0
    }
}

/// `idx` is the index buffer of `n` quads: triangles `(0, 1, 2)` and `(2, 3, 0)`
/// over the four vertices of each quad.
pub open spec fn quad_indices(idx: Seq<u32>, n: int) -> bool {
    &&& idx.len() == 6 * n
    &&& forall|k: int, j: int|
        0 <= k < n && 0 <= j < 6 ==> #[trigger] idx[6 * k + j] == 4 * k + quad_corner(j)
}

/// Past the chunk border a block sample finds nothing.
proof fn lemma_rep_z_none(s: Seq<Voxel>, x: int, y: int, z: int, step: int, sz: int)
    requires
        0 <= sz,
        x < 0 || x >= CHUNK_RESOLUTION || y < 0 || y >= CHUNK_RESOLUTION || z + sz
            >= CHUNK_RESOLUTION,
    ensures
        rep_z(s, x, y, z, step, sz) == None::<Voxel>,
    decreases step - sz,
{
    if sz < step {
        lemma_rep_z_none(s, x, y, z, step, sz + 1);
    }
}

proof fn lemma_rep_y_none(s: Seq<Voxel>, x: int, y: int, z: int, step: int, sy: int)
    requires
        0 <= sy,
        x < 0 || x >= CHUNK_RESOLUTION || y + sy >= CHUNK_RESOLUTION,
    ensures
        rep_y(s, x, y, z, step, sy) == None::<Voxel>,
    decreases step - sy,
{
    if sy < step {
        lemma_rep_z_none(s, x, y + sy, z, step, 0);
        lemma_rep_y_none(s, x, y, z, step, sy + 1);
    }
}

proof fn lemma_rep_x_none(s: Seq<Voxel>, x: int, y: int, z: int, step: int, sx: int)
    requires
        0 <= sx,
        x + sx >= CHUNK_RESOLUTION,
    ensures
        rep_x(s, x, y, z, step, sx) == None::<Voxel>,
    decreases step - sx,
{
    if sx < step {
        lemma_rep_y_none(s, x + sx, y, z, step, 0);
        lemma_rep_x_none(s, x, y, z, step, sx + 1);
    }
}

/// The voxel that stands for the `step`³ block at `(x, y, z)`, if any voxel of it is not air.
pub fn representative_voxel(chunk: &Chunk, x: usize, y: usize, z: usize, step: usize) -> (r: Option<
    Voxel,
>)
    requires
        chunk.wf(),
        x < CHUNK_RESOLUTION,
        y < CHUNK_RESOLUTION,
        z < CHUNK_RESOLUTION,
    ensures
        r == representative(chunk.voxels@, x as int, y as int, z as int, step as int),
{
    let ghost s = chunk.voxels@;
    let bx = if step < CHUNK_RESOLUTION - x {
        step
    } else {
        CHUNK_RESOLUTION - x
    };
    let by = if step < CHUNK_RESOLUTION - y {
        step
    } else {
        CHUNK_RESOLUTION - y
    };
    let bz = if step < CHUNK_RESOLUTION - z {
        step
    } else {
        CHUNK_RESOLUTION - z
    };
    let mut sx: usize = 0;
    while sx < bx
        invariant
            chunk.wf(),
            s == chunk.voxels@,
            x < CHUNK_RESOLUTION,
            y < CHUNK_RESOLUTION,
            z < CHUNK_RESOLUTION,
            bx <= step,
            x + bx <= CHUNK_RESOLUTION,
            bx == step || x + bx == CHUNK_RESOLUTION,
            by <= step,
            y + by <= CHUNK_RESOLUTION,
            by == step || y + by == CHUNK_RESOLUTION,
            bz <= step,
            z + bz <= CHUNK_RESOLUTION,
            bz == step || z + bz == CHUNK_RESOLUTION,
            sx <= bx,
            rep_x(s, x as int, y as int, z as int, step as int, 0) == rep_x(
                s,
                x as int,
                y as int,
                z as int,
                step as int,
                sx as int,
            ),
        decreases bx - sx,
    {
        let mut sy: usize = 0;
        while sy < by
            invariant
                chunk.wf(),
                s == chunk.voxels@,
                x < CHUNK_RESOLUTION,
                y < CHUNK_RESOLUTION,
                z < CHUNK_RESOLUTION,
                bx <= step,
            x + bx <= CHUNK_RESOLUTION,
                by <= step,
            y + by <= CHUNK_RESOLUTION,
                by == step || y + by == CHUNK_RESOLUTION,
                bz <= step,
            z + bz <= CHUNK_RESOLUTION,
                bz == step || z + bz == CHUNK_RESOLUTION,
                sx < bx,
                sy <= by,
                rep_x(s, x as int, y as int, z as int, step as int, 0) == rep_x(
                    s,
                    x as int,
                    y as int,
                    z as int,
                    step as int,
                    sx as int,
                ),
                rep_y(s, (x + sx) as int, y as int, z as int, step as int, 0) == rep_y(
                    s,
                    (x + sx) as int,
                    y as int,
                    z as int,
                    step as int,
                    sy as int,
                ),
            decreases by - sy,
        {
            let mut sz: usize = 0;
            while sz < bz
                invariant
                    chunk.wf(),
                    s == chunk.voxels@,
                    x < CHUNK_RESOLUTION,
                    y < CHUNK_RESOLUTION,
                    z < CHUNK_RESOLUTION,
                    bx <= step,
            x + bx <= CHUNK_RESOLUTION,
                    by <= step,
            y + by <= CHUNK_RESOLUTION,
                    bz <= step,
            z + bz <= CHUNK_RESOLUTION,
                    bz == step || z + bz == CHUNK_RESOLUTION,
                    sx < bx,
                    sy < by,
                    sz <= bz,
                    rep_x(s, x as int, y as int, z as int, step as int, 0) == rep_x(
                        s,
                        x as int,
                        y as int,
                        z as int,
                        step as int,
                        sx as int,
                    ),
                    rep_y(s, (x + sx) as int, y as int, z as int, step as int, 0) == rep_y(
                        s,
                        (x + sx) as int,
                        y as int,
                        z as int,
                        step as int,
                        sy as int,
                    ),
                    rep_z(s, (x + sx) as int, (y + sy) as int, z as int, step as int, 0) == rep_z(
                        s,
                        (x + sx) as int,
                        (y + sy) as int,
                        z as int,
                        step as int,
                        sz as int,
                    ),
                decreases bz - sz,
            {
                let v = chunk.get(x + sx, y + sy, z + sz);
                if !v.is_air() {
                    proof {
                        let xi = x as int;
                        let yi = y as int;
                        let zi = z as int;
                        let st = step as int;
                        assert(rep_z(s, xi + sx, yi + sy, zi, st, sz as int) == Some(v));
                        assert(rep_y(s, xi + sx, yi, zi, st, sy as int) == Some(v));
                        assert(rep_x(s, xi, yi, zi, st, sx as int) == Some(v));
                    }
                    return Some(v);
                }
                sz = sz + 1;
            }
            proof {
                if bz < step {
                    lemma_rep_z_none(
                        s,
                        (x + sx) as int,
                        (y + sy) as int,
                        z as int,
                        step as int,
                        sz as int,
                    );
                }
                assert(rep_z(s, (x + sx) as int, (y + sy) as int, z as int, step as int, 0)
                    == None::<Voxel>);
            }
            sy = sy + 1;
        }
        proof {
            if by < step {
                lemma_rep_y_none(s, (x + sx) as int, y as int, z as int, step as int, sy as int);
            }
            assert(rep_y(s, (x + sx) as int, y as int, z as int, step as int, 0) == None::<Voxel>);
        }
        sx = sx + 1;
    }
    proof {
        if bx < step {
            lemma_rep_x_none(s, x as int, y as int, z as int, step as int, sx as int);
        }
    }
    None
}


/// Whether the face on side `d` of cell `(x, y, z)` is drawn at level of detail `lod`.
fn face_visible_at(chunk: &Chunk, x: usize, y: usize, z: usize, d: FaceDir, lod: u32) -> (r: bool)
    requires
        chunk.wf(),
        x < CHUNK_RESOLUTION,
        y < CHUNK_RESOLUTION,
        z < CHUNK_RESOLUTION,
    ensures
        r == face_visible(chunk.voxels@, x as int, y as int, z as int, d, lod as int),
{
    let l: i64 = lod as i64;
    let xi: i64 = x as i64;
    let yi: i64 = y as i64;
    let zi: i64 = z as i64;
    let (a, b, c): (i64, i64, i64) = match d {
        FaceDir::Top => (xi, yi + l, zi),
        FaceDir::Bottom => (xi, yi - l, zi),
        FaceDir::Right => (xi + l, yi, zi),
        FaceDir::Left => (xi - l, yi, zi),
        FaceDir::Front => (xi, yi, zi + l),
        FaceDir::Back => (xi, yi, zi - l),
    };
    let size: i64 = CHUNK_RESOLUTION as i64;
    if a < 0 || b < 0 || c < 0 || a >= size || b >= size || c >= size {
        true
    } else {
        let n = chunk.get(a as usize, b as usize, c as usize);
        n.is_air() || n.is_water()
    }
}

/// Appends the face on side `d` of cell `(x, y, z)` if it is drawn.
fn push_face_if(
    chunk: &Chunk,
    x: usize,
    y: usize,
    z: usize,
    d: FaceDir,
    lod: u32,
    v: Voxel,
    faces: &mut Vec<FaceQuad>,
)
    requires
        chunk.wf(),
        x < CHUNK_RESOLUTION,
        y < CHUNK_RESOLUTION,
        z < CHUNK_RESOLUTION,
    ensures
        final(faces)@ == old(faces)@ + face_if(
            chunk.voxels@,
            x as int,
            y as int,
            z as int,
            d,
            lod as int,
            v,
        ),
{
    if face_visible_at(chunk, x, y, z, d, lod) {
        faces.push(FaceQuad { x, y, z, dir: d, voxel: v });
        assert(faces@ =~= old(faces)@ + face_if(
            chunk.voxels@,
            x as int,
            y as int,
            z as int,
            d,
            lod as int,
            v,
        ));
    } else {
        assert(faces@ =~= old(faces)@ + face_if(
            chunk.voxels@,
            x as int,
            y as int,
            z as int,
            d,
            lod as int,
            v,
        ));
    }
}

/// Appends the faces drawn for the block at `(x, y, z)`.
fn push_cell_faces(chunk: &Chunk, x: usize, y: usize, z: usize, lod: u32, faces: &mut Vec<FaceQuad>)
    requires
        chunk.wf(),
        x < CHUNK_RESOLUTION,
        y < CHUNK_RESOLUTION,
        z < CHUNK_RESOLUTION,
    ensures
        final(faces)@ == old(faces)@ + cell_faces(chunk.voxels@, x as int, y as int, z as int, lod as int),
{
    let ghost s = chunk.voxels@;
    let ghost (xi, yi, zi, li) = (x as int, y as int, z as int, lod as int);
    match representative_voxel(chunk, x, y, z, lod as usize) {
        None => {
            assert(faces@ =~= old(faces)@ + cell_faces(s, xi, yi, zi, li));
        },
        Some(v) => {
            let ghost o = old(faces)@;
            let ghost f0 = face_if(s, xi, yi, zi, FaceDir::Top, li, v);
            let ghost f1 = face_if(s, xi, yi, zi, FaceDir::Bottom, li, v);
            let ghost f2 = face_if(s, xi, yi, zi, FaceDir::Right, li, v);
            let ghost f3 = face_if(s, xi, yi, zi, FaceDir::Left, li, v);
            let ghost f4 = face_if(s, xi, yi, zi, FaceDir::Front, li, v);
            let ghost f5 = face_if(s, xi, yi, zi, FaceDir::Back, li, v);
            assert(cell_faces(s, xi, yi, zi, li) == f0 + f1 + f2 + f3 + f4 + f5);
            push_face_if(chunk, x, y, z, FaceDir::Top, lod, v, faces);
            assert(faces@ =~= o + f0);
            push_face_if(chunk, x, y, z, FaceDir::Bottom, lod, v, faces);
            assert(faces@ =~= o + (f0 + f1));
            push_face_if(chunk, x, y, z, FaceDir::Right, lod, v, faces);
            assert(faces@ =~= o + (f0 + f1 + f2));
            push_face_if(chunk, x, y, z, FaceDir::Left, lod, v, faces);
            assert(faces@ =~= o + (f0 + f1 + f2 + f3));
            push_face_if(chunk, x, y, z, FaceDir::Front, lod, v, faces);
            assert(faces@ =~= o + (f0 + f1 + f2 + f3 + f4));
            push_face_if(chunk, x, y, z, FaceDir::Back, lod, v, faces);
            assert(faces@ =~= o + (f0 + f1 + f2 + f3 + f4 + f5));
        },
    }
}

/// At most six faces per block, and at most one block per cell.
proof fn lemma_faces_z_len(s: Seq<Voxel>, x: int, y: int, z: int, lod: int)
    requires
        lod >= 1,
        z >= 0,
    ensures
        faces_z(s, x, y, z, lod).len() <= 6 * (if z >= CHUNK_RESOLUTION {
            0
        } else {
            CHUNK_RESOLUTION - z
        }),
    decreases CHUNK_RESOLUTION + lod - z,
{
    if z < CHUNK_RESOLUTION {
        lemma_faces_z_len(s, x, y, z + lod, lod);
    }
}

proof fn lemma_faces_y_len(s: Seq<Voxel>, x: int, y: int, lod: int)
    requires
        lod >= 1,
        y >= 0,
    ensures
        faces_y(s, x, y, lod).len() <= 192 * (if y >= CHUNK_RESOLUTION {
            0
        } else {
            CHUNK_RESOLUTION - y
        }),
    decreases CHUNK_RESOLUTION + lod - y,
{
    if y < CHUNK_RESOLUTION {
        lemma_faces_z_len(s, x, y, 0, lod);
        lemma_faces_y_len(s, x, y + lod, lod);
    }
}

proof fn lemma_faces_x_len(s: Seq<Voxel>, x: int, lod: int)
    requires
        lod >= 1,
        x >= 0,
    ensures
        faces_x(s, x, lod).len() <= 6144 * (if x
            >= CHUNK_RESOLUTION {
            0
        } else {
            CHUNK_RESOLUTION - x
        }),
    decreases CHUNK_RESOLUTION + lod - x,
{
    if x < CHUNK_RESOLUTION {
        lemma_faces_y_len(s, x, 0, lod);
        lemma_faces_x_len(s, x + lod, lod);
    }
}

/// A chunk mesh has at most six faces per cell.
pub proof fn lemma_mesh_faces_bounded(s: Seq<Voxel>, lod: int)
    requires
        lod >= 1,
    ensures
        mesh_faces(s, lod).len() <= 6 * CHUNK_VOLUME,
{
    lemma_faces_x_len(s, 0, lod);
    assert(6 * CHUNK_VOLUME == 196608);
}

/// The index buffer of `n` quads: `4k, 4k+1, 4k+2, 4k+2, 4k+3, 4k` for quad `k`.
pub fn quad_index_buffer(n: usize) -> (r: Vec<u32>)
    requires
        n <= 6 * CHUNK_VOLUME,
    ensures
        quad_indices(r@, n as int),
{
    let mut r: Vec<u32> = Vec::new();
    let mut k: usize = 0;
    let mut vertex_count: u32 = 0;
    while k < n
        invariant
            k <= n,
            n <= 6 * CHUNK_VOLUME,
            vertex_count == 4 * k,
            r@.len() == 6 * k,
            forall|k2: int, j: int|
                0 <= k2 < k && 0 <= j < 6 ==> #[trigger] r@[6 * k2 + j] == 4 * k2 + quad_corner(j),
        decreases n - k,
    {
        let ghost prev = r@;
        r.push(vertex_count);
        r.push(vertex_count + 1);
        r.push(vertex_count + 2);
        r.push(vertex_count + 2);
        r.push(vertex_count + 3);
        r.push(vertex_count);
        proof {
            assert forall|k2: int, j: int|
                0 <= k2 < k + 1 && 0 <= j < 6 implies #[trigger] r@[6 * k2 + j] == 4 * k2
                + quad_corner(j) by {
                if k2 == k {
                    assert(r@[6 * k2 + j] == 4 * k2 + quad_corner(j));
                } else {
                    assert(r@[6 * k2 + j] == prev[6 * k2 + j]) by {
                        assert(6 * k2 + j < 6 * k);
                    };
                }
            }
        }
        vertex_count = vertex_count + 4;
        k = k + 1;
    }
    r
}

/// Every index of a quad index buffer names one of the quads' vertices.
pub proof fn lemma_quad_indices_in_range(idx: Seq<u32>, n: int, i: int)
    requires
        quad_indices(idx, n),
        0 <= i < idx.len(),
    ensures
        idx[i] < 4 * n,
{
    let k = i / 6;
    let j = i % 6;
    assert(i == 6 * k + j);
    assert(idx[6 * k + j] == 4 * k + quad_corner(j));
}

/// The mesh of a chunk at level of detail `lod` (1 full, 2 half, 4 quarter, ...):
/// for every block of `lod`³ cells that holds a non-air voxel, the faces whose
/// neighbour `lod` cells away is outside the chunk, air or water, and the
/// index buffer of two triangles per face.
pub fn plan_naive_mesh(chunk: &Chunk, lod: u32) -> (r: MeshPlan)
    requires
        chunk.wf(),
        1 <= lod <= i32::MAX,
    ensures
        r.faces@ == mesh_faces(chunk.voxels@, lod as int),
        quad_indices(r.indices@, r.faces@.len() as int),
{
    let ghost s = chunk.voxels@;
    let ghost l = lod as int;
    let ghost target = mesh_faces(s, l);
    let step = lod as usize;
    let mut faces: Vec<FaceQuad> = Vec::new();
    let mut x: usize = 0;
    assert(faces@ + faces_x(s, 0, l) =~= target);
    while x < CHUNK_RESOLUTION
        invariant
            chunk.wf(),
            s == chunk.voxels@,
            l == lod as int,
            step == lod as usize,
            1 <= lod <= i32::MAX,
            target == mesh_faces(s, l),
            x <= CHUNK_RESOLUTION,
            faces@ + faces_x(s, x as int, l) == target,
        decreases CHUNK_RESOLUTION - x,
    {
        let ghost fx = faces@;
        let mut y: usize = 0;
        assert(faces_x(s, x as int, l) == faces_y(s, x as int, 0, l) + faces_x(s, x + l, l));
        assert(faces@ + faces_y(s, x as int, 0, l) + faces_x(s, x + l, l) =~= target);
        while y < CHUNK_RESOLUTION
            invariant
                chunk.wf(),
                s == chunk.voxels@,
                l == lod as int,
                step == lod as usize,
                1 <= lod <= i32::MAX,
                target == mesh_faces(s, l),
                x < CHUNK_RESOLUTION,
                y <= CHUNK_RESOLUTION,
                faces@ + faces_y(s, x as int, y as int, l) + faces_x(s, x + l, l) == target,
            decreases CHUNK_RESOLUTION - y,
        {
            let mut z: usize = 0;
            assert(faces_y(s, x as int, y as int, l) == faces_z(s, x as int, y as int, 0, l)
                + faces_y(s, x as int, y + l, l));
            assert(faces@ + faces_z(s, x as int, y as int, 0, l) + faces_y(s, x as int, y + l, l)
                + faces_x(s, x + l, l) =~= target);
            while z < CHUNK_RESOLUTION
                invariant
                    chunk.wf(),
                    s == chunk.voxels@,
                    l == lod as int,
                    step == lod as usize,
                    1 <= lod <= i32::MAX,
                    target == mesh_faces(s, l),
                    x < CHUNK_RESOLUTION,
                    y < CHUNK_RESOLUTION,
                    z <= CHUNK_RESOLUTION,
                    faces@ + faces_z(s, x as int, y as int, z as int, l) + faces_y(
                        s,
                        x as int,
                        y + l,
                        l,
                    ) + faces_x(s, x + l, l) == target,
                decreases CHUNK_RESOLUTION - z,
            {
                let ghost before = faces@;
                push_cell_faces(chunk, x, y, z, lod, &mut faces);
                let ghost rest_y = faces_y(s, x as int, y + l, l);
                let ghost rest_x = faces_x(s, x + l, l);
                assert(faces_z(s, x as int, y as int, z as int, l) == cell_faces(
                    s,
                    x as int,
                    y as int,
                    z as int,
                    l,
                ) + faces_z(s, x as int, y as int, z + l, l));
                if step >= CHUNK_RESOLUTION - z {
                    assert(faces_z(s, x as int, y as int, z + l, l) =~= faces_z(
                        s,
                        x as int,
                        y as int,
                        CHUNK_RESOLUTION as int,
                        l,
                    ));
                    z = CHUNK_RESOLUTION;
                } else {
                    z = z + step;
                }
                assert(faces@ + faces_z(s, x as int, y as int, z as int, l) + rest_y + rest_x
                    =~= target);
            }
            if step >= CHUNK_RESOLUTION - y {
                assert(faces_y(s, x as int, y + l, l) =~= faces_y(
                    s,
                    x as int,
                    CHUNK_RESOLUTION as int,
                    l,
                ));
                y = CHUNK_RESOLUTION;
            } else {
                y = y + step;
            }
            assert(faces@ + faces_y(s, x as int, y as int, l) + faces_x(s, x + l, l) =~= target);
        }
        if step >= CHUNK_RESOLUTION - x {
            assert(faces_x(s, x + l, l) =~= faces_x(s, CHUNK_RESOLUTION as int, l));
            x = CHUNK_RESOLUTION;
        } else {
            x = x + step;
        }
        assert(faces@ + faces_x(s, x as int, l) =~= target);
    }
    assert(faces@ =~= target);
    proof {
        lemma_mesh_faces_bounded(s, l);
    }
    let indices = quad_index_buffer(faces.len());
    MeshPlan { faces, indices }
}


/// Every voxel of the flat array is air.
pub open spec fn all_air(s: Seq<Voxel>) -> bool {
    forall|i: int| 0 <= i < s.len() ==> (#[trigger] s[i]).kind == VoxelKind::Air
}

proof fn lemma_air_rep_z(s: Seq<Voxel>, x: int, y: int, z: int, step: int, sz: int)
    requires
        s.len() == CHUNK_VOLUME,
        all_air(s),
    ensures
        rep_z(s, x, y, z, step, sz) == None::<Voxel>,
    decreases step - sz,
{
    if sz < step {
        if crate::voxel_world::in_bounds(x, y, z + sz) {
            crate::voxel_world::lemma_cell_index_injective(x, y, z + sz, x, y, z + sz);
        }
        lemma_air_rep_z(s, x, y, z, step, sz + 1);
    }
}

proof fn lemma_air_rep_y(s: Seq<Voxel>, x: int, y: int, z: int, step: int, sy: int)
    requires
        s.len() == CHUNK_VOLUME,
        all_air(s),
    ensures
        rep_y(s, x, y, z, step, sy) == None::<Voxel>,
    decreases step - sy,
{
    if sy < step {
        lemma_air_rep_z(s, x, y + sy, z, step, 0);
        lemma_air_rep_y(s, x, y, z, step, sy + 1);
    }
}

proof fn lemma_air_rep_x(s: Seq<Voxel>, x: int, y: int, z: int, step: int, sx: int)
    requires
        s.len() == CHUNK_VOLUME,
        all_air(s),
    ensures
        rep_x(s, x, y, z, step, sx) == None::<Voxel>,
    decreases step - sx,
{
    if sx < step {
        lemma_air_rep_y(s, x + sx, y, z, step, 0);
        lemma_air_rep_x(s, x, y, z, step, sx + 1);
    }
}

proof fn lemma_air_faces_z(s: Seq<Voxel>, x: int, y: int, z: int, lod: int)
    requires
        s.len() == CHUNK_VOLUME,
        all_air(s),
    ensures
        faces_z(s, x, y, z, lod) == Seq::<FaceQuad>::empty(),
    decreases CHUNK_RESOLUTION + lod - z,
{
    if z < CHUNK_RESOLUTION && lod >= 1 {
        lemma_air_rep_x(s, x, y, z, lod, 0);
        lemma_air_faces_z(s, x, y, z + lod, lod);
        assert(faces_z(s, x, y, z, lod) =~= Seq::<FaceQuad>::empty());
    }
}

proof fn lemma_air_faces_y(s: Seq<Voxel>, x: int, y: int, lod: int)
    requires
        s.len() == CHUNK_VOLUME,
        all_air(s),
    ensures
        faces_y(s, x, y, lod) == Seq::<FaceQuad>::empty(),
    decreases CHUNK_RESOLUTION + lod - y,
{
    if y < CHUNK_RESOLUTION && lod >= 1 {
        lemma_air_faces_z(s, x, y, 0, lod);
        lemma_air_faces_y(s, x, y + lod, lod);
        assert(faces_y(s, x, y, lod) =~= Seq::<FaceQuad>::empty());
    }
}

proof fn lemma_air_faces_x(s: Seq<Voxel>, x: int, lod: int)
    requires
        s.len() == CHUNK_VOLUME,
        all_air(s),
    ensures
        faces_x(s, x, lod) == Seq::<FaceQuad>::empty(),
    decreases CHUNK_RESOLUTION + lod - x,
{
    if x < CHUNK_RESOLUTION && lod >= 1 {
        lemma_air_faces_y(s, x, 0, lod);
        lemma_air_faces_x(s, x + lod, lod);
        assert(faces_x(s, x, lod) =~= Seq::<FaceQuad>::empty());
    }
}

/// A chunk made only of air has an empty mesh at every level of detail.
pub proof fn lemma_air_chunk_has_no_faces(s: Seq<Voxel>, lod: int)
    requires
        s.len() == CHUNK_VOLUME,
        all_air(s),
    ensures
        mesh_faces(s, lod) == Seq::<FaceQuad>::empty(),
{
    lemma_air_faces_x(s, 0, lod);
}


/// A planned face is drawn for a non-air voxel and its neighbour lets it show.
pub open spec fn face_ok(s: Seq<Voxel>, lod: int, f: FaceQuad) -> bool {
    solid_for_sampling(f.voxel) && face_visible(s, f.x as int, f.y as int, f.z as int, f.dir, lod)
}

/// Every face of `faces` is drawn for a non-air voxel and can be seen.
pub open spec fn all_faces_ok(s: Seq<Voxel>, lod: int, faces: Seq<FaceQuad>) -> bool {
    forall|i: int| 0 <= i < faces.len() ==> face_ok(s, lod, #[trigger] faces[i])
}

proof fn lemma_concat_ok(s: Seq<Voxel>, lod: int, a: Seq<FaceQuad>, b: Seq<FaceQuad>)
    requires
        all_faces_ok(s, lod, a),
        all_faces_ok(s, lod, b),
    ensures
        all_faces_ok(s, lod, a + b),
{
    assert forall|i: int| 0 <= i < (a + b).len() implies face_ok(s, lod, #[trigger] (a + b)[i]) by {
        if i < a.len() {
            assert((a + b)[i] == a[i]);
        } else {
            assert((a + b)[i] == b[i - a.len()]);
        }
    }
}

proof fn lemma_rep_z_solid(s: Seq<Voxel>, x: int, y: int, z: int, step: int, sz: int)
    ensures
        rep_z(s, x, y, z, step, sz) matches Some(v) ==> solid_for_sampling(v),
    decreases step - sz,
{
    if sz < step {
        lemma_rep_z_solid(s, x, y, z, step, sz + 1);
    }
}

proof fn lemma_rep_y_solid(s: Seq<Voxel>, x: int, y: int, z: int, step: int, sy: int)
    ensures
        rep_y(s, x, y, z, step, sy) matches Some(v) ==> solid_for_sampling(v),
    decreases step - sy,
{
    if sy < step {
        lemma_rep_z_solid(s, x, y + sy, z, step, 0);
        lemma_rep_y_solid(s, x, y, z, step, sy + 1);
    }
}

proof fn lemma_rep_x_solid(s: Seq<Voxel>, x: int, y: int, z: int, step: int, sx: int)
    ensures
        rep_x(s, x, y, z, step, sx) matches Some(v) ==> solid_for_sampling(v),
    decreases step - sx,
{
    if sx < step {
        lemma_rep_y_solid(s, x + sx, y, z, step, 0);
        lemma_rep_x_solid(s, x, y, z, step, sx + 1);
    }
}

proof fn lemma_cell_faces_ok(s: Seq<Voxel>, x: int, y: int, z: int, lod: int)
    requires
        0 <= x < CHUNK_RESOLUTION,
        0 <= y < CHUNK_RESOLUTION,
        0 <= z < CHUNK_RESOLUTION,
    ensures
        all_faces_ok(s, lod, cell_faces(s, x, y, z, lod)),
{
    lemma_rep_x_solid(s, x, y, z, lod, 0);
    match representative(s, x, y, z, lod) {
        None => {},
        Some(v) => {
            let f0 = face_if(s, x, y, z, FaceDir::Top, lod, v);
            let f1 = face_if(s, x, y, z, FaceDir::Bottom, lod, v);
            let f2 = face_if(s, x, y, z, FaceDir::Right, lod, v);
            let f3 = face_if(s, x, y, z, FaceDir::Left, lod, v);
            let f4 = face_if(s, x, y, z, FaceDir::Front, lod, v);
            let f5 = face_if(s, x, y, z, FaceDir::Back, lod, v);
            assert(all_faces_ok(s, lod, f0));
            assert(all_faces_ok(s, lod, f1));
            assert(all_faces_ok(s, lod, f2));
            assert(all_faces_ok(s, lod, f3));
            assert(all_faces_ok(s, lod, f4));
            assert(all_faces_ok(s, lod, f5));
            lemma_concat_ok(s, lod, f0, f1);
            lemma_concat_ok(s, lod, f0 + f1, f2);
            lemma_concat_ok(s, lod, f0 + f1 + f2, f3);
            lemma_concat_ok(s, lod, f0 + f1 + f2 + f3, f4);
            lemma_concat_ok(s, lod, f0 + f1 + f2 + f3 + f4, f5);
        },
    }
}

proof fn lemma_faces_z_ok(s: Seq<Voxel>, x: int, y: int, z: int, lod: int)
    requires
        0 <= x < CHUNK_RESOLUTION,
        0 <= y < CHUNK_RESOLUTION,
        0 <= z,
    ensures
        all_faces_ok(s, lod, faces_z(s, x, y, z, lod)),
    decreases CHUNK_RESOLUTION + lod - z,
{
    if z < CHUNK_RESOLUTION && lod >= 1 {
        lemma_cell_faces_ok(s, x, y, z, lod);
        lemma_faces_z_ok(s, x, y, z + lod, lod);
        lemma_concat_ok(s, lod, cell_faces(s, x, y, z, lod), faces_z(s, x, y, z + lod, lod));
    }
}

proof fn lemma_faces_y_ok(s: Seq<Voxel>, x: int, y: int, lod: int)
    requires
        0 <= x < CHUNK_RESOLUTION,
        0 <= y,
    ensures
        all_faces_ok(s, lod, faces_y(s, x, y, lod)),
    decreases CHUNK_RESOLUTION + lod - y,
{
    if y < CHUNK_RESOLUTION && lod >= 1 {
        lemma_faces_z_ok(s, x, y, 0, lod);
        lemma_faces_y_ok(s, x, y + lod, lod);
        lemma_concat_ok(s, lod, faces_z(s, x, y, 0, lod), faces_y(s, x, y + lod, lod));
    }
}

proof fn lemma_faces_x_ok(s: Seq<Voxel>, x: int, lod: int)
    requires
        0 <= x,
    ensures
        all_faces_ok(s, lod, faces_x(s, x, lod)),
    decreases CHUNK_RESOLUTION + lod - x,
{
    if x < CHUNK_RESOLUTION && lod >= 1 {
        lemma_faces_y_ok(s, x, 0, lod);
        lemma_faces_x_ok(s, x + lod, lod);
        lemma_concat_ok(s, lod, faces_y(s, x, 0, lod), faces_x(s, x + lod, lod));
    }
}

/// A chunk mesh only has faces of non-air blocks whose neighbour `lod` cells
/// away is outside the chunk, air or water.
pub proof fn lemma_mesh_faces_visible(s: Seq<Voxel>, lod: int)
    ensures
        all_faces_ok(s, lod, mesh_faces(s, lod)),
{
    lemma_faces_x_ok(s, 0, lod);
}


/// A face shows exactly when the cell `lod` cells away in its direction (+Y,
/// -Y, +X, -X, +Z, -Z) is air or water; cells outside the chunk count as air.
/// Blocks are sampled for any voxel that is not air.
pub proof fn lemma_face_visibility_table(s: Seq<Voxel>, x: int, y: int, z: int, lod: int)
    ensures
        forall|v: Voxel| #[trigger] solid_for_sampling(v) <==> v.kind != VoxelKind::Air,
        face_visible(s, x, y, z, FaceDir::Top, lod) <==> (voxel_at(s, x, y + lod, z).kind
            == VoxelKind::Air || voxel_at(s, x, y + lod, z).kind == VoxelKind::Water),
        face_visible(s, x, y, z, FaceDir::Bottom, lod) <==> (voxel_at(s, x, y - lod, z).kind
            == VoxelKind::Air || voxel_at(s, x, y - lod, z).kind == VoxelKind::Water),
        face_visible(s, x, y, z, FaceDir::Right, lod) <==> (voxel_at(s, x + lod, y, z).kind
            == VoxelKind::Air || voxel_at(s, x + lod, y, z).kind == VoxelKind::Water),
        face_visible(s, x, y, z, FaceDir::Left, lod) <==> (voxel_at(s, x - lod, y, z).kind
            == VoxelKind::Air || voxel_at(s, x - lod, y, z).kind == VoxelKind::Water),
        face_visible(s, x, y, z, FaceDir::Front, lod) <==> (voxel_at(s, x, y, z + lod).kind
            == VoxelKind::Air || voxel_at(s, x, y, z + lod).kind == VoxelKind::Water),
        face_visible(s, x, y, z, FaceDir::Back, lod) <==> (voxel_at(s, x, y, z - lod).kind
            == VoxelKind::Air || voxel_at(s, x, y, z - lod).kind == VoxelKind::Water),
{
}

/// Each face's two triangles are `(0, 1, 2)` and `(2, 3, 0)` over its corners.
pub proof fn lemma_quad_corner_values()
    ensures
        quad_corner(0) == 0,
        quad_corner(1) == 1,
        quad_corner(2) == 2,
        quad_corner(3) == 2,
        quad_corner(4) == 3,
        quad_corner(5) == 0,
{
}

/// At full detail a block is its single cell: it is drawn for the cell's voxel
/// when that voxel is not air, and not at all otherwise.
pub proof fn lemma_representative_full_detail(s: Seq<Voxel>, x: int, y: int, z: int)
    ensures
        representative(s, x, y, z, 1) == if voxel_at(s, x, y, z).kind != VoxelKind::Air {
            Some(voxel_at(s, x, y, z))
        } else {
            None
        },
{
    assert(rep_z(s, x, y, z, 1, 1) == None::<Voxel>);
    assert(rep_y(s, x, y, z, 1, 1) == None::<Voxel>);
    assert(rep_x(s, x, y, z, 1, 1) == None::<Voxel>);
    assert(voxel_at(s, x, y, z + 0) == voxel_at(s, x, y, z));
    assert(rep_z(s, x, y + 0, z, 1, 0) == rep_z(s, x, y, z, 1, 0));
    assert(rep_y(s, x + 0, y, z, 1, 0) == rep_y(s, x, y, z, 1, 0));
}

/// Cell `(x, y, z)` of `s` is air (cells outside the chunk are air).
pub open spec fn air_at(s: Seq<Voxel>, x: int, y: int, z: int) -> bool {
    voxel_at(s, x, y, z).kind == VoxelKind::Air
}

proof fn lemma_rep_z_block(s: Seq<Voxel>, x: int, y: int, z: int, step: int, sz: int)
    requires
        0 <= sz,
    ensures
        rep_z(s, x, y, z, step, sz) matches Some(v) ==> exists|zc: int|
            z + sz <= zc < z + step && v == #[trigger] voxel_at(s, x, y, zc) && !air_at(s, x, y, zc)
                && forall|z2: int| z + sz <= z2 < zc ==> #[trigger] air_at(s, x, y, z2),
        rep_z(s, x, y, z, step, sz) is None ==> forall|z2: int|
            z + sz <= z2 < z + step ==> #[trigger] air_at(s, x, y, z2),
    decreases step - sz,
{
    if sz < step {
        lemma_rep_z_block(s, x, y, z, step, sz + 1);
        if !air_at(s, x, y, z + sz) {
            let v = voxel_at(s, x, y, z + sz);
            assert(forall|z2: int| z + sz <= z2 < z + sz ==> #[trigger] air_at(s, x, y, z2));
            assert(z + sz <= z + sz < z + step && v == voxel_at(s, x, y, z + sz));
        } else {
            match rep_z(s, x, y, z, step, sz + 1) {
                Some(v) => {
                    let zc = choose|zc: int|
                        z + sz + 1 <= zc < z + step && v == #[trigger] voxel_at(s, x, y, zc)
                            && !air_at(s, x, y, zc) && forall|z2: int|
                            z + sz + 1 <= z2 < zc ==> #[trigger] air_at(s, x, y, z2);
                    assert forall|z2: int| z + sz <= z2 < zc implies #[trigger] air_at(s, x, y, z2) by {
                    }
                },
                None => {
                },
            }
        }
    }
}

proof fn lemma_rep_y_block(s: Seq<Voxel>, x: int, y: int, z: int, step: int, sy: int)
    requires
        0 <= sy,
    ensures
        rep_y(s, x, y, z, step, sy) matches Some(v) ==> exists|yb: int, zc: int|
            y + sy <= yb < y + step && z <= zc < z + step && v == #[trigger] voxel_at(s, x, yb, zc)
                && !air_at(s, x, yb, zc) && (forall|y2: int, z2: int|
                y + sy <= y2 < yb && z <= z2 < z + step ==> #[trigger] air_at(s, x, y2, z2)) && (
            forall|z2: int| z <= z2 < zc ==> #[trigger] air_at(s, x, yb, z2)),
        rep_y(s, x, y, z, step, sy) is None ==> forall|y2: int, z2: int|
            y + sy <= y2 < y + step && z <= z2 < z + step ==> #[trigger] air_at(s, x, y2, z2),
    decreases step - sy,
{
    if sy < step {
        lemma_rep_z_block(s, x, y + sy, z, step, 0);
        lemma_rep_y_block(s, x, y, z, step, sy + 1);
        match rep_z(s, x, y + sy, z, step, 0) {
            Some(v) => {
                let zc = choose|zc: int|
                    z + 0 <= zc < z + step && v == #[trigger] voxel_at(s, x, y + sy, zc) && !air_at(
                        s,
                        x,
                        y + sy,
                        zc,
                    ) && forall|z2: int| z + 0 <= z2 < zc ==> #[trigger] air_at(s, x, y + sy, z2);
                assert(forall|y2: int, z2: int|
                    y + sy <= y2 < y + sy && z <= z2 < z + step ==> #[trigger] air_at(s, x, y2, z2));
                assert(y + sy <= y + sy < y + step && z <= zc < z + step && v == voxel_at(
                    s,
                    x,
                    y + sy,
                    zc,
                ));
            },
            None => {
                match rep_y(s, x, y, z, step, sy + 1) {
                    Some(v) => {
                        let (yb, zc) = choose|yb: int, zc: int|
                            y + sy + 1 <= yb < y + step && z <= zc < z + step && v
                                == #[trigger] voxel_at(s, x, yb, zc) && !air_at(s, x, yb, zc) && (
                            forall|y2: int, z2: int|
                                y + sy + 1 <= y2 < yb && z <= z2 < z + step ==> #[trigger] air_at(
                                    s,
                                    x,
                                    y2,
                                    z2,
                                )) && (forall|z2: int|
                                z <= z2 < zc ==> #[trigger] air_at(s, x, yb, z2));
                        assert forall|y2: int, z2: int|
                            y + sy <= y2 < yb && z <= z2 < z + step implies #[trigger] air_at(
                            s,
                            x,
                            y2,
                            z2,
                        ) by {
                            if y2 == y + sy {
                                assert(air_at(s, x, y + sy, z2));
                            }
                        }
                        assert(y + sy <= yb < y + step && z <= zc < z + step && v == voxel_at(
                            s,
                            x,
                            yb,
                            zc,
                        ));
                    },
                    None => {
                        assert forall|y2: int, z2: int|
                            y + sy <= y2 < y + step && z <= z2 < z + step implies #[trigger] air_at(
                            s,
                            x,
                            y2,
                            z2,
                        ) by {
                            if y2 == y + sy {
                                assert(air_at(s, x, y + sy, z2));
                            }
                        }
                    },
                }
            },
        }
    }
}

proof fn lemma_rep_x_block(s: Seq<Voxel>, x: int, y: int, z: int, step: int, sx: int)
    requires
        0 <= sx,
    ensures
        rep_x(s, x, y, z, step, sx) matches Some(v) ==> exists|xa: int, yb: int, zc: int|
            x + sx <= xa < x + step && y <= yb < y + step && z <= zc < z + step && v
                == #[trigger] voxel_at(s, xa, yb, zc) && !air_at(s, xa, yb, zc) && (forall|
                x2: int,
                y2: int,
                z2: int,
            |
                x + sx <= x2 < xa && y <= y2 < y + step && z <= z2 < z + step ==> #[trigger] air_at(
                    s,
                    x2,
                    y2,
                    z2,
                )) && (forall|y2: int, z2: int|
                y <= y2 < yb && z <= z2 < z + step ==> #[trigger] air_at(s, xa, y2, z2)) && (forall|
                z2: int,
            | z <= z2 < zc ==> #[trigger] air_at(s, xa, yb, z2)),
        rep_x(s, x, y, z, step, sx) is None ==> forall|x2: int, y2: int, z2: int|
            x + sx <= x2 < x + step && y <= y2 < y + step && z <= z2 < z + step ==> #[trigger] air_at(
                s,
                x2,
                y2,
                z2,
            ),
    decreases step - sx,
{
    if sx < step {
        lemma_rep_y_block(s, x + sx, y, z, step, 0);
        lemma_rep_x_block(s, x, y, z, step, sx + 1);
        match rep_y(s, x + sx, y, z, step, 0) {
            Some(v) => {
                let (yb, zc) = choose|yb: int, zc: int|
                    y + 0 <= yb < y + step && z <= zc < z + step && v == #[trigger] voxel_at(
                        s,
                        x + sx,
                        yb,
                        zc,
                    ) && !air_at(s, x + sx, yb, zc) && (forall|y2: int, z2: int|
                        y + 0 <= y2 < yb && z <= z2 < z + step ==> #[trigger] air_at(
                            s,
                            x + sx,
                            y2,
                            z2,
                        )) && (forall|z2: int| z <= z2 < zc ==> #[trigger] air_at(s, x + sx, yb, z2));
                assert(forall|x2: int, y2: int, z2: int|
                    x + sx <= x2 < x + sx && y <= y2 < y + step && z <= z2 < z + step
                        ==> #[trigger] air_at(s, x2, y2, z2));
                assert(x + sx <= x + sx < x + step && y <= yb < y + step && z <= zc < z + step && v
                    == voxel_at(s, x + sx, yb, zc));
            },
            None => {
                match rep_x(s, x, y, z, step, sx + 1) {
                    Some(v) => {
                        let (xa, yb, zc) = choose|xa: int, yb: int, zc: int|
                            x + sx + 1 <= xa < x + step && y <= yb < y + step && z <= zc < z + step
                                && v == #[trigger] voxel_at(s, xa, yb, zc) && !air_at(s, xa, yb, zc)
                                && (forall|x2: int, y2: int, z2: int|
                                x + sx + 1 <= x2 < xa && y <= y2 < y + step && z <= z2 < z + step
                                    ==> #[trigger] air_at(s, x2, y2, z2)) && (forall|
                                y2: int,
                                z2: int,
                            | y <= y2 < yb && z <= z2 < z + step ==> #[trigger] air_at(s, xa, y2, z2))
                                && (forall|z2: int| z <= z2 < zc ==> #[trigger] air_at(s, xa, yb, z2));
                        assert forall|x2: int, y2: int, z2: int|
                            x + sx <= x2 < xa && y <= y2 < y + step && z <= z2 < z + step
                                implies #[trigger] air_at(s, x2, y2, z2) by {
                            if x2 == x + sx {
                                assert(air_at(s, x + sx, y2, z2));
                            }
                        }
                        assert(x + sx <= xa < x + step && y <= yb < y + step && z <= zc < z + step
                            && v == voxel_at(s, xa, yb, zc));
                    },
                    None => {
                        assert forall|x2: int, y2: int, z2: int|
                            x + sx <= x2 < x + step && y <= y2 < y + step && z <= z2 < z + step
                                implies #[trigger] air_at(s, x2, y2, z2) by {
                            if x2 == x + sx {
                                assert(air_at(s, x + sx, y2, z2));
                            }
                        }
                    },
                }
            },
        }
    }
}

/// The voxel a level-of-detail block at `(x, y, z)` is drawn for is the first
/// non-air voxel of the block's cells `[x, x+step) × [y, y+step) × [z, z+step)`,
/// scanning x, then y, then z: every cell before it in that order is air
/// (`air_at`: the cell's kind is `Air`). A block whose cells are all air is
/// not drawn.
pub proof fn lemma_representative_in_block(s: Seq<Voxel>, x: int, y: int, z: int, step: int)
    ensures
        forall|a: int, b: int, c: int| #[trigger] air_at(s, a, b, c) <==> voxel_at(s, a, b, c).kind
            == VoxelKind::Air,
        representative(s, x, y, z, step) matches Some(v) ==> exists|xa: int, yb: int, zc: int|
            x <= xa < x + step && y <= yb < y + step && z <= zc < z + step && v
                == #[trigger] voxel_at(s, xa, yb, zc) && v.kind != VoxelKind::Air && (forall|
                x2: int,
                y2: int,
                z2: int,
            |
                x <= x2 < xa && y <= y2 < y + step && z <= z2 < z + step ==> #[trigger] air_at(
                    s,
                    x2,
                    y2,
                    z2,
                )) && (forall|y2: int, z2: int|
                y <= y2 < yb && z <= z2 < z + step ==> #[trigger] air_at(s, xa, y2, z2)) && (forall|
                z2: int,
            | z <= z2 < zc ==> #[trigger] air_at(s, xa, yb, z2)),
        representative(s, x, y, z, step) is None ==> forall|x2: int, y2: int, z2: int|
            x <= x2 < x + step && y <= y2 < y + step && z <= z2 < z + step ==> #[trigger] air_at(
                s,
                x2,
                y2,
                z2,
            ),
{
    lemma_rep_x_block(s, x, y, z, step, 0);
}

proof fn lemma_contains_left(a: Seq<FaceQuad>, b: Seq<FaceQuad>, f: FaceQuad)
    requires
        a.contains(f),
    ensures
        (a + b).contains(f),
{
    let k = choose|k: int| 0 <= k < a.len() && a[k] == f;
    assert((a + b)[k] == f);
}

proof fn lemma_contains_right(a: Seq<FaceQuad>, b: Seq<FaceQuad>, f: FaceQuad)
    requires
        b.contains(f),
    ensures
        (a + b).contains(f),
{
    let k = choose|k: int| 0 <= k < b.len() && b[k] == f;
    assert((a + b)[a.len() + k] == f);
}

proof fn lemma_cell_faces_complete(
    s: Seq<Voxel>,
    x: int,
    y: int,
    z: int,
    lod: int,
    d: FaceDir,
    v: Voxel,
)
    requires
        representative(s, x, y, z, lod) == Some(v),
        face_visible(s, x, y, z, d, lod),
    ensures
        cell_faces(s, x, y, z, lod).contains(
            FaceQuad { x: x as usize, y: y as usize, z: z as usize, dir: d, voxel: v },
        ),
{
    let f = FaceQuad { x: x as usize, y: y as usize, z: z as usize, dir: d, voxel: v };
    let f0 = face_if(s, x, y, z, FaceDir::Top, lod, v);
    let f1 = face_if(s, x, y, z, FaceDir::Bottom, lod, v);
    let f2 = face_if(s, x, y, z, FaceDir::Right, lod, v);
    let f3 = face_if(s, x, y, z, FaceDir::Left, lod, v);
    let f4 = face_if(s, x, y, z, FaceDir::Front, lod, v);
    let f5 = face_if(s, x, y, z, FaceDir::Back, lod, v);
    assert(face_if(s, x, y, z, d, lod, v)[0] == f);
    assert(face_if(s, x, y, z, d, lod, v).contains(f));
    match d {
        FaceDir::Top => {
            lemma_contains_left(f0, f1, f);
            lemma_contains_left(f0 + f1, f2, f);
            lemma_contains_left(f0 + f1 + f2, f3, f);
            lemma_contains_left(f0 + f1 + f2 + f3, f4, f);
            lemma_contains_left(f0 + f1 + f2 + f3 + f4, f5, f);
        },
        FaceDir::Bottom => {
            lemma_contains_right(f0, f1, f);
            lemma_contains_left(f0 + f1, f2, f);
            lemma_contains_left(f0 + f1 + f2, f3, f);
            lemma_contains_left(f0 + f1 + f2 + f3, f4, f);
            lemma_contains_left(f0 + f1 + f2 + f3 + f4, f5, f);
        },
        FaceDir::Right => {
            lemma_contains_right(f0 + f1, f2, f);
            lemma_contains_left(f0 + f1 + f2, f3, f);
            lemma_contains_left(f0 + f1 + f2 + f3, f4, f);
            lemma_contains_left(f0 + f1 + f2 + f3 + f4, f5, f);
        },
        FaceDir::Left => {
            lemma_contains_right(f0 + f1 + f2, f3, f);
            lemma_contains_left(f0 + f1 + f2 + f3, f4, f);
            lemma_contains_left(f0 + f1 + f2 + f3 + f4, f5, f);
        },
        FaceDir::Front => {
            lemma_contains_right(f0 + f1 + f2 + f3, f4, f);
            lemma_contains_left(f0 + f1 + f2 + f3 + f4, f5, f);
        },
        FaceDir::Back => {
            lemma_contains_right(f0 + f1 + f2 + f3 + f4, f5, f);
        },
    }
}

proof fn lemma_step_arith(z0: int, lod: int, m: int)
    requires
        lod >= 1,
        m >= 1,
    ensures
        z0 + lod + (m - 1) * lod == z0 + m * lod,
        m * lod >= lod,
{
    assert(z0 + lod + (m - 1) * lod == z0 + m * lod && m * lod >= lod) by (nonlinear_arith)
        requires
            lod >= 1,
            m >= 1,
    ;
}

proof fn lemma_faces_z_complete(s: Seq<Voxel>, x: int, y: int, z0: int, lod: int, m: int, f: FaceQuad)
    requires
        lod >= 1,
        0 <= z0,
        m >= 0,
        z0 + m * lod < CHUNK_RESOLUTION,
        cell_faces(s, x, y, z0 + m * lod, lod).contains(f),
    ensures
        faces_z(s, x, y, z0, lod).contains(f),
    decreases m,
{
    if m == 0 {
        assert(z0 + 0 * lod == z0);
        lemma_contains_left(cell_faces(s, x, y, z0, lod), faces_z(s, x, y, z0 + lod, lod), f);
    } else {
        lemma_step_arith(z0, lod, m);
        lemma_faces_z_complete(s, x, y, z0 + lod, lod, m - 1, f);
        lemma_contains_right(cell_faces(s, x, y, z0, lod), faces_z(s, x, y, z0 + lod, lod), f);
    }
}

proof fn lemma_faces_y_complete(s: Seq<Voxel>, x: int, y0: int, lod: int, m: int, f: FaceQuad)
    requires
        lod >= 1,
        0 <= y0,
        m >= 0,
        y0 + m * lod < CHUNK_RESOLUTION,
        faces_z(s, x, y0 + m * lod, 0, lod).contains(f),
    ensures
        faces_y(s, x, y0, lod).contains(f),
    decreases m,
{
    if m == 0 {
        assert(y0 + 0 * lod == y0);
        lemma_contains_left(faces_z(s, x, y0, 0, lod), faces_y(s, x, y0 + lod, lod), f);
    } else {
        lemma_step_arith(y0, lod, m);
        lemma_faces_y_complete(s, x, y0 + lod, lod, m - 1, f);
        lemma_contains_right(faces_z(s, x, y0, 0, lod), faces_y(s, x, y0 + lod, lod), f);
    }
}

proof fn lemma_faces_x_complete(s: Seq<Voxel>, x0: int, lod: int, m: int, f: FaceQuad)
    requires
        lod >= 1,
        0 <= x0,
        m >= 0,
        x0 + m * lod < CHUNK_RESOLUTION,
        faces_y(s, x0 + m * lod, 0, lod).contains(f),
    ensures
        faces_x(s, x0, lod).contains(f),
    decreases m,
{
    if m == 0 {
        assert(x0 + 0 * lod == x0);
        lemma_contains_left(faces_y(s, x0, 0, lod), faces_x(s, x0 + lod, lod), f);
    } else {
        lemma_step_arith(x0, lod, m);
        lemma_faces_x_complete(s, x0 + lod, lod, m - 1, f);
        lemma_contains_right(faces_y(s, x0, 0, lod), faces_x(s, x0 + lod, lod), f);
    }
}

/// Every exposed face of every drawn block is in the mesh: for the block at
/// `(i*lod, j*lod, k*lod)` drawn for voxel `v`, each face whose neighbour
/// `lod` cells away is air, water or outside the chunk appears among the faces.
pub proof fn lemma_mesh_complete(s: Seq<Voxel>, lod: int, i: int, j: int, k: int, d: FaceDir, v: Voxel)
    requires
        lod >= 1,
        0 <= i,
        0 <= j,
        0 <= k,
        i * lod < CHUNK_RESOLUTION,
        j * lod < CHUNK_RESOLUTION,
        k * lod < CHUNK_RESOLUTION,
        representative(s, i * lod, j * lod, k * lod, lod) == Some(v),
        face_visible(s, i * lod, j * lod, k * lod, d, lod),
    ensures
        mesh_faces(s, lod).contains(
            FaceQuad {
                x: (i * lod) as usize,
                y: (j * lod) as usize,
                z: (k * lod) as usize,
                dir: d,
                voxel: v,
            },
        ),
{
    let f = FaceQuad {
        x: (i * lod) as usize,
        y: (j * lod) as usize,
        z: (k * lod) as usize,
        dir: d,
        voxel: v,
    };
    lemma_cell_faces_complete(s, i * lod, j * lod, k * lod, lod, d, v);
    assert(0 + k * lod == k * lod);
    lemma_faces_z_complete(s, i * lod, j * lod, 0, lod, k, f);
    assert(0 + j * lod == j * lod);
    lemma_faces_y_complete(s, i * lod, 0, lod, j, f);
    assert(0 + i * lod == i * lod);
    lemma_faces_x_complete(s, 0, lod, i, f);
}

} // verus!
