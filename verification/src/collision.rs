use vstd::prelude::*;
use crate::chunk_system::{ChunkManager, ChunkPos, LoadedChunk, loaded_key, has_key};
use crate::voxel_world::{CHUNK_RESOLUTION, Voxel, VoxelKind, in_bounds, voxel_at};

verus! {

/// One point of the player's collision body, located in the voxel grid: the
/// ground-layer chunk `(cx, 0, cz)` it falls in and its cell `(lx, ly, lz)`
/// relative to that chunk.
#[derive(Clone, Copy, PartialEq, Eq, Debug, Structural)]
pub struct CollisionProbe {
    pub cx: i32,
    pub cz: i32,
    pub lx: i32,
    pub ly: i32,
    pub lz: i32,
}

/// Voxels that block movement: everything but air and water.
pub open spec fn blocks_movement(v: Voxel) -> bool {
    v.kind != VoxelKind::Air && v.kind != VoxelKind::Water
}

/// The probe lies in a cell of a loaded chunk that blocks movement.
pub open spec fn probe_hits(loaded: Seq<LoadedChunk>, p: CollisionProbe) -> bool {
    &&& in_bounds(p.lx as int, p.ly as int, p.lz as int)
    &&& exists|k: int|
        0 <= k < loaded.len() && (#[trigger] loaded[k]).pos == (p.cx, 0i32, p.cz) && blocks_movement(
            voxel_at(loaded[k].chunk.voxels@, p.lx as int, p.ly as int, p.lz as int),
        )
}

/// Whether a single probe hits solid ground.
fn probe_collides(p: CollisionProbe, chunk_manager: &ChunkManager) -> (r: bool)
    requires
        chunk_manager.wf(),
    ensures
        r == probe_hits(chunk_manager.loaded_chunks@, p),
{
    let ghost loaded = chunk_manager.loaded_chunks@;
    let pos: ChunkPos = (p.cx, 0, p.cz);
    match chunk_manager.find_loaded(pos) {
        None => {
            assert(!probe_hits(loaded, p)) by {
                if probe_hits(loaded, p) {
                    let k = choose|k: int|
                        0 <= k < loaded.len() && (#[trigger] loaded[k]).pos == pos && blocks_movement(
                            voxel_at(loaded[k].chunk.voxels@, p.lx as int, p.ly as int, p.lz as int),
                        );
                    assert(loaded_key()(loaded[k]) == pos);
                    assert(has_key(loaded, loaded_key(), pos));
                }
            }
            false
        },
        Some(i) => {
            let size = CHUNK_RESOLUTION as i32;
            if p.lx >= 0 && p.lx < size && p.ly >= 0 && p.ly < size && p.lz >= 0 && p.lz < size {
                let chunk = &chunk_manager.loaded_chunks[i];
                assert(loaded[i as int].chunk.wf());
                let v = chunk.chunk.get(p.lx as usize, p.ly as usize, p.lz as usize);
                let hit = !v.is_air() && !v.is_water();
                assert(hit == probe_hits(loaded, p)) by {
                    if probe_hits(loaded, p) {
                        let k = choose|k: int|
                            0 <= k < loaded.len() && (#[trigger] loaded[k]).pos == pos
                                && blocks_movement(
                                voxel_at(
                                    loaded[k].chunk.voxels@,
                                    p.lx as int,
                                    p.ly as int,
                                    p.lz as int,
                                ),
                            );
                        if k != i {
                            assert(loaded_key()(loaded[k]) == loaded_key()(loaded[i as int]));
                        }
                    }
                }
                hit
            } else {
                false
            }
        },
    }
}

/// Whether any probe of the player's body lies in a cell that blocks
/// movement. Probes in chunks that are not loaded, or outside their chunk's
/// cells, collide with nothing.
pub fn is_colliding(probes: &Vec<CollisionProbe>, chunk_manager: &ChunkManager) -> (r: bool)
    requires
        chunk_manager.wf(),
    ensures
        r == exists|i: int|
            0 <= i < probes@.len() && probe_hits(chunk_manager.loaded_chunks@, #[trigger] probes@[i]),
        r == exists|i: int, k: int|
            #![trigger probes@[i], chunk_manager.loaded_chunks@[k]]
            0 <= i < probes@.len() && 0 <= k < chunk_manager.loaded_chunks@.len() && {
                let p = probes@[i];
                let e = chunk_manager.loaded_chunks@[k];
                let v = voxel_at(e.chunk.voxels@, p.lx as int, p.ly as int, p.lz as int);
                &&& 0 <= p.lx < CHUNK_RESOLUTION
                &&& 0 <= p.ly < CHUNK_RESOLUTION
                &&& 0 <= p.lz < CHUNK_RESOLUTION
                &&& e.pos == (p.cx, 0i32, p.cz)
                &&& v.kind != VoxelKind::Air
                &&& v.kind != VoxelKind::Water
            },
{
    let mut i: usize = 0;
    while i < probes.len()
        invariant
            chunk_manager.wf(),
            i <= probes@.len(),
            forall|k: int|
                0 <= k < i ==> !probe_hits(chunk_manager.loaded_chunks@, #[trigger] probes@[k]),
        decreases probes.len() - i,
    {
        if probe_collides(probes[i], chunk_manager) {
            proof {
                let p = probes@[i as int];
                let loaded = chunk_manager.loaded_chunks@;
                let k = choose|k: int|
                    0 <= k < loaded.len() && (#[trigger] loaded[k]).pos == (p.cx, 0i32, p.cz)
                        && blocks_movement(
                        voxel_at(loaded[k].chunk.voxels@, p.lx as int, p.ly as int, p.lz as int),
                    );
                assert(probes@[i as int] == p && loaded[k] == loaded[k]);
            }
            return true;
        }
        i = i + 1;
    }
    proof {
        let loaded = chunk_manager.loaded_chunks@;
        assert forall|i: int, k: int|
            #![trigger probes@[i], loaded[k]]
            0 <= i < probes@.len() && 0 <= k < loaded.len() implies !({
                let p = probes@[i];
                let e = loaded[k];
                let v = voxel_at(e.chunk.voxels@, p.lx as int, p.ly as int, p.lz as int);
                &&& 0 <= p.lx < CHUNK_RESOLUTION
                &&& 0 <= p.ly < CHUNK_RESOLUTION
                &&& 0 <= p.lz < CHUNK_RESOLUTION
                &&& e.pos == (p.cx, 0i32, p.cz)
                &&& v.kind != VoxelKind::Air
                &&& v.kind != VoxelKind::Water
            }) by {
            assert(!probe_hits(loaded, probes@[i]));
        }
    }
    false
}

/// Every kind of voxel but air and water blocks movement.
pub proof fn lemma_blocking_kinds()
    ensures
        !blocks_movement(Voxel { kind: VoxelKind::Air }),
        !blocks_movement(Voxel { kind: VoxelKind::Water }),
        blocks_movement(Voxel { kind: VoxelKind::Dirt }),
        blocks_movement(Voxel { kind: VoxelKind::Grass }),
        blocks_movement(Voxel { kind: VoxelKind::Stone }),
        blocks_movement(Voxel { kind: VoxelKind::Road }),
        blocks_movement(Voxel { kind: VoxelKind::Bridge }),
        blocks_movement(Voxel { kind: VoxelKind::Rainbow }),
        blocks_movement(Voxel { kind: VoxelKind::Bedrock }),
{
}

} // verus!
