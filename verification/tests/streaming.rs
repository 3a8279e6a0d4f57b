use voxel_engine::chunk_system::{needed_chunks, target_lod, ChunkManager, ChunkPos};
use voxel_engine::collision::{is_colliding, CollisionProbe};
use voxel_engine::voxel_world::{Chunk, Voxel, VoxelKind, RENDER_DISTANCE};

fn lod_of(load: &[(ChunkPos, u32)], p: ChunkPos) -> Option<u32> {
    load.iter().find(|q| q.0 == p).map(|q| q.1)
}

#[test]
fn needed_chunks_is_a_disc() {
    let n = needed_chunks(0, 0, 20);
    assert_eq!(n.len(), 1257);
    assert!(n.contains(&(20, 0, 0)));
    assert!(n.contains(&(-12, 0, 16)));
    assert!(!n.contains(&(15, 0, 14)));
    assert!(n.iter().all(|p| p.1 == 0));
    let m = needed_chunks(100, -7, 4);
    assert_eq!(m.len(), 49);
    assert!(m.contains(&(104, 0, -7)));
    assert!(!m.contains(&(104, 0, -6)));
    assert_eq!(needed_chunks(3, 3, 0), vec![(3, 0, 3)]);
}

#[test]
fn lod_thresholds() {
    assert_eq!(target_lod(0), 1);
    assert_eq!(target_lod(16), 1);
    assert_eq!(target_lod(17), 2);
    assert_eq!(target_lod(64), 2);
    assert_eq!(target_lod(65), 4);
    assert_eq!(target_lod(400), 4);
}

#[test]
fn first_step_requests_every_needed_chunk() {
    let mut m = ChunkManager::new();
    let u = m.manage_chunks(0, 0);
    assert!(u.despawn.is_empty());
    assert_eq!(u.load.len(), 1257);
    assert_eq!(m.loading_chunks.len(), 1257);
    assert_eq!(u.load.iter().filter(|q| q.1 == 1).count(), 49);
    assert_eq!(u.load.iter().filter(|q| q.1 == 2).count(), 197 - 49);
    assert_eq!(u.load.iter().filter(|q| q.1 == 4).count(), 1257 - 197);
    assert_eq!(lod_of(&u.load, (0, 0, 0)), Some(1));
    assert_eq!(lod_of(&u.load, (0, 0, 8)), Some(2));
    assert_eq!(lod_of(&u.load, (0, 0, 9)), Some(4));
    // nothing new while the camera stays
    let again = m.manage_chunks(0, 0);
    assert!(again.despawn.is_empty());
    assert!(again.load.is_empty());
    assert_eq!(m.loading_chunks.len(), 1257);
}

#[test]
fn results_are_recorded_once() {
    let mut m = ChunkManager::new();
    m.manage_chunks(0, 0);
    assert!(m.accepts_result((0, 0, 0)));
    assert!(!m.accepts_result((0, 0, 21)));
    m.record_loaded((0, 0, 0), 77, Chunk::new_empty(), 1);
    assert!(!m.accepts_result((0, 0, 0)));
    assert!(m.is_loaded((0, 0, 0)));
    assert!(!m.is_loading((0, 0, 0)));
    assert_eq!(m.loading_chunks.len(), 1256);
    let again = m.manage_chunks(0, 0);
    assert!(again.load.is_empty());
    assert!(again.despawn.is_empty());
}

#[test]
fn moving_unloads_far_and_relods_near() {
    let mut m = ChunkManager::new();
    m.manage_chunks(0, 0);
    m.record_loaded((0, 0, 0), 1, Chunk::new_empty(), 1);
    m.record_loaded((-20, 0, 0), 2, Chunk::new_empty(), 4);
    m.record_loaded((3, 0, 0), 3, Chunk::new_empty(), 1);
    let u = m.manage_chunks(3, 0);
    // (-20,0,0) is 23 away now; (0,0,0) is 3 away and keeps lod 1; (3,0,0) stays
    assert_eq!(u.despawn, vec![2]);
    assert!(m.is_loaded((0, 0, 0)));
    assert!(m.is_loaded((3, 0, 0)));
    assert!(!m.is_loaded((-20, 0, 0)));
    // moving 5 columns further changes (0,0,0) to lod 2: it is despawned and requested again
    let u = m.manage_chunks(8, 0);
    assert!(u.despawn.contains(&1));
    assert!(u.despawn.contains(&3));
    assert_eq!(lod_of(&u.load, (3, 0, 0)), Some(2));
    assert_eq!(lod_of(&u.load, (0, 0, 0)), Some(2));
    assert!(m.loading_chunks.contains(&(0, 0, 0)));
    assert!(!m.loading_chunks.contains(&(-12, 0, 1)));
}

#[test]
fn collision_against_loaded_chunks() {
    let mut m = ChunkManager::new();
    m.manage_chunks(0, 0);
    let mut c = Chunk::new_empty();
    c.set(1, 2, 3, Voxel { kind: VoxelKind::Stone });
    c.set(1, 3, 3, Voxel { kind: VoxelKind::Water });
    m.record_loaded((0, 0, 0), 9, c, 1);
    let p = |cx, cz, lx, ly, lz| CollisionProbe { cx, cz, lx, ly, lz };
    assert!(is_colliding(&vec![p(0, 0, 1, 2, 3)], &m));
    assert!(!is_colliding(&vec![p(0, 0, 1, 3, 3)], &m));
    assert!(!is_colliding(&vec![p(0, 0, 1, 4, 3)], &m));
    // chunk not loaded
    assert!(!is_colliding(&vec![p(1, 0, 1, 2, 3)], &m));
    // outside the chunk's cells
    assert!(!is_colliding(&vec![p(0, 0, -1, 2, 3), p(0, 0, 1, 32, 3)], &m));
    assert!(is_colliding(&vec![p(0, 0, 0, 0, 0), p(0, 0, 1, 2, 3)], &m));
    assert!(!is_colliding(&vec![], &m));
    assert_eq!(RENDER_DISTANCE, 20);
}
