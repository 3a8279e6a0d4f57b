use voxel_engine::chunk_system::ChunkPos;
use voxel_engine::tetra_chunk_system::{tetra_target_lod, TetraChunkManager, MAX_NEW_TASKS};

fn d2(p: ChunkPos, cx: i32, cz: i32) -> i32 {
    (p.0 - cx) * (p.0 - cx) + (p.2 - cz) * (p.2 - cz)
}

#[test]
fn tetra_lod_thresholds() {
    assert_eq!(tetra_target_lod(36), 1);
    assert_eq!(tetra_target_lod(37), 2);
    assert_eq!(tetra_target_lod(144), 2);
    assert_eq!(tetra_target_lod(145), 4);
}

#[test]
fn at_most_two_nearest_start() {
    let mut m = TetraChunkManager::new();
    let u = m.manage_tetra_chunks(0, 0);
    assert_eq!(MAX_NEW_TASKS, 2);
    assert_eq!(u.load.len(), 2);
    assert_eq!(u.load[0], ((0, 0, 0), 1));
    assert_eq!(d2(u.load[1].0, 0, 0), 1);
    assert_eq!(u.load[1].1, 1);
    assert_eq!(m.loading_chunks.len(), 2);
    let u2 = m.manage_tetra_chunks(0, 0);
    assert_eq!(u2.load.len(), 2);
    assert!(u2.load.iter().all(|q| d2(q.0, 0, 0) == 1));
    assert!(u2.load.iter().all(|q| !u.load.iter().any(|r| r.0 == q.0)));
    assert_eq!(m.loading_chunks.len(), 4);
}

#[test]
fn tetra_results_and_unloading() {
    let mut m = TetraChunkManager::new();
    let u = m.manage_tetra_chunks(0, 0);
    let first = u.load[0].0;
    assert!(m.accepts_result(first));
    m.record_loaded(first, 5, 1);
    assert!(!m.accepts_result(first));
    assert!(m.is_loaded(first));
    assert_eq!(m.loading_chunks.len(), 1);
    // far away: everything is dropped and the nearest chunks there start
    let far = m.manage_tetra_chunks(1000, 1000);
    assert_eq!(far.despawn, vec![5]);
    assert!(m.loaded_chunks.is_empty());
    assert_eq!(far.load[0].0, (1000, 0, 1000));
    assert_eq!(m.loading_chunks.len(), 2);
}
