use voxel_engine::terrain::{DepthBand, TerrainSample};
use voxel_engine::tetra_meshing::is_face_visible;
use voxel_engine::tetra_world::{
    determine_tetra_type, tetra_vertices, TetraChunk, TETRAS_PER_CELL, TETRA_VOLUME,
};
use voxel_engine::voxel_world::{VoxelKind, CHUNK_VOLUME};

fn ground(depth: DepthBand) -> TerrainSample {
    TerrainSample {
        bedrock: false,
        rainbow: false,
        bridge: false,
        road: false,
        above_ground: false,
        underwater: false,
        cave: false,
        depth,
    }
}

#[test]
fn tetra_new_empty_and_get_set() {
    let mut c = TetraChunk::new_empty();
    assert_eq!(c.tetras.len(), TETRA_VOLUME);
    assert_eq!(TETRA_VOLUME, 32 * 32 * 32 * 5);
    c.set(1, 0, 0, 4, VoxelKind::Stone);
    assert_eq!(c.get(1, 0, 0, 4), VoxelKind::Stone);
    assert_eq!(c.tetras[(1 + 0 + 0) * 5 + 4], VoxelKind::Stone);
    assert_eq!(c.get(1, 0, 0, 3), VoxelKind::Air);
    c.set(1, 0, 0, 5, VoxelKind::Stone);
    assert_eq!(c.get(1, 0, 0, 5), VoxelKind::Air);
    assert_eq!(c.tetras.iter().filter(|k| **k != VoxelKind::Air).count(), 1);
}

#[test]
fn tetra_type_rules() {
    let mut s = ground(DepthBand::Surface);
    assert_eq!(determine_tetra_type(&s), VoxelKind::Grass);
    s.road = true;
    s.rainbow = true;
    s.bridge = true;
    // the tetra world has no roads, rainbow road or bridges
    assert_eq!(determine_tetra_type(&s), VoxelKind::Grass);
    s.depth = DepthBand::Subsoil;
    assert_eq!(determine_tetra_type(&s), VoxelKind::Dirt);
    s.depth = DepthBand::Deep;
    assert_eq!(determine_tetra_type(&s), VoxelKind::Stone);
    s.cave = true;
    assert_eq!(determine_tetra_type(&s), VoxelKind::Air);
    s.underwater = true;
    assert_eq!(determine_tetra_type(&s), VoxelKind::Water);
    s.bedrock = true;
    assert_eq!(determine_tetra_type(&s), VoxelKind::Bedrock);
}

#[test]
fn tetra_terrain_fills_all_five() {
    let mut samples = vec![ground(DepthBand::Deep); CHUNK_VOLUME];
    let mut sky = ground(DepthBand::Surface);
    sky.above_ground = true;
    samples[2 + 3 * 32] = sky;
    let c = TetraChunk::new_hilly_terrain(&samples);
    for t in 0..TETRAS_PER_CELL {
        assert_eq!(c.get(2, 3, 0, t), VoxelKind::Air);
        assert_eq!(c.get(2, 3, 1, t), VoxelKind::Stone);
    }
}

#[test]
fn tetra_corner_table() {
    assert_eq!(tetra_vertices(0), [0, 1, 3, 4]);
    assert_eq!(tetra_vertices(4), [1, 3, 4, 6]);
    for t in 0..5 {
        let v = tetra_vertices(t);
        for i in 0..4 {
            assert!(v[i] < 8);
            for j in 0..4 {
                if i != j {
                    assert_ne!(v[i], v[j]);
                }
            }
        }
    }
}

#[test]
fn tetra_face_visibility() {
    let mut c = TetraChunk::new_empty();
    // chunk border: always drawn
    assert!(is_face_visible(&c, 0, 5, 5, -1, 0, 0, 2));
    assert!(is_face_visible(&c, 31, 5, 5, 1, 0, 0, 2));
    // air neighbour
    assert!(is_face_visible(&c, 4, 5, 5, 1, 0, 0, 2));
    c.set(5, 5, 5, 2, VoxelKind::Stone);
    assert!(!is_face_visible(&c, 4, 5, 5, 1, 0, 0, 2));
    // same cell, other tetrahedron
    assert!(!is_face_visible(&c, 5, 5, 5, 0, 0, 0, 2));
    c.set(5, 5, 5, 2, VoxelKind::Water);
    assert!(is_face_visible(&c, 4, 5, 5, 1, 0, 0, 2));
}
