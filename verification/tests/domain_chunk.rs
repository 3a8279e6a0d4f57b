use voxel_engine::domain::{carve_sphere, Chunk, Voxel, VoxelType, CHUNK_SIZE, CHUNK_VOLUME};
use voxel_engine::terrain::{DepthBand, TerrainSample};

fn v(t: VoxelType) -> Voxel {
    Voxel { v_type: t }
}

fn ground(depth: DepthBand) -> TerrainSample {
    TerrainSample {
        bedrock: false,
        rainbow: false,
        bridge: false,
        road: false,
        above_ground: false,
        underwater: false,
        cave: false,
        depth,
    }
}

#[test]
fn voxel_predicates() {
    assert!(v(VoxelType::Empty).is_empty());
    assert!(!v(VoxelType::Dirt).is_empty());
    assert!(v(VoxelType::Water).is_water());
    assert!(!v(VoxelType::Empty).is_water());
}

#[test]
fn new_empty_is_all_empty() {
    let c = Chunk::new_empty();
    assert_eq!(c.voxels.len(), CHUNK_VOLUME);
    assert_eq!(CHUNK_VOLUME, 32 * 32 * 32);
    assert!(c.voxels.iter().all(|x| x.v_type == VoxelType::Empty));
}

#[test]
fn set_then_get_reads_back() {
    let mut c = Chunk::new_empty();
    c.set(1, 2, 3, v(VoxelType::Stone));
    assert_eq!(c.get(1, 2, 3), v(VoxelType::Stone));
    assert_eq!(c.get(2, 2, 3), v(VoxelType::Empty));
    assert_eq!(c.get(1, 3, 3), v(VoxelType::Empty));
    // flat layout: x + y*S + z*S*S
    assert_eq!(c.voxels[1 + 2 * 32 + 3 * 1024], v(VoxelType::Stone));
}

#[test]
fn set_outside_is_ignored_and_get_outside_is_empty() {
    let mut c = Chunk::new_empty();
    c.set(CHUNK_SIZE, 0, 0, v(VoxelType::Stone));
    c.set(0, 0, 40, v(VoxelType::Stone));
    assert!(c.voxels.iter().all(|x| x.v_type == VoxelType::Empty));
    c.set(31, 31, 31, v(VoxelType::Grass));
    assert_eq!(c.get(31, 31, 31), v(VoxelType::Grass));
    assert_eq!(c.get(32, 31, 31), v(VoxelType::Empty));
    assert_eq!(c.get(usize::MAX, 0, 0), v(VoxelType::Empty));
}

#[test]
fn classify_priorities() {
    let mut s = ground(DepthBand::Deep);
    assert_eq!(Chunk::classify(&s), VoxelType::Stone);
    s.depth = DepthBand::Subsoil;
    assert_eq!(Chunk::classify(&s), VoxelType::Dirt);
    s.depth = DepthBand::Surface;
    assert_eq!(Chunk::classify(&s), VoxelType::Grass);
    s.road = true;
    assert_eq!(Chunk::classify(&s), VoxelType::Road);
    s.depth = DepthBand::Subsoil;
    assert_eq!(Chunk::classify(&s), VoxelType::Dirt);
    s.cave = true;
    assert_eq!(Chunk::classify(&s), VoxelType::Empty);
    s.underwater = true;
    assert_eq!(Chunk::classify(&s), VoxelType::Water);
    s.cave = false;
    s.above_ground = true;
    assert_eq!(Chunk::classify(&s), VoxelType::Water);
    s.underwater = false;
    assert_eq!(Chunk::classify(&s), VoxelType::Empty);
    s.bridge = true;
    assert_eq!(Chunk::classify(&s), VoxelType::Bridge);
    s.rainbow = true;
    assert_eq!(Chunk::classify(&s), VoxelType::Rainbow);
    // the cube world of this module has no bedrock
    s = ground(DepthBand::Deep);
    s.bedrock = true;
    assert_eq!(Chunk::classify(&s), VoxelType::Stone);
}

#[test]
fn hilly_terrain_follows_samples() {
    let mut samples = vec![ground(DepthBand::Deep); CHUNK_VOLUME];
    samples[5] = ground(DepthBand::Surface);
    let mut sky = ground(DepthBand::Surface);
    sky.above_ground = true;
    samples[CHUNK_VOLUME - 1] = sky;
    let c = Chunk::new_hilly_terrain(&samples);
    assert_eq!(c.voxels.len(), CHUNK_VOLUME);
    assert_eq!(c.get(0, 0, 0), v(VoxelType::Stone));
    assert_eq!(c.get(5, 0, 0), v(VoxelType::Grass));
    assert_eq!(c.get(31, 31, 31), v(VoxelType::Empty));
}

#[test]
fn carve_empties_marked_cells_only() {
    let samples = vec![ground(DepthBand::Deep); CHUNK_VOLUME];
    let c = Chunk::new_hilly_terrain(&samples);
    let mut inside = vec![false; CHUNK_VOLUME];
    inside[0] = true;
    inside[100] = true;
    let d = carve_sphere(&c, &inside);
    assert_eq!(d.voxels[0], v(VoxelType::Empty));
    assert_eq!(d.voxels[100], v(VoxelType::Empty));
    assert_eq!(d.voxels[1], v(VoxelType::Stone));
    // the source chunk is untouched
    assert_eq!(c.voxels[0], v(VoxelType::Stone));
    // carving twice equals carving once
    let e = carve_sphere(&d, &inside);
    assert!(e.voxels == d.voxels);
    let removed = d.voxels.iter().filter(|x| x.v_type == VoxelType::Empty).count();
    assert_eq!(removed, 2);
}
