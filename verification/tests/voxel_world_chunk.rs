use voxel_engine::terrain::{DepthBand, TerrainSample};
use voxel_engine::voxel_world::{
    carve_sphere, Chunk, Voxel, VoxelKind, CHUNK_RESOLUTION, CHUNK_VOLUME, RENDER_DISTANCE,
};

fn v(k: VoxelKind) -> Voxel {
    Voxel { kind: k }
}

fn ground(depth: DepthBand) -> TerrainSample {
    TerrainSample {
        bedrock: false,
        rainbow: false,
        bridge: false,
        road: false,
        above_ground: false,
        underwater: false,
        cave: false,
        depth,
    }
}

#[test]
fn constants() {
    assert_eq!(CHUNK_RESOLUTION, 32);
    assert_eq!(RENDER_DISTANCE, 20);
}

#[test]
fn air_and_water_predicates() {
    assert!(v(VoxelKind::Air).is_air());
    assert!(!v(VoxelKind::Bedrock).is_air());
    assert!(v(VoxelKind::Water).is_water());
    assert!(!v(VoxelKind::Air).is_water());
}

#[test]
fn world_chunk_get_set() {
    let mut c = Chunk::new_empty();
    assert!(c.voxels.iter().all(|x| x.kind == VoxelKind::Air));
    c.set(31, 0, 17, v(VoxelKind::Bedrock));
    assert_eq!(c.get(31, 0, 17), v(VoxelKind::Bedrock));
    assert_eq!(c.get(30, 0, 17), v(VoxelKind::Air));
    c.set(0, 32, 0, v(VoxelKind::Stone));
    assert_eq!(c.get(0, 32, 0), v(VoxelKind::Air));
    assert_eq!(c.voxels.iter().filter(|x| x.kind != VoxelKind::Air).count(), 1);
}

#[test]
fn world_classify_with_bedrock_first() {
    let mut s = ground(DepthBand::Surface);
    s.bedrock = true;
    s.rainbow = true;
    s.above_ground = true;
    assert_eq!(Chunk::classify(&s), VoxelKind::Bedrock);
    s.bedrock = false;
    assert_eq!(Chunk::classify(&s), VoxelKind::Rainbow);
    s.rainbow = false;
    s.bridge = true;
    assert_eq!(Chunk::classify(&s), VoxelKind::Bridge);
    s.bridge = false;
    assert_eq!(Chunk::classify(&s), VoxelKind::Air);
    s.underwater = true;
    assert_eq!(Chunk::classify(&s), VoxelKind::Water);
    s.above_ground = false;
    s.underwater = false;
    s.road = true;
    assert_eq!(Chunk::classify(&s), VoxelKind::Road);
    s.cave = true;
    assert_eq!(Chunk::classify(&s), VoxelKind::Air);
}

#[test]
fn world_terrain_and_carve() {
    let mut samples = vec![ground(DepthBand::Subsoil); CHUNK_VOLUME];
    let mut rock = ground(DepthBand::Deep);
    rock.bedrock = true;
    for x in 0..32 {
        for z in 0..32 {
            samples[x + z * 1024] = rock;
        }
    }
    let c = Chunk::new_hilly_terrain(&samples);
    assert_eq!(c.get(7, 0, 9), v(VoxelKind::Bedrock));
    assert_eq!(c.get(7, 1, 9), v(VoxelKind::Dirt));
    let mut inside = vec![false; CHUNK_VOLUME];
    inside[7 + 9 * 1024] = true;
    inside[7 + 32 + 9 * 1024] = true;
    let d = carve_sphere(&c, &inside);
    assert_eq!(d.get(7, 0, 9), v(VoxelKind::Air));
    assert_eq!(d.get(7, 1, 9), v(VoxelKind::Air));
    assert_eq!(d.get(7, 2, 9), v(VoxelKind::Dirt));
    let e = carve_sphere(&d, &inside);
    assert!(e.voxels == d.voxels);
}
