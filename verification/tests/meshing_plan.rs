use voxel_engine::meshing::{plan_naive_mesh, quad_index_buffer, representative_voxel, FaceDir};
use voxel_engine::voxel_world::{Chunk, Voxel, VoxelKind};

fn v(k: VoxelKind) -> Voxel {
    Voxel { kind: k }
}

#[test]
fn air_chunk_has_empty_mesh() {
    let c = Chunk::new_empty();
    for lod in [1u32, 2, 4, 32, 100] {
        let plan = plan_naive_mesh(&c, lod);
        assert!(plan.faces.is_empty());
        assert!(plan.indices.is_empty());
    }
}

#[test]
fn single_voxel_has_six_faces_in_order() {
    let mut c = Chunk::new_empty();
    c.set(3, 4, 5, v(VoxelKind::Stone));
    let plan = plan_naive_mesh(&c, 1);
    let dirs: Vec<FaceDir> = plan.faces.iter().map(|f| f.dir).collect();
    assert_eq!(
        dirs,
        vec![FaceDir::Top, FaceDir::Bottom, FaceDir::Right, FaceDir::Left, FaceDir::Front, FaceDir::Back]
    );
    for f in &plan.faces {
        assert_eq!((f.x, f.y, f.z), (3, 4, 5));
        assert_eq!(f.voxel, v(VoxelKind::Stone));
    }
    assert_eq!(plan.indices.len(), 36);
    assert_eq!(&plan.indices[0..12], &[0, 1, 2, 2, 3, 0, 4, 5, 6, 6, 7, 4]);
    assert!(plan.indices.iter().all(|i| *i < 24));
}

#[test]
fn touching_solids_hide_shared_faces_but_water_does_not() {
    let mut c = Chunk::new_empty();
    c.set(3, 4, 5, v(VoxelKind::Stone));
    c.set(3, 5, 5, v(VoxelKind::Dirt));
    let plan = plan_naive_mesh(&c, 1);
    assert_eq!(plan.faces.len(), 10);
    assert!(!plan.faces.iter().any(|f| f.y == 4 && f.dir == FaceDir::Top));
    assert!(!plan.faces.iter().any(|f| f.y == 5 && f.dir == FaceDir::Bottom));
    // water is drawn too, and does not hide its neighbour's faces
    let mut w = Chunk::new_empty();
    w.set(3, 4, 5, v(VoxelKind::Stone));
    w.set(3, 5, 5, v(VoxelKind::Water));
    let plan = plan_naive_mesh(&w, 1);
    assert_eq!(plan.faces.len(), 11);
    assert!(plan.faces.iter().any(|f| f.y == 4 && f.dir == FaceDir::Top));
    assert!(!plan.faces.iter().any(|f| f.y == 5 && f.dir == FaceDir::Bottom));
}

#[test]
fn faces_at_chunk_border_are_drawn() {
    let mut c = Chunk::new_empty();
    c.set(0, 0, 0, v(VoxelKind::Grass));
    c.set(1, 0, 0, v(VoxelKind::Grass));
    let plan = plan_naive_mesh(&c, 1);
    assert_eq!(plan.faces.len(), 10);
    assert_eq!(plan.faces[0].x, 0);
    assert_eq!(plan.faces[5].x, 1);
}

#[test]
fn lod_samples_first_non_air_voxel() {
    let mut c = Chunk::new_empty();
    c.set(1, 1, 1, v(VoxelKind::Stone));
    c.set(1, 0, 1, v(VoxelKind::Dirt));
    assert_eq!(representative_voxel(&c, 0, 0, 0, 2), Some(v(VoxelKind::Dirt)));
    c.set(0, 1, 0, v(VoxelKind::Water));
    assert_eq!(representative_voxel(&c, 0, 0, 0, 2), Some(v(VoxelKind::Water)));
    assert_eq!(representative_voxel(&c, 2, 0, 0, 2), None);
    assert_eq!(representative_voxel(&c, 30, 30, 30, 100), None);
    let plan = plan_naive_mesh(&c, 2);
    assert_eq!(plan.faces.len(), 6);
    assert_eq!(plan.faces[0].voxel, v(VoxelKind::Water));
    assert!(plan.faces.iter().all(|f| (f.x, f.y, f.z) == (0, 0, 0)));
}

#[test]
fn lod_neighbour_is_lod_cells_away() {
    let mut c = Chunk::new_empty();
    c.set(0, 0, 0, v(VoxelKind::Stone));
    c.set(2, 0, 0, v(VoxelKind::Stone));
    let plan = plan_naive_mesh(&c, 2);
    assert_eq!(plan.faces.len(), 10);
    let plan1 = plan_naive_mesh(&c, 1);
    assert_eq!(plan1.faces.len(), 12);
}

#[test]
fn index_buffer_pattern() {
    let idx = quad_index_buffer(3);
    assert_eq!(
        idx,
        vec![0, 1, 2, 2, 3, 0, 4, 5, 6, 6, 7, 4, 8, 9, 10, 10, 11, 8]
    );
    assert!(quad_index_buffer(0).is_empty());
}

#[test]
fn full_chunk_mesh_is_its_shell() {
    let mut c = Chunk::new_empty();
    for x in 0..32 {
        for y in 0..32 {
            for z in 0..32 {
                c.set(x, y, z, v(VoxelKind::Stone));
            }
        }
    }
    let plan = plan_naive_mesh(&c, 1);
    assert_eq!(plan.faces.len(), 6 * 32 * 32);
    let plan4 = plan_naive_mesh(&c, 4);
    assert_eq!(plan4.faces.len(), 6 * 8 * 8);
}

#[test]
fn every_planned_face_is_solid_and_exposed() {
    let mut c = Chunk::new_empty();
    let kinds = [VoxelKind::Air, VoxelKind::Stone, VoxelKind::Water, VoxelKind::Dirt, VoxelKind::Air];
    for x in 0..32usize {
        for y in 0..32usize {
            for z in 0..32usize {
                let k = kinds[(x * 7 + y * 13 + z * 3 + x * y) % kinds.len()];
                c.set(x, y, z, v(k));
            }
        }
    }
    for lod in [1u32, 2, 4] {
        let plan = plan_naive_mesh(&c, lod);
        assert!(!plan.faces.is_empty());
        assert_eq!(plan.indices.len(), 6 * plan.faces.len());
        let l = lod as i64;
        for f in &plan.faces {
            assert!(!f.voxel.is_air());
            let (x, y, z) = (f.x as i64, f.y as i64, f.z as i64);
            let (a, b, cc) = match f.dir {
                FaceDir::Top => (x, y + l, z),
                FaceDir::Bottom => (x, y - l, z),
                FaceDir::Right => (x + l, y, z),
                FaceDir::Left => (x - l, y, z),
                FaceDir::Front => (x, y, z + l),
                FaceDir::Back => (x, y, z - l),
            };
            if (0..32).contains(&a) && (0..32).contains(&b) && (0..32).contains(&cc) {
                let n = c.get(a as usize, b as usize, cc as usize);
                assert!(n.is_air() || n.is_water());
            }
        }
    }
}
