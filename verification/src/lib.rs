//! A voxel world engine: chunks of cubic and tetrahedral voxels, terrain
//! classification, chunk meshing plans, chunk streaming around the camera,
//! collision against loaded chunks and the editor's view switching.

use vstd::prelude::*;

pub mod terrain;
pub mod domain;
pub mod voxel_world;
pub mod tetra_world;
pub mod tetra_meshing;
pub mod meshing;
pub mod chunk_system;
pub mod collision;
pub mod tetra_chunk_system;
pub mod ui_logic;

verus! {
} // verus!
