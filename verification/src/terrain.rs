use vstd::prelude::*;

verus! {

/// How far below the ground surface a solid cell lies.
#[derive(Clone, Copy, PartialEq, Eq, Debug, Structural)]
pub enum DepthBand {
    /// Less than 0.3 world units below the surface.
    Surface,
    /// From 0.3 up to (not including) 1.5 world units below the surface.
    Subsoil,
    /// 1.5 world units or more below the surface.
    Deep,
}

/// What the terrain noise says about one cell of a chunk.
///
/// Each flag is the outcome of one of the terrain tests that the world
/// generators evaluate on the cell's world position; a world reads only the
/// flags that its own generator has.
#[derive(Clone, Copy, PartialEq, Eq, Debug, Structural)]
pub struct TerrainSample {
    /// The cell lies at or below the bedrock height.
    pub bedrock: bool,
    /// The cell lies on the rainbow road in the sky.
    pub rainbow: bool,
    /// The cell lies on a bridge deck.
    pub bridge: bool,
    /// The cell's column lies on a road.
    pub road: bool,
    /// The cell lies above the ground surface of its column.
    pub above_ground: bool,
    /// The cell lies at or below the water level.
    pub underwater: bool,
    /// The cell lies inside a cave, tunnel or shaft.
    pub cave: bool,
    /// How deep below the surface the cell lies.
    pub depth: DepthBand,
}

} // verus!
