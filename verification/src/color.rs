//! Terrain materials by height, and their packed RGB8 colours.

use vstd::prelude::*;

verus! {

/// The three terrain materials, chosen by a voxel's height.
#[derive(PartialEq, Eq, Structural, Clone, Copy, Debug)]
pub enum Material {
    Grass,
    Dirt,
    Stone,
}

/// Heights at or above this are grass on top faces
/// (`y / 64 > 0.70` holds exactly from `y = 45` on).
pub const GRASS_FROM: usize = 45;

/// Heights at or above this are dirt (`y / 64 > 0.40` holds exactly from `y = 26` on).
pub const DIRT_FROM: usize = 26;

/// Material seen on the top face of a voxel at height `y`.
pub open spec fn top_material_of(y: int) -> Material {
    if y >= GRASS_FROM {
        Material::Grass
    } else if y >= DIRT_FROM {
        Material::Dirt
    } else {
        Material::Stone
    }
}

/// Material seen on the other faces of a voxel at height `y`: the grass cap
/// shows dirt on its sides.
pub open spec fn side_material_of(y: int) -> Material {
    if y >= DIRT_FROM {
        Material::Dirt
    } else {
        Material::Stone
    }
}

/// Red, green and blue bytes of a material.
pub open spec fn rgb8_of(m: Material) -> (u32, u32, u32) {
    match m {
        Material::Grass => (0x4D, 0x9E, 0x2E),
        Material::Dirt => (0x85, 0x61, 0x38),
        Material::Stone => (0x85, 0x85, 0x85),
    }
}

/// A colour packed as `0xRRGGBB`.
pub open spec fn packed_rgb_of(m: Material) -> u32 {
    let (r, g, b) = rgb8_of(m);
    (r * 0x1_0000 + g * 0x100 + b) as u32
}

impl Material {
    /// Red, green and blue bytes of this material.
    pub fn rgb8(&self) -> (c: (u32, u32, u32))
        ensures
            c == rgb8_of(*self),
            c.0 < 256 && c.1 < 256 && c.2 < 256,
    {
        match self {
            Material::Grass => (0x4D, 0x9E, 0x2E),
            Material::Dirt => (0x85, 0x61, 0x38),
            Material::Stone => (0x85, 0x85, 0x85),
        }
    }
}

/// Material on the top face of a voxel at height `y`.
pub fn top_material(y: usize) -> (m: Material)
    ensures
        m == top_material_of(y as int),
{
    if y >= GRASS_FROM {
        Material::Grass
    } else if y >= DIRT_FROM {
        Material::Dirt
    } else {
        Material::Stone
    }
}

/// Material on the side and bottom faces of a voxel at height `y`.
pub fn side_material(y: usize) -> (m: Material)
    ensures
        m == side_material_of(y as int),
{
    if y >= DIRT_FROM {
        Material::Dirt
    } else {
        Material::Stone
    }
}

/// Colour of a voxel at height `y` in the octree, packed as `0xRRGGBB`;
/// the top byte is always clear, so a leaf flag can be put there.
pub fn voxel_color_packed(y: u32) -> (c: u32)
    ensures
        c == packed_rgb_of(top_material_of(y as int)),
        c < 0x100_0000,
{
    let (r, g, b): (u32, u32, u32) = top_material(y as usize).rgb8();
    assert((r << 16u32) | (g << 8u32) | b == r * 0x1_0000 + g * 0x100 + b) by (bit_vector)
        requires
            r < 256,
            g < 256,
            b < 256,
    ;
    (r << 16u32) | (g << 8u32) | b
}

} // verus!
