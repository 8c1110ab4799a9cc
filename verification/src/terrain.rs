//! Where the terrain's chunks lie, and where grid columns lie in the world.

use vstd::prelude::*;
use crate::chunk::{CHUNK_SIZE, CHUNK_HEIGHT, in_chunk, heightmap_voxel};
use crate::svo::{SVO_SIZE, heightmap_cell};

verus! {

/// Coordinates of the chunks within `r` chunks of the origin along x and z,
/// row by row: `x` from `-r` to `r`, and for each `x`, `z` from `-r` to `r`.
pub open spec fn chunk_grid(r: int) -> Seq<(i32, i32)> {
    let w = 2 * r + 1;
    if r < 0 {
        Seq::empty()
    } else {
        Seq::new((w * w) as nat, |i: int| ((-r + i / w) as i32, (-r + i % w) as i32))
    }
}

/// Coordinates of every chunk of a terrain of radius `radius`, in the order
/// they are generated. A negative radius has no chunks.
pub fn chunk_coords(radius: i32) -> (coords: Vec<(i32, i32)>)
    requires
        radius > i32::MIN,
        radius >= 0 ==> (2 * radius + 1) * (2 * radius + 1) <= usize::MAX,
    ensures
        coords@ == chunk_grid(radius as int),
{
    let mut coords: Vec<(i32, i32)> = Vec::new();
    if radius < 0 {
        return coords;
    }
    let ghost r = radius as int;
    let ghost w = 2 * r + 1;
    let lo: i64 = -(radius as i64);
    let hi: i64 = radius as i64 + 1;
    for cx in lo..hi
        invariant
            r == radius,
            r >= 0,
            w == 2 * r + 1,
            w * w <= usize::MAX,
            lo == -r,
            hi == r + 1,
            lo <= cx <= hi,
            coords@.len() == (cx - lo) * w,
            forall|i: int| 0 <= i < coords@.len() ==> #[trigger] coords@[i] == chunk_grid(r)[i],
    {
        assert((cx - lo) * w + w == (cx - lo + 1) * w) by (nonlinear_arith);
        assert((cx - lo + 1) * w <= w * w) by (nonlinear_arith)
            requires
                cx - lo + 1 <= w,
                w >= 0,
        ;
        for cz in lo..hi
            invariant
                r == radius,
                r >= 0,
                w == 2 * r + 1,
                w * w <= usize::MAX,
                lo == -r,
                hi == r + 1,
                lo <= cx < hi,
                lo <= cz <= hi,
                (cx - lo + 1) * w <= w * w,
                (cx - lo) * w + w == (cx - lo + 1) * w,
                coords@.len() == (cx - lo) * w + (cz - lo),
                forall|i: int| 0 <= i < coords@.len() ==> #[trigger] coords@[i] == chunk_grid(r)[i],
        {
            proof {
                let i = (cx - lo) * w + (cz - lo);
                vstd::arithmetic::div_mod::lemma_fundamental_div_mod_converse(i, w, cx - lo, cz - lo);
                assert(i < w * w);
            }
            coords.push((cx as i32, cz as i32));
        }
    }
    proof {
        assert(coords@ =~= chunk_grid(r));
    }
    coords
}

/// World column of column `local` of the chunk at chunk coordinate `chunk`.
pub fn chunk_world_column(chunk: i32, local: usize) -> (w: i32)
    requires
        local < CHUNK_SIZE,
        i32::MIN <= chunk * CHUNK_SIZE + local <= i32::MAX,
        i32::MIN <= chunk * CHUNK_SIZE <= i32::MAX,
    ensures
        w == chunk * CHUNK_SIZE + local,
{
    chunk * CHUNK_SIZE as i32 + local as i32
}

/// World column of column `i` of the octree's grid: the grid is centred on
/// the origin, so that it covers the same ground as the chunks around it.
pub fn svo_world_column(i: usize) -> (w: i32)
    requires
        i < SVO_SIZE,
    ensures
        w == i - SVO_SIZE / 2,
{
    i as i32 - (SVO_SIZE / 2) as i32
}

/// The octree's terrain matches the chunks': a voxel of a chunk and the voxel
/// of the octree's grid at the same world position are solid alike when the
/// two columns have the same terrain height, and the grid is empty above
/// the chunks' height.
pub proof fn lemma_grid_matches_chunk(
    chunk_heights: Seq<usize>,
    grid_heights: Seq<usize>,
    chunk_x: int,
    chunk_z: int,
    x: int,
    y: int,
    z: int,
)
    requires
        chunk_heights.len() == CHUNK_SIZE * CHUNK_SIZE,
        grid_heights.len() == SVO_SIZE * SVO_SIZE,
        in_chunk(x, y, z),
        0 <= chunk_x * CHUNK_SIZE + x + SVO_SIZE / 2 < SVO_SIZE,
        0 <= chunk_z * CHUNK_SIZE + z + SVO_SIZE / 2 < SVO_SIZE,
        chunk_heights[x * CHUNK_SIZE + z] == grid_heights[(chunk_x * CHUNK_SIZE + x + SVO_SIZE / 2)
            * SVO_SIZE + chunk_z * CHUNK_SIZE + z + SVO_SIZE / 2],
    ensures
        heightmap_voxel(chunk_heights, x, y, z) == heightmap_cell(
            grid_heights,
            chunk_x * CHUNK_SIZE + x + SVO_SIZE / 2,
            y,
            chunk_z * CHUNK_SIZE + z + SVO_SIZE / 2,
        ),
        forall|gx: int, gy: int, gz: int|
            0 <= gx < SVO_SIZE && CHUNK_HEIGHT <= gy < SVO_SIZE && 0 <= gz < SVO_SIZE ==> #[trigger] heightmap_cell(
                grid_heights,
                gx,
                gy,
                gz,
            ) == 0,
{
}

} // verus!
