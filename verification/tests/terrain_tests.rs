use voxel_compare::chunk::{Chunk, CHUNK_SIZE};
use voxel_compare::svo::{svo_grid, SVO_SIZE};
use voxel_compare::terrain::{chunk_coords, chunk_world_column, svo_world_column};

#[test]
fn chunk_coords_radius_one() {
    assert_eq!(
        chunk_coords(1),
        vec![(-1, -1), (-1, 0), (-1, 1), (0, -1), (0, 0), (0, 1), (1, -1), (1, 0), (1, 1)]
    );
}

#[test]
fn chunk_coords_small_and_negative() {
    assert_eq!(chunk_coords(0), vec![(0, 0)]);
    assert!(chunk_coords(-3).is_empty());
    let c = chunk_coords(16);
    assert_eq!(c.len(), 33 * 33);
    assert_eq!(c[0], (-16, -16));
    assert_eq!(c[33], (-15, -16));
    assert_eq!(c[33 * 33 - 1], (16, 16));
}

#[test]
fn world_columns() {
    assert_eq!(chunk_world_column(0, 0), 0);
    assert_eq!(chunk_world_column(2, 3), 35);
    assert_eq!(chunk_world_column(-1, 0), -16);
    assert_eq!(chunk_world_column(-1, 15), -1);
    assert_eq!(svo_world_column(0), -256);
    assert_eq!(svo_world_column(256), 0);
    assert_eq!(svo_world_column(511), 255);
}

#[test]
fn octree_grid_matches_chunk() {
    // One world heightmap, sampled by both at their world columns.
    let height = |wx: i32, wz: i32| -> usize { ((wx * 7 + wz * 3).rem_euclid(80)) as usize };
    let n = SVO_SIZE as usize;
    let mut grid_heights = vec![0usize; n * n];
    for i in 0..n {
        for k in 0..n {
            grid_heights[i * n + k] = height(svo_world_column(i), svo_world_column(k));
        }
    }
    let grid = svo_grid(&grid_heights);
    for (cx, cz) in [(0, 0), (-1, 2), (3, -4)] {
        let mut heights = vec![0usize; CHUNK_SIZE * CHUNK_SIZE];
        for x in 0..CHUNK_SIZE {
            for z in 0..CHUNK_SIZE {
                heights[x * CHUNK_SIZE + z] =
                    height(chunk_world_column(cx, x), chunk_world_column(cz, z));
            }
        }
        let chunk = Chunk::generate(&heights, cx, cz);
        for x in 0..CHUNK_SIZE {
            for z in 0..CHUNK_SIZE {
                let i = (chunk_world_column(cx, x) + 256) as usize;
                let k = (chunk_world_column(cz, z) + 256) as usize;
                for y in 0..80usize {
                    let in_grid = grid[i * n * n + y * n + k] != 0;
                    assert_eq!(chunk.is_solid(x as i32, y as i32, z as i32), in_grid);
                }
            }
        }
    }
}
