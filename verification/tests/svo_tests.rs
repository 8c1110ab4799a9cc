use voxel_compare::svo::{build_node, svo_grid, SvoNode, LEAF_FLAG, SVO_SIZE};

fn reserved() -> Vec<SvoNode> {
    vec![SvoNode { children: [0; 8] }]
}

fn grid_index(n: usize, x: usize, y: usize, z: usize) -> usize {
    x * n * n + y * n + z
}

#[test]
fn empty_grid_collapses_to_zero() {
    let grid = vec![0u8; 8 * 8 * 8];
    let mut nodes = reserved();
    let root = build_node(&grid, 8, 0, 0, 0, 8, &mut nodes);
    assert_eq!(root, 0);
    assert_eq!(nodes.len(), 1);
}

#[test]
fn single_voxel_leaf() {
    let mut grid = vec![0u8; 8];
    grid[grid_index(2, 1, 0, 1)] = 1;
    let mut nodes = reserved();
    assert_eq!(build_node(&grid, 2, 1, 0, 1, 1, &mut nodes), LEAF_FLAG | 0x858585);
    assert_eq!(build_node(&grid, 2, 0, 0, 0, 1, &mut nodes), 0);
    // Out of the grid.
    assert_eq!(build_node(&grid, 2, 2, 0, 0, 1, &mut nodes), 0);
    assert_eq!(nodes.len(), 1);
}

#[test]
fn one_solid_voxel_in_a_two_cube() {
    let mut grid = vec![0u8; 8];
    grid[grid_index(2, 1, 0, 1)] = 1;
    let mut nodes = reserved();
    let root = build_node(&grid, 2, 0, 0, 0, 2, &mut nodes);
    assert_eq!(root, 1);
    assert_eq!(nodes.len(), 2);
    // Octant 5: upper x, lower y, upper z.
    let mut expected = [0u32; 8];
    expected[5] = LEAF_FLAG | 0x858585;
    assert_eq!(nodes[1].children, expected);
    assert_eq!(nodes[0].children, [0; 8]);
}

#[test]
fn leaf_colours_follow_height() {
    let n = 64;
    let mut grid = vec![0u8; n * n * n];
    grid[grid_index(n, 0, 45, 0)] = 1;
    grid[grid_index(n, 0, 30, 0)] = 1;
    let mut nodes = reserved();
    assert_eq!(build_node(&grid, n, 0, 45, 0, 1, &mut nodes), LEAF_FLAG | 0x4D9E2E);
    assert_eq!(build_node(&grid, n, 0, 30, 0, 1, &mut nodes), LEAF_FLAG | 0x856138);
}

fn descend(nodes: &[SvoNode], root: u32, size: u32, x: u32, y: u32, z: u32) -> u32 {
    let mut d = root;
    let mut s = size;
    let (mut x, mut y, mut z) = (x, y, z);
    while s > 1 && d != 0 && d & LEAF_FLAG == 0 {
        let half = s / 2;
        let o = (if x >= half { 1 } else { 0 }) + (if y >= half { 2 } else { 0 }) + (if z >= half { 4 } else { 0 });
        d = nodes[d as usize].children[o];
        if x >= half {
            x -= half;
        }
        if y >= half {
            y -= half;
        }
        if z >= half {
            z -= half;
        }
        s = half;
    }
    d
}

#[test]
fn descent_finds_every_voxel() {
    // A 5-wide grid in an 8-wide cube: octants past the grid are empty.
    let n = 5;
    let mut grid = vec![0u8; n * n * n];
    for x in 0..n {
        for z in 0..n {
            for y in 0..=(x + z) % 4 {
                grid[grid_index(n, x, y, z)] = 1;
            }
        }
    }
    let mut nodes = reserved();
    let root = build_node(&grid, n, 0, 0, 0, 8, &mut nodes);
    assert!(root != 0 && root & LEAF_FLAG == 0);
    for x in 0..8u32 {
        for y in 0..8u32 {
            for z in 0..8u32 {
                let (xu, yu, zu) = (x as usize, y as usize, z as usize);
                let solid = xu < n && yu < n && zu < n && grid[grid_index(n, xu, yu, zu)] != 0;
                let expected = if solid { LEAF_FLAG | 0x858585 } else { 0 };
                assert_eq!(descend(&nodes, root, 8, x, y, z), expected);
            }
        }
    }
    // Children are stored before their parents, and no node is all empty.
    for (i, node) in nodes.iter().enumerate().skip(1) {
        assert!(node.children.iter().any(|&c| c != 0));
        for &c in &node.children {
            if c != 0 && c & LEAF_FLAG == 0 {
                assert!((c as usize) < i);
            }
        }
    }
    assert_eq!(root as usize, nodes.len() - 1);
}

#[test]
fn existing_nodes_are_kept() {
    let mut grid = vec![0u8; 4 * 4 * 4];
    grid[grid_index(4, 3, 3, 3)] = 1;
    let marker = SvoNode { children: [7; 8] };
    let mut nodes = vec![SvoNode { children: [0; 8] }, marker];
    let root = build_node(&grid, 4, 0, 0, 0, 4, &mut nodes);
    assert_eq!(nodes[1].children, [7; 8]);
    assert_eq!(root as usize, nodes.len() - 1);
    assert_eq!(nodes.len(), 4);
}

#[test]
fn svo_grid_from_heights() {
    let n = SVO_SIZE as usize;
    let mut heights = vec![5usize; n * n];
    heights[3 * n + 4] = 200;
    let grid = svo_grid(&heights);
    assert_eq!(grid.len(), n * n * n);
    assert_eq!(grid[grid_index(n, 0, 5, 0)], 1);
    assert_eq!(grid[grid_index(n, 0, 6, 0)], 0);
    assert_eq!(grid[grid_index(n, 3, 63, 4)], 1);
    assert_eq!(grid[grid_index(n, 3, 64, 4)], 0);
    assert_eq!(grid[grid_index(n, 511, 0, 511)], 1);
}

#[test]
fn octree_of_the_full_grid() {
    let n = SVO_SIZE as usize;
    let mut heights = vec![0usize; n * n];
    heights[100 * n + 7] = 2;
    let grid = svo_grid(&heights);
    let (nodes, root) = voxel_compare::svo::build_octree(&grid);
    assert_eq!(nodes[0].children, [0; 8]);
    assert_eq!(root as usize, nodes.len() - 1);
    assert_eq!(descend(&nodes, root, SVO_SIZE, 100, 2, 7), LEAF_FLAG | 0x858585);
    assert_eq!(descend(&nodes, root, SVO_SIZE, 100, 3, 7), 0);
    assert_eq!(descend(&nodes, root, SVO_SIZE, 5, 0, 5), LEAF_FLAG | 0x858585);
    assert_eq!(descend(&nodes, root, SVO_SIZE, 5, 1, 5), 0);
    assert_eq!(descend(&nodes, root, SVO_SIZE, 511, 511, 511), 0);
}

#[test]
fn large_cube_over_a_tiny_grid() {
    // A 4096-wide cube over a one-voxel grid: one node per level above the voxel.
    let grid = vec![1u8];
    let mut nodes = reserved();
    let root = build_node(&grid, 1, 0, 0, 0, 4096, &mut nodes);
    assert_eq!(nodes.len(), 1 + 12);
    assert_eq!(root as usize, nodes.len() - 1);
    assert_eq!(descend(&nodes, root, 4096, 0, 0, 0), LEAF_FLAG | 0x858585);
    assert_eq!(descend(&nodes, root, 4096, 1, 0, 0), 0);
    assert_eq!(descend(&nodes, root, 4096, 4095, 4095, 4095), 0);
}

#[test]
fn grid_longer_than_its_cube() {
    // Bytes past stride³ are never read.
    let mut grid = vec![0u8; 8 + 5];
    grid[grid_index(2, 0, 1, 1)] = 1;
    for b in grid.iter_mut().skip(8) {
        *b = 1;
    }
    let mut nodes = reserved();
    let root = build_node(&grid, 2, 0, 0, 0, 2, &mut nodes);
    assert_eq!(nodes.len(), 2);
    let mut expected = [0u32; 8];
    expected[6] = LEAF_FLAG | 0x858585;
    assert_eq!(nodes[root as usize].children, expected);
}

#[test]
fn one_node_per_nonempty_interior_cube() {
    // Two solid voxels in opposite corners of an 8-cube: the root, and one
    // node per level (sizes 4 and 2) above each voxel.
    let n = 8;
    let mut grid = vec![0u8; n * n * n];
    grid[grid_index(n, 0, 0, 0)] = 1;
    grid[grid_index(n, 7, 7, 7)] = 1;
    let mut nodes = reserved();
    let root = build_node(&grid, n, 0, 0, 0, 8, &mut nodes);
    assert_eq!(nodes.len(), 1 + 1 + 2 + 2);
    assert_eq!(root as usize, 5);
    for (i, node) in nodes.iter().enumerate().skip(1) {
        for &c in &node.children {
            assert!(c == 0 || c & LEAF_FLAG != 0 || (1 <= c as usize && (c as usize) < i));
        }
    }
}

#[test]
fn nodes_come_in_post_order() {
    let n = 8;
    let mut grid = vec![0u8; n * n * n];
    grid[grid_index(n, 0, 0, 0)] = 1;
    grid[grid_index(n, 7, 7, 7)] = 1;
    let mut nodes = reserved();
    let root = build_node(&grid, n, 0, 0, 0, 8, &mut nodes);
    let leaf = LEAF_FLAG | 0x858585;
    // Octant 0 first: its 2-cube, then its 4-cube; then octant 7 likewise; then the root.
    assert_eq!(nodes[1].children, [leaf, 0, 0, 0, 0, 0, 0, 0]);
    assert_eq!(nodes[2].children, [1, 0, 0, 0, 0, 0, 0, 0]);
    assert_eq!(nodes[3].children, [0, 0, 0, 0, 0, 0, 0, leaf]);
    assert_eq!(nodes[4].children, [0, 0, 0, 0, 0, 0, 0, 3]);
    assert_eq!(nodes[5].children, [2, 0, 0, 0, 0, 0, 0, 4]);
    assert_eq!(root, 5);
}
