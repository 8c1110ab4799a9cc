use voxel_compare::chunk::{Chunk, Face, MeshVertex, CHUNK_HEIGHT, CHUNK_SIZE, CHUNK_VOLUME};
use voxel_compare::color::Material;

fn flat(h: usize) -> Vec<usize> {
    vec![h; CHUNK_SIZE * CHUNK_SIZE]
}

#[test]
fn idx_layout() {
    assert_eq!(Chunk::idx(0, 0, 0), 0);
    assert_eq!(Chunk::idx(0, 0, 1), 1);
    assert_eq!(Chunk::idx(0, 1, 0), 16);
    assert_eq!(Chunk::idx(1, 0, 0), 1024);
    assert_eq!(Chunk::idx(15, 63, 15), CHUNK_VOLUME - 1);
}

#[test]
fn idx_is_injective_over_the_chunk() {
    let mut seen = vec![false; CHUNK_VOLUME];
    for x in 0..CHUNK_SIZE {
        for y in 0..CHUNK_HEIGHT {
            for z in 0..CHUNK_SIZE {
                let i = Chunk::idx(x, y, z);
                assert!(!seen[i]);
                seen[i] = true;
            }
        }
    }
}

#[test]
fn generate_fills_columns_up_to_height() {
    let c = Chunk::generate(&flat(10), 3, -2);
    assert_eq!(c.chunk_x, 3);
    assert_eq!(c.chunk_z, -2);
    for y in 0..=10 {
        assert!(c.is_solid(5, y, 7));
    }
    assert!(!c.is_solid(5, 11, 7));
    assert!(!c.is_solid(5, 63, 7));
}

#[test]
fn generate_cuts_heights_to_chunk_top() {
    let c = Chunk::generate(&flat(1000), 0, 0);
    assert!(c.is_solid(0, 63, 0));
    assert!(c.is_solid(15, 0, 15));
    assert!(!c.is_solid(0, 64, 0));
}

#[test]
fn generate_per_column_heights() {
    let mut heights = flat(0);
    heights[2 * CHUNK_SIZE + 9] = 40;
    let c = Chunk::generate(&heights, 0, 0);
    assert!(c.is_solid(2, 40, 9));
    assert!(!c.is_solid(2, 41, 9));
    assert!(c.is_solid(9, 0, 2));
    assert!(!c.is_solid(9, 1, 2));
}

#[test]
fn is_solid_outside_is_air() {
    let c = Chunk::generate(&flat(63), 0, 0);
    assert!(!c.is_solid(-1, 0, 0));
    assert!(!c.is_solid(0, -1, 0));
    assert!(!c.is_solid(0, 0, -1));
    assert!(!c.is_solid(16, 0, 0));
    assert!(!c.is_solid(0, 64, 0));
    assert!(!c.is_solid(0, 0, 16));
}

#[test]
fn flat_mesh_face_counts() {
    // A slab of height h+1: top and bottom of every column, and the four
    // outer walls.
    for h in [0usize, 5, 63] {
        let c = Chunk::generate(&flat(h), 0, 0);
        let (vertices, indices) = c.build_mesh();
        let faces = 2 * CHUNK_SIZE * CHUNK_SIZE + 4 * CHUNK_SIZE * (h + 1);
        assert_eq!(vertices.len(), 4 * faces);
        assert_eq!(indices.len(), 6 * faces);
    }
}

#[test]
fn first_quads_of_a_flat_chunk() {
    let c = Chunk::generate(&flat(0), 2, -1);
    let (vertices, indices) = c.build_mesh();
    // Voxel (0, 0, 0) is first; its visible faces are +Y, -Y, -X and -Z.
    let v = |i: usize| -> (i64, i64, i64, Face) {
        let m: MeshVertex = vertices[i];
        (m.x, m.y, m.z, m.tint.face)
    };
    assert_eq!(v(0), (32, 1, -16, Face::PosY));
    assert_eq!(v(1), (32, 1, -15, Face::PosY));
    assert_eq!(v(2), (33, 1, -15, Face::PosY));
    assert_eq!(v(3), (33, 1, -16, Face::PosY));
    assert_eq!(v(4), (32, 0, -16, Face::NegY));
    assert_eq!(v(5), (33, 0, -16, Face::NegY));
    assert_eq!(v(8), (32, 0, -16, Face::NegX));
    assert_eq!(v(9), (32, 0, -15, Face::NegX));
    assert_eq!(v(12), (33, 0, -16, Face::NegZ));
    assert_eq!(v(13), (32, 0, -16, Face::NegZ));
    assert_eq!(vertices[0].tint.material, Material::Stone);
    assert_eq!(&indices[0..12], &[0, 1, 2, 0, 2, 3, 4, 5, 6, 4, 6, 7]);
}

#[test]
fn face_materials_follow_height() {
    let c = Chunk::generate(&flat(50), 0, 0);
    let (vertices, _) = c.build_mesh();
    for m in &vertices {
        let y = m.y as usize;
        match m.tint.face {
            Face::PosY => {
                // Top faces sit at y + 1 of their voxel.
                assert_eq!(y, 51);
                assert_eq!(m.tint.material, Material::Grass);
            }
            Face::NegY => {
                assert_eq!(y, 0);
                assert_eq!(m.tint.material, Material::Stone);
            }
            _ => {}
        }
    }
}

#[test]
fn culled_faces_only_border_air() {
    let mut heights = flat(3);
    heights[5 * CHUNK_SIZE + 5] = 6;
    let c = Chunk::generate(&heights, 0, 0);
    let (vertices, indices) = c.build_mesh();
    for q in 0..vertices.len() / 4 {
        let m = vertices[4 * q];
        let (nx, ny, nz) = m.tint.face.normal();
        // Lowest corner of the quad's voxel.
        let xs: Vec<i64> = (0..4).map(|j| vertices[4 * q + j].x).collect();
        let ys: Vec<i64> = (0..4).map(|j| vertices[4 * q + j].y).collect();
        let zs: Vec<i64> = (0..4).map(|j| vertices[4 * q + j].z).collect();
        let vx = *xs.iter().min().unwrap() - if nx > 0 { 1 } else { 0 };
        let vy = *ys.iter().min().unwrap() - if ny > 0 { 1 } else { 0 };
        let vz = *zs.iter().min().unwrap() - if nz > 0 { 1 } else { 0 };
        assert!(c.is_solid(vx as i32, vy as i32, vz as i32));
        assert!(!c.is_solid(vx as i32 + nx, vy as i32 + ny, vz as i32 + nz));
    }
    for &i in &indices {
        assert!((i as usize) < vertices.len());
    }
    // The raised column adds the four sides of each of its three voxels above 3.
    let base = 2 * 256 + 4 * 16 * 4;
    assert_eq!(vertices.len(), 4 * (base + 4 * 3));
}

#[test]
fn face_order_and_normals() {
    let order = [Face::PosY, Face::NegY, Face::PosX, Face::NegX, Face::PosZ, Face::NegZ];
    for (i, f) in order.iter().enumerate() {
        assert_eq!(Face::nth(i), *f);
    }
    assert_eq!(Face::PosY.normal(), (0, 1, 0));
    assert_eq!(Face::NegY.normal(), (0, -1, 0));
    assert_eq!(Face::PosX.normal(), (1, 0, 0));
    assert_eq!(Face::NegX.normal(), (-1, 0, 0));
    assert_eq!(Face::PosZ.normal(), (0, 0, 1));
    assert_eq!(Face::NegZ.normal(), (0, 0, -1));
    assert_eq!(Face::PosX.corners(), [(1, 0, 1), (1, 0, 0), (1, 1, 0), (1, 1, 1)]);
}
