//! Which way the faces of a voxel point, and which way their quads wind.

use vstd::prelude::*;
use crate::chunk::{
    Chunk, Face, MeshVertex, CHUNK_SIZE, CHUNK_VOLUME, cell_y, corner_of, cross, face_material_of,
    is_mesh_of, lemma_face_materials, normal_of, on_face_plane, sub3,
};
use crate::color::{Material, top_material_of};

verus! {

/// Every face's quad lies on the face, and both of its triangles, (0, 1, 2)
/// and (0, 2, 3), go counter-clockwise seen from outside: their normal is
/// the face's outward normal, the direction of the neighbour that decides
/// whether the face is drawn. So no face is back-facing from the air it borders.
pub proof fn lemma_corners_wind_outward(f: Face)
    ensures
        cross(sub3(corner_of(f, 1), corner_of(f, 0)), sub3(corner_of(f, 2), corner_of(f, 0))) == normal_of(f),
        cross(sub3(corner_of(f, 2), corner_of(f, 0)), sub3(corner_of(f, 3), corner_of(f, 0))) == normal_of(f),
        forall|j: int| 0 <= j < 4 ==> on_face_plane(#[trigger] corner_of(f, j), normal_of(f)),
        forall|j: int|
            0 <= j < 4 ==> {
                let c = #[trigger] corner_of(f, j);
                0 <= c.0 <= 1 && 0 <= c.1 <= 1 && 0 <= c.2 <= 1
            },
        normal_of(f) == (1int, 0int, 0int) || normal_of(f) == (-1int, 0int, 0int) || normal_of(f) == (0int, 1int, 0int)
            || normal_of(f) == (0int, -1int, 0int) || normal_of(f) == (0int, 0int, 1int) || normal_of(f) == (0int, 0int, -1int),
{
    reveal(cross);
    match f {
        Face::PosY => {
            assert(corner_of(f, 0) == (0i64, 1i64, 0i64));
            assert(corner_of(f, 1) == (0i64, 1i64, 1i64));
            assert(corner_of(f, 2) == (1i64, 1i64, 1i64));
            assert(corner_of(f, 3) == (1i64, 1i64, 0i64));
            assert(cross((0int, 0int, 1int), (1int, 0int, 1int)) == (0int, 1int, 0int)) by (nonlinear_arith) {
                reveal(cross);
            }
            assert(cross((1int, 0int, 1int), (1int, 0int, 0int)) == (0int, 1int, 0int)) by (nonlinear_arith) {
                reveal(cross);
            }
        },
        Face::NegY => {
            assert(corner_of(f, 0) == (0i64, 0i64, 0i64));
            assert(corner_of(f, 1) == (1i64, 0i64, 0i64));
            assert(corner_of(f, 2) == (1i64, 0i64, 1i64));
            assert(corner_of(f, 3) == (0i64, 0i64, 1i64));
            assert(cross((1int, 0int, 0int), (1int, 0int, 1int)) == (0int, -1int, 0int)) by (nonlinear_arith) {
                reveal(cross);
            }
            assert(cross((1int, 0int, 1int), (0int, 0int, 1int)) == (0int, -1int, 0int)) by (nonlinear_arith) {
                reveal(cross);
            }
        },
        Face::PosX => {
            assert(corner_of(f, 0) == (1i64, 0i64, 1i64));
            assert(corner_of(f, 1) == (1i64, 0i64, 0i64));
            assert(corner_of(f, 2) == (1i64, 1i64, 0i64));
            assert(corner_of(f, 3) == (1i64, 1i64, 1i64));
            assert(cross((0int, 0int, -1int), (0int, 1int, -1int)) == (1int, 0int, 0int)) by (nonlinear_arith) {
                reveal(cross);
            }
            assert(cross((0int, 1int, -1int), (0int, 1int, 0int)) == (1int, 0int, 0int)) by (nonlinear_arith) {
                reveal(cross);
            }
        },
        Face::NegX => {
            assert(corner_of(f, 0) == (0i64, 0i64, 0i64));
            assert(corner_of(f, 1) == (0i64, 0i64, 1i64));
            assert(corner_of(f, 2) == (0i64, 1i64, 1i64));
            assert(corner_of(f, 3) == (0i64, 1i64, 0i64));
            assert(cross((0int, 0int, 1int), (0int, 1int, 1int)) == (-1int, 0int, 0int)) by (nonlinear_arith) {
                reveal(cross);
            }
            assert(cross((0int, 1int, 1int), (0int, 1int, 0int)) == (-1int, 0int, 0int)) by (nonlinear_arith) {
                reveal(cross);
            }
        },
        Face::PosZ => {
            assert(corner_of(f, 0) == (0i64, 0i64, 1i64));
            assert(corner_of(f, 1) == (1i64, 0i64, 1i64));
            assert(corner_of(f, 2) == (1i64, 1i64, 1i64));
            assert(corner_of(f, 3) == (0i64, 1i64, 1i64));
            assert(cross((1int, 0int, 0int), (1int, 1int, 0int)) == (0int, 0int, 1int)) by (nonlinear_arith) {
                reveal(cross);
            }
            assert(cross((1int, 1int, 0int), (0int, 1int, 0int)) == (0int, 0int, 1int)) by (nonlinear_arith) {
                reveal(cross);
            }
        },
        Face::NegZ => {
            assert(corner_of(f, 0) == (1i64, 0i64, 0i64));
            assert(corner_of(f, 1) == (0i64, 0i64, 0i64));
            assert(corner_of(f, 2) == (0i64, 1i64, 0i64));
            assert(corner_of(f, 3) == (1i64, 1i64, 0i64));
            assert(cross((-1int, 0int, 0int), (-1int, 1int, 0int)) == (0int, 0int, -1int)) by (nonlinear_arith) {
                reveal(cross);
            }
            assert(cross((-1int, 1int, 0int), (0int, 1int, 0int)) == (0int, 0int, -1int)) by (nonlinear_arith) {
                reveal(cross);
            }
        },
    }
    assert forall|j: int| 0 <= j < 4 implies on_face_plane(#[trigger] corner_of(f, j), normal_of(f)) && {
        let c = corner_of(f, j);
        0 <= c.0 <= 1 && 0 <= c.1 <= 1 && 0 <= c.2 <= 1
    } by {
        assert(j == 0 || j == 1 || j == 2 || j == 3);
    }
}

/// Position of a mesh vertex.
pub open spec fn position_of(v: MeshVertex) -> (i64, i64, i64) {
    (v.x, v.y, v.z)
}

/// The four vertices of quad `q` of a mesh are the corners of its face.
proof fn lemma_quad_in_mesh(c: Chunk, verts: Seq<MeshVertex>, inds: Seq<u32>, faces: Seq<(int, Face)>, q: int)
    requires
        is_mesh_of(c, verts, inds, faces),
        0 <= q < faces.len(),
    ensures
        verts[4 * q] == c.quad_vertex(faces[q], 0),
        verts[4 * q + 1] == c.quad_vertex(faces[q], 1),
        verts[4 * q + 2] == c.quad_vertex(faces[q], 2),
        verts[4 * q + 3] == c.quad_vertex(faces[q], 3),
{
    assert forall|j: int| 0 <= j < 4 implies #[trigger] verts[4 * q + j] == c.quad_vertex(faces[q], j) by {
        vstd::arithmetic::div_mod::lemma_fundamental_div_mod_converse(4 * q + j, 4, q, j);
        assert(verts[4 * q + j] == c.quad_vertex(faces[(4 * q + j) / 4], (4 * q + j) % 4));
    }
    assert(verts[4 * q + 0] == c.quad_vertex(faces[q], 0));
}

/// Corner `j` of a face's quad sits where the face's corner table puts it,
/// relative to corner 0, and carries the face.
proof fn lemma_quad_offsets(c: Chunk, e: (int, Face), j: int)
    requires
        i32::MIN <= c.position().0 * CHUNK_SIZE <= i32::MAX,
        i32::MIN <= c.position().1 * CHUNK_SIZE <= i32::MAX,
        0 <= e.0 < CHUNK_VOLUME,
        0 <= j < 4,
    ensures
        sub3(position_of(c.quad_vertex(e, j)), position_of(c.quad_vertex(e, 0))) == sub3(
            corner_of(e.1, j),
            corner_of(e.1, 0),
        ),
        c.quad_vertex(e, j).tint.face == e.1,
{
    lemma_corners_wind_outward(e.1);
    let cj = corner_of(e.1, j);
    let c0 = corner_of(e.1, 0);
    assert(0 <= cj.0 <= 1 && 0 <= cj.1 <= 1 && 0 <= cj.2 <= 1);
    assert(0 <= c0.0 <= 1 && 0 <= c0.1 <= 1 && 0 <= c0.2 <= 1);
    assert(0 <= cell_y(e.0) < 64);
    assert(0 <= e.0 / 1024 < 16);
    assert(0 <= e.0 % 16 < 16);
}

/// The quad of one face winds counter-clockwise seen from outside.
proof fn lemma_quad_winds(c: Chunk, e: (int, Face), v0: MeshVertex, v1: MeshVertex, v2: MeshVertex, v3: MeshVertex)
    requires
        i32::MIN <= c.position().0 * CHUNK_SIZE <= i32::MAX,
        i32::MIN <= c.position().1 * CHUNK_SIZE <= i32::MAX,
        0 <= e.0 < CHUNK_VOLUME,
        v0 == c.quad_vertex(e, 0),
        v1 == c.quad_vertex(e, 1),
        v2 == c.quad_vertex(e, 2),
        v3 == c.quad_vertex(e, 3),
    ensures
        v1.tint.face == v0.tint.face,
        v2.tint.face == v0.tint.face,
        v3.tint.face == v0.tint.face,
        cross(sub3(position_of(v1), position_of(v0)), sub3(position_of(v2), position_of(v0))) == normal_of(v0.tint.face),
        cross(sub3(position_of(v2), position_of(v0)), sub3(position_of(v3), position_of(v0))) == normal_of(v0.tint.face),
{
    lemma_quad_offsets(c, e, 0);
    lemma_quad_offsets(c, e, 1);
    lemma_quad_offsets(c, e, 2);
    lemma_quad_offsets(c, e, 3);
    lemma_corners_wind_outward(e.1);
}

/// The four vertices of quad `q`.
pub open spec fn quad_at(verts: Seq<MeshVertex>, q: int) -> Seq<MeshVertex> {
    verts.subrange(4 * q, 4 * q + 4)
}

/// In a chunk's mesh every quad's four vertices belong to one face, and both
/// of its triangles go counter-clockwise seen from the side the face's normal
/// points to, the side of the neighbour that decided the face is drawn.
pub proof fn lemma_mesh_quads_wind_outward(
    c: Chunk,
    verts: Seq<MeshVertex>,
    inds: Seq<u32>,
    faces: Seq<(int, Face)>,
)
    requires
        is_mesh_of(c, verts, inds, faces),
        i32::MIN <= c.position().0 * CHUNK_SIZE <= i32::MAX,
        i32::MIN <= c.position().1 * CHUNK_SIZE <= i32::MAX,
        forall|i: int| 0 <= i < faces.len() ==> 0 <= #[trigger] faces[i].0 < CHUNK_VOLUME,
    ensures
        forall|q: int|
            0 <= q < faces.len() ==> {
                let v = #[trigger] quad_at(verts, q);
                &&& v.len() == 4
                &&& v[1].tint.face == v[0].tint.face
                &&& v[2].tint.face == v[0].tint.face
                &&& v[3].tint.face == v[0].tint.face
                &&& cross(sub3(position_of(v[1]), position_of(v[0])), sub3(position_of(v[2]), position_of(v[0])))
                    == normal_of(v[0].tint.face)
                &&& cross(sub3(position_of(v[2]), position_of(v[0])), sub3(position_of(v[3]), position_of(v[0])))
                    == normal_of(v[0].tint.face)
            },
{
    assert forall|q: int|
        0 <= q < faces.len() implies {
            let v = #[trigger] quad_at(verts, q);
            &&& v.len() == 4
            &&& v[1].tint.face == v[0].tint.face
            &&& v[2].tint.face == v[0].tint.face
            &&& v[3].tint.face == v[0].tint.face
            &&& cross(sub3(position_of(v[1]), position_of(v[0])), sub3(position_of(v[2]), position_of(v[0])))
                == normal_of(v[0].tint.face)
            &&& cross(sub3(position_of(v[2]), position_of(v[0])), sub3(position_of(v[3]), position_of(v[0])))
                == normal_of(v[0].tint.face)
        } by {
        lemma_quad_in_mesh(c, verts, inds, faces, q);
        let v = quad_at(verts, q);
        assert(v[0] == verts[4 * q] && v[1] == verts[4 * q + 1] && v[2] == verts[4 * q + 2] && v[3]
            == verts[4 * q + 3]);
        lemma_quad_winds(c, faces[q], v[0], v[1], v[2], v[3]);
    }
}

/// In a chunk's mesh only top faces are tinted grass: the top of a voxel
/// shows the top material of the voxel just below the quad, every other face
/// a side material.
pub proof fn lemma_mesh_tints(c: Chunk, verts: Seq<MeshVertex>, inds: Seq<u32>, faces: Seq<(int, Face)>)
    requires
        is_mesh_of(c, verts, inds, faces),
        forall|i: int| 0 <= i < faces.len() ==> 0 <= #[trigger] faces[i].0 < CHUNK_VOLUME,
    ensures
        forall|v: int|
            0 <= v < verts.len() ==> {
                let m = #[trigger] verts[v];
                &&& m.tint.face != Face::PosY ==> m.tint.material != Material::Grass
                &&& m.tint.face == Face::PosY ==> m.tint.material == top_material_of(m.y - 1)
            },
{
    assert forall|v: int|
        0 <= v < verts.len() implies {
            let m = #[trigger] verts[v];
            &&& m.tint.face != Face::PosY ==> m.tint.material != Material::Grass
            &&& m.tint.face == Face::PosY ==> m.tint.material == top_material_of(m.y - 1)
        } by {
        let e = faces[v / 4];
        assert(verts[v] == c.quad_vertex(e, v % 4));
        vstd::arithmetic::div_mod::lemma_fundamental_div_mod(v, 4);
        assert(0 <= v / 4 < faces.len());
        lemma_face_materials(e.1, cell_y(e.0));
        lemma_corners_wind_outward(e.1);
        assert(0 <= cell_y(e.0) < 64);
        if e.1 == Face::PosY {
            assert(corner_of(e.1, v % 4).1 == 1);
        }
    }
}

} // verus!
