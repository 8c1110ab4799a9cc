//! A 16 × 64 × 16 column of voxels, filled from a heightmap.

use vstd::prelude::*;
use crate::color::{Material, top_material, side_material, top_material_of, side_material_of};

verus! {

/// Width and depth of a chunk, in voxels.
pub const CHUNK_SIZE: usize = 16;

/// Height of a chunk, in voxels.
pub const CHUNK_HEIGHT: usize = 64;

/// Number of voxels in a chunk.
pub const CHUNK_VOLUME: usize = CHUNK_SIZE * CHUNK_HEIGHT * CHUNK_SIZE;

/// Position of voxel `(x, y, z)` in a chunk's storage: `x` slowest, `z` fastest.
pub open spec fn voxel_index(x: int, y: int, z: int) -> int {
    x * (CHUNK_HEIGHT * CHUNK_SIZE) as int + y * CHUNK_SIZE as int + z
}

/// Whether `(x, y, z)` lies inside a chunk.
pub open spec fn in_chunk(x: int, y: int, z: int) -> bool {
    &&& 0 <= x < CHUNK_SIZE
    &&& 0 <= y < CHUNK_HEIGHT
    &&& 0 <= z < CHUNK_SIZE
}

/// Highest solid voxel of a column whose terrain height is `h`: the height,
/// cut to the top of the chunk.
pub open spec fn column_top(h: int) -> int {
    if h < CHUNK_HEIGHT - 1 {
        h
    } else {
        CHUNK_HEIGHT - 1
    }
}

/// Value of voxel `(x, y, z)` of a chunk made from `heights` (indexed by
/// `x * CHUNK_SIZE + z`): 1 up to and including the column top, 0 above.
pub open spec fn heightmap_voxel(heights: Seq<usize>, x: int, y: int, z: int) -> u8 {
    if y <= column_top(heights[x * CHUNK_SIZE as int + z] as int) {
        1
    } else {
        0
    }
}

/// Coordinates of the voxel stored at position `k`.
pub open spec fn cell_x(k: int) -> int {
    k / (CHUNK_HEIGHT * CHUNK_SIZE) as int
}

pub open spec fn cell_y(k: int) -> int {
    (k / CHUNK_SIZE as int) % CHUNK_HEIGHT as int
}

pub open spec fn cell_z(k: int) -> int {
    k % CHUNK_SIZE as int
}

/// The six faces of a voxel, in the order a mesh emits them.
#[derive(PartialEq, Eq, Structural, Clone, Copy, Debug)]
pub enum Face {
    /// +Y, the top face.
    PosY,
    /// -Y, the bottom face.
    NegY,
    PosX,
    NegX,
    PosZ,
    NegZ,
}

/// The `i`-th face in emission order.
pub open spec fn face_at(i: int) -> Face {
    if i == 0 {
        Face::PosY
    } else if i == 1 {
        Face::NegY
    } else if i == 2 {
        Face::PosX
    } else if i == 3 {
        Face::NegX
    } else if i == 4 {
        Face::PosZ
    } else {
        Face::NegZ
    }
}

/// Outward unit normal of a face: the step to the neighbouring voxel it borders.
pub open spec fn normal_of(f: Face) -> (int, int, int) {
    match f {
        Face::PosY => (0, 1, 0),
        Face::NegY => (0, -1, 0),
        Face::PosX => (1, 0, 0),
        Face::NegX => (-1, 0, 0),
        Face::PosZ => (0, 0, 1),
        Face::NegZ => (0, 0, -1),
    }
}

/// Corner `j` of a face, as an offset from the voxel's lowest corner; the
/// four corners go counter-clockwise seen from outside.
pub open spec fn corner_of(f: Face, j: int) -> (i64, i64, i64) {
    match f {
        Face::PosY => seq![(0i64, 1i64, 0i64), (0, 1, 1), (1, 1, 1), (1, 1, 0)][j],
        Face::NegY => seq![(0i64, 0i64, 0i64), (1, 0, 0), (1, 0, 1), (0, 0, 1)][j],
        Face::PosX => seq![(1i64, 0i64, 1i64), (1, 0, 0), (1, 1, 0), (1, 1, 1)][j],
        Face::NegX => seq![(0i64, 0i64, 0i64), (0, 0, 1), (0, 1, 1), (0, 1, 0)][j],
        Face::PosZ => seq![(0i64, 0i64, 1i64), (1, 0, 1), (1, 1, 1), (0, 1, 1)][j],
        Face::NegZ => seq![(1i64, 0i64, 0i64), (0, 0, 0), (0, 1, 0), (1, 1, 0)][j],
    }
}

/// `a - b`, componentwise.
pub open spec fn sub3(a: (i64, i64, i64), b: (i64, i64, i64)) -> (int, int, int) {
    (a.0 - b.0, a.1 - b.1, a.2 - b.2)
}

/// Cross product `u × v`.
#[verifier::opaque]
pub open spec fn cross(u: (int, int, int), v: (int, int, int)) -> (int, int, int) {
    (u.1 * v.2 - u.2 * v.1, u.2 * v.0 - u.0 * v.2, u.0 * v.1 - u.1 * v.0)
}

/// Whether corner offset `c` lies on the plane of a face with outward
/// normal `n` of the unit cube: coordinate 1 where the normal points up an
/// axis, 0 where it points down.
pub open spec fn on_face_plane(c: (i64, i64, i64), n: (int, int, int)) -> bool {
    &&& (n.0 == 1 ==> c.0 == 1) && (n.0 == -1 ==> c.0 == 0)
    &&& (n.1 == 1 ==> c.1 == 1) && (n.1 == -1 ==> c.1 == 0)
    &&& (n.2 == 1 ==> c.2 == 1) && (n.2 == -1 ==> c.2 == 0)
}

/// Only the top face of a voxel can show grass: every other face shows the
/// side material, which is dirt exactly where the top is grass or dirt, and
/// stone below.
pub proof fn lemma_face_materials(f: Face, y: int)
    ensures
        f == Face::PosY ==> face_material_of(f, y) == top_material_of(y),
        f != Face::PosY ==> face_material_of(f, y) == side_material_of(y),
        f != Face::PosY ==> face_material_of(f, y) != Material::Grass,
        side_material_of(y) != Material::Grass,
        side_material_of(y) == Material::Dirt <==> top_material_of(y) != Material::Stone,
        side_material_of(y) == Material::Stone <==> top_material_of(y) == Material::Stone,
{
}

/// Material a face of a voxel at height `y` shows: the top face shows the
/// top material, every other face the side material.
pub open spec fn face_material_of(f: Face, y: int) -> Material {
    if f == Face::PosY {
        top_material_of(y)
    } else {
        side_material_of(y)
    }
}

impl Face {
    /// The `i`-th face in emission order.
    pub fn nth(i: usize) -> (f: Face)
        requires
            i < 6,
        ensures
            f == face_at(i as int),
    {
        if i == 0 {
            Face::PosY
        } else if i == 1 {
            Face::NegY
        } else if i == 2 {
            Face::PosX
        } else if i == 3 {
            Face::NegX
        } else if i == 4 {
            Face::PosZ
        } else {
            Face::NegZ
        }
    }

    /// Outward unit normal of this face.
    pub fn normal(&self) -> (n: (i32, i32, i32))
        ensures
            (n.0 as int, n.1 as int, n.2 as int) == normal_of(*self),
    {
        match self {
            Face::PosY => (0, 1, 0),
            Face::NegY => (0, -1, 0),
            Face::PosX => (1, 0, 0),
            Face::NegX => (-1, 0, 0),
            Face::PosZ => (0, 0, 1),
            Face::NegZ => (0, 0, -1),
        }
    }

    /// The four corners of this face, as offsets from the voxel's lowest corner.
    pub fn corners(&self) -> (c: [(i64, i64, i64); 4])
        ensures
            forall|j: int| 0 <= j < 4 ==> #[trigger] c@[j] == corner_of(*self, j),
    {
        let c = match self {
            Face::PosY => [(0i64, 1i64, 0i64), (0, 1, 1), (1, 1, 1), (1, 1, 0)],
            Face::NegY => [(0i64, 0i64, 0i64), (1, 0, 0), (1, 0, 1), (0, 0, 1)],
            Face::PosX => [(1i64, 0i64, 1i64), (1, 0, 0), (1, 1, 0), (1, 1, 1)],
            Face::NegX => [(0i64, 0i64, 0i64), (0, 0, 1), (0, 1, 1), (0, 1, 0)],
            Face::PosZ => [(0i64, 0i64, 1i64), (1, 0, 1), (1, 1, 1), (0, 1, 1)],
            Face::NegZ => [(1i64, 0i64, 0i64), (0, 0, 0), (0, 1, 0), (1, 1, 0)],
        };
        c
    }
}

/// What decides a mesh vertex's colour: the material and the face it belongs to
/// (top faces are lit fully, the others darkened by a factor per face).
#[derive(PartialEq, Eq, Structural, Clone, Copy, Debug)]
pub struct Tint {
    pub material: Material,
    pub face: Face,
}

/// A mesh vertex: a world position (voxel corners lie on whole numbers) and its tint.
#[derive(PartialEq, Eq, Structural, Clone, Copy, Debug)]
pub struct MeshVertex {
    pub x: i64,
    pub y: i64,
    pub z: i64,
    pub tint: Tint,
}

/// Index `t` of a quad's six indices, relative to its first vertex: two
/// counter-clockwise triangles, (0, 1, 2) and (0, 2, 3).
pub open spec fn quad_index(t: int) -> int {
    seq![0int, 1, 2, 0, 2, 3][t]
}

/// Whether `verts` and `inds` are the mesh of the face list `faces`: four
/// vertices per face (its corners, in order) and six indices per face
/// (two triangles over those four vertices).
pub open spec fn is_mesh_of(
    c: Chunk,
    verts: Seq<MeshVertex>,
    inds: Seq<u32>,
    faces: Seq<(int, Face)>,
) -> bool {
    &&& verts.len() == 4 * faces.len()
    &&& inds.len() == 6 * faces.len()
    &&& forall|v: int| 0 <= v < verts.len() ==> #[trigger] verts[v] == c.quad_vertex(faces[v / 4], v % 4)
    &&& forall|t: int| 0 <= t < inds.len() ==> #[trigger] inds[t] == 4 * (t / 6) + quad_index(t % 6)
}

/// Storage position `k` holds voxel `(cell_x(k), cell_y(k), cell_z(k))`.
proof fn lemma_cell_coords(x: int, y: int, z: int)
    requires
        in_chunk(x, y, z),
    ensures
        cell_x(voxel_index(x, y, z)) == x,
        cell_y(voxel_index(x, y, z)) == y,
        cell_z(voxel_index(x, y, z)) == z,
        0 <= voxel_index(x, y, z) < CHUNK_VOLUME,
{
    let k = voxel_index(x, y, z);
    vstd::arithmetic::div_mod::lemma_fundamental_div_mod_converse(k, 16, x * 64 + y, z);
    vstd::arithmetic::div_mod::lemma_fundamental_div_mod_converse(x * 64 + y, 64, x, y);
    vstd::arithmetic::div_mod::lemma_fundamental_div_mod_converse(k, 1024, x, y * 16 + z);
}

/// Appending one face's quad to a mesh gives the mesh of the longer face list.
proof fn lemma_push_quad(
    c: Chunk,
    verts: Seq<MeshVertex>,
    inds: Seq<u32>,
    faces: Seq<(int, Face)>,
    entry: (int, Face),
    quad: Seq<MeshVertex>,
    tris: Seq<u32>,
)
    requires
        is_mesh_of(c, verts, inds, faces),
        quad.len() == 4,
        forall|j: int| 0 <= j < 4 ==> #[trigger] quad[j] == c.quad_vertex(entry, j),
        tris == seq![
            verts.len() as u32,
            (verts.len() + 1) as u32,
            (verts.len() + 2) as u32,
            verts.len() as u32,
            (verts.len() + 2) as u32,
            (verts.len() + 3) as u32,
        ],
        verts.len() + 3 <= u32::MAX,
    ensures
        is_mesh_of(c, verts + quad, inds + tris, faces.push(entry)),
{
    let f2 = faces.push(entry);
    let v2 = verts + quad;
    let i2 = inds + tris;
    let l = faces.len() as int;
    assert forall|v: int| 0 <= v < v2.len() implies #[trigger] v2[v] == c.quad_vertex(f2[v / 4], v % 4) by {
        if v < verts.len() {
            vstd::arithmetic::div_mod::lemma_fundamental_div_mod_converse(v, 4, v / 4, v % 4);
            assert(v / 4 < l);
        } else {
            vstd::arithmetic::div_mod::lemma_fundamental_div_mod_converse(v, 4, l, v - 4 * l);
            assert(v2[v] == quad[v - 4 * l]);
        }
    }
    assert forall|t: int| 0 <= t < i2.len() implies #[trigger] i2[t] == 4 * (t / 6) + quad_index(t % 6) by {
        if t >= inds.len() {
            vstd::arithmetic::div_mod::lemma_fundamental_div_mod_converse(t, 6, l, t - 6 * l);
            assert(i2[t] == tris[t - 6 * l]);
        }
    }
}

/// Position of a face in emission order.
pub open spec fn face_order(f: Face) -> int {
    match f {
        Face::PosY => 0,
        Face::NegY => 1,
        Face::PosX => 2,
        Face::NegX => 3,
        Face::PosZ => 4,
        Face::NegZ => 5,
    }
}

/// Face culling: a chunk's mesh has a quad for a face exactly when the face
/// belongs to a solid voxel and borders a voxel that is not solid (every
/// position outside the chunk counts as air), and no face has two quads.
pub proof fn lemma_face_culling(c: Chunk)
    requires
        c.wf(),
    ensures
        forall|e: (int, Face)|
            #[trigger] c.mesh_faces(CHUNK_VOLUME as nat).contains(e) ==> {
                &&& in_chunk(cell_x(e.0), cell_y(e.0), cell_z(e.0))
                &&& e.0 == voxel_index(cell_x(e.0), cell_y(e.0), cell_z(e.0))
                &&& c.face_visible(cell_x(e.0), cell_y(e.0), cell_z(e.0), e.1)
            },
        forall|x: int, y: int, z: int, f: Face|
            in_chunk(x, y, z) && #[trigger] c.face_visible(x, y, z, f) ==> c.mesh_faces(
                CHUNK_VOLUME as nat,
            ).contains((voxel_index(x, y, z), f)),
        c.mesh_faces(CHUNK_VOLUME as nat).no_duplicates(),
{
    c.lemma_mesh_faces_members(CHUNK_VOLUME as nat);
    c.lemma_mesh_faces_ordered(CHUNK_VOLUME as nat);
    let faces = c.mesh_faces(CHUNK_VOLUME as nat);
    assert forall|a: int, b: int| 0 <= a < faces.len() && 0 <= b < faces.len() && a != b implies faces[a]
        != faces[b] by {
        if a < b {
            assert(faces[a].0 < faces[b].0 || face_order(faces[a].1) < face_order(faces[b].1));
        } else {
            assert(faces[b].0 < faces[a].0 || face_order(faces[b].1) < face_order(faces[a].1));
        }
    }
    assert forall|e: (int, Face)| #[trigger] c.mesh_faces(CHUNK_VOLUME as nat).contains(e) implies {
        &&& in_chunk(cell_x(e.0), cell_y(e.0), cell_z(e.0))
        &&& e.0 == voxel_index(cell_x(e.0), cell_y(e.0), cell_z(e.0))
        &&& c.face_visible(cell_x(e.0), cell_y(e.0), cell_z(e.0), e.1)
    } by {
        vstd::arithmetic::div_mod::lemma_fundamental_div_mod(e.0, 16);
        vstd::arithmetic::div_mod::lemma_fundamental_div_mod(e.0 / 16, 64);
        vstd::arithmetic::div_mod::lemma_div_denominator(e.0, 16, 64);
    }
    assert forall|x: int, y: int, z: int, f: Face|
        in_chunk(x, y, z) && #[trigger] c.face_visible(x, y, z, f) implies c.mesh_faces(
            CHUNK_VOLUME as nat,
        ).contains((voxel_index(x, y, z), f)) by {
        lemma_cell_coords(x, y, z);
        let j = face_order(f);
        assert(face_at(j) == f);
        assert(c.face_visible(cell_x(voxel_index(x, y, z)), cell_y(voxel_index(x, y, z)), cell_z(voxel_index(x, y, z)), face_at(j)));
    }
}

/// Every index of a mesh names one of its vertices.
pub proof fn lemma_mesh_indices_in_range(
    c: Chunk,
    verts: Seq<MeshVertex>,
    inds: Seq<u32>,
    faces: Seq<(int, Face)>,
)
    requires
        is_mesh_of(c, verts, inds, faces),
    ensures
        forall|t: int| 0 <= t < inds.len() ==> #[trigger] inds[t] < verts.len(),
{
    assert forall|t: int| 0 <= t < inds.len() implies #[trigger] inds[t] < verts.len() by {
        vstd::arithmetic::div_mod::lemma_fundamental_div_mod(t, 6);
        assert(t / 6 < faces.len());
    }
}

/// Distinct voxels of a chunk have distinct storage positions, all inside
/// the chunk's storage.
pub proof fn lemma_voxel_index_injective(x1: int, y1: int, z1: int, x2: int, y2: int, z2: int)
    requires
        in_chunk(x1, y1, z1),
        in_chunk(x2, y2, z2),
    ensures
        0 <= voxel_index(x1, y1, z1) < CHUNK_VOLUME,
        voxel_index(x1, y1, z1) == voxel_index(x2, y2, z2) ==> x1 == x2 && y1 == y2 && z1 == z2,
{
    lemma_cell_coords(x1, y1, z1);
    lemma_cell_coords(x2, y2, z2);
}

/// One chunk of terrain: which voxels are solid, and where the chunk lies
/// in the world, counted in chunks.
pub struct Chunk {
    /// Voxel values in `voxel_index` order; nonzero is solid.
    pub voxels: Vec<u8>,
    pub chunk_x: i32,
    pub chunk_z: i32,
}

impl Chunk {
    /// The voxel values, in `voxel_index` order.
    pub open spec fn cells(&self) -> Seq<u8> {
        self.voxels@
    }

    /// Position of the chunk in the world, counted in chunks along x and z.
    pub open spec fn position(&self) -> (i32, i32) {
        (self.chunk_x, self.chunk_z)
    }

    /// Whether face `f` of voxel `(x, y, z)` is visible: the voxel is solid
    /// and the voxel it borders is not (everything outside the chunk is air).
    pub open spec fn face_visible(&self, x: int, y: int, z: int, f: Face) -> bool {
        let (nx, ny, nz) = normal_of(f);
        self.solid(x, y, z) && !self.solid(x + nx, y + ny, z + nz)
    }

    /// Visible faces among the first `i` faces of the voxel stored at `k`.
    pub open spec fn cell_faces(&self, k: int, i: nat) -> Seq<(int, Face)>
        decreases i,
    {
        if i == 0 {
            Seq::empty()
        } else {
            let f = face_at(i - 1);
            let rest = self.cell_faces(k, (i - 1) as nat);
            if self.face_visible(cell_x(k), cell_y(k), cell_z(k), f) {
                rest.push((k, f))
            } else {
                rest
            }
        }
    }

    /// Visible faces of the voxels stored before position `k`, voxel by voxel
    /// and each voxel's faces in emission order.
    pub open spec fn mesh_faces(&self, k: nat) -> Seq<(int, Face)>
        decreases k,
    {
        if k == 0 {
            Seq::empty()
        } else {
            self.mesh_faces((k - 1) as nat) + self.cell_faces(k - 1, 6)
        }
    }

    /// Corner `j` of the face `entry` (storage position and face) as a mesh vertex.
    pub open spec fn quad_vertex(&self, entry: (int, Face), j: int) -> MeshVertex {
        let (k, f) = entry;
        let (cx, cz) = self.position();
        let (ox, oy, oz) = corner_of(f, j);
        MeshVertex {
            x: (cx * CHUNK_SIZE + cell_x(k) + ox) as i64,
            y: (cell_y(k) + oy) as i64,
            z: (cz * CHUNK_SIZE + cell_z(k) + oz) as i64,
            tint: Tint { material: face_material_of(f, cell_y(k)), face: f },
        }
    }

    /// A voxel has at most `i` visible faces among its first `i`, and none
    /// when it is not solid.
    proof fn lemma_cell_faces_len(&self, k: int, i: nat)
        ensures
            self.cell_faces(k, i).len() <= i,
            !self.solid(cell_x(k), cell_y(k), cell_z(k)) ==> self.cell_faces(k, i).len() == 0,
        decreases i,
    {
        if i > 0 {
            self.lemma_cell_faces_len(k, (i - 1) as nat);
        }
    }

    /// The voxels before position `k` have at most six visible faces each.
    proof fn lemma_mesh_faces_len(&self, k: nat)
        ensures
            self.mesh_faces(k).len() <= 6 * k,
        decreases k,
    {
        if k > 0 {
            self.lemma_mesh_faces_len((k - 1) as nat);
            self.lemma_cell_faces_len(k - 1, 6);
        }
    }

    /// The visible faces among a voxel's first `i` are exactly the visible
    /// ones of `face_at(0..i)`, each tagged with the voxel's position.
    proof fn lemma_cell_faces_members(&self, k: int, i: nat)
        requires
            i <= 6,
        ensures
            forall|e: (int, Face)|
                #[trigger] self.cell_faces(k, i).contains(e) ==> e.0 == k && self.face_visible(
                    cell_x(k),
                    cell_y(k),
                    cell_z(k),
                    e.1,
                ),
            forall|j: int|
                0 <= j < i && self.face_visible(cell_x(k), cell_y(k), cell_z(k), #[trigger] face_at(j))
                    ==> self.cell_faces(k, i).contains((k, face_at(j))),
        decreases i,
    {
        if i > 0 {
            self.lemma_cell_faces_members(k, (i - 1) as nat);
            let rest = self.cell_faces(k, (i - 1) as nat);
            let f = face_at(i - 1);
            if self.face_visible(cell_x(k), cell_y(k), cell_z(k), f) {
                assert forall|e: (int, Face)| #[trigger] rest.push((k, f)).contains(e) implies e.0 == k
                    && self.face_visible(cell_x(k), cell_y(k), cell_z(k), e.1) by {
                    if e != (k, f) {
                        let n = choose|n: int| 0 <= n < rest.push((k, f)).len() && rest.push((k, f))[n] == e;
                        assert(rest[n] == e);
                        assert(rest.contains(e));
                    }
                }
                assert(rest.push((k, f))[rest.len() as int] == (k, f));
                assert forall|j: int|
                    0 <= j < i && self.face_visible(cell_x(k), cell_y(k), cell_z(k), #[trigger] face_at(j))
                        implies rest.push((k, f)).contains((k, face_at(j))) by {
                    if j < i - 1 {
                        let n = choose|n: int| 0 <= n < rest.len() && rest[n] == (k, face_at(j));
                        assert(rest.push((k, f))[n] == (k, face_at(j)));
                    }
                }
            }
        }
    }

    /// The faces listed for the voxels before `k` are visible faces of those
    /// voxels, and every visible face of those voxels is listed.
    proof fn lemma_mesh_faces_members(&self, k: nat)
        ensures
            forall|e: (int, Face)|
                #[trigger] self.mesh_faces(k).contains(e) ==> 0 <= e.0 < k && self.face_visible(
                    cell_x(e.0),
                    cell_y(e.0),
                    cell_z(e.0),
                    e.1,
                ),
            forall|k1: int, j: int|
                0 <= k1 < k && 0 <= j < 6 && self.face_visible(
                    cell_x(k1),
                    cell_y(k1),
                    cell_z(k1),
                    #[trigger] face_at(j),
                ) ==> #[trigger] self.mesh_faces(k).contains((k1, face_at(j))),
        decreases k,
    {
        if k > 0 {
            let prev = self.mesh_faces((k - 1) as nat);
            let cell = self.cell_faces(k - 1, 6);
            self.lemma_mesh_faces_members((k - 1) as nat);
            self.lemma_cell_faces_members(k - 1, 6);
            assert(self.mesh_faces(k) == prev + cell);
            assert forall|e: (int, Face)| #[trigger] (prev + cell).contains(e) implies 0 <= e.0 < k
                && self.face_visible(cell_x(e.0), cell_y(e.0), cell_z(e.0), e.1) by {
                let n = choose|n: int| 0 <= n < (prev + cell).len() && (prev + cell)[n] == e;
                if n < prev.len() {
                    assert(prev[n] == e);
                    assert(prev.contains(e));
                } else {
                    assert(cell[n - prev.len()] == e);
                    assert(cell.contains(e));
                }
            }
            assert forall|k1: int, j: int|
                0 <= k1 < k && 0 <= j < 6 && self.face_visible(
                    cell_x(k1),
                    cell_y(k1),
                    cell_z(k1),
                    #[trigger] face_at(j),
                ) implies #[trigger] (prev + cell).contains((k1, face_at(j))) by {
                if k1 < k - 1 {
                    assert(prev.contains((k1, face_at(j))));
                    let n = choose|n: int| 0 <= n < prev.len() && prev[n] == (k1, face_at(j));
                    assert((prev + cell)[n] == (k1, face_at(j)));
                } else {
                    assert(cell.contains((k1, face_at(j))));
                    let n = choose|n: int| 0 <= n < cell.len() && cell[n] == (k1, face_at(j));
                    assert((prev + cell)[prev.len() + n] == (k1, face_at(j)));
                }
            }
        }
    }

    /// A voxel's listed faces are in emission order, each at most once.
    proof fn lemma_cell_faces_ordered(&self, k: int, i: nat)
        requires
            i <= 6,
        ensures
            forall|a: int|
                0 <= a < self.cell_faces(k, i).len() ==> #[trigger] self.cell_faces(k, i)[a].0 == k
                    && 0 <= face_order(self.cell_faces(k, i)[a].1) < i,
            forall|a: int, b: int|
                0 <= a < b < self.cell_faces(k, i).len() ==> face_order(
                    #[trigger] self.cell_faces(k, i)[a].1,
                ) < face_order(#[trigger] self.cell_faces(k, i)[b].1),
        decreases i,
    {
        if i > 0 {
            self.lemma_cell_faces_ordered(k, (i - 1) as nat);
            let f = face_at(i - 1);
            assert(face_order(f) == i - 1);
            let rest = self.cell_faces(k, (i - 1) as nat);
            let all = self.cell_faces(k, i);
            if self.face_visible(cell_x(k), cell_y(k), cell_z(k), f) {
                assert(all == rest.push((k, f)));
                assert forall|a: int| 0 <= a < all.len() implies #[trigger] all[a].0 == k && 0 <= face_order(
                    all[a].1,
                ) < i by {
                    if a < rest.len() {
                        assert(all[a] == rest[a]);
                    }
                }
                assert forall|a: int, b: int| 0 <= a < b < all.len() implies face_order(
                    #[trigger] all[a].1,
                ) < face_order(#[trigger] all[b].1) by {
                    assert(all[a] == rest[a]);
                    assert(rest[a].0 == k);
                    if b < rest.len() {
                        assert(all[b] == rest[b]);
                    } else {
                        assert(all[b] == (k, f));
                    }
                }
            } else {
                assert(all == rest);
            }
        }
    }

    /// The listed faces go voxel by voxel, and within a voxel in emission
    /// order, so none is listed twice.
    proof fn lemma_mesh_faces_ordered(&self, k: nat)
        ensures
            forall|a: int|
                0 <= a < self.mesh_faces(k).len() ==> 0 <= #[trigger] self.mesh_faces(k)[a].0 < k,
            forall|a: int, b: int|
                #![trigger self.mesh_faces(k)[a], self.mesh_faces(k)[b]]
                0 <= a < b < self.mesh_faces(k).len() ==> self.mesh_faces(k)[a].0 < self.mesh_faces(
                    k,
                )[b].0 || (self.mesh_faces(k)[a].0 == self.mesh_faces(k)[b].0 && face_order(
                    self.mesh_faces(k)[a].1,
                ) < face_order(self.mesh_faces(k)[b].1)),
        decreases k,
    {
        if k > 0 {
            self.lemma_mesh_faces_ordered((k - 1) as nat);
            self.lemma_cell_faces_ordered(k - 1, 6);
            let prev = self.mesh_faces((k - 1) as nat);
            let cell = self.cell_faces(k - 1, 6);
            assert(self.mesh_faces(k) == prev + cell);
            assert forall|a: int| 0 <= a < (prev + cell).len() implies 0 <= #[trigger] (prev + cell)[a].0 < k by {
                if a >= prev.len() {
                    assert(cell[a - prev.len()].0 == k - 1);
                }
            }
            assert forall|a: int, b: int|
                #![trigger (prev + cell)[a], (prev + cell)[b]]
                0 <= a < b < (prev + cell).len() implies (prev + cell)[a].0 < (prev + cell)[b].0 || ((
                prev + cell)[a].0 == (prev + cell)[b].0 && face_order((prev + cell)[a].1) < face_order(
                (prev + cell)[b].1)) by {
                if b < prev.len() {
                    assert((prev + cell)[a] == prev[a] && (prev + cell)[b] == prev[b]);
                } else if a < prev.len() {
                    assert(prev[a].0 < k - 1);
                    assert(cell[b - prev.len()].0 == k - 1);
                } else {
                    assert(cell[a - prev.len()].0 == k - 1);
                    assert(face_order(cell[a - prev.len()].1) < face_order(cell[b - prev.len()].1));
                }
            }
        }
    }

    /// A chunk holds exactly one value per voxel.
    pub open spec fn wf(&self) -> bool {
        self.cells().len() == CHUNK_VOLUME
    }

    /// Whether `(x, y, z)` is a solid voxel; nothing outside the chunk is.
    pub open spec fn solid(&self, x: int, y: int, z: int) -> bool {
        in_chunk(x, y, z) && self.cells()[voxel_index(x, y, z)] != 0
    }

    /// Builds the chunk at `(chunk_x, chunk_z)` from the terrain height of each
    /// of its columns (`heights[x * CHUNK_SIZE + z]`): every voxel from the
    /// bottom up to the height, cut to the top of the chunk, is solid.
    pub fn generate(heights: &Vec<usize>, chunk_x: i32, chunk_z: i32) -> (c: Self)
        requires
            heights.len() == CHUNK_SIZE * CHUNK_SIZE,
        ensures
            c.wf(),
            c.position() == (chunk_x, chunk_z),
            forall|x: int, y: int, z: int|
                in_chunk(x, y, z) ==> #[trigger] c.cells()[voxel_index(x, y, z)]
                    == heightmap_voxel(heights@, x, y, z),
    {
        let mut voxels: Vec<u8> = vec![0u8; CHUNK_VOLUME];
        assert forall|x1: int, y1: int, z1: int| in_chunk(x1, y1, z1) implies #[trigger] voxels@[voxel_index(
            x1,
            y1,
            z1,
        )] == 0u8 by {
            lemma_cell_coords(x1, y1, z1);
        }
        for x in 0..CHUNK_SIZE
            invariant
                heights.len() == CHUNK_SIZE * CHUNK_SIZE,
                voxels.len() == CHUNK_VOLUME,
                forall|x1: int, y1: int, z1: int|
                    in_chunk(x1, y1, z1) ==> #[trigger] voxels@[voxel_index(x1, y1, z1)] == if x1
                        < x {
                        heightmap_voxel(heights@, x1, y1, z1)
                    } else {
                        0u8
                    },
        {
            for z in 0..CHUNK_SIZE
                invariant
                    x < CHUNK_SIZE,
                    heights.len() == CHUNK_SIZE * CHUNK_SIZE,
                    voxels.len() == CHUNK_VOLUME,
                    forall|x1: int, y1: int, z1: int|
                        in_chunk(x1, y1, z1) ==> #[trigger] voxels@[voxel_index(x1, y1, z1)]
                            == if x1 < x || (x1 == x && z1 < z) {
                            heightmap_voxel(heights@, x1, y1, z1)
                        } else {
                            0u8
                        },
            {
                let h = heights[x * CHUNK_SIZE + z].min(CHUNK_HEIGHT - 1);
                assert(h == column_top(heights@[x * CHUNK_SIZE + z] as int));
                for y in 0..h + 1
                    invariant
                        x < CHUNK_SIZE,
                        z < CHUNK_SIZE,
                        h < CHUNK_HEIGHT,
                        h == column_top(heights@[x * CHUNK_SIZE + z] as int),
                        heights.len() == CHUNK_SIZE * CHUNK_SIZE,
                        voxels.len() == CHUNK_VOLUME,
                        forall|x1: int, y1: int, z1: int|
                            in_chunk(x1, y1, z1) ==> #[trigger] voxels@[voxel_index(x1, y1, z1)]
                                == if x1 < x || (x1 == x && z1 < z) || (x1 == x && z1 == z && y1
                                < y) {
                                heightmap_voxel(heights@, x1, y1, z1)
                            } else {
                                0u8
                            },
                {
                    proof {
                        lemma_cell_coords(x as int, y as int, z as int);
                    }
                    let i = Self::idx(x, y, z);
                    voxels[i] = 1;
                }
            }
        }
        Chunk { voxels, chunk_x, chunk_z }
    }

    /// Storage position of voxel `(x, y, z)`.
    pub fn idx(x: usize, y: usize, z: usize) -> (i: usize)
        requires
            x * (CHUNK_HEIGHT * CHUNK_SIZE) + y * CHUNK_SIZE + z <= usize::MAX,
        ensures
            i == voxel_index(x as int, y as int, z as int),
    {
        assert(x * CHUNK_HEIGHT <= x * (CHUNK_HEIGHT * CHUNK_SIZE)) by (nonlinear_arith);
        assert(x * CHUNK_HEIGHT * CHUNK_SIZE == x * (CHUNK_HEIGHT * CHUNK_SIZE)) by (nonlinear_arith);
        x * CHUNK_HEIGHT * CHUNK_SIZE + y * CHUNK_SIZE + z
    }

    /// The chunk's mesh: for every solid voxel, in storage order, each face
    /// (in `Face` order) that borders a voxel that is not solid, as a quad of
    /// four vertices at the face's corners in world coordinates and six
    /// indices forming two triangles. Top faces carry the top material of
    /// the voxel's height, other faces the side material.
    pub fn build_mesh(&self) -> (mesh: (Vec<MeshVertex>, Vec<u32>))
        requires
            self.wf(),
            i32::MIN <= self.position().0 * CHUNK_SIZE <= i32::MAX,
            i32::MIN <= self.position().1 * CHUNK_SIZE <= i32::MAX,
        ensures
            is_mesh_of(*self, mesh.0@, mesh.1@, self.mesh_faces(CHUNK_VOLUME as nat)),
    {
        let mut vertices: Vec<MeshVertex> = Vec::new();
        let mut indices: Vec<u32> = Vec::new();

        let ox = (self.chunk_x * CHUNK_SIZE as i32) as i64;
        let oz = (self.chunk_z * CHUNK_SIZE as i32) as i64;
        proof {
            assert(voxel_index(0, 0, 0) == 0);
            assert(self.mesh_faces(0) =~= Seq::<(int, Face)>::empty());
        }

        for x in 0..CHUNK_SIZE
            invariant
                self.wf(),
                ox == self.position().0 * CHUNK_SIZE,
                oz == self.position().1 * CHUNK_SIZE,
                is_mesh_of(*self, vertices@, indices@, self.mesh_faces(voxel_index(x as int, 0, 0) as nat)),
        {
            for y in 0..CHUNK_HEIGHT
                invariant
                    self.wf(),
                    x < CHUNK_SIZE,
                    ox == self.position().0 * CHUNK_SIZE,
                    oz == self.position().1 * CHUNK_SIZE,
                    is_mesh_of(*self, vertices@, indices@, self.mesh_faces(voxel_index(x as int, y as int, 0) as nat)),
            {
                for z in 0..CHUNK_SIZE
                    invariant
                        self.wf(),
                        x < CHUNK_SIZE,
                        y < CHUNK_HEIGHT,
                        ox == self.position().0 * CHUNK_SIZE,
                        oz == self.position().1 * CHUNK_SIZE,
                        is_mesh_of(
                            *self,
                            vertices@,
                            indices@,
                            self.mesh_faces(voxel_index(x as int, y as int, z as int) as nat),
                        ),
                {
                    assert(x * (CHUNK_HEIGHT * CHUNK_SIZE) + y * CHUNK_SIZE + z < CHUNK_VOLUME) by (nonlinear_arith)
                        requires
                            x < CHUNK_SIZE,
                            y < CHUNK_HEIGHT,
                            z < CHUNK_SIZE,
                    ;
                    let k = Self::idx(x, y, z);
                    let ghost before = self.mesh_faces(k as nat);
                    proof {
                        lemma_cell_coords(x as int, y as int, z as int);
                        self.lemma_mesh_faces_len(k as nat);
                        self.lemma_cell_faces_len(k as int, 6);
                        assert(self.mesh_faces((k + 1) as nat) == before + self.cell_faces(k as int, 6));
                    }
                    if self.voxels[k] == 0 {
                        // Empty voxels have no faces.
                        proof {
                            assert(before + self.cell_faces(k as int, 6) =~= before);
                        }
                    } else {
                        let fx = ox + x as i64;
                        let fy = y as i64;
                        let fz = oz + z as i64;
                        let xi = x as i32;
                        let yi = y as i32;
                        let zi = z as i32;

                        for i in 0..6
                            invariant
                                self.wf(),
                                in_chunk(x as int, y as int, z as int),
                                k == voxel_index(x as int, y as int, z as int),
                                self.solid(x as int, y as int, z as int),
                                cell_x(k as int) == x && cell_y(k as int) == y && cell_z(k as int) == z,
                                fx == self.position().0 * CHUNK_SIZE + x,
                                fy == y,
                                fz == self.position().1 * CHUNK_SIZE + z,
                                xi == x && yi == y && zi == z,
                                before == self.mesh_faces(k as nat),
                                before.len() <= 6 * k,
                                k < CHUNK_VOLUME,
                                is_mesh_of(*self, vertices@, indices@, before + self.cell_faces(k as int, i as nat)),
                        {
                            let face = Face::nth(i);
                            let (nx, ny, nz) = face.normal();
                            let ghost faces = before + self.cell_faces(k as int, i as nat);
                            proof {
                                self.lemma_cell_faces_len(k as int, i as nat);
                            }
                            if !self.is_solid(xi + nx, yi + ny, zi + nz) {
                                let c = face.corners();
                                let tint = Tint { material: face_material(face, y), face };
                                let ghost entry = (k as int, face);
                                let v0 = MeshVertex { x: fx + c[0].0, y: fy + c[0].1, z: fz + c[0].2, tint };
                                let v1 = MeshVertex { x: fx + c[1].0, y: fy + c[1].1, z: fz + c[1].2, tint };
                                let v2 = MeshVertex { x: fx + c[2].0, y: fy + c[2].1, z: fz + c[2].2, tint };
                                let v3 = MeshVertex { x: fx + c[3].0, y: fy + c[3].1, z: fz + c[3].2, tint };
                                let ghost old_v = vertices@;
                                let ghost old_i = indices@;
                                add_face(&mut vertices, &mut indices, v0, v1, v2, v3);
                                proof {
                                    let quad = seq![v0, v1, v2, v3];
                                    assert forall|j: int| 0 <= j < 4 implies #[trigger] quad[j] == self.quad_vertex(entry, j) by {
                                        assert(c@[j] == corner_of(face, j));
                                    }
                                    let tris = seq![
                                        old_v.len() as u32,
                                        (old_v.len() + 1) as u32,
                                        (old_v.len() + 2) as u32,
                                        old_v.len() as u32,
                                        (old_v.len() + 2) as u32,
                                        (old_v.len() + 3) as u32,
                                    ];
                                    lemma_push_quad(*self, old_v, old_i, faces, entry, quad, tris);
                                    assert(self.face_visible(x as int, y as int, z as int, face));
                                    assert(self.cell_faces(k as int, (i + 1) as nat) == self.cell_faces(k as int, i as nat).push(entry));
                                    assert(faces.push(entry) =~= before + self.cell_faces(k as int, (i + 1) as nat));
                                }
                            } else {
                                proof {
                                    assert(!self.face_visible(x as int, y as int, z as int, face));
                                    assert(self.cell_faces(k as int, (i + 1) as nat) == self.cell_faces(k as int, i as nat));
                                    assert(faces =~= before + self.cell_faces(k as int, (i + 1) as nat));
                                }
                            }
                        }
                    }
                }
            }
        }
        (vertices, indices)
    }

    /// Whether `(x, y, z)` is a solid voxel of this chunk; coordinates outside
    /// the chunk are never solid.
    pub fn is_solid(&self, x: i32, y: i32, z: i32) -> (b: bool)
        requires
            self.wf(),
        ensures
            b == self.solid(x as int, y as int, z as int),
    {
        if x < 0 || y < 0 || z < 0 || x >= CHUNK_SIZE as i32 || y >= CHUNK_HEIGHT as i32 || z
            >= CHUNK_SIZE as i32 {
            return false;
        }
        proof {
            lemma_cell_coords(x as int, y as int, z as int);
        }
        self.voxels[Self::idx(x as usize, y as usize, z as usize)] != 0
    }
}

/// Material that face `f` of a voxel at height `y` shows.
pub fn face_material(f: Face, y: usize) -> (m: Material)
    ensures
        m == face_material_of(f, y as int),
        f == Face::PosY ==> m == top_material_of(y as int),
        f != Face::PosY ==> m == side_material_of(y as int) && m != Material::Grass,
{
    if f == Face::PosY {
        top_material(y)
    } else {
        side_material(y)
    }
}

/// Appends one quad: its four vertices, and six indices forming the
/// triangles (v0, v1, v2) and (v0, v2, v3).
fn add_face(
    vertices: &mut Vec<MeshVertex>,
    indices: &mut Vec<u32>,
    v0: MeshVertex,
    v1: MeshVertex,
    v2: MeshVertex,
    v3: MeshVertex,
)
    requires
        old(vertices)@.len() + 3 <= u32::MAX,
    ensures
        final(vertices)@ == old(vertices)@ + seq![v0, v1, v2, v3],
        final(indices)@ == old(indices)@ + seq![
            old(vertices)@.len() as u32,
            (old(vertices)@.len() + 1) as u32,
            (old(vertices)@.len() + 2) as u32,
            old(vertices)@.len() as u32,
            (old(vertices)@.len() + 2) as u32,
            (old(vertices)@.len() + 3) as u32,
        ],
{
    let base = vertices.len() as u32;
    vertices.push(v0);
    vertices.push(v1);
    vertices.push(v2);
    vertices.push(v3);
    indices.push(base);
    indices.push(base + 1);
    indices.push(base + 2);
    indices.push(base);
    indices.push(base + 2);
    indices.push(base + 3);
    proof {
        assert(vertices@ =~= old(vertices)@ + seq![v0, v1, v2, v3]);
    }
}

} // verus!
