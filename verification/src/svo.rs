//! A sparse voxel octree over a cubic voxel grid.
//!
//! Each node holds eight child descriptors, one per octant:
//! 0 is an empty subtree, a descriptor with the high bit set is a solid leaf
//! whose low 24 bits are its packed RGB8 colour, and any other value is the
//! index of a node in the node list. Slot 0 of that list is reserved, so a
//! child of 0 can only mean "empty".

use vstd::prelude::*;
use crate::color::{packed_rgb_of, top_material_of, voxel_color_packed};

verus! {

/// Side length of the cubic octree world, in voxels (a power of two).
pub const SVO_SIZE: u32 = 512;

/// High bit of a descriptor: set on solid leaves.
pub const LEAF_FLAG: u32 = 0x8000_0000;

/// One interior node of the octree: the descriptors of its eight octants,
/// octant `o` being the child whose x, y, z halves are bits 0, 1, 2 of `o`.
#[derive(Clone, Copy, Debug)]
pub struct SvoNode {
    pub children: [u32; 8],
}

/// A leaf descriptor has the leaf flag set and its voxel's colour in the low
/// 24 bits; an interior node's index, being below the flag, never looks like one.
pub proof fn lemma_leaf_descriptor(y: int)
    ensures
        leaf_descriptor(y) >= LEAF_FLAG,
        leaf_descriptor(y) & 0x00FF_FFFFu32 == packed_rgb_of(top_material_of(y)),
        packed_rgb_of(top_material_of(y)) < 0x100_0000,
{
    let c = packed_rgb_of(top_material_of(y));
    assert(c < 0x100_0000);
    let d = leaf_descriptor(y);
    assert(d == LEAF_FLAG + c);
    assert((LEAF_FLAG + c) as u32 & 0x00FF_FFFFu32 == c) by (bit_vector)
        requires
            c < 0x100_0000u32,
    ;
}

/// Whether `s` is a power of two.
pub open spec fn is_pow2(s: nat) -> bool
    decreases s,
{
    if s <= 1 {
        s == 1
    } else {
        s % 2 == 0 && is_pow2(s / 2)
    }
}

/// Most nodes that building a subtree of side `size` can add: one per
/// interior cube.
pub open spec fn node_budget(size: nat) -> nat
    decreases size,
{
    if size <= 1 {
        0
    } else {
        1 + 8 * node_budget(size / 2)
    }
}

/// Descriptor of a solid voxel at height `y`: the leaf flag and its colour.
pub open spec fn leaf_descriptor(y: int) -> u32 {
    (LEAF_FLAG + packed_rgb_of(top_material_of(y))) as u32
}

/// Descriptor that voxel `(x, y, z)` of a grid with side `n` (stored with
/// index `x * n * n + y * n + z`) should have: a leaf if it is inside the grid
/// and nonzero, else 0.
pub open spec fn voxel_descriptor(grid: Seq<u8>, n: int, x: int, y: int, z: int) -> u32 {
    if 0 <= x < n && 0 <= y < n && 0 <= z < n && grid[x * n * n + y * n + z] != 0 {
        leaf_descriptor(y)
    } else {
        0
    }
}

/// Whether every voxel of the cube with corner `(x, y, z)` and side `size` is empty.
pub open spec fn cube_empty(grid: Seq<u8>, n: int, x: int, y: int, z: int, size: int) -> bool {
    forall|dx: int, dy: int, dz: int|
        0 <= dx < size && 0 <= dy < size && 0 <= dz < size ==> #[trigger] voxel_descriptor(
            grid,
            n,
            x + dx,
            y + dy,
            z + dz,
        ) == 0
}

/// Octant that the voxel at offset `(dx, dy, dz)` of a cube with half side
/// `half` falls in: bit 0, 1, 2 set for the upper half along x, y, z.
pub open spec fn octant_of(dx: int, dy: int, dz: int, half: int) -> int {
    (if dx >= half { 1int } else { 0int }) + (if dy >= half { 2int } else { 0int }) + (if dz
        >= half {
        4int
    } else {
        0int
    })
}

/// Offset within its octant of an offset `d` in a cube with half side `half`.
pub open spec fn within(d: int, half: int) -> int {
    if d >= half {
        d - half
    } else {
        d
    }
}

/// Offsets of octant `o`'s corner along x, y and z.
pub open spec fn corner_x(o: int, half: int) -> int {
    if o % 2 == 1 {
        half
    } else {
        0
    }
}

pub open spec fn corner_y(o: int, half: int) -> int {
    if (o / 2) % 2 == 1 {
        half
    } else {
        0
    }
}

pub open spec fn corner_z(o: int, half: int) -> int {
    if o / 4 == 1 {
        half
    } else {
        0
    }
}

/// What a descent from descriptor `d`, for a cube of side `size`, finds at
/// offset `(dx, dy, dz)`: the first empty or leaf descriptor on the way down.
pub open spec fn lookup(nodes: Seq<SvoNode>, d: u32, size: nat, dx: int, dy: int, dz: int) -> u32
    decreases size,
{
    if size <= 1 || d == 0 || d >= LEAF_FLAG {
        d
    } else if d < nodes.len() {
        let half = size / 2;
        let o = octant_of(dx, dy, dz, half as int);
        lookup(
            nodes,
            nodes[d as int].children@[o],
            half,
            within(dx, half as int),
            within(dy, half as int),
            within(dz, half as int),
        )
    } else {
        0
    }
}

/// Whether descriptor `d` is a well-formed subtree of side `size` in `nodes`:
/// single voxels are empty or leaves; larger cubes are empty or the index of
/// a node in `base..limit` with at least one nonempty child (empty cubes take
/// no node), whose children are well-formed subtrees of half the side stored
/// from `base` on and before it.
pub open spec fn sound(nodes: Seq<SvoNode>, d: u32, size: nat, base: int, limit: int) -> bool
    decreases size,
{
    if size <= 1 {
        d == 0 || d >= LEAF_FLAG
    } else if d == 0 {
        true
    } else {
        &&& 1 <= base <= d < limit
        &&& d < nodes.len()
        &&& d < LEAF_FLAG
        &&& exists|o: int| 0 <= o < 8 && #[trigger] nodes[d as int].children@[o] != 0
        &&& forall|o: int|
            0 <= o < 8 ==> sound(nodes, #[trigger] nodes[d as int].children@[o], size / 2, base, d as int)
    }
}

/// Whether node `i` of `nodes` has a nonempty child, and every child is
/// empty, a leaf, or the index of a node in `base..i`.
pub open spec fn node_fits(nodes: Seq<SvoNode>, i: int, base: int) -> bool {
    &&& exists|o: int| 0 <= o < 8 && #[trigger] nodes[i].children@[o] != 0
    &&& forall|o: int|
        0 <= o < 8 ==> {
            let c = #[trigger] nodes[i].children@[o];
            c == 0 || c >= LEAF_FLAG || base <= c < i
        }
}

/// Number of interior nodes the octree of the cube with corner `(x, y, z)`
/// and side `size` has: one per nonempty cube larger than a voxel, found by
/// halving the side down to single voxels.
pub open spec fn interior_count(grid: Seq<u8>, n: int, x: int, y: int, z: int, size: nat) -> nat
    decreases size,
{
    if size <= 1 || cube_empty(grid, n, x, y, z, size as int) {
        0
    } else {
        let h = size / 2;
        let hi = h as int;
        1 + interior_count(grid, n, x, y, z, h) + interior_count(grid, n, x + hi, y, z, h)
            + interior_count(grid, n, x, y + hi, z, h) + interior_count(grid, n, x + hi, y + hi, z, h)
            + interior_count(grid, n, x, y, z + hi, h) + interior_count(grid, n, x + hi, y, z + hi, h)
            + interior_count(grid, n, x, y + hi, z + hi, h) + interior_count(
            grid,
            n,
            x + hi,
            y + hi,
            z + hi,
            h,
        )
    }
}

/// Interior nodes of the first `j` octants (side `2 * half`) of the cube at `(x, y, z)`.
pub open spec fn octants_before(grid: Seq<u8>, n: int, x: int, y: int, z: int, half: nat, j: int) -> nat
    decreases j,
{
    if j <= 0 {
        0
    } else {
        octants_before(grid, n, x, y, z, half, j - 1) + interior_count(
            grid,
            n,
            x + corner_x(j - 1, half as int),
            y + corner_y(j - 1, half as int),
            z + corner_z(j - 1, half as int),
            half,
        )
    }
}

/// The children of the nodes of `nodes` from index `from` on, in order.
pub open spec fn children_of(nodes: Seq<SvoNode>, from: int) -> Seq<Seq<u32>> {
    nodes.subrange(from, nodes.len() as int).map_values(|node: SvoNode| node.children@)
}

/// Descriptor of the octree of the cube with corner `(x, y, z)` and side
/// `size`, when its nodes are stored from index `base` on: a voxel's own
/// descriptor for a single voxel, 0 for an empty cube, and otherwise the
/// index of its node, stored after the nodes of its octants.
pub open spec fn subtree_root(grid: Seq<u8>, n: int, x: int, y: int, z: int, size: nat, base: int) -> u32 {
    if size <= 1 {
        voxel_descriptor(grid, n, x, y, z)
    } else if cube_empty(grid, n, x, y, z, size as int) {
        0
    } else {
        (base + octants_before(grid, n, x, y, z, size / 2, 8)) as u32
    }
}

/// Descriptor of octant `o` (side `half`) of the cube at `(x, y, z)` whose
/// nodes are stored from `base` on: the octants' nodes come in octant order.
pub open spec fn octant_root(grid: Seq<u8>, n: int, x: int, y: int, z: int, half: nat, base: int, o: int) -> u32 {
    subtree_root(
        grid,
        n,
        x + corner_x(o, half as int),
        y + corner_y(o, half as int),
        z + corner_z(o, half as int),
        half,
        base + octants_before(grid, n, x, y, z, half, o),
    )
}

/// The nodes (as their children) of the octree of the cube with corner
/// `(x, y, z)` and side `size`, stored from index `base` on: post-order, the
/// nodes of octants 0 to 7 in turn, then the cube's own node.
#[verifier::opaque]
pub open spec fn subtree_layout(grid: Seq<u8>, n: int, x: int, y: int, z: int, size: nat, base: int) -> Seq<Seq<u32>>
    decreases size,
{
    if size <= 1 || cube_empty(grid, n, x, y, z, size as int) {
        Seq::empty()
    } else {
        let h = size / 2;
        let hi = h as int;
        (subtree_layout(grid, n, x, y, z, h, base + octants_before(grid, n, x, y, z, h, 0))
            + subtree_layout(grid, n, x + hi, y, z, h, base + octants_before(grid, n, x, y, z, h, 1))
            + subtree_layout(grid, n, x, y + hi, z, h, base + octants_before(grid, n, x, y, z, h, 2))
            + subtree_layout(grid, n, x + hi, y + hi, z, h, base + octants_before(grid, n, x, y, z, h, 3))
            + subtree_layout(grid, n, x, y, z + hi, h, base + octants_before(grid, n, x, y, z, h, 4))
            + subtree_layout(grid, n, x + hi, y, z + hi, h, base + octants_before(grid, n, x, y, z, h, 5))
            + subtree_layout(grid, n, x, y + hi, z + hi, h, base + octants_before(grid, n, x, y, z, h, 6))
            + subtree_layout(grid, n, x + hi, y + hi, z + hi, h, base + octants_before(grid, n, x, y, z, h, 7))).push(Seq::new(8, |o: int| octant_root(grid, n, x, y, z, h, base, o)))
    }
}

/// The nodes of the first `j` octants (side `half`) of the cube at `(x, y, z)`
/// whose nodes are stored from `base` on.
pub open spec fn octant_layouts(grid: Seq<u8>, n: int, x: int, y: int, z: int, half: nat, base: int, j: int) -> Seq<Seq<u32>>
    decreases j,
{
    if j <= 0 {
        Seq::empty()
    } else {
        octant_layouts(grid, n, x, y, z, half, base, j - 1) + subtree_layout(
            grid,
            n,
            x + corner_x(j - 1, half as int),
            y + corner_y(j - 1, half as int),
            z + corner_z(j - 1, half as int),
            half,
            base + octants_before(grid, n, x, y, z, half, j - 1),
        )
    }
}

/// A nonempty cube's layout is its eight octants' layouts, then its node.
proof fn lemma_layout_octants(grid: Seq<u8>, n: int, x: int, y: int, z: int, half: nat, base: int)
    requires
        half >= 1,
        !cube_empty(grid, n, x, y, z, 2 * half as int),
    ensures
        subtree_layout(grid, n, x, y, z, 2 * half, base) == octant_layouts(grid, n, x, y, z, half, base, 8).push(
            Seq::new(8, |o: int| octant_root(grid, n, x, y, z, half, base, o)),
        ),
{
    let hi = half as int;
    assert((2 * half) / 2 == half);
    reveal(subtree_layout);
    let l = |j: int| octant_layouts(grid, n, x, y, z, half, base, j);
    assert(l(0) == Seq::<Seq<u32>>::empty());
    assert(l(1) =~= subtree_layout(grid, n, x, y, z, half, base + octants_before(grid, n, x, y, z, half, 0)));
    assert(l(2) == l(1) + subtree_layout(grid, n, x + hi, y, z, half, base + octants_before(grid, n, x, y, z, half, 1)));
    assert(l(3) == l(2) + subtree_layout(grid, n, x, y + hi, z, half, base + octants_before(grid, n, x, y, z, half, 2)));
    assert(l(4) == l(3) + subtree_layout(grid, n, x + hi, y + hi, z, half, base + octants_before(grid, n, x, y, z, half, 3)));
    assert(l(5) == l(4) + subtree_layout(grid, n, x, y, z + hi, half, base + octants_before(grid, n, x, y, z, half, 4)));
    assert(l(6) == l(5) + subtree_layout(grid, n, x + hi, y, z + hi, half, base + octants_before(grid, n, x, y, z, half, 5)));
    assert(l(7) == l(6) + subtree_layout(grid, n, x, y + hi, z + hi, half, base + octants_before(grid, n, x, y, z, half, 6)));
    assert(l(8) == l(7) + subtree_layout(grid, n, x + hi, y + hi, z + hi, half, base + octants_before(grid, n, x, y, z, half, 7)));
}

/// The digit form of a descent: at each level the octant is
/// `a / h + 2 * (b / h) + 4 * (c / h)` and the offsets go on as `a % h`,
/// `b % h`, `c % h`.
pub open spec fn descend(nodes: Seq<SvoNode>, d: u32, s: nat, a: int, b: int, c: int) -> u32
    decreases s,
{
    if s <= 1 || d == 0 {
        d
    } else if d < nodes.len() {
        let h = (s / 2) as int;
        descend(
            nodes,
            nodes[d as int].children@[a / h + 2 * (b / h) + 4 * (c / h)],
            s / 2,
            a % h,
            b % h,
            c % h,
        )
    } else {
        0
    }
}

/// In a well-formed subtree whose side is a power of two, a descent by
/// halves and the descent by division and remainder find the same descriptor.
pub proof fn lemma_descent_by_division(
    nodes: Seq<SvoNode>,
    d: u32,
    size: nat,
    base: int,
    limit: int,
    a: int,
    b: int,
    c: int,
)
    requires
        is_pow2(size),
        sound(nodes, d, size, base, limit),
        0 <= a < size,
        0 <= b < size,
        0 <= c < size,
    ensures
        lookup(nodes, d, size, a, b, c) == descend(nodes, d, size, a, b, c),
    decreases size,
{
    if size > 1 && d != 0 {
        let h = (size / 2) as int;
        assert(size == 2 * h);
        lemma_octant_bits(a, b, c, h);
        if a >= h {
            vstd::arithmetic::div_mod::lemma_fundamental_div_mod_converse(a, h, 1, a - h);
        } else {
            vstd::arithmetic::div_mod::lemma_fundamental_div_mod_converse(a, h, 0, a);
        }
        if b >= h {
            vstd::arithmetic::div_mod::lemma_fundamental_div_mod_converse(b, h, 1, b - h);
        } else {
            vstd::arithmetic::div_mod::lemma_fundamental_div_mod_converse(b, h, 0, b);
        }
        if c >= h {
            vstd::arithmetic::div_mod::lemma_fundamental_div_mod_converse(c, h, 1, c - h);
        } else {
            vstd::arithmetic::div_mod::lemma_fundamental_div_mod_converse(c, h, 0, c);
        }
        let o = octant_of(a, b, c, h);
        assert(o == a / h + 2 * (b / h) + 4 * (c / h));
        let child = nodes[d as int].children@[o];
        assert(sound(nodes, child, size / 2, base, d as int));
        lemma_descent_by_division(nodes, child, size / 2, base, d as int, a % h, b % h, c % h);
    }
}

/// Single voxels and empty cubes take no node.
proof fn lemma_layout_empty(grid: Seq<u8>, n: int, x: int, y: int, z: int, size: nat, base: int)
    requires
        size <= 1 || cube_empty(grid, n, x, y, z, size as int),
    ensures
        subtree_layout(grid, n, x, y, z, size, base) == Seq::<Seq<u32>>::empty(),
{
    reveal(subtree_layout);
}

/// A cube's layout has one node per interior cube.
proof fn lemma_layout_len(grid: Seq<u8>, n: int, x: int, y: int, z: int, size: nat, base: int)
    ensures
        subtree_layout(grid, n, x, y, z, size, base).len() == interior_count(grid, n, x, y, z, size),
    decreases size,
{
    reveal(subtree_layout);
    if size > 1 && !cube_empty(grid, n, x, y, z, size as int) {
        let h = size / 2;
        let hi = h as int;
        lemma_layout_len(grid, n, x, y, z, h, base + octants_before(grid, n, x, y, z, h, 0));
        lemma_layout_len(grid, n, x + hi, y, z, h, base + octants_before(grid, n, x, y, z, h, 1));
        lemma_layout_len(grid, n, x, y + hi, z, h, base + octants_before(grid, n, x, y, z, h, 2));
        lemma_layout_len(grid, n, x + hi, y + hi, z, h, base + octants_before(grid, n, x, y, z, h, 3));
        lemma_layout_len(grid, n, x, y, z + hi, h, base + octants_before(grid, n, x, y, z, h, 4));
        lemma_layout_len(grid, n, x + hi, y, z + hi, h, base + octants_before(grid, n, x, y, z, h, 5));
        lemma_layout_len(grid, n, x, y + hi, z + hi, h, base + octants_before(grid, n, x, y, z, h, 6));
        lemma_layout_len(grid, n, x + hi, y + hi, z + hi, h, base + octants_before(grid, n, x, y, z, h, 7));
    }
}

/// Adding nodes after the ones a subtree uses changes neither its
/// well-formedness nor what a descent through it finds.
proof fn lemma_extend(nodes1: Seq<SvoNode>, nodes2: Seq<SvoNode>, d: u32, size: nat, base: int, limit: int)
    requires
        nodes1.len() <= nodes2.len(),
        forall|i: int| 0 <= i < nodes1.len() ==> nodes2[i] == nodes1[i],
        sound(nodes1, d, size, base, limit),
    ensures
        sound(nodes2, d, size, base, limit),
        forall|dx: int, dy: int, dz: int|
            #[trigger] lookup(nodes2, d, size, dx, dy, dz) == lookup(nodes1, d, size, dx, dy, dz),
    decreases size,
{
    if size > 1 && d != 0 {
        let node = nodes1[d as int];
        assert(nodes2[d as int] == node);
        assert forall|o: int| 0 <= o < 8 implies sound(nodes2, #[trigger] nodes2[d as int].children@[o], size / 2, base, d as int)
            && (forall|dx: int, dy: int, dz: int|
            #[trigger] lookup(nodes2, node.children@[o], size / 2, dx, dy, dz) == lookup(nodes1, node.children@[o], size / 2, dx, dy, dz)) by {
            lemma_extend(nodes1, nodes2, node.children@[o], size / 2, base, d as int);
        }
        assert forall|dx: int, dy: int, dz: int|
            #[trigger] lookup(nodes2, d, size, dx, dy, dz) == lookup(nodes1, d, size, dx, dy, dz) by {
            let half = size / 2;
            let o = octant_of(dx, dy, dz, half as int);
            assert(0 <= o < 8);
            let c = node.children@[o];
            assert(nodes2[d as int].children@[o] == c);
            let (ex, ey, ez) = (within(dx, half as int), within(dy, half as int), within(dz, half as int));
            assert(lookup(nodes2, c, half, ex, ey, ez) == lookup(nodes1, c, half, ex, ey, ez));
        }
    }
}

/// A well-formed subtree stays well-formed under a larger limit.
proof fn lemma_sound_limit(nodes: Seq<SvoNode>, d: u32, size: nat, base: int, a: int, b: int)
    requires
        sound(nodes, d, size, base, a),
        a <= b,
    ensures
        sound(nodes, d, size, base, b),
{
}

/// A well-formed subtree stays well-formed under a smaller (positive) base.
proof fn lemma_sound_base(nodes: Seq<SvoNode>, d: u32, size: nat, a: int, b: int, limit: int)
    requires
        sound(nodes, d, size, b, limit),
        1 <= a <= b,
    ensures
        sound(nodes, d, size, a, limit),
    decreases size,
{
    if size > 1 && d != 0 {
        assert forall|o: int| 0 <= o < 8 implies sound(nodes, #[trigger] nodes[d as int].children@[o], size / 2, a, d as int) by {
            lemma_sound_base(nodes, nodes[d as int].children@[o], size / 2, a, b, d as int);
        }
    }
}

/// The octants of a cube's first `j` and all eight octants: counts only grow,
/// the eight add up as in `interior_count`, and an empty cube has none.
proof fn lemma_octants_before(grid: Seq<u8>, n: int, x: int, y: int, z: int, half: nat, j: int)
    requires
        0 <= j <= 8,
        half >= 1,
    ensures
        octants_before(grid, n, x, y, z, half, j) <= octants_before(grid, n, x, y, z, half, 8),
        !cube_empty(grid, n, x, y, z, 2 * half as int) ==> interior_count(grid, n, x, y, z, 2 * half) == 1
            + octants_before(grid, n, x, y, z, half, 8),
        cube_empty(grid, n, x, y, z, 2 * half as int) ==> octants_before(grid, n, x, y, z, half, 8) == 0
            && interior_count(grid, n, x, y, z, 2 * half) == 0,
    decreases 8 - j,
{
    if j < 8 {
        lemma_octants_before(grid, n, x, y, z, half, j + 1);
    }
    let hi = half as int;
    assert((2 * half) / 2 == half);
    assert(octants_before(grid, n, x, y, z, half, 8) == interior_count(grid, n, x, y, z, half)
        + interior_count(grid, n, x + hi, y, z, half) + interior_count(grid, n, x, y + hi, z, half)
        + interior_count(grid, n, x + hi, y + hi, z, half) + interior_count(grid, n, x, y, z + hi, half)
        + interior_count(grid, n, x + hi, y, z + hi, half) + interior_count(grid, n, x, y + hi, z + hi, half)
        + interior_count(grid, n, x + hi, y + hi, z + hi, half)) by {
        let b = |j: int| octants_before(grid, n, x, y, z, half, j);
        assert(b(0) == 0);
        assert(b(1) == b(0) + interior_count(grid, n, x, y, z, half));
        assert(b(2) == b(1) + interior_count(grid, n, x + hi, y, z, half));
        assert(b(3) == b(2) + interior_count(grid, n, x, y + hi, z, half));
        assert(b(4) == b(3) + interior_count(grid, n, x + hi, y + hi, z, half));
        assert(b(5) == b(4) + interior_count(grid, n, x, y, z + hi, half));
        assert(b(6) == b(5) + interior_count(grid, n, x + hi, y, z + hi, half));
        assert(b(7) == b(6) + interior_count(grid, n, x, y + hi, z + hi, half));
        assert(b(8) == b(7) + interior_count(grid, n, x + hi, y + hi, z + hi, half));
    }
    if cube_empty(grid, n, x, y, z, 2 * half as int) {
        lemma_cube_octants(grid, n, x, y, z, hi);
        assert forall|o: int| 0 <= o < 8 implies #[trigger] interior_count(
            grid,
            n,
            x + corner_x(o, hi),
            y + corner_y(o, hi),
            z + corner_z(o, hi),
            half,
        ) == 0 by {
            assert(cube_empty(grid, n, x + corner_x(o, hi), y + corner_y(o, hi), z + corner_z(o, hi), hi));
        }
        assert(interior_count(grid, n, x + corner_x(0, hi), y + corner_y(0, hi), z + corner_z(0, hi), half) == 0);
        assert(interior_count(grid, n, x + corner_x(1, hi), y + corner_y(1, hi), z + corner_z(1, hi), half) == 0);
        assert(interior_count(grid, n, x + corner_x(2, hi), y + corner_y(2, hi), z + corner_z(2, hi), half) == 0);
        assert(interior_count(grid, n, x + corner_x(3, hi), y + corner_y(3, hi), z + corner_z(3, hi), half) == 0);
        assert(interior_count(grid, n, x + corner_x(4, hi), y + corner_y(4, hi), z + corner_z(4, hi), half) == 0);
        assert(interior_count(grid, n, x + corner_x(5, hi), y + corner_y(5, hi), z + corner_z(5, hi), half) == 0);
        assert(interior_count(grid, n, x + corner_x(6, hi), y + corner_y(6, hi), z + corner_z(6, hi), half) == 0);
        assert(interior_count(grid, n, x + corner_x(7, hi), y + corner_y(7, hi), z + corner_z(7, hi), half) == 0);
    }
}

/// A cube has at most as many interior nodes as the full octree of its side.
proof fn lemma_count_budget(grid: Seq<u8>, n: int, x: int, y: int, z: int, size: nat)
    requires
        is_pow2(size),
    ensures
        interior_count(grid, n, x, y, z, size) <= node_budget(size),
    decreases size,
{
    if size > 1 && !cube_empty(grid, n, x, y, z, size as int) {
        let h = size / 2;
        let hi = h as int;
        lemma_count_budget(grid, n, x, y, z, h);
        lemma_count_budget(grid, n, x + hi, y, z, h);
        lemma_count_budget(grid, n, x, y + hi, z, h);
        lemma_count_budget(grid, n, x + hi, y + hi, z, h);
        lemma_count_budget(grid, n, x, y, z + hi, h);
        lemma_count_budget(grid, n, x + hi, y, z + hi, h);
        lemma_count_budget(grid, n, x, y + hi, z + hi, h);
        lemma_count_budget(grid, n, x + hi, y + hi, z + hi, h);
    }
}

/// A grid whose `side³` cells fit in memory has a side below 2²².
proof fn lemma_side_bound(side: int)
    requires
        side >= 0,
        side * side * side <= usize::MAX,
    ensures
        side < 0x40_0000,
{
    if side >= 0x40_0000 {
        assert(side * side * side >= 0x40_0000 * 0x40_0000 * 0x40_0000) by (nonlinear_arith)
            requires
                side >= 0x40_0000,
        ;
    }
}

/// The storage index of a voxel inside the grid lies inside the grid.
proof fn lemma_grid_index(side: int, x: int, y: int, z: int)
    requires
        0 <= x < side,
        0 <= y < side,
        0 <= z < side,
    ensures
        0 <= x * side * side + y * side + z < side * side * side,
        x * side <= x * side * side,
{
    assert(x * side * side <= (side - 1) * side * side) by (nonlinear_arith)
        requires
            0 <= x < side,
    ;
    assert(y * side <= (side - 1) * side) by (nonlinear_arith)
        requires
            0 <= y < side,
    ;
    assert((side - 1) * side * side + (side - 1) * side + (side - 1) == side * side * side - 1)
        by (nonlinear_arith);
    assert(0 <= x * side * side) by (nonlinear_arith)
        requires
            0 <= x,
            0 <= side,
    ;
    assert(0 <= y * side) by (nonlinear_arith)
        requires
            0 <= y,
            0 <= side,
    ;
    assert(x * side <= x * side * side) by (nonlinear_arith)
        requires
            0 <= x < side,
    ;
}

/// The octant that an offset falls in has its corner just below that
/// offset, and the offset lies within it.
proof fn lemma_octant_bits(dx: int, dy: int, dz: int, half: int)
    requires
        half >= 1,
        0 <= dx < 2 * half,
        0 <= dy < 2 * half,
        0 <= dz < 2 * half,
    ensures
        0 <= octant_of(dx, dy, dz, half) < 8,
        corner_x(octant_of(dx, dy, dz, half), half) + within(dx, half) == dx,
        corner_y(octant_of(dx, dy, dz, half), half) + within(dy, half) == dy,
        corner_z(octant_of(dx, dy, dz, half), half) + within(dz, half) == dz,
        0 <= within(dx, half) < half,
        0 <= within(dy, half) < half,
        0 <= within(dz, half) < half,
{
}

/// A cube of side `2 * half` is empty exactly when each of its eight octants is.
proof fn lemma_cube_octants(grid: Seq<u8>, n: int, x: int, y: int, z: int, half: int)
    requires
        half >= 1,
    ensures
        cube_empty(grid, n, x, y, z, 2 * half as int) <==> forall|o: int|
            0 <= o < 8 ==> #[trigger] cube_empty(
                grid,
                n,
                x + corner_x(o, half),
                y + corner_y(o, half),
                z + corner_z(o, half),
                half,
            ),
{
    if cube_empty(grid, n, x, y, z, 2 * half as int) {
        assert forall|o: int| 0 <= o < 8 implies #[trigger] cube_empty(
            grid,
            n,
            x + corner_x(o, half),
            y + corner_y(o, half),
            z + corner_z(o, half),
            half,
        ) by {
            assert forall|dx: int, dy: int, dz: int|
                0 <= dx < half && 0 <= dy < half && 0 <= dz < half implies #[trigger] voxel_descriptor(
                grid,
                n,
                x + corner_x(o, half) + dx,
                y + corner_y(o, half) + dy,
                z + corner_z(o, half) + dz,
            ) == 0 by {
                let (ex, ey, ez) = (
                    corner_x(o, half) + dx,
                    corner_y(o, half) + dy,
                    corner_z(o, half) + dz,
                );
                assert(voxel_descriptor(grid, n, x + ex, y + ey, z + ez) == 0);
            }
        }
    }
    if forall|o: int|
        0 <= o < 8 ==> #[trigger] cube_empty(
            grid,
            n,
            x + corner_x(o, half),
            y + corner_y(o, half),
            z + corner_z(o, half),
            half,
        ) {
        assert forall|dx: int, dy: int, dz: int|
            0 <= dx < 2 * half && 0 <= dy < 2 * half && 0 <= dz < 2 * half implies #[trigger] voxel_descriptor(
            grid,
            n,
            x + dx,
            y + dy,
            z + dz,
        ) == 0 by {
            let o = octant_of(dx, dy, dz, half);
            lemma_octant_bits(dx, dy, dz, half);
            assert(cube_empty(
                grid,
                n,
                x + corner_x(o, half),
                y + corner_y(o, half),
                z + corner_z(o, half),
                half,
            ));
            let (ex, ey, ez) = (within(dx, half), within(dy, half), within(dz, half));
            assert(voxel_descriptor(
                grid,
                n,
                x + corner_x(o, half) + ex,
                y + corner_y(o, half) + ey,
                z + corner_z(o, half) + ez,
            ) == 0);
        }
    }
}

/// Builds, bottom-up, the subtree for the cube of side `size` with corner
/// `(x, y, z)` in `grid` (side `stride`, index `x * stride * stride +
/// y * stride + z`), appending its interior nodes to `nodes`, and returns
/// its descriptor.
///
/// The subtree is exact: a descent from the descriptor to any voxel of the
/// cube finds that voxel's leaf, or 0 where the voxel is empty or outside the
/// grid. Empty cubes collapse to 0 and add no node; every other cube larger
/// than a voxel adds exactly one, after the nodes of its octants 0 to 7 in
/// turn (the layout `subtree_layout` gives), and the root is the last one
/// added. Each node's children are 0 exactly for empty octants, voxels'
/// leaves for octants of one voxel, and earlier nodes of this call otherwise. Nodes already in `nodes` are left as they
/// were. Slot 0 of `nodes` must already be taken, and the indices of the
/// nodes added must stay below the leaf flag.
#[verifier::rlimit(100)]
#[verifier::spinoff_prover]
pub fn build_node(
    grid: &[u8],
    stride: usize,
    x: u32,
    y: u32,
    z: u32,
    size: u32,
    nodes: &mut Vec<SvoNode>,
) -> (d: u32)
    requires
        grid@.len() >= stride * stride * stride,
        is_pow2(size as nat),
        old(nodes)@.len() >= 1,
        old(nodes)@.len() + interior_count(grid@, stride as int, x as int, y as int, z as int, size as nat)
            <= LEAF_FLAG,
    ensures
        final(nodes)@.len() == old(nodes)@.len() + interior_count(
            grid@,
            stride as int,
            x as int,
            y as int,
            z as int,
            size as nat,
        ),
        forall|i: int| 0 <= i < old(nodes)@.len() ==> final(nodes)@[i] == old(nodes)@[i],
        forall|i: int|
            old(nodes)@.len() <= i < final(nodes)@.len() ==> #[trigger] node_fits(
                final(nodes)@,
                i,
                old(nodes)@.len() as int,
            ),
        sound(final(nodes)@, d, size as nat, old(nodes)@.len() as int, final(nodes)@.len() as int),
        d == 0 <==> cube_empty(grid@, stride as int, x as int, y as int, z as int, size as int),
        d == 0 || d >= LEAF_FLAG ==> final(nodes)@ == old(nodes)@,
        d != 0 && d < LEAF_FLAG ==> old(nodes)@.len() <= d && d == final(nodes)@.len() - 1,
        d == subtree_root(grid@, stride as int, x as int, y as int, z as int, size as nat, old(nodes)@.len() as int),
        children_of(final(nodes)@, old(nodes)@.len() as int) == subtree_layout(
            grid@,
            stride as int,
            x as int,
            y as int,
            z as int,
            size as nat,
            old(nodes)@.len() as int,
        ),
        d != 0 && size > 1 ==> forall|o: int|
            0 <= o < 8 ==> {
                let h = (size / 2) as int;
                let ch = #[trigger] final(nodes)@[d as int].children@[o];
                &&& (ch == 0 <==> cube_empty(
                    grid@,
                    stride as int,
                    x + corner_x(o, h),
                    y + corner_y(o, h),
                    z + corner_z(o, h),
                    h,
                ))
                &&& (h == 1 ==> ch == voxel_descriptor(
                    grid@,
                    stride as int,
                    x + corner_x(o, h),
                    y + corner_y(o, h),
                    z + corner_z(o, h),
                ))
                &&& (h > 1 && ch != 0 ==> old(nodes)@.len() <= ch < d)
            },
        forall|dx: int, dy: int, dz: int|
            0 <= dx < size && 0 <= dy < size && 0 <= dz < size ==> #[trigger] lookup(
                final(nodes)@,
                d,
                size as nat,
                dx,
                dy,
                dz,
            ) == voxel_descriptor(grid@, stride as int, x + dx, y + dy, z + dz),
        forall|dx: int, dy: int, dz: int|
            0 <= dx < size && 0 <= dy < size && 0 <= dz < size ==> #[trigger] descend(
                final(nodes)@,
                d,
                size as nat,
                dx,
                dy,
                dz,
            ) == voxel_descriptor(grid@, stride as int, x + dx, y + dy, z + dz),
    decreases size,
{
    // The grid's length is a usize, which bounds its side, and with it
    // every corner computed below.
    let cells = grid.len();
    proof {
        assert(cells >= stride * stride * stride);
        lemma_side_bound(stride as int);
    }
    let n = stride as u32;

    proof {
        assert(children_of(nodes@, nodes@.len() as int) =~= Seq::<Seq<u32>>::empty());
    }

    // Octants that start outside the grid are empty.
    if x >= n || y >= n || z >= n {
        proof {
            assert(cube_empty(grid@, stride as int, x as int, y as int, z as int, size as int));
            lemma_layout_empty(grid@, stride as int, x as int, y as int, z as int, size as nat, nodes@.len() as int);
        }
        return 0;
    }

    // A single voxel is a leaf or nothing.
    if size == 1 {
        proof {
            lemma_layout_empty(grid@, stride as int, x as int, y as int, z as int, size as nat, nodes@.len() as int);
            lemma_grid_index(stride as int, x as int, y as int, z as int);
        }
        let v = grid[x as usize * stride * stride + y as usize * stride + z as usize];
        if v == 0 {
            return 0;
        } else {
            let c = voxel_color_packed(y);
            assert(voxel_descriptor(grid@, stride as int, x + 0, y + 0, z + 0) != 0);
            assert(LEAF_FLAG | c == LEAF_FLAG + c) by (bit_vector)
                requires
                    c < 0x100_0000,
            ;
            return LEAF_FLAG | c;
        }
    }

    let half = size / 2;
    let ghost start = nodes@;
    let ghost base = start.len() as int;
    proof {
        lemma_octants_before(grid@, stride as int, x as int, y as int, z as int, half as nat, 0);
    }
    let mut children = [0u32; 8];
    let mut any_solid = false;
    proof {
        assert(children_of(nodes@, base) =~= Seq::<Seq<u32>>::empty());
    }

    // Recurse into all eight octants.
    for oct in 0u32..8
        invariant
            grid@.len() >= stride * stride * stride,
            stride < 0x40_0000,
            n == stride,
            x < n,
            y < n,
            z < n,
            size == 2 * half,
            half >= 1,
            is_pow2(half as nat),
            base == start.len(),
            base >= 1,
            base + octants_before(grid@, stride as int, x as int, y as int, z as int, half as nat, 8)
                + (if cube_empty(grid@, stride as int, x as int, y as int, z as int, size as int) {
                0int
            } else {
                1int
            }) <= LEAF_FLAG,
            nodes@.len() == base + octants_before(
                grid@,
                stride as int,
                x as int,
                y as int,
                z as int,
                half as nat,
                oct as int,
            ),
            forall|i: int| 0 <= i < base ==> nodes@[i] == start[i],
            forall|i: int| base <= i < nodes@.len() ==> #[trigger] node_fits(nodes@, i, base),
            forall|j: int|
                0 <= j < oct ==> sound(nodes@, #[trigger] children@[j], half as nat, base, nodes@.len() as int),
            forall|j: int|
                0 <= j < oct ==> {
                    let c = #[trigger] children@[j];
                    c == 0 || c >= LEAF_FLAG || base <= c < nodes@.len()
                },
            forall|j: int|
                0 <= j < oct ==> (#[trigger] children@[j] == 0 <==> cube_empty(
                    grid@,
                    stride as int,
                    x + corner_x(j, half as int),
                    y + corner_y(j, half as int),
                    z + corner_z(j, half as int),
                    half as int,
                )),
            forall|j: int, dx: int, dy: int, dz: int|
                0 <= j < oct && 0 <= dx < half && 0 <= dy < half && 0 <= dz < half
                    ==> #[trigger] lookup(nodes@, children@[j], half as nat, dx, dy, dz)
                    == voxel_descriptor(
                    grid@,
                    stride as int,
                    x + corner_x(j, half as int) + dx,
                    y + corner_y(j, half as int) + dy,
                    z + corner_z(j, half as int) + dz,
                ),
            any_solid <==> exists|j: int| 0 <= j < oct && #[trigger] children@[j] != 0,
            !any_solid ==> nodes@ == start,
            children_of(nodes@, base) == octant_layouts(
                grid@,
                stride as int,
                x as int,
                y as int,
                z as int,
                half as nat,
                base,
                oct as int,
            ),
            forall|j: int|
                0 <= j < oct ==> #[trigger] children@[j] == octant_root(
                    grid@,
                    stride as int,
                    x as int,
                    y as int,
                    z as int,
                    half as nat,
                    base,
                    j,
                ),
    {
        assert((oct & 1) == oct % 2 && ((oct >> 1u32) & 1) == (oct / 2) % 2 && ((oct >> 2u32) & 1)
            == oct / 4) by (bit_vector)
            requires
                oct < 8,
        ;
        let bx = oct & 1;
        let by = (oct >> 1u32) & 1;
        let bz = (oct >> 2u32) & 1;
        assert(bx * half == corner_x(oct as int, half as int)) by (nonlinear_arith)
            requires
                bx == oct % 2,
        ;
        assert(by * half == corner_y(oct as int, half as int)) by (nonlinear_arith)
            requires
                by == (oct / 2) % 2,
        ;
        assert(bz * half == corner_z(oct as int, half as int)) by (nonlinear_arith)
            requires
                bz == oct / 4,
                oct < 8,
        ;
        let cx = x + bx * half;
        let cy = y + by * half;
        let cz = z + bz * half;
        let ghost count = interior_count(grid@, stride as int, cx as int, cy as int, cz as int, half as nat);
        proof {
            lemma_octants_before(grid@, stride as int, x as int, y as int, z as int, half as nat, oct + 1);
            assert(octants_before(grid@, stride as int, x as int, y as int, z as int, half as nat, oct + 1)
                == octants_before(grid@, stride as int, x as int, y as int, z as int, half as nat, oct as int)
                + count);
        }

        let ghost before = nodes@;
        let ghost prev = children@;
        let child = build_node(grid, stride, cx, cy, cz, half, nodes);
        proof {
            assert forall|j: int| 0 <= j < oct implies sound(nodes@, #[trigger] prev[j], half as nat, base, nodes@.len() as int)
                && forall|dx: int, dy: int, dz: int|
                #[trigger] lookup(nodes@, prev[j], half as nat, dx, dy, dz) == lookup(before, prev[j], half as nat, dx, dy, dz) by {
                lemma_extend(before, nodes@, prev[j], half as nat, base, before.len() as int);
                lemma_sound_limit(nodes@, prev[j], half as nat, base, before.len() as int, nodes@.len() as int);
            }
            lemma_sound_base(nodes@, child, half as nat, base, before.len() as int, nodes@.len() as int);
            assert(children_of(nodes@, base) =~= children_of(before, base) + children_of(
                nodes@,
                before.len() as int,
            ));
            assert forall|i: int| base <= i < nodes@.len() implies #[trigger] node_fits(nodes@, i, base) by {
                if i < before.len() {
                    assert(nodes@[i] == before[i]);
                    assert(node_fits(before, i, base));
                } else {
                    assert(node_fits(nodes@, i, before.len() as int));
                }
            }
        }
        children[oct as usize] = child;
        if child != 0 {
            any_solid = true;
        }
        proof {
            assert(children@ == prev.update(oct as int, child));
            if any_solid {
                if child != 0 {
                    assert(children@[oct as int] != 0);
                } else {
                    let j = choose|j: int| 0 <= j < oct && #[trigger] prev[j] != 0;
                    assert(children@[j] != 0);
                }
            } else {
                assert(nodes@ == before);
            }
        }
    }

    if !any_solid {
        proof {
            lemma_cube_octants(grid@, stride as int, x as int, y as int, z as int, half as int);
            assert forall|o: int| 0 <= o < 8 implies #[trigger] cube_empty(
                grid@,
                stride as int,
                x + corner_x(o, half as int),
                y + corner_y(o, half as int),
                z + corner_z(o, half as int),
                half as int,
            ) by {
                assert(children@[o] == 0);
            }
            lemma_octants_before(grid@, stride as int, x as int, y as int, z as int, half as nat, 8);
            lemma_layout_empty(grid@, stride as int, x as int, y as int, z as int, size as nat, base);
        }
        return 0;
    }

    let ghost mid = nodes@;
    proof {
        let j = choose|j: int| 0 <= j < 8 && #[trigger] children@[j] != 0;
        lemma_cube_octants(grid@, stride as int, x as int, y as int, z as int, half as int);
        assert(!cube_empty(
            grid@,
            stride as int,
            x + corner_x(j, half as int),
            y + corner_y(j, half as int),
            z + corner_z(j, half as int),
            half as int,
        ));
        assert(!cube_empty(grid@, stride as int, x as int, y as int, z as int, size as int));
        lemma_octants_before(grid@, stride as int, x as int, y as int, z as int, half as nat, 8);
    }
    let idx = nodes.len() as u32;
    nodes.push(SvoNode { children });
    proof {
        let node = SvoNode { children };
        assert(nodes@ == mid.push(node));
        assert(idx as int == mid.len());
        assert(idx != 0 && idx < LEAF_FLAG && idx < nodes@.len());
        assert((size as nat) / 2 == half as nat);
        assert forall|o: int| 0 <= o < 8 implies sound(nodes@, #[trigger] nodes@[idx as int].children@[o], half as nat, base, idx as int)
            && forall|dx: int, dy: int, dz: int|
            #[trigger] lookup(nodes@, children@[o], half as nat, dx, dy, dz) == lookup(mid, children@[o], half as nat, dx, dy, dz) by {
            lemma_extend(mid, nodes@, children@[o], half as nat, base, idx as int);
        }
        let j = choose|j: int| 0 <= j < 8 && #[trigger] children@[j] != 0;
        assert(nodes@[idx as int].children@[j] != 0);
        assert(children_of(nodes@, base) =~= children_of(mid, base).push(children@));
        assert(children@ =~= Seq::new(
            8,
            |o: int| octant_root(grid@, stride as int, x as int, y as int, z as int, half as nat, base, o),
        ));
        lemma_layout_octants(grid@, stride as int, x as int, y as int, z as int, half as nat, base);
        assert forall|dx: int, dy: int, dz: int|
            0 <= dx < size && 0 <= dy < size && 0 <= dz < size implies #[trigger] descend(
            nodes@,
            idx,
            size as nat,
            dx,
            dy,
            dz,
        ) == lookup(nodes@, idx, size as nat, dx, dy, dz) by {
            lemma_descent_by_division(nodes@, idx, size as nat, base, nodes@.len() as int, dx, dy, dz);
        }
        assert forall|i: int| base <= i < nodes@.len() implies #[trigger] node_fits(nodes@, i, base) by {
            if i < mid.len() {
                assert(nodes@[i] == mid[i]);
                assert(node_fits(mid, i, base));
            } else {
                assert(nodes@[i] == node);
                assert(node.children@[j] != 0);
                assert forall|o: int| 0 <= o < 8 implies {
                    let c = #[trigger] nodes@[i].children@[o];
                    c == 0 || c >= LEAF_FLAG || base <= c < i
                } by {
                    assert(nodes@[i].children@[o] == children@[o]);
                }
            }
        }
        assert forall|dx: int, dy: int, dz: int|
            0 <= dx < size && 0 <= dy < size && 0 <= dz < size implies #[trigger] lookup(
            nodes@,
            idx,
            size as nat,
            dx,
            dy,
            dz,
        ) == voxel_descriptor(grid@, stride as int, x + dx, y + dy, z + dz) by {
            lemma_octant_bits(dx, dy, dz, half as int);
            let o = octant_of(dx, dy, dz, half as int);
            let (ex, ey, ez) = (within(dx, half as int), within(dy, half as int), within(dz, half as int));
            assert(nodes@[idx as int].children@[o] == children@[o]);
            assert(lookup(nodes@, idx, size as nat, dx, dy, dz) == lookup(nodes@, children@[o], half as nat, ex, ey, ez));
            assert(lookup(mid, children@[o], half as nat, ex, ey, ez) == voxel_descriptor(
                grid@,
                stride as int,
                x + corner_x(o, half as int) + ex,
                y + corner_y(o, half as int) + ey,
                z + corner_z(o, half as int) + ez,
            ));
        }
    }
    idx
}

/// Highest solid voxel of a column of the octree's grid whose terrain height is `h`.
pub open spec fn grid_column_top(h: int) -> int {
    if h < 63 {
        h
    } else {
        63
    }
}

/// Value of voxel `(x, y, z)` of the octree's grid made from `heights`
/// (indexed by `x * SVO_SIZE + z`): 1 up to and including the column top.
pub open spec fn heightmap_cell(heights: Seq<usize>, x: int, y: int, z: int) -> u8 {
    if y <= grid_column_top(heights[x * SVO_SIZE as int + z] as int) {
        1
    } else {
        0
    }
}

/// Storage index of voxel `(x, y, z)` in the octree's grid.
pub open spec fn grid_index(x: int, y: int, z: int) -> int {
    x * SVO_SIZE as int * SVO_SIZE as int + y * SVO_SIZE as int + z
}

/// Whether `(x, y, z)` lies inside the octree's grid.
pub open spec fn in_grid(x: int, y: int, z: int) -> bool {
    0 <= x < SVO_SIZE && 0 <= y < SVO_SIZE && 0 <= z < SVO_SIZE
}

/// The `SVO_SIZE³` voxel grid of the terrain whose column heights are
/// `heights[x * SVO_SIZE + z]`: each column is solid from the bottom up to
/// its height, cut to 63.
pub fn svo_grid(heights: &Vec<usize>) -> (grid: Vec<u8>)
    requires
        heights.len() == SVO_SIZE * SVO_SIZE,
    ensures
        grid.len() == SVO_SIZE * SVO_SIZE * SVO_SIZE,
        forall|x: int, y: int, z: int|
            in_grid(x, y, z) ==> #[trigger] grid@[grid_index(x, y, z)] == heightmap_cell(heights@, x, y, z),
{
    let n = SVO_SIZE as usize;
    let mut grid: Vec<u8> = vec![0u8; n * n * n];
    for x in 0..n
        invariant
            n == SVO_SIZE,
            heights.len() == n * n,
            grid.len() == n * n * n,
            forall|x1: int, y1: int, z1: int|
                in_grid(x1, y1, z1) ==> #[trigger] grid@[grid_index(x1, y1, z1)] == if x1 < x {
                    heightmap_cell(heights@, x1, y1, z1)
                } else {
                    0u8
                },
    {
        for z in 0..n
            invariant
                n == SVO_SIZE,
                x < n,
                heights.len() == n * n,
                grid.len() == n * n * n,
                forall|x1: int, y1: int, z1: int|
                    in_grid(x1, y1, z1) ==> #[trigger] grid@[grid_index(x1, y1, z1)] == if x1 < x || (
                    x1 == x && z1 < z) {
                        heightmap_cell(heights@, x1, y1, z1)
                    } else {
                        0u8
                    },
        {
            let h = heights[x * n + z].min(63);
            assert(h == grid_column_top(heights@[x * n + z] as int));
            for y in 0..h + 1
                invariant
                    n == SVO_SIZE,
                    x < n,
                    z < n,
                    h <= 63,
                    h == grid_column_top(heights@[x * n + z] as int),
                    heights.len() == n * n,
                    grid.len() == n * n * n,
                    forall|x1: int, y1: int, z1: int|
                        in_grid(x1, y1, z1) ==> #[trigger] grid@[grid_index(x1, y1, z1)] == if x1 < x
                            || (x1 == x && z1 < z) || (x1 == x && z1 == z && y1 < y) {
                            heightmap_cell(heights@, x1, y1, z1)
                        } else {
                            0u8
                        },
            {
                grid[x * n * n + y * n + z] = 1;
            }
        }
    }
    grid
}

/// Whether every child of `node` is empty, as in the reserved slot 0.
pub open spec fn reserved_slot(node: SvoNode) -> bool {
    forall|o: int| 0 <= o < 8 ==> #[trigger] node.children@[o] == 0
}

/// Builds the octree of the `SVO_SIZE³` grid `grid`: returns the node list,
/// whose slot 0 is reserved and empty, and the root descriptor. A descent
/// from the root to any voxel finds that voxel's leaf, or 0 where it is
/// empty. The list holds exactly one node per nonempty cube larger than a
/// voxel, each with a nonempty child and with its node children stored
/// before it; the root is the last node.
pub fn build_octree(grid: &Vec<u8>) -> (res: (Vec<SvoNode>, u32))
    requires
        grid.len() >= SVO_SIZE * SVO_SIZE * SVO_SIZE,
    ensures
        res.0@.len() == 1 + interior_count(grid@, SVO_SIZE as int, 0, 0, 0, SVO_SIZE as nat),
        reserved_slot(res.0@[0]),
        forall|i: int| 1 <= i < res.0@.len() ==> #[trigger] node_fits(res.0@, i, 1),
        sound(res.0@, res.1, SVO_SIZE as nat, 1, res.0@.len() as int),
        res.1 == 0 <==> cube_empty(grid@, SVO_SIZE as int, 0, 0, 0, SVO_SIZE as int),
        res.1 == 0 ==> res.0@.len() == 1,
        res.1 != 0 ==> res.1 == res.0@.len() - 1,
        res.1 == subtree_root(grid@, SVO_SIZE as int, 0, 0, 0, SVO_SIZE as nat, 1),
        children_of(res.0@, 1) == subtree_layout(grid@, SVO_SIZE as int, 0, 0, 0, SVO_SIZE as nat, 1),
        forall|x: int, y: int, z: int|
            in_grid(x, y, z) ==> #[trigger] lookup(res.0@, res.1, SVO_SIZE as nat, x, y, z)
                == voxel_descriptor(grid@, SVO_SIZE as int, x, y, z),
        forall|x: int, y: int, z: int|
            in_grid(x, y, z) ==> #[trigger] descend(res.0@, res.1, SVO_SIZE as nat, x, y, z)
                == voxel_descriptor(grid@, SVO_SIZE as int, x, y, z),
{
    let n = SVO_SIZE as usize;
    // Slot 0 is reserved so that child value 0 unambiguously means "empty".
    let mut nodes: Vec<SvoNode> = Vec::new();
    nodes.push(SvoNode { children: [0u32; 8] });
    proof {
        assert(node_budget(1) == 0);
        assert(node_budget(2) == 1);
        assert(node_budget(4) == 9);
        assert(node_budget(8) == 73);
        assert(node_budget(16) == 585);
        assert(node_budget(32) == 4681);
        assert(node_budget(64) == 37449);
        assert(node_budget(128) == 299593);
        assert(node_budget(256) == 2396745);
        assert(node_budget(512) == 19173961);
        assert(is_pow2(1));
        assert(is_pow2(2));
        assert(is_pow2(4));
        assert(is_pow2(8));
        assert(is_pow2(16));
        assert(is_pow2(32));
        assert(is_pow2(64));
        assert(is_pow2(128));
        assert(is_pow2(256));
        assert(is_pow2(512));
        lemma_count_budget(grid@, SVO_SIZE as int, 0, 0, 0, SVO_SIZE as nat);
    }
    let ghost first = nodes@[0];
    let root = build_node(grid.as_slice(), n, 0, 0, 0, SVO_SIZE, &mut nodes);
    proof {
        assert(nodes@[0] == first);
        assert forall|x: int, y: int, z: int| in_grid(x, y, z) implies #[trigger] lookup(
            nodes@,
            root,
            SVO_SIZE as nat,
            x,
            y,
            z,
        ) == voxel_descriptor(grid@, SVO_SIZE as int, x, y, z) by {
            assert(lookup(nodes@, root, SVO_SIZE as nat, x, y, z) == voxel_descriptor(
                grid@,
                SVO_SIZE as int,
                0 + x,
                0 + y,
                0 + z,
            ));
        }
        assert forall|x: int, y: int, z: int| in_grid(x, y, z) implies #[trigger] descend(
            nodes@,
            root,
            SVO_SIZE as nat,
            x,
            y,
            z,
        ) == voxel_descriptor(grid@, SVO_SIZE as int, x, y, z) by {
            assert(descend(nodes@, root, SVO_SIZE as nat, x, y, z) == voxel_descriptor(
                grid@,
                SVO_SIZE as int,
                0 + x,
                0 + y,
                0 + z,
            ));
        }
    }
    (nodes, root)
}

} // verus!
