//! Chunk meshing: naive face culling, two meshes per chunk (lit rock and
//! unlit glow), in gen-space voxel units.
use crate::blocks::{AIR, ORE};
use crate::body::Asteroid;
use crate::chunk::{chunk_at, slot, slot_voxel, voxel_in, CHUNK_VOL};
use crate::face::{across, dir_of, face_dir, FACE_COUNT};
use crate::ivec::{lemma_view_injective, IVec3, Point};
use crate::state::{answers, total, WorldState};
use crate::world::VoxelWorld;
use vstd::prelude::*;

verus! {

/// Corner `c` of face `f`, counter-clockwise seen from outside.
pub open spec fn corner(f: int, c: int) -> Point {
    if f == 0 {
        Point { x: 1, y: if c >= 2 { 1 } else { 0 }, z: if c == 0 || c == 3 { 1 } else { 0 } }
    } else if f == 1 {
        Point { x: 0, y: if c >= 2 { 1 } else { 0 }, z: if c == 1 || c == 2 { 1 } else { 0 } }
    } else if f == 2 {
        Point { x: if c >= 2 { 1 } else { 0 }, y: 1, z: if c == 1 || c == 2 { 1 } else { 0 } }
    } else if f == 3 {
        Point { x: if c == 1 || c == 2 { 1 } else { 0 }, y: 0, z: if c >= 2 { 1 } else { 0 } }
    } else if f == 4 {
        Point { x: if c == 1 || c == 2 { 1 } else { 0 }, y: if c >= 2 { 1 } else { 0 }, z: 1 }
    } else {
        Point { x: if c == 0 || c == 3 { 1 } else { 0 }, y: if c >= 2 { 1 } else { 0 }, z: 0 }
    }
}

/// Baked shade of face `f`, in percent: tops bright, undersides dark.
pub open spec fn shade_percent(f: int) -> int {
    if f == 0 || f == 1 {
        80
    } else if f == 2 {
        100
    } else if f == 3 {
        50
    } else {
        65
    }
}

/// Vertex of a quad that the `j`-th index of its two triangles names.
pub open spec fn triangle_corner(j: int) -> int {
    if j == 0 || j == 3 {
        0
    } else if j == 1 {
        1
    } else if j == 2 || j == 4 {
        2
    } else {
        3
    }
}

/// Scalar triple product, `(a x b) . n`.
pub open spec fn triple(a: Point, b: Point, n: Point) -> int {
    (a.y * b.z - a.z * b.y) * n.x + (a.z * b.x - a.x * b.z) * n.y + (a.x * b.y - a.y * b.x) * n.z
}

/// Scalar product.
pub open spec fn dot(a: Point, n: Point) -> int {
    a.x * n.x + a.y * n.y + a.z * n.z
}

/// The face is flat, and both its triangles wind counter-clockwise seen from
/// outside.
pub open spec fn winds_outward(f: int) -> bool {
    let a = corner(f, 1).minus(corner(f, 0));
    let b = corner(f, 2).minus(corner(f, 0));
    let c = corner(f, 3).minus(corner(f, 0));
    let n = face_dir(f);
    &&& dot(a, n) == 0
    &&& dot(b, n) == 0
    &&& dot(c, n) == 0
    &&& triple(a, b, n) == 1
    &&& triple(b, c, n) == 1
}

/// All four corners of every face lie in its plane, and both its triangles wind
/// counter-clockwise seen from outside.
pub proof fn law_faces_wind_outward(f: int)
    requires
        0 <= f < FACE_COUNT,
    ensures
        winds_outward(f),
{
    assert(winds_outward(0)) by (nonlinear_arith);
    assert(winds_outward(1)) by (nonlinear_arith);
    assert(winds_outward(2)) by (nonlinear_arith);
    assert(winds_outward(3)) by (nonlinear_arith);
    assert(winds_outward(4)) by (nonlinear_arith);
    assert(winds_outward(5)) by (nonlinear_arith);
}

/// Baked shade of a face, in percent.
pub fn shade_of(f: usize) -> (s: u32)
    requires
        f < FACE_COUNT,
    ensures
        s == shade_percent(f as int),
        f == 2 ==> s == 100,
        f == 3 ==> s == 50,
        f == 0 || f == 1 ==> s == 80,
        f == 4 || f == 5 ==> s == 65,
{
    if f <= 1 {
        80
    } else if f == 2 {
        100
    } else if f == 3 {
        50
    } else {
        65
    }
}

fn one_if(b: bool) -> (n: i32)
    ensures
        n == if b {
            1int
        } else {
            0
        },
{
    if b {
        1
    } else {
        0
    }
}

fn corner_of(f: usize, c: usize) -> (p: IVec3)
    requires
        f < FACE_COUNT,
        c < 4,
    ensures
        p@ == corner(f as int, c as int),
{
    let late: i32 = one_if(c >= 2);
    let inner: i32 = one_if(c == 1 || c == 2);
    let outer: i32 = one_if(c == 0 || c == 3);
    if f == 0 {
        IVec3::new(1, late, outer)
    } else if f == 1 {
        IVec3::new(0, late, inner)
    } else if f == 2 {
        IVec3::new(late, 1, inner)
    } else if f == 3 {
        IVec3::new(inner, 0, late)
    } else if f == 4 {
        IVec3::new(inner, late, 1)
    } else {
        IVec3::new(outer, late, 0)
    }
}

/// One visible face of one block.
#[derive(Clone, Copy, PartialEq, Eq, Structural, Debug)]
pub struct Quad {
    pub voxel: IVec3,
    pub id: u8,
    pub face: usize,
}

/// A mesh under construction: its faces, and the vertex and index lists that
/// they expand to.
pub struct MeshScratch {
    pub quads: Vec<Quad>,
    /// Four corners per quad, in voxel units.
    pub positions: Vec<IVec3>,
    /// The face normal, once per corner.
    pub normals: Vec<IVec3>,
    /// Two triangles per quad.
    pub indices: Vec<u32>,
}

/// Corner `i` of the vertex list of `quads`.
pub open spec fn vertex(quads: Seq<Quad>, i: int) -> Point {
    quads[i / 4].voxel@.plus(corner(quads[i / 4].face as int, i % 4))
}

/// Entry `j` of an index list.
pub open spec fn index_entry(j: int) -> int {
    4 * (j / 6) + triangle_corner(j % 6)
}

impl MeshScratch {
    /// The lists are the expansion of the quads.
    pub open spec fn wf(self) -> bool {
        &&& self.positions.len() == 4 * self.quads.len()
        &&& self.normals.len() == 4 * self.quads.len()
        &&& self.indices.len() == 6 * self.quads.len()
        &&& forall|i: int|
            0 <= i < self.positions.len() ==> (#[trigger] self.positions[i])@ == vertex(
                self.quads@,
                i,
            )
        &&& forall|i: int|
            0 <= i < self.normals.len() ==> (#[trigger] self.normals[i])@ == face_dir(
                self.quads[i / 4].face as int,
            )
        &&& forall|j: int| 0 <= j < self.indices.len() ==> #[trigger] self.indices[j] == index_entry(j)
    }

    pub fn new() -> (m: Self)
        ensures
            m.wf(),
            m.quads@ == Seq::<Quad>::empty(),
    {
        MeshScratch {
            quads: Vec::new(),
            positions: Vec::new(),
            normals: Vec::new(),
            indices: Vec::new(),
        }
    }

    /// Append one face.
    pub fn push_face(&mut self, q: Quad)
        requires
            old(self).wf(),
            q.face < FACE_COUNT,
            q.voxel.x < i32::MAX,
            q.voxel.y < i32::MAX,
            q.voxel.z < i32::MAX,
            4 * old(self).quads.len() + 3 <= u32::MAX,
        ensures
            final(self).wf(),
            final(self).quads@ == old(self).quads@.push(q),
    {
        let ghost before = *self;
        let ghost n = self.quads.len() as int;
        let i0: u32 = self.positions.len() as u32;
        let normal = dir_of(q.face);
        self.quads.push(q);
        let mut c: usize = 0;
        while c < 4
            invariant
                c <= 4,
                q.face < FACE_COUNT,
                q.voxel.x < i32::MAX,
                q.voxel.y < i32::MAX,
                q.voxel.z < i32::MAX,
                before.wf(),
                n == before.quads.len(),
                normal@ == face_dir(q.face as int),
                self.quads@ == before.quads@.push(q),
                self.indices@ == before.indices@,
                self.positions.len() == 4 * n + c,
                self.normals.len() == 4 * n + c,
                forall|i: int|
                    0 <= i < self.positions.len() ==> (#[trigger] self.positions[i])@ == vertex(
                        self.quads@,
                        i,
                    ),
                forall|i: int|
                    0 <= i < self.normals.len() ==> (#[trigger] self.normals[i])@ == face_dir(
                        self.quads[i / 4].face as int,
                    ),
            decreases 4 - c,
        {
            let d = corner_of(q.face, c);
            let p = IVec3::new(q.voxel.x + d.x, q.voxel.y + d.y, q.voxel.z + d.z);
            assert((4 * n + c) / 4 == n && (4 * n + c) % 4 == c);
            self.positions.push(p);
            self.normals.push(normal);
            c += 1;
        }
        self.indices.push(i0);
        self.indices.push(i0 + 1);
        self.indices.push(i0 + 2);
        self.indices.push(i0);
        self.indices.push(i0 + 2);
        self.indices.push(i0 + 3);
        assert forall|j: int| 0 <= j < self.indices.len() implies #[trigger] self.indices[j]
            == index_entry(j) by {
            if j >= 6 * n {
                assert(j / 6 == n && j % 6 == j - 6 * n);
            } else {
                assert(self.indices[j] == before.indices[j]);
            }
        }
    }
}

/// Position of a face in meshing order: by slot of its voxel, then by face.
pub open spec fn mesh_rank(v: IVec3, face: int) -> int {
    slot(v) * 6 + face
}

/// `quads` lists faces of chunk `cp` before position `n` of the meshing order,
/// in that order.
pub open spec fn in_mesh_order(quads: Seq<Quad>, cp: IVec3, n: int) -> bool {
    &&& forall|i: int|
        0 <= i < quads.len() ==> (#[trigger] quads[i]).face < FACE_COUNT && chunk_at(quads[i].voxel)
            == cp && mesh_rank(quads[i].voxel, quads[i].face as int) < n
    &&& forall|i: int, j: int|
        0 <= i < j < quads.len() ==> mesh_rank(
            (#[trigger] quads[i]).voxel,
            quads[i].face as int,
        ) < mesh_rank((#[trigger] quads[j]).voxel, quads[j].face as int)
}

/// Face `f` of voxel `v` has been found visible, with block `id` behind it.
pub open spec fn exposed<H, O, G, F: Fn(Asteroid<G>, IVec3) -> u8>(
    w: WorldState<H, O, G>,
    gen: F,
    key: IVec3,
    a: Asteroid<G>,
    q: Quad,
) -> bool {
    &&& q.id != AIR
    &&& answers(w, gen, key, a, q.voxel, q.id)
    &&& answers(w, gen, key, a, across(q.voxel, q.face as int).lattice(), AIR)
}

/// Face `f` of voxel `v` has been found hidden: there is no block there, or
/// there is one across the face.
pub open spec fn hidden<H, O, G, F: Fn(Asteroid<G>, IVec3) -> u8>(
    w: WorldState<H, O, G>,
    gen: F,
    key: IVec3,
    a: Asteroid<G>,
    v: IVec3,
    f: int,
) -> bool {
    answers(w, gen, key, a, v, AIR) || exists|b: u8|
        b != AIR && #[trigger] answers(w, gen, key, a, across(v, f).lattice(), b)
}

/// The face is among the quads.
pub open spec fn drawn(quads: Seq<Quad>, v: IVec3, f: int) -> bool {
    exists|i: int|
        0 <= i < quads.len() && (#[trigger] quads[i]).voxel == v && quads[i].face == f
}

/// Every face before position `n` of the meshing order has been dealt with:
/// crystal faces went to `glow`, other visible faces to `solid`, and no face is
/// missing that was not found hidden.
pub open spec fn meshed_up_to<H, O, G, F: Fn(Asteroid<G>, IVec3) -> u8>(
    w: WorldState<H, O, G>,
    gen: F,
    key: IVec3,
    a: Asteroid<G>,
    cp: IVec3,
    solid: Seq<Quad>,
    glow: Seq<Quad>,
    n: int,
) -> bool {
    &&& in_mesh_order(solid, cp, n)
    &&& in_mesh_order(glow, cp, n)
    &&& forall|i: int|
        0 <= i < solid.len() ==> exposed(w, gen, key, a, #[trigger] solid[i]) && solid[i].id != ORE
    &&& forall|i: int|
        0 <= i < glow.len() ==> exposed(w, gen, key, a, #[trigger] glow[i]) && glow[i].id == ORE
    &&& forall|v: IVec3, f: int|
        chunk_at(v) == cp && 0 <= f < FACE_COUNT && #[trigger] mesh_rank(v, f) < n ==> hidden(
            w,
            gen,
            key,
            a,
            v,
            f,
        ) || drawn(solid, v, f) || drawn(glow, v, f)
}

/// A chunk whose voxels all have their six neighbours on the lattice.
pub open spec fn inner_chunk(cp: IVec3) -> bool {
    &&& -0x800_0000 < cp.x < 0x7ff_ffff
    &&& -0x800_0000 < cp.y < 0x7ff_ffff
    &&& -0x800_0000 < cp.z < 0x7ff_ffff
}

proof fn lemma_drawn_push(quads: Seq<Quad>, q: Quad)
    ensures
        drawn(quads.push(q), q.voxel, q.face as int),
        forall|v: IVec3, f: int| #[trigger] drawn(quads, v, f) ==> drawn(quads.push(q), v, f),
{
    assert(quads.push(q)[quads.len() as int] == q);
    assert forall|v: IVec3, f: int| #[trigger] drawn(quads, v, f) implies drawn(
        quads.push(q),
        v,
        f,
    ) by {
        let i = choose|i: int|
            0 <= i < quads.len() && (#[trigger] quads[i]).voxel == v && quads[i].face == f;
        assert(quads.push(q)[i] == quads[i]);
    }
}

/// Two faces of one chunk share a position of the meshing order only if they
/// are the same face.
proof fn lemma_rank_injective(v: IVec3, f: int, u: IVec3, g: int)
    requires
        chunk_at(v) == chunk_at(u),
        0 <= f < FACE_COUNT,
        0 <= g < FACE_COUNT,
        mesh_rank(v, f) == mesh_rank(u, g),
    ensures
        v == u,
        f == g,
{
    lemma_six(slot(v), f, slot(u), g);
    crate::chunk::law_slots_are_distinct(v, u);
}

proof fn lemma_six(a: int, f: int, b: int, g: int)
    requires
        a * 6 + f == b * 6 + g,
        0 <= f < 6,
        0 <= g < 6,
    ensures
        a == b,
        f == g,
{
}

/// In an order of distinct positions each index is bounded by its position.
proof fn lemma_in_order_bound(quads: Seq<Quad>, cp: IVec3, n: int, i: int)
    requires
        in_mesh_order(quads, cp, n),
        0 <= i < quads.len(),
    ensures
        i <= mesh_rank(quads[i].voxel, quads[i].face as int),
    decreases i,
{
    if i > 0 {
        lemma_in_order_bound(quads, cp, n, i - 1);
        assert(mesh_rank(quads[i - 1].voxel, quads[i - 1].face as int) < mesh_rank(
            quads[i].voxel,
            quads[i].face as int,
        ));
    }
}

proof fn lemma_in_order_len(quads: Seq<Quad>, cp: IVec3, n: int)
    requires
        in_mesh_order(quads, cp, n),
        n >= 0,
    ensures
        quads.len() <= n,
{
    if quads.len() > 0 {
        lemma_in_order_bound(quads, cp, n, quads.len() - 1);
    }
}

/// Build both meshes of one body's chunk: lit rock, and crystal glow.
pub fn mesh_chunk<H: Copy, O: Copy, G: Copy, F: Fn(Asteroid<G>, IVec3) -> u8>(
    world: &VoxelWorld<H, O, G>,
    key: IVec3,
    a: Asteroid<G>,
    cp: IVec3,
    gen: &F,
) -> (r: (MeshScratch, MeshScratch))
    requires
        world@.wf(),
        total(*gen),
        inner_chunk(cp),
    ensures
        r.0.wf(),
        r.1.wf(),
        meshed_up_to(world@, *gen, key, a, cp, r.0.quads@, r.1.quads@, CHUNK_VOL * 6),
{
    let mut solid = MeshScratch::new();
    let mut glow = MeshScratch::new();
    let mut i: usize = 0;
    while i < CHUNK_VOL
        invariant
            i <= CHUNK_VOL,
            world@.wf(),
            total(*gen),
            inner_chunk(cp),
            solid.wf(),
            glow.wf(),
            meshed_up_to(world@, *gen, key, a, cp, solid.quads@, glow.quads@, i * 6),
        decreases CHUNK_VOL - i,
    {
        let v = slot_voxel(cp, i);
        let id = world.block_gen(key, a, v, gen);
        let mut f: usize = 0;
        while f < FACE_COUNT
            invariant
                f <= FACE_COUNT,
                i < CHUNK_VOL,
                world@.wf(),
                total(*gen),
                inner_chunk(cp),
                solid.wf(),
                glow.wf(),
                v@ == voxel_in(cp, i as int),
                chunk_at(v) == cp,
                slot(v) == i,
                answers(world@, *gen, key, a, v, id),
                meshed_up_to(world@, *gen, key, a, cp, solid.quads@, glow.quads@, i * 6 + f),
            decreases FACE_COUNT - f,
        {
            let ghost was_solid = solid.quads@;
            let ghost was_glow = glow.quads@;
            proof {
                lemma_in_order_len(was_solid, cp, i * 6 + f);
                lemma_in_order_len(was_glow, cp, i * 6 + f);
            }
            if id != AIR {
                let d = dir_of(f);
                let n = IVec3::new(v.x + d.x, v.y + d.y, v.z + d.z);
                proof {
                    lemma_view_injective(n, across(v, f as int).lattice());
                }
                let b = world.block_gen(key, a, n, gen);
                if b == AIR {
                    let q = Quad { voxel: v, id, face: f };
                    assert(exposed(world@, *gen, key, a, q));
                    proof {
                        lemma_drawn_push(was_solid, q);
                        lemma_drawn_push(was_glow, q);
                    }
                    if id == ORE {
                        glow.push_face(q);
                    } else {
                        solid.push_face(q);
                    }
                } else {
                    assert(hidden(world@, *gen, key, a, v, f as int));
                }
            }
            proof {
                assert forall|u: IVec3, g: int|
                    chunk_at(u) == cp && 0 <= g < FACE_COUNT && #[trigger] mesh_rank(u, g) < i * 6
                        + f + 1 implies hidden(world@, *gen, key, a, u, g) || drawn(
                    solid.quads@,
                    u,
                    g,
                ) || drawn(glow.quads@, u, g) by {
                    if mesh_rank(u, g) == i * 6 + f {
                        assert(mesh_rank(v, f as int) == i * 6 + f);
                        lemma_rank_injective(v, f as int, u, g);
                    }
                }
            }
            f += 1;
        }
        i += 1;
    }
    (solid, glow)
}

/// The mesh of a chunk is exactly its exposed faces: with a terrain that
/// answers in one way only, a face is drawn if and only if there is a block
/// behind it and none across it, and it is drawn once, in the glow mesh if the
/// block is crystal and in the solid mesh otherwise.
pub proof fn law_mesh_is_the_exposed_faces<H, O, G, F: Fn(Asteroid<G>, IVec3) -> u8>(
    w: WorldState<H, O, G>,
    gen: F,
    key: IVec3,
    a: Asteroid<G>,
    cp: IVec3,
    solid: Seq<Quad>,
    glow: Seq<Quad>,
    block: spec_fn(IVec3) -> u8,
    v: IVec3,
    f: int,
)
    requires
        meshed_up_to(w, gen, key, a, cp, solid, glow, CHUNK_VOL * 6),
        forall|g: IVec3, b: u8| #[trigger] answers(w, gen, key, a, g, b) ==> b == block(g),
        chunk_at(v) == cp,
        0 <= f < FACE_COUNT,
    ensures
        drawn(solid, v, f) <==> block(v) != AIR && block(v) != ORE && block(
            across(v, f).lattice(),
        ) == AIR,
        drawn(glow, v, f) <==> block(v) == ORE && block(across(v, f).lattice()) == AIR,
{
    crate::chunk::law_voxel_to_slot(v);
    assert(mesh_rank(v, f) < CHUNK_VOL * 6);
    if drawn(solid, v, f) {
        let i = choose|i: int|
            0 <= i < solid.len() && (#[trigger] solid[i]).voxel == v && solid[i].face == f;
        assert(exposed(w, gen, key, a, solid[i]));
    }
    if drawn(glow, v, f) {
        let i = choose|i: int|
            0 <= i < glow.len() && (#[trigger] glow[i]).voxel == v && glow[i].face == f;
        assert(exposed(w, gen, key, a, glow[i]));
    }
    if hidden(w, gen, key, a, v, f) && !answers(w, gen, key, a, v, AIR) {
        let b = choose|b: u8|
            b != AIR && #[trigger] answers(w, gen, key, a, across(v, f).lattice(), b);
        assert(b == block(across(v, f).lattice()));
    }
}

/// No face is drawn twice.
pub proof fn law_faces_are_drawn_once(quads: Seq<Quad>, cp: IVec3, n: int, i: int, j: int)
    requires
        in_mesh_order(quads, cp, n),
        0 <= i < j < quads.len(),
    ensures
        quads[i].voxel != quads[j].voxel || quads[i].face != quads[j].face,
{
}

/// A chunk buried inside rock meshes to nothing: if no face of it borders air,
/// both meshes are empty.
pub proof fn law_buried_chunk_meshes_to_nothing<H, O, G, F: Fn(Asteroid<G>, IVec3) -> u8>(
    w: WorldState<H, O, G>,
    gen: F,
    key: IVec3,
    a: Asteroid<G>,
    cp: IVec3,
    solid: Seq<Quad>,
    glow: Seq<Quad>,
)
    requires
        meshed_up_to(w, gen, key, a, cp, solid, glow, CHUNK_VOL * 6),
        forall|v: IVec3, f: int|
            chunk_at(v) == cp && 0 <= f < FACE_COUNT ==> !answers(
                w,
                gen,
                key,
                a,
                (#[trigger] across(v, f)).lattice(),
                AIR,
            ),
    ensures
        solid.len() == 0,
        glow.len() == 0,
{
    if solid.len() > 0 {
        assert(exposed(w, gen, key, a, solid[0]));
        assert(!answers(
            w,
            gen,
            key,
            a,
            across(solid[0].voxel, solid[0].face as int).lattice(),
            AIR,
        ));
    }
    if glow.len() > 0 {
        assert(exposed(w, gen, key, a, glow[0]));
        assert(!answers(
            w,
            gen,
            key,
            a,
            across(glow[0].voxel, glow[0].face as int).lattice(),
            AIR,
        ));
    }
}

/// A face is a side of its voxel: its four corners are distinct corners of the
/// unit cube, all on the side that the face looks to.
pub proof fn law_faces_are_sides_of_the_cube(f: int, c: int, e: int)
    requires
        0 <= f < FACE_COUNT,
        0 <= c < 4,
        0 <= e < 4,
    ensures
        0 <= corner(f, c).x <= 1,
        0 <= corner(f, c).y <= 1,
        0 <= corner(f, c).z <= 1,
        c != e ==> corner(f, c) != corner(f, e),
        face_dir(f).x == 1 ==> corner(f, c).x == 1,
        face_dir(f).x == -1 ==> corner(f, c).x == 0,
        face_dir(f).y == 1 ==> corner(f, c).y == 1,
        face_dir(f).y == -1 ==> corner(f, c).y == 0,
        face_dir(f).z == 1 ==> corner(f, c).z == 1,
        face_dir(f).z == -1 ==> corner(f, c).z == 0,
        triangle_corner(0) == 0 && triangle_corner(1) == 1 && triangle_corner(2) == 2,
        triangle_corner(3) == 0 && triangle_corner(4) == 2 && triangle_corner(5) == 3,
{
}

/// A mesh is the expansion of its faces: of the `n`-th face four vertices at its
/// voxel's corners, each with the face's normal, and two triangles over them.
pub proof fn law_mesh_expands_its_faces(m: MeshScratch, n: int, c: int, j: int)
    requires
        m.wf(),
        0 <= n < m.quads.len(),
        0 <= c < 4,
        0 <= j < 6,
    ensures
        m.positions.len() == 4 * m.quads.len(),
        m.normals.len() == 4 * m.quads.len(),
        m.indices.len() == 6 * m.quads.len(),
        m.positions[4 * n + c].x == m.quads[n].voxel.x + corner(m.quads[n].face as int, c).x,
        m.positions[4 * n + c].y == m.quads[n].voxel.y + corner(m.quads[n].face as int, c).y,
        m.positions[4 * n + c].z == m.quads[n].voxel.z + corner(m.quads[n].face as int, c).z,
        m.normals[4 * n + c]@ == face_dir(m.quads[n].face as int),
        m.indices[6 * n + j] == 4 * n + triangle_corner(j),
{
    assert((4 * n + c) / 4 == n && (4 * n + c) % 4 == c);
    assert((6 * n + j) / 6 == n && (6 * n + j) % 6 == j);
    assert(m.positions[4 * n + c]@ == vertex(m.quads@, 4 * n + c));
    assert(m.normals[4 * n + c]@ == face_dir(m.quads[(4 * n + c) / 4].face as int));
    assert(m.indices[6 * n + j] == index_entry(6 * n + j));
}

/// Every visible face is in the mesh, exactly once, and no hidden one: a block of
/// the chunk with air beside it shows that side, with its own id, among the
/// glowing faces if it is crystal and among the lit ones if not.
pub proof fn law_visible_faces_are_meshed<H, O, G, F: Fn(Asteroid<G>, IVec3) -> u8>(
    w: WorldState<H, O, G>,
    gen: F,
    key: IVec3,
    a: Asteroid<G>,
    cp: IVec3,
    solid: Seq<Quad>,
    glow: Seq<Quad>,
    block: spec_fn(IVec3) -> u8,
    v: IVec3,
    f: int,
    n: IVec3,
)
    requires
        meshed_up_to(w, gen, key, a, cp, solid, glow, CHUNK_VOL * 6),
        forall|g: IVec3, b: u8| #[trigger] answers(w, gen, key, a, g, b) ==> b == block(g),
        16 * cp.x <= v.x < 16 * cp.x + 16,
        16 * cp.y <= v.y < 16 * cp.y + 16,
        16 * cp.z <= v.z < 16 * cp.z + 16,
        0 <= f < FACE_COUNT,
        n.x == v.x + face_dir(f).x,
        n.y == v.y + face_dir(f).y,
        n.z == v.z + face_dir(f).z,
    ensures
        block(v) != AIR && block(n) == AIR && block(v) != ORE ==> exists|i: int|
            0 <= i < solid.len() && #[trigger] solid[i] == (Quad {
                voxel: v,
                id: block(v),
                face: f as usize,
            }),
        block(v) == ORE && block(n) == AIR ==> exists|i: int|
            0 <= i < glow.len() && #[trigger] glow[i] == (Quad {
                voxel: v,
                id: ORE,
                face: f as usize,
            }),
        block(v) == AIR || block(n) != AIR ==> forall|i: int|
            0 <= i < solid.len() ==> (#[trigger] solid[i]).voxel != v || solid[i].face != f,
        block(v) == AIR || block(n) != AIR ==> forall|i: int|
            0 <= i < glow.len() ==> (#[trigger] glow[i]).voxel != v || glow[i].face != f,
{
    crate::chunk::law_chunks_are_cubes(v, cp);
    lemma_view_injective(across(v, f).lattice(), n);
    law_mesh_is_the_exposed_faces(w, gen, key, a, cp, solid, glow, block, v, f);
    if drawn(solid, v, f) {
        let i = choose|i: int|
            0 <= i < solid.len() && (#[trigger] solid[i]).voxel == v && solid[i].face == f;
        assert(exposed(w, gen, key, a, solid[i]));
    }
    if drawn(glow, v, f) {
        let i = choose|i: int|
            0 <= i < glow.len() && (#[trigger] glow[i]).voxel == v && glow[i].face == f;
        assert(exposed(w, gen, key, a, glow[i]));
    }
}

} // verus!
