//! Explosive charges: which voxels a blast reaches, and what it carves out.
use crate::blocks::{AIR, BARRIER};
use crate::body::Asteroid;
use crate::ivec::{IVec3, Point};
use crate::state::{owns, pure, seen, WorldState};
use crate::storage::{
    law_block_is_determined, law_removal_clears_the_voxel, law_removal_spares_the_rest,
    lemma_owner_is_unique, lemma_removal_keeps_order, lemma_removal_spares_owners,
};
use crate::text::{decimal, push_decimal};
use crate::world::VoxelWorld;
use vstd::prelude::*;
use vstd::string::StringExecFns;

verus! {

/// Blast radius, in voxels.
pub const BLAST_VOXELS: i32 = 16;

/// Order in which a blast works through its box: by y, then z, then x.
pub open spec fn blasted_before(a: IVec3, b: IVec3) -> bool {
    a.y < b.y || (a.y == b.y && (a.z < b.z || (a.z == b.z && a.x < b.x)))
}

/// The box of a blast: every voxel no further than the radius from its center
/// along any axis.
pub open spec fn in_blast_box(c: IVec3, r: int, v: IVec3) -> bool {
    v@.minus(c@).within(Point { x: -r, y: -r, z: -r }, Point { x: r, y: r, z: r })
}

/// `s` lists the voxels of the box before the position (x, y, z) that `inside`
/// calls inside the blast, in blast order.
pub open spec fn blast_up_to<F: Fn(IVec3) -> bool>(
    s: Seq<IVec3>,
    c: IVec3,
    r: int,
    inside: F,
    x: int,
    y: int,
    z: int,
) -> bool {
    &&& forall|i: int, j: int|
        0 <= i < j < s.len() ==> blasted_before(#[trigger] s[i], #[trigger] s[j])
    &&& forall|i: int|
        0 <= i < s.len() ==> in_blast_box(c, r, #[trigger] s[i]) && visited(s[i], x, y, z)
            && inside.ensures((s[i],), true)
    &&& forall|v: IVec3|
        in_blast_box(c, r, v) && visited(v, x, y, z) && !#[trigger] s.contains(v)
            ==> inside.ensures((v,), false)
}

/// `v` comes before the position (x, y, z) in blast order.
pub open spec fn visited(v: IVec3, x: int, y: int, z: int) -> bool {
    v.y < y || (v.y == y && (v.z < z || (v.z == z && v.x < x)))
}

/// `s` lists the voxels that a blast reaches, in blast order.
pub open spec fn blast_list<F: Fn(IVec3) -> bool>(
    s: Seq<IVec3>,
    c: IVec3,
    r: int,
    inside: F,
) -> bool {
    &&& forall|i: int, j: int|
        0 <= i < j < s.len() ==> blasted_before(#[trigger] s[i], #[trigger] s[j])
    &&& forall|i: int|
        0 <= i < s.len() ==> in_blast_box(c, r, #[trigger] s[i]) && inside.ensures((s[i],), true)
    &&& forall|v: IVec3|
        in_blast_box(c, r, v) && !#[trigger] s.contains(v) ==> inside.ensures((v,), false)
}

/// The voxels that a blast reaches.
pub fn blast_cells<F: Fn(IVec3) -> bool>(c: IVec3, r: i32, inside: &F) -> (s: Vec<IVec3>)
    requires
        0 <= r,
        i32::MIN + r <= c.x <= i32::MAX - r,
        i32::MIN + r <= c.y <= i32::MAX - r,
        i32::MIN + r <= c.z <= i32::MAX - r,
        forall|v: IVec3| #[trigger] inside.requires((v,)),
    ensures
        blast_list(s@, c, r as int, *inside),
        forall|v: IVec3| #[trigger]
            s@.contains(v) ==> inside.ensures((v,), true) && -r <= v.x - c.x <= r && -r <= v.y - c.y
                <= r && -r <= v.z - c.z <= r,
        forall|v: IVec3|
            -r <= v.x - c.x <= r && -r <= v.y - c.y <= r && -r <= v.z - c.z <= r
                && !#[trigger] s@.contains(v) ==> inside.ensures((v,), false),
        s@.no_duplicates(),
{
    let mut s: Vec<IVec3> = Vec::new();
    let mut y: i64 = c.y as i64 - r as i64;
    while y <= c.y as i64 + r as i64
        invariant
            0 <= r,
            i32::MIN + r <= c.x <= i32::MAX - r,
            i32::MIN + r <= c.y <= i32::MAX - r,
            i32::MIN + r <= c.z <= i32::MAX - r,
            c.y - r <= y <= c.y + r + 1,
            forall|v: IVec3| #[trigger] inside.requires((v,)),
            blast_up_to(s@, c, r as int, *inside, c.x - r, y as int, c.z - r),
        decreases c.y + r + 1 - y,
    {
        let mut z: i64 = c.z as i64 - r as i64;
        while z <= c.z as i64 + r as i64
            invariant
                0 <= r,
                i32::MIN + r <= c.x <= i32::MAX - r,
                i32::MIN + r <= c.y <= i32::MAX - r,
                i32::MIN + r <= c.z <= i32::MAX - r,
                c.y - r <= y <= c.y + r,
                c.z - r <= z <= c.z + r + 1,
                forall|v: IVec3| #[trigger] inside.requires((v,)),
                blast_up_to(s@, c, r as int, *inside, c.x - r, y as int, z as int),
            decreases c.z + r + 1 - z,
        {
            let mut x: i64 = c.x as i64 - r as i64;
            while x <= c.x as i64 + r as i64
                invariant
                    0 <= r,
                    i32::MIN + r <= c.x <= i32::MAX - r,
                    i32::MIN + r <= c.y <= i32::MAX - r,
                    i32::MIN + r <= c.z <= i32::MAX - r,
                    c.y - r <= y <= c.y + r,
                    c.z - r <= z <= c.z + r,
                    c.x - r <= x <= c.x + r + 1,
                    forall|v: IVec3| #[trigger] inside.requires((v,)),
                    blast_up_to(s@, c, r as int, *inside, x as int, y as int, z as int),
                decreases c.x + r + 1 - x,
            {
                let v = IVec3::new(x as i32, y as i32, z as i32);
                let ghost was = s@;
                let hit = inside(v);
                if hit {
                    s.push(v);
                }
                proof {
                    assert forall|u: IVec3|
                        in_blast_box(c, r as int, u) && visited(u, x + 1, y as int, z as int)
                            && !#[trigger] s@.contains(u) implies inside.ensures((u,), false) by {
                        if was.contains(u) {
                            assert(s@[was.index_of(u)] == u);
                        }
                        if u@ == v@ {
                            assert(u == v);
                            if hit {
                                assert(s@[was.len() as int] == v);
                            }
                        }
                    }
                    assert forall|i: int| 0 <= i < s@.len() implies in_blast_box(
                        c,
                        r as int,
                        #[trigger] s@[i],
                    ) && visited(s@[i], x + 1, y as int, z as int) && inside.ensures(
                        (s@[i],),
                        true,
                    ) by {
                        if i < was.len() {
                            assert(s@[i] == was[i]);
                        }
                    }
                    assert forall|i: int, j: int| 0 <= i < j < s@.len() implies blasted_before(
                        #[trigger] s@[i],
                        #[trigger] s@[j],
                    ) by {
                        assert(s@[i] == was[i]);
                        if j < was.len() {
                            assert(s@[j] == was[j]);
                        }
                    }
                }
                x += 1;
            }
            proof {
                assert forall|u: IVec3| in_blast_box(c, r as int, u) implies visited(
                    u,
                    x as int,
                    y as int,
                    z as int,
                ) == #[trigger] visited(u, c.x - r, y as int, z + 1) by {}
                assert forall|i: int| 0 <= i < s@.len() implies visited(
                    #[trigger] s@[i],
                    c.x - r,
                    y as int,
                    z + 1,
                ) by {}
                assert(blast_up_to(s@, c, r as int, *inside, c.x - r, y as int, z + 1));
            }
            z += 1;
        }
        proof {
            assert forall|u: IVec3| in_blast_box(c, r as int, u) implies visited(
                u,
                c.x - r,
                y as int,
                z as int,
            ) == #[trigger] visited(u, c.x - r, y + 1, c.z - r) by {}
            assert forall|i: int| 0 <= i < s@.len() implies visited(
                #[trigger] s@[i],
                c.x - r,
                y + 1,
                c.z - r,
            ) by {}
            assert(blast_up_to(s@, c, r as int, *inside, c.x - r, y + 1, c.z - r));
        }
        y += 1;
    }
    assert forall|v: IVec3|
        in_blast_box(c, r as int, v) && !#[trigger] s@.contains(v) implies inside.ensures(
        (v,),
        false,
    ) by {
        assert(visited(v, c.x - r, y as int, c.z - r));
    }
    proof {
        assert forall|i: int, j: int| 0 <= i < s@.len() && 0 <= j < s@.len() && i != j implies s@[i]
            != s@[j] by {
            if i < j {
                assert(blasted_before(s@[i], s@[j]));
            } else {
                assert(blasted_before(s@[j], s@[i]));
            }
        }
        assert forall|v: IVec3| #[trigger] s@.contains(v) implies inside.ensures((v,), true)
            && in_blast_box(c, r as int, v) by {
            assert(s@[s@.index_of(v)] == v);
        }
    }
    s
}

/// A blast reaches every voxel of its box that is inside, and no other: no part
/// of the crater is left out, however it lies.
pub proof fn law_blast_reaches_all_inside<F: Fn(IVec3) -> bool>(
    s: Seq<IVec3>,
    c: IVec3,
    r: int,
    inside: F,
    v: IVec3,
)
    requires
        blast_list(s, c, r, inside),
        forall|v: IVec3, x: bool, y: bool| #[trigger]
            inside.ensures((v,), x) && #[trigger] inside.ensures((v,), y) ==> x == y,
        inside.ensures((v,), true) || inside.ensures((v,), false),
    ensures
        s.contains(v) <==> inside.ensures((v,), true) && -r <= v.x - c.x <= r && -r <= v.y - c.y
            <= r && -r <= v.z - c.z <= r,
{
    if s.contains(v) {
        assert(s[s.index_of(v)] == v);
    } else if in_blast_box(c, r, v) {
        assert(inside.ensures((v,), false));
    }
}

/// One block torn loose by a blast.
#[derive(Clone, Copy, PartialEq, Eq, Structural, Debug)]
pub struct Torn {
    pub voxel: IVec3,
    pub id: u8,
    /// Those of the body that it was torn from.
    pub tier: i32,
    pub species: u8,
}

/// A blast at one voxel turned `w` into `after` and appended to what was torn
/// loose: air and barriers stand, anything else is removed.
pub open spec fn blasted<H, O, G, F: Fn(Asteroid<G>, IVec3) -> u8>(
    w: WorldState<H, O, G>,
    torn: Seq<Torn>,
    gen: F,
    v: IVec3,
    after: WorldState<H, O, G>,
    after_torn: Seq<Torn>,
) -> bool {
    (seen(w, gen, v, AIR) && after == w && after_torn == torn) || exists|i: int, b: u8| #[trigger]
        owns(w, gen, v, i, b) && if b == BARRIER {
            after == w && after_torn == torn
        } else {
            after == w.removed(gen, v) && after_torn == torn.push(
                Torn { voxel: v, id: b, tier: w.near[i].a.tier, species: w.near[i].a.species },
            )
        }
}

/// A blast over `cells`, one after the other, turned `w` into `after` and tore
/// `torn` loose.
pub open spec fn carved<H, O, G, F: Fn(Asteroid<G>, IVec3) -> u8>(
    w: WorldState<H, O, G>,
    gen: F,
    cells: Seq<IVec3>,
    after: WorldState<H, O, G>,
    torn: Seq<Torn>,
) -> bool
    decreases cells.len(),
{
    if cells.len() == 0 {
        after == w && torn.len() == 0
    } else {
        exists|mid: WorldState<H, O, G>, loose: Seq<Torn>|
            carved(w, gen, cells.drop_last(), mid, loose) && #[trigger] blasted(
                mid,
                loose,
                gen,
                cells.last(),
                after,
                torn,
            )
    }
}

/// Carve out every block of `cells` but barriers, and report what was torn
/// loose.
pub fn explode<H: Copy, O: Copy, G: Copy, F: Fn(Asteroid<G>, IVec3) -> u8>(
    world: &mut VoxelWorld<H, O, G>,
    cells: &Vec<IVec3>,
    gen: &F,
) -> (torn: Vec<Torn>)
    requires
        old(world)@.wf(),
        pure(*gen),
    ensures
        final(world)@.wf(),
        carved(old(world)@, *gen, cells@, final(world)@, torn@),
        forall|v: IVec3, i: int, b: u8| #[trigger]
            owns(old(world)@, *gen, v, i, b) && cells@.contains(v) && b != BARRIER
                ==> torn@.contains(
                Torn {
                    voxel: v,
                    id: b,
                    tier: old(world)@.near[i].a.tier,
                    species: old(world)@.near[i].a.species,
                },
            ),
        forall|v: IVec3, b: u8|
            cells@.contains(v) && #[trigger] seen(final(world)@, *gen, v, b) ==> b == AIR || b
                == BARRIER,
        forall|v: IVec3, b: u8|
            !cells@.contains(v) ==> #[trigger] seen(final(world)@, *gen, v, b) == seen(
                old(world)@,
                *gen,
                v,
                b,
            ),
        forall|m: int, n: int|
            0 <= m < n < torn.len() ==> (#[trigger] torn@[m]).voxel != (#[trigger] torn@[n]).voxel,
{
    let ghost before = world@;
    let mut torn: Vec<Torn> = Vec::new();
    let mut i: usize = 0;
    assert(cells@.take(0) =~= Seq::empty());
    while i < cells.len()
        invariant
            i <= cells.len(),
            world@.wf(),
            pure(*gen),
            carved(before, *gen, cells@.take(i as int), world@, torn@),
        decreases cells.len() - i,
    {
        let v = cells[i];
        let ghost mid = world@;
        let ghost loose = torn@;
        let ghost t = cells@.take(i + 1);
        assert(t.drop_last() =~= cells@.take(i as int));
        if let Some((n, id)) = world.look(v, gen) {
            assert(owns(mid, *gen, v, n as int, id));
            let a = world.nearby()[n].a;
            if id != BARRIER {
                world.set_air(v, gen);
                torn.push(Torn { voxel: v, id, tier: a.tier, species: a.species });
            }
        }
        assert(blasted(mid, loose, *gen, t.last(), world@, torn@));
        i += 1;
    }
    assert(cells@.take(cells@.len() as int) =~= cells@);
    proof {
        assert forall|v: IVec3, i: int, b: u8| #[trigger] owns(before, *gen, v, i, b)
            && cells@.contains(v) && b != BARRIER implies torn@.contains(
            Torn { voxel: v, id: b, tier: before.near[i].a.tier, species: before.near[i].a.species },
        ) by {
            law_blast_drops_what_it_tears(before, *gen, cells@, world@, torn@, v, i, b);
        }
        assert forall|v: IVec3, b: u8|
            cells@.contains(v) && #[trigger] seen(world@, *gen, v, b) implies b == AIR || b
            == BARRIER by {
            law_blast_clears_its_crater(before, *gen, cells@, world@, torn@, v, b);
        }
        assert forall|v: IVec3, b: u8| !cells@.contains(v) implies #[trigger] seen(
            world@,
            *gen,
            v,
            b,
        ) == seen(before, *gen, v, b) by {
            law_blast_clears_its_crater(before, *gen, cells@, world@, torn@, v, b);
        }
        assert forall|m: int, n: int| 0 <= m < n < torn@.len() implies (#[trigger] torn@[m]).voxel
            != (#[trigger] torn@[n]).voxel by {
            law_blast_drops_nothing_else(before, *gen, cells@, world@, torn@, n);
            let v = torn@[n].voxel;
            let i = choose|i: int| #[trigger] owns(before, *gen, v, i, torn@[n].id);
            law_blast_drops_what_it_tears(before, *gen, cells@, world@, torn@, v, i, torn@[n].id);
        }
    }
    torn
}

/// A blast leaves barriers standing and tears no air loose.
pub proof fn law_blast_spares_barriers<H, O, G, F: Fn(Asteroid<G>, IVec3) -> u8>(
    w: WorldState<H, O, G>,
    gen: F,
    cells: Seq<IVec3>,
    after: WorldState<H, O, G>,
    torn: Seq<Torn>,
    i: int,
)
    requires
        carved(w, gen, cells, after, torn),
        0 <= i < torn.len(),
    ensures
        torn[i].id != AIR,
        torn[i].id != BARRIER,
        cells.contains(torn[i].voxel),
    decreases cells.len(),
{
    if cells.len() > 0 {
        let (mid, loose) = choose|mid: WorldState<H, O, G>, loose: Seq<Torn>|
            carved(w, gen, cells.drop_last(), mid, loose) && #[trigger] blasted(
                mid,
                loose,
                gen,
                cells.last(),
                after,
                torn,
            );
        if i < loose.len() {
            law_blast_spares_barriers(w, gen, cells.drop_last(), mid, loose, i);
            assert(torn[i] == loose[i]);
            let j = cells.drop_last().index_of(loose[i].voxel);
            assert(cells[j] == loose[i].voxel);
        } else {
            assert(cells[cells.len() - 1] == cells.last());
        }
    }
}

proof fn lemma_blast_keeps_order<H, O, G, F: Fn(Asteroid<G>, IVec3) -> u8>(
    w: WorldState<H, O, G>,
    gen: F,
    cells: Seq<IVec3>,
    after: WorldState<H, O, G>,
    torn: Seq<Torn>,
)
    requires
        w.wf(),
        carved(w, gen, cells, after, torn),
    ensures
        after.wf(),
    decreases cells.len(),
{
    if cells.len() > 0 {
        let (mid, loose) = choose|mid: WorldState<H, O, G>, loose: Seq<Torn>|
            carved(w, gen, cells.drop_last(), mid, loose) && #[trigger] blasted(
                mid,
                loose,
                gen,
                cells.last(),
                after,
                torn,
            );
        lemma_blast_keeps_order(w, gen, cells.drop_last(), mid, loose);
        lemma_removal_keeps_order(mid, gen, cells.last());
    }
}

/// A blast clears its crater: at every voxel of it there is air afterwards, or
/// a barrier; at every other voxel nothing has changed.
pub proof fn law_blast_clears_its_crater<H, O, G, F: Fn(Asteroid<G>, IVec3) -> u8>(
    w: WorldState<H, O, G>,
    gen: F,
    cells: Seq<IVec3>,
    after: WorldState<H, O, G>,
    torn: Seq<Torn>,
    v: IVec3,
    b: u8,
)
    requires
        w.wf(),
        pure(gen),
        carved(w, gen, cells, after, torn),
    ensures
        cells.contains(v) && seen(after, gen, v, b) ==> b == AIR || b == BARRIER,
        !cells.contains(v) ==> seen(after, gen, v, b) == seen(w, gen, v, b),
    decreases cells.len(),
{
    if cells.len() > 0 {
        let (mid, loose) = choose|mid: WorldState<H, O, G>, loose: Seq<Torn>|
            carved(w, gen, cells.drop_last(), mid, loose) && #[trigger] blasted(
                mid,
                loose,
                gen,
                cells.last(),
                after,
                torn,
            );
        let last = cells.last();
        let head = cells.drop_last();
        assert(cells[cells.len() - 1] == last);
        if head.contains(v) {
            assert(cells[head.index_of(v)] == v);
        }
        if cells.contains(v) && v != last {
            assert(head[cells.index_of(v)] == v);
        }
        law_blast_clears_its_crater(w, gen, head, mid, loose, v, b);
        lemma_blast_keeps_order(w, gen, head, mid, loose);
        if v != last {
            law_removal_spares_the_rest(mid, gen, last, v, b);
        } else if seen(after, gen, v, b) {
            if after == mid.removed(gen, v) {
                law_removal_clears_the_voxel(mid, gen, v, b);
            } else if seen(mid, gen, v, AIR) {
                law_block_is_determined(mid, gen, v, b, AIR);
            } else {
                let i = choose|i: int| #[trigger] owns(mid, gen, v, i, BARRIER);
                assert(owns(mid, gen, v, i, BARRIER));
                assert(seen(mid, gen, v, BARRIER));
                law_block_is_determined(mid, gen, v, b, BARRIER);
            }
        }
    }
}

/// A blast leaves every block outside its crater with the body that holds it.
proof fn lemma_blast_spares_owners<H, O, G, F: Fn(Asteroid<G>, IVec3) -> u8>(
    w: WorldState<H, O, G>,
    gen: F,
    cells: Seq<IVec3>,
    after: WorldState<H, O, G>,
    torn: Seq<Torn>,
    v: IVec3,
    i: int,
    b: u8,
)
    requires
        w.wf(),
        carved(w, gen, cells, after, torn),
        !cells.contains(v),
    ensures
        owns(after, gen, v, i, b) == owns(w, gen, v, i, b),
        after.near == w.near,
    decreases cells.len(),
{
    if cells.len() > 0 {
        let (mid, loose) = choose|mid: WorldState<H, O, G>, loose: Seq<Torn>|
            carved(w, gen, cells.drop_last(), mid, loose) && #[trigger] blasted(
                mid,
                loose,
                gen,
                cells.last(),
                after,
                torn,
            );
        let head = cells.drop_last();
        assert(cells[cells.len() - 1] == cells.last());
        if head.contains(v) {
            assert(cells[head.index_of(v)] == v);
        }
        lemma_blast_spares_owners(w, gen, head, mid, loose, v, i, b);
        lemma_blast_keeps_order(w, gen, head, mid, loose);
        lemma_removal_spares_owners(mid, gen, cells.last(), v, i, b);
        lemma_removal_keeps_order(mid, gen, cells.last());
    }
}

/// Nothing that a blast tears loose is lost: every voxel of the crater that
/// showed a block, short of a barrier, is listed once and once only, with that
/// block's id and with tier and species of the body that it belonged to.
pub proof fn law_blast_drops_what_it_tears<H, O, G, F: Fn(Asteroid<G>, IVec3) -> u8>(
    w: WorldState<H, O, G>,
    gen: F,
    cells: Seq<IVec3>,
    after: WorldState<H, O, G>,
    torn: Seq<Torn>,
    v: IVec3,
    i: int,
    b: u8,
)
    requires
        w.wf(),
        pure(gen),
        carved(w, gen, cells, after, torn),
        cells.contains(v),
        owns(w, gen, v, i, b),
        b != BARRIER,
    ensures
        exists|n: int|
            {
                &&& 0 <= n < torn.len()
                &&& #[trigger] torn[n] == (Torn {
                    voxel: v,
                    id: b,
                    tier: w.near[i].a.tier,
                    species: w.near[i].a.species,
                })
                &&& forall|m: int|
                    0 <= m < torn.len() && (#[trigger] torn[m]).voxel == v ==> m == n
            },
    decreases cells.len(),
{
    let (mid, loose) = choose|mid: WorldState<H, O, G>, loose: Seq<Torn>|
        carved(w, gen, cells.drop_last(), mid, loose) && #[trigger] blasted(
            mid,
            loose,
            gen,
            cells.last(),
            after,
            torn,
        );
    let head = cells.drop_last();
    let last = cells.last();
    let t = Torn { voxel: v, id: b, tier: w.near[i].a.tier, species: w.near[i].a.species };
    assert(loose.len() <= torn.len() <= loose.len() + 1);
    assert forall|m: int| 0 <= m < loose.len() implies #[trigger] torn[m] == loose[m] by {}
    if head.contains(v) {
        law_blast_drops_what_it_tears(w, gen, head, mid, loose, v, i, b);
        let n = choose|n: int|
            {
                &&& 0 <= n < loose.len()
                &&& #[trigger] loose[n] == t
                &&& forall|m: int|
                    0 <= m < loose.len() && (#[trigger] loose[m]).voxel == v ==> m == n
            };
        assert(torn[n] == t);
        if last == v && torn.len() > loose.len() {
            let (k, c) = choose|k: int, c: u8| #[trigger]
                owns(mid, gen, v, k, c) && c != BARRIER;
            assert(seen(mid, gen, v, c));
            law_blast_clears_its_crater(w, gen, head, mid, loose, v, c);
        }
        assert forall|m: int| 0 <= m < torn.len() && (#[trigger] torn[m]).voxel == v implies m
            == n by {
            if m < loose.len() {
                assert(loose[m].voxel == v);
            }
        }
    } else {
        if last != v {
            assert(head[cells.index_of(v)] == v);
        }
        lemma_blast_spares_owners(w, gen, head, mid, loose, v, i, b);
        assert(owns(mid, gen, v, i, b));
        assert(seen(mid, gen, v, b));
        if seen(mid, gen, v, AIR) {
            law_block_is_determined(mid, gen, v, AIR, b);
        }
        let (k, c) = choose|k: int, c: u8| #[trigger]
            owns(mid, gen, v, k, c) && if c == BARRIER {
                after == mid && torn == loose
            } else {
                after == mid.removed(gen, v) && torn == loose.push(
                    Torn {
                        voxel: v,
                        id: c,
                        tier: mid.near[k].a.tier,
                        species: mid.near[k].a.species,
                    },
                )
            };
        lemma_owner_is_unique(mid, gen, v, i, b, k, c);
        assert(torn[loose.len() as int] == t);
        assert forall|m: int| 0 <= m < torn.len() && (#[trigger] torn[m]).voxel == v implies m
            == loose.len() by {
            if m < loose.len() {
                law_blast_spares_barriers(w, gen, head, mid, loose, m);
                assert(head.contains(loose[m].voxel));
            }
        }
    }
}

/// A barrier in the crater stands as it stood.
pub proof fn law_barriers_stand<H, O, G, F: Fn(Asteroid<G>, IVec3) -> u8>(
    w: WorldState<H, O, G>,
    gen: F,
    cells: Seq<IVec3>,
    after: WorldState<H, O, G>,
    torn: Seq<Torn>,
    v: IVec3,
    i: int,
)
    requires
        w.wf(),
        pure(gen),
        carved(w, gen, cells, after, torn),
        owns(w, gen, v, i, BARRIER),
    ensures
        owns(after, gen, v, i, BARRIER),
    decreases cells.len(),
{
    if cells.len() > 0 {
        let (mid, loose) = choose|mid: WorldState<H, O, G>, loose: Seq<Torn>|
            carved(w, gen, cells.drop_last(), mid, loose) && #[trigger] blasted(
                mid,
                loose,
                gen,
                cells.last(),
                after,
                torn,
            );
        let last = cells.last();
        law_barriers_stand(w, gen, cells.drop_last(), mid, loose, v, i);
        lemma_blast_keeps_order(w, gen, cells.drop_last(), mid, loose);
        if last == v {
            if !seen(mid, gen, v, AIR) {
                let (k, c) = choose|k: int, c: u8| #[trigger]
                    owns(mid, gen, v, k, c) && if c == BARRIER {
                        after == mid && torn == loose
                    } else {
                        after == mid.removed(gen, v) && torn == loose.push(
                            Torn {
                                voxel: v,
                                id: c,
                                tier: mid.near[k].a.tier,
                                species: mid.near[k].a.species,
                            },
                        )
                    };
                lemma_owner_is_unique(mid, gen, v, i, BARRIER, k, c);
            } else {
                assert(seen(mid, gen, v, BARRIER));
                law_block_is_determined(mid, gen, v, AIR, BARRIER);
            }
        } else {
            lemma_removal_spares_owners(mid, gen, last, v, i, BARRIER);
        }
    }
}

/// Nothing is made up either: whatever a blast lists stood in the crater, as a
/// block of the body that it is put down to.
pub proof fn law_blast_drops_nothing_else<H, O, G, F: Fn(Asteroid<G>, IVec3) -> u8>(
    w: WorldState<H, O, G>,
    gen: F,
    cells: Seq<IVec3>,
    after: WorldState<H, O, G>,
    torn: Seq<Torn>,
    n: int,
)
    requires
        w.wf(),
        pure(gen),
        carved(w, gen, cells, after, torn),
        0 <= n < torn.len(),
    ensures
        cells.contains(torn[n].voxel),
        torn[n].id != BARRIER,
        exists|i: int| #[trigger]
            owns(w, gen, torn[n].voxel, i, torn[n].id) && torn[n].tier == w.near[i].a.tier
                && torn[n].species == w.near[i].a.species,
    decreases cells.len(),
{
    law_blast_spares_barriers(w, gen, cells, after, torn, n);
    let (mid, loose) = choose|mid: WorldState<H, O, G>, loose: Seq<Torn>|
        carved(w, gen, cells.drop_last(), mid, loose) && #[trigger] blasted(
            mid,
            loose,
            gen,
            cells.last(),
            after,
            torn,
        );
    let head = cells.drop_last();
    if n < loose.len() {
        assert(torn[n] == loose[n]);
        law_blast_drops_nothing_else(w, gen, head, mid, loose, n);
    } else {
        let v = cells.last();
        let (k, c) = choose|k: int, c: u8| #[trigger]
            owns(mid, gen, v, k, c) && if c == BARRIER {
                after == mid && torn == loose
            } else {
                after == mid.removed(gen, v) && torn == loose.push(
                    Torn {
                        voxel: v,
                        id: c,
                        tier: mid.near[k].a.tier,
                        species: mid.near[k].a.species,
                    },
                )
            };
        if head.contains(v) {
            assert(seen(mid, gen, v, c));
            law_blast_clears_its_crater(w, gen, head, mid, loose, v, c);
        } else {
            lemma_blast_spares_owners(w, gen, head, mid, loose, v, k, c);
        }
    }
}

/// A blast moves nothing: bodies, their offsets and the day stay as they were.
pub proof fn law_blast_moves_nothing<H, O, G, F: Fn(Asteroid<G>, IVec3) -> u8>(
    w: WorldState<H, O, G>,
    gen: F,
    cells: Seq<IVec3>,
    after: WorldState<H, O, G>,
    torn: Seq<Torn>,
)
    requires
        carved(w, gen, cells, after, torn),
    ensures
        after.near == w.near,
        after.motion == w.motion,
        after.salt == w.salt,
    decreases cells.len(),
{
    if cells.len() > 0 {
        let (mid, loose) = choose|mid: WorldState<H, O, G>, loose: Seq<Torn>|
            carved(w, gen, cells.drop_last(), mid, loose) && #[trigger] blasted(
                mid,
                loose,
                gen,
                cells.last(),
                after,
                torn,
            );
        law_blast_moves_nothing(w, gen, cells.drop_last(), mid, loose);
    }
}

/// The status line after a blast.
pub fn boom_line(carved: u64) -> (s: String)
    ensures
        s@ == "BOOM \u{2014} "@ + decimal(carved as nat) + " blocks"@,
{
    let mut s = "BOOM \u{2014} ".to_owned();
    push_decimal(&mut s, carved);
    s.append(" blocks");
    s
}

} // verus!
