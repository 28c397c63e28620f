//! Laws of the voxel store.
//!
//! Storage is a cache: whatever is generated, unloaded or forgotten in between,
//! a query answers with the terrain, except where a block was dug away.
use crate::blocks::AIR;
use crate::body::{Asteroid, NearBody};
use crate::chunk::{
    chunk_at, chunk_ok, law_slots_are_distinct, law_voxel_to_slot, slot,
    voxel_in, CHUNK_VOL,
};
use crate::field::{terrain_at, Keyed};
use crate::ivec::{lemma_lattice_view, lemma_view_injective, origin, IVec3};
use crate::state::{
    addressed, answers, any_solid, body_answers, borders, boxed_from, carried, fills, generated,
    governed, hollow, noted, owned, owns, pure, seen, spots, standing, stands, touches, worn_to,
    WorldState,
};
use vstd::prelude::*;

verus! {

/// The block at `g` of body `key` was dug away, and storage has it so.
pub open spec fn mined<H, O, G>(w: WorldState<H, O, G>, key: IVec3, g: IVec3) -> bool {
    let k = (key, chunk_at(g));
    &&& w.edits.contains_key((key, g))
    &&& w.edits[(key, g)] == AIR
    &&& w.chunks.contains_key(k) ==> w.chunks[k][slot(g)] == AIR
}

/// A mined voxel answers air without asking the terrain.
pub proof fn law_mined_is_air<H, O, G>(w: WorldState<H, O, G>, key: IVec3, g: IVec3)
    requires
        mined(w, key, g),
    ensures
        w.known(key, g) == Some(AIR),
{
}

/// Digging touches one place: it alone gets an edit, loses its wear and is air
/// in its stored chunk, and the stored chunks of its body that hold it or one of
/// its neighbours are stale.
pub proof fn law_digging_touches_one_place<H, O, G>(
    w: WorldState<H, O, G>,
    key: IVec3,
    g: IVec3,
    p: (IVec3, IVec3),
    n: int,
)
    requires
        w.wf(),
    ensures
        w.dug(key, g).edits.get(p) == if p == (key, g) {
            Some(AIR)
        } else {
            w.edits.get(p)
        },
        w.dug(key, g).damage.get(p) == if p == (key, g) {
            None
        } else {
            w.damage.get(p)
        },
        w.dug(key, g).chunks.contains_key(p) <==> w.chunks.contains_key(p),
        w.chunks.contains_key(p) && 0 <= n < CHUNK_VOL ==> w.dug(key, g).chunks[p][n] == if p == (
            key,
            chunk_at(g),
        ) && n == slot(g) {
            AIR
        } else {
            w.chunks[p][n]
        },
        w.dug(key, g).dirty.contains(p) <==> w.dirty.contains(p) || (w.chunks.contains_key(p) && p.0
            == key && touches(g, p.1)),
        w.dug(key, g).empty == w.empty,
        w.dug(key, g).motion == w.motion,
        w.dug(key, g).near == w.near,
        w.dug(key, g).salt == w.salt,
{
    law_voxel_to_slot(g);
}

/// Digging a block away leaves air there.
pub proof fn law_digging_mines<H, O, G>(w: WorldState<H, O, G>, key: IVec3, g: IVec3)
    requires
        w.wf(),
    ensures
        w.dug(key, g).wf(),
        mined(w.dug(key, g), key, g),
{
    law_voxel_to_slot(g);
}

/// What was mined stays mined when any other block is dug away.
pub proof fn law_mined_survives_digging<H, O, G>(
    w: WorldState<H, O, G>,
    key: IVec3,
    g: IVec3,
    other: IVec3,
    h: IVec3,
)
    requires
        w.wf(),
        mined(w, key, g),
    ensures
        mined(w.dug(other, h), key, g),
{
    law_voxel_to_slot(g);
    law_voxel_to_slot(h);
}

/// What was mined stays mined when any chunk is unloaded.
pub proof fn law_mined_survives_unloading<H, O, G>(
    w: WorldState<H, O, G>,
    key: IVec3,
    g: IVec3,
    other: IVec3,
    cp: IVec3,
)
    requires
        mined(w, key, g),
    ensures
        mined(w.unloaded(other, cp), key, g),
{
}

/// What was mined stays mined when any chunk is generated or regenerated,
/// whatever the terrain function returns: the edit is baked back in.
pub proof fn law_mined_survives_generation<H, O, G, F: Fn(IVec3) -> u8>(
    w: WorldState<H, O, G>,
    key: IVec3,
    g: IVec3,
    other: IVec3,
    cp: IVec3,
    in_reach: bool,
    gen: F,
    solid: bool,
    after: WorldState<H, O, G>,
)
    requires
        mined(w, key, g),
        generated(w, other, cp, in_reach, gen, solid, after),
    ensures
        mined(after, key, g),
{
    if in_reach && solid && (other, cp) == (key, chunk_at(g)) {
        let blocks = choose|blocks: Seq<u8>|
            {
                &&& #[trigger] fills(w.edits, other, gen, cp, blocks, CHUNK_VOL as int)
                &&& solid == any_solid(blocks)
                &&& after == if solid {
                    w.stored(other, cp, blocks)
                } else {
                    w.vacated(other, cp)
                }
            };
        law_voxel_to_slot(g);
        lemma_view_injective(voxel_in(cp, slot(g)).lattice(), g);
        assert(blocks[slot(g)] == AIR);
    }
}

/// What was mined stays mined when any body is swallowed and when vacant
/// chunks are forgotten.
pub proof fn law_mined_survives_cleanup<H, O, G>(
    w: WorldState<H, O, G>,
    key: IVec3,
    g: IVec3,
    other: IVec3,
    keep_near: IVec3,
    radius: i32,
)
    requires
        mined(w, key, g),
    ensures
        mined(w.consumed(other), key, g),
        mined(w.forgotten(keep_near, radius), key, g),
{
}

/// Edits survive unloading and regeneration: dig a block away, drop its
/// chunk, generate it again with any terrain, and it is air at every step.
pub proof fn law_edit_survives_unload_and_regeneration<H, O, G, F: Fn(IVec3) -> u8>(
    w: WorldState<H, O, G>,
    key: IVec3,
    g: IVec3,
    in_reach: bool,
    gen: F,
    solid: bool,
    after: WorldState<H, O, G>,
)
    requires
        w.wf(),
        generated(
            w.dug(key, g).unloaded(key, chunk_at(g)),
            key,
            chunk_at(g),
            in_reach,
            gen,
            solid,
            after,
        ),
    ensures
        w.dug(key, g).known(key, g) == Some(AIR),
        w.dug(key, g).unloaded(key, chunk_at(g)).known(key, g) == Some(AIR),
        after.known(key, g) == Some(AIR),
{
    let cp = chunk_at(g);
    law_digging_mines(w, key, g);
    law_mined_survives_unloading(w.dug(key, g), key, g, key, cp);
    law_mined_survives_generation(
        w.dug(key, g).unloaded(key, cp),
        key,
        g,
        key,
        cp,
        in_reach,
        gen,
        solid,
        after,
    );
}

/// Nothing dug away is nothing changed.
pub proof fn lemma_without_none<H, O, G>(w: WorldState<H, O, G>)
    ensures
        w.without(Set::empty()) == w,
{
    let d = w.without(Set::empty());
    assert forall|k: (IVec3, IVec3)| w.chunks.contains_key(k) implies #[trigger] d.chunks[k]
        == w.chunks[k] by {
        assert(d.chunks[k] =~= w.chunks[k]);
    }
    assert(d.chunks =~= w.chunks);
    assert(d.edits =~= w.edits);
    assert(d.damage =~= w.damage);
    assert(d.dirty =~= w.dirty);
}

/// Digging one place after others is digging them all.
pub proof fn lemma_without_insert<H, O, G>(
    w: WorldState<H, O, G>,
    s: Set<(IVec3, IVec3)>,
    p: (IVec3, IVec3),
)
    requires
        w.wf(),
    ensures
        w.without(s.insert(p)) == w.without(s).dug(p.0, p.1),
{
    let t = s.insert(p);
    let one = w.without(t);
    let two = w.without(s).dug(p.0, p.1);
    law_voxel_to_slot(p.1);
    assert forall|k: (IVec3, IVec3), n: int| #[trigger]
        hollow(t, k, n) <==> hollow(s, k, n) || (k == (p.0, chunk_at(p.1)) && n == slot(p.1)) by {
        if hollow(s, k, n) {
            let g = choose|g: IVec3| #[trigger]
                s.contains((k.0, g)) && chunk_at(g) == k.1 && slot(g) == n;
            assert(t.contains((k.0, g)));
        }
        if k == (p.0, chunk_at(p.1)) && n == slot(p.1) {
            assert(t.contains((k.0, p.1)));
        }
        if hollow(t, k, n) {
            let g = choose|g: IVec3| #[trigger]
                t.contains((k.0, g)) && chunk_at(g) == k.1 && slot(g) == n;
            if (k.0, g) != p {
                assert(s.contains((k.0, g)));
            }
        }
    }
    assert forall|c: (IVec3, IVec3)| #[trigger]
        borders(t, c) <==> borders(s, c) || (c.0 == p.0 && touches(p.1, c.1)) by {
        if borders(s, c) {
            let g = choose|g: IVec3| #[trigger] s.contains((c.0, g)) && touches(g, c.1);
            assert(t.contains((c.0, g)));
        }
        if c.0 == p.0 && touches(p.1, c.1) {
            assert(t.contains((c.0, p.1)));
        }
        if borders(t, c) {
            let g = choose|g: IVec3| #[trigger] t.contains((c.0, g)) && touches(g, c.1);
            if (c.0, g) != p {
                assert(s.contains((c.0, g)));
            }
        }
    }
    assert(one.chunks.dom() =~= two.chunks.dom());
    assert forall|k: (IVec3, IVec3)| w.chunks.contains_key(k) implies #[trigger] one.chunks[k]
        == two.chunks[k] by {
        assert(w.chunks[k].len() == CHUNK_VOL);
        assert forall|n: int| 0 <= n < CHUNK_VOL implies one.chunks[k][n] == two.chunks[k][n] by {
            assert(hollow(t, k, n) <==> hollow(s, k, n) || (k == (p.0, chunk_at(p.1)) && n == slot(
                p.1,
            )));
        }
        assert(one.chunks[k] =~= two.chunks[k]);
    }
    assert(one.chunks =~= two.chunks);
    assert(one.edits =~= two.edits);
    assert(one.damage =~= two.damage);
    assert forall|c: (IVec3, IVec3)| one.dirty.contains(c) <==> #[trigger] two.dirty.contains(c) by {
        assert(borders(t, c) <==> borders(s, c) || (c.0 == p.0 && touches(p.1, c.1)));
    }
    assert(one.dirty =~= two.dirty);
}

/// Storage knows air at every place that was dug away, and at every other
/// place what it knew before.
proof fn lemma_known_without<H, O, G>(
    w: WorldState<H, O, G>,
    s: Set<(IVec3, IVec3)>,
    key: IVec3,
    g: IVec3,
)
    requires
        w.wf(),
    ensures
        w.without(s).known(key, g) == if s.contains((key, g)) {
            Some(AIR)
        } else {
            w.known(key, g)
        },
        s.contains((key, g)) ==> mined(w.without(s), key, g),
{
    law_voxel_to_slot(g);
    let k = (key, chunk_at(g));
    assert(hollow(s, k, slot(g)) <==> s.contains((key, g))) by {
        if s.contains((key, g)) {
            assert(s.contains((k.0, g)));
        }
        if hollow(s, k, slot(g)) {
            let h = choose|h: IVec3| #[trigger]
                s.contains((k.0, h)) && chunk_at(h) == k.1 && slot(h) == slot(g);
            law_slots_are_distinct(g, h);
        }
    }
    if w.chunks.contains_key(k) {
        assert(w.chunks[k].len() == CHUNK_VOL);
    }
}

/// The first box that covers a voxel is that of a nearby body.
pub proof fn lemma_boxed<G>(near: Seq<NearBody<G>>, v: IVec3, n: int)
    requires
        0 <= n <= near.len(),
    ensures
        match boxed_from(near, v, n) {
            Some((nb, g)) => exists|j: int|
                n <= j < near.len() && (#[trigger] near[j]).covers(v) && near[j].place(v) == (
                    nb.key,
                    g,
                ),
            None => forall|j: int| n <= j < near.len() ==> !(#[trigger] near[j]).covers(v),
        },
    decreases near.len() - n,
{
    if n < near.len() {
        if near[n].covers(v) {
            assert(near[n].place(v) == (near[n].key, near[n].gen_voxel(v)));
        } else {
            lemma_boxed(near, v, n + 1);
        }
    }
}

/// A removal digs its spots away, and forgets wear besides.
pub proof fn lemma_removed<H, O, G, F: Fn(Asteroid<G>, IVec3) -> u8>(
    w: WorldState<H, O, G>,
    gen: F,
    v: IVec3,
)
    requires
        w.wf(),
    ensures
        w.removed(gen, v) == (WorldState {
            damage: w.removed(gen, v).damage,
            ..w.without(spots(w, gen, v))
        }),
        forall|p: (IVec3, IVec3)| #[trigger]
            w.removed(gen, v).damage.contains_key(p) ==> !spots(w, gen, v).contains(p),
        w.boxed(v) matches Some((nb, g)) ==> !w.removed(gen, v).damage.contains_key((nb.key, g)),
        forall|p: (IVec3, IVec3)| #[trigger]
            spots(w, gen, v).contains(p) ==> exists|j: int|
                0 <= j < w.near.len() && (#[trigger] w.near[j]).covers(v) && p == w.near[j].place(v),
        forall|i: int| #[trigger]
            stands(w, gen, v, i) ==> spots(w, gen, v).contains(w.near[i].place(v)),
{
    lemma_boxed(w.near, v, 0);
    lemma_without_none(w);
    if exists|i: int| stands(w, gen, v, i) {
        let i = choose|i: int| stands(w, gen, v, i);
        assert(w.near[i].covers(v));
        assert forall|p: (IVec3, IVec3)| #[trigger] standing(w, gen, v).contains(
            p,
        ) implies exists|j: int|
            0 <= j < w.near.len() && (#[trigger] w.near[j]).covers(v) && p == w.near[j].place(
            v,
        ) by {
            let j = choose|j: int| #[trigger] stands(w, gen, v, j) && p == w.near[j].place(v);
            assert(w.near[j].covers(v));
        }
    } else if let Some((nb, g)) = w.boxed(v) {
        lemma_without_insert(w, Set::empty(), (nb.key, g));
        assert(Set::<(IVec3, IVec3)>::empty().insert((nb.key, g)) =~= set![(nb.key, g)]);
    }
}

/// Where nothing stands, a removal digs at the first body whose box covers the
/// voxel; in open space it changes nothing.
pub proof fn law_removal_in_the_air<H, O, G, F: Fn(Asteroid<G>, IVec3) -> u8>(
    w: WorldState<H, O, G>,
    gen: F,
    v: IVec3,
)
    requires
        forall|i: int| !#[trigger] stands(w, gen, v, i),
    ensures
        w.removed(gen, v) == match w.boxed(v) {
            Some((nb, g)) => w.dug(nb.key, g),
            None => w,
        },
{
}

/// A removal marks every stored chunk that holds one of the places it digs, or
/// one of their face neighbours, and no other.
pub proof fn law_removal_marks_the_chunks<H, O, G, F: Fn(Asteroid<G>, IVec3) -> u8>(
    w: WorldState<H, O, G>,
    gen: F,
    v: IVec3,
    c: (IVec3, IVec3),
)
    requires
        w.wf(),
    ensures
        w.removed(gen, v).dirty.contains(c) <==> w.dirty.contains(c) || (w.chunks.contains_key(c)
            && borders(spots(w, gen, v), c)),
{
    lemma_removed(w, gen, v);
}

/// Storage knows air at every place that a removal digs, and at every other
/// place what it knew before.
proof fn lemma_known_removed<H, O, G, F: Fn(Asteroid<G>, IVec3) -> u8>(
    w: WorldState<H, O, G>,
    gen: F,
    v: IVec3,
    key: IVec3,
    g: IVec3,
)
    requires
        w.wf(),
    ensures
        w.removed(gen, v).known(key, g) == if spots(w, gen, v).contains((key, g)) {
            Some(AIR)
        } else {
            w.known(key, g)
        },
        spots(w, gen, v).contains((key, g)) ==> mined(w.removed(gen, v), key, g),
{
    lemma_removed(w, gen, v);
    lemma_known_without(w, spots(w, gen, v), key, g);
}

/// Removing the block at a world voxel leaves air there, whatever bodies cover
/// it and whatever the terrain function returns.
pub proof fn law_removal_clears_the_voxel<H, O, G, F: Fn(Asteroid<G>, IVec3) -> u8>(
    w: WorldState<H, O, G>,
    gen: F,
    v: IVec3,
    b: u8,
)
    requires
        w.wf(),
        seen(w.removed(gen, v), gen, v, b),
    ensures
        b == AIR,
{
    let d = w.removed(gen, v);
    lemma_removed(w, gen, v);
    if b != AIR {
        let i = choose|i: int| #[trigger] owns(d, gen, v, i, b);
        let p = w.near[i].place(v);
        lemma_known_removed(w, gen, v, p.0, p.1);
        if !spots(w, gen, v).contains(p) {
            assert(body_answers(w, gen, w.near[i], v, b));
            assert(stands(w, gen, v, i));
        }
    }
}

/// After a removal no wear is noted at the voxel.
pub proof fn law_removal_leaves_no_wear<H, O, G, F: Fn(Asteroid<G>, IVec3) -> u8>(
    w: WorldState<H, O, G>,
    gen: F,
    v: IVec3,
    r: Option<H>,
)
    requires
        w.wf(),
        worn_to(w.removed(gen, v), gen, v, r),
    ensures
        r is None,
{
    let d = w.removed(gen, v);
    lemma_removed(w, gen, v);
    assert(d.boxed(v) == w.boxed(v));
    let p = choose|p: Option<(NearBody<G>, IVec3)>| #[trigger]
        addressed(d, gen, v, p) && r == match p {
            Some((nb, g)) => d.damage.get((nb.key, g)),
            None => None,
        };
    let o = choose|o: Option<(NearBody<G>, IVec3)>| #[trigger]
        owned(d, gen, v, o) && p == if o is Some {
            o
        } else {
            d.boxed(v)
        };
    if let Some((nb, g)) = o {
        let (i, b) = choose|i: int, b: u8| #[trigger]
            owns(d, gen, v, i, b) && nb == d.near[i] && g == nb.gen_voxel(v);
        assert(seen(d, gen, v, b));
        law_removal_clears_the_voxel(w, gen, v, b);
    }
}

/// The block that is removed leaves its edit with the body that held it, its
/// hit points are forgotten, and no body that held none gets an edit.
pub proof fn law_removal_belongs_to_the_owner<H, O, G, F: Fn(Asteroid<G>, IVec3) -> u8>(
    w: WorldState<H, O, G>,
    gen: F,
    v: IVec3,
    i: int,
    b: u8,
)
    requires
        w.wf(),
        owns(w, gen, v, i, b),
    ensures
        mined(w.removed(gen, v), w.near[i].key, w.near[i].gen_voxel(v)),
        !w.removed(gen, v).damage.contains_key(w.near[i].place(v)),
        forall|p: (IVec3, IVec3)| #[trigger]
            w.removed(gen, v).edits.contains_key(p) && !w.edits.contains_key(p) ==> exists|j: int|
                #[trigger] stands(w, gen, v, j) && p == w.near[j].place(v),
{
    assert(stands(w, gen, v, i));
    lemma_removed(w, gen, v);
    lemma_known_removed(w, gen, v, w.near[i].key, w.near[i].gen_voxel(v));
}

/// With air answered wherever no block stands, a removal leaves air to be seen.
pub proof fn lemma_removal_leaves_air<H, O, G, F: Fn(Asteroid<G>, IVec3) -> u8>(
    w: WorldState<H, O, G>,
    gen: F,
    v: IVec3,
)
    requires
        w.wf(),
        forall|j: int|
            0 <= j < w.near.len() && (#[trigger] w.near[j]).covers(v) ==> standing(
                w,
                gen,
                v,
            ).contains(w.near[j].place(v)) || body_answers(w, gen, w.near[j], v, AIR),
    ensures
        seen(w.removed(gen, v), gen, v, AIR),
{
    let d = w.removed(gen, v);
    lemma_removed(w, gen, v);
    assert forall|j: int| 0 <= j < d.near.len() && (#[trigger] d.near[j]).covers(
        v,
    ) implies body_answers(d, gen, d.near[j], v, AIR) by {
        let p = w.near[j].place(v);
        lemma_known_removed(w, gen, v, p.0, p.1);
        if standing(w, gen, v).contains(p) {
            let i = choose|i: int| #[trigger] stands(w, gen, v, i) && p == w.near[i].place(v);
            assert(spots(w, gen, v).contains(w.near[i].place(v)));
        }
    }
}

proof fn lemma_removal_spares_answers<H, O, G, F: Fn(Asteroid<G>, IVec3) -> u8>(
    w: WorldState<H, O, G>,
    gen: F,
    v: IVec3,
    u: IVec3,
    i: int,
)
    requires
        w.wf(),
        u != v,
        0 <= i < w.near.len(),
        w.near[i].covers(u),
    ensures
        forall|b: u8| #[trigger]
            body_answers(w.removed(gen, v), gen, w.near[i], u, b) == body_answers(
                w,
                gen,
                w.near[i],
                u,
                b,
            ),
{
    let p = w.near[i].place(u);
    lemma_removed(w, gen, v);
    lemma_known_removed(w, gen, v, p.0, p.1);
    if spots(w, gen, v).contains(p) {
        let j = choose|j: int|
            0 <= j < w.near.len() && (#[trigger] w.near[j]).covers(v) && p == w.near[j].place(v);
        assert(w.near[i].key == w.near[j].key);
        assert(w.near[i].off_vox == w.near[j].off_vox);
        lemma_lattice_view(w.near[i].gen_point(u));
        lemma_lattice_view(w.near[j].gen_point(v));
        assert(u@ == v@);
        lemma_view_injective(u, v);
    }
}

/// A removal keeps the world in order.
pub proof fn lemma_removal_keeps_order<H, O, G, F: Fn(Asteroid<G>, IVec3) -> u8>(
    w: WorldState<H, O, G>,
    gen: F,
    v: IVec3,
)
    requires
        w.wf(),
    ensures
        w.removed(gen, v).wf(),
        w.removed(gen, v).near == w.near,
{
    lemma_removed(w, gen, v);
    let d = w.removed(gen, v);
    assert forall|k: (IVec3, IVec3)| #[trigger] d.chunks.contains_key(k) implies d.chunks[k].len()
        == CHUNK_VOL by {
        assert(w.chunks.contains_key(k));
    }
}

/// A removal leaves every block at any other world voxel with the body that
/// holds it.
pub proof fn lemma_removal_spares_owners<H, O, G, F: Fn(Asteroid<G>, IVec3) -> u8>(
    w: WorldState<H, O, G>,
    gen: F,
    v: IVec3,
    u: IVec3,
    i: int,
    b: u8,
)
    requires
        w.wf(),
        u != v,
    ensures
        owns(w.removed(gen, v), gen, u, i, b) == owns(w, gen, u, i, b),
{
    let d = w.removed(gen, v);
    lemma_removal_keeps_order(w, gen, v);
    assert forall|j: int, c: u8|
        0 <= j < w.near.len() && w.near[j].covers(u) implies #[trigger] body_answers(
        d,
        gen,
        w.near[j],
        u,
        c,
    ) == body_answers(w, gen, w.near[j], u, c) by {
        lemma_removal_spares_answers(w, gen, v, u, j);
    }
    if owns(d, gen, u, i, b) {
        assert(owns(w, gen, u, i, b));
    }
}

/// Removing the block at one world voxel changes nothing at any other.
pub proof fn law_removal_spares_the_rest<H, O, G, F: Fn(Asteroid<G>, IVec3) -> u8>(
    w: WorldState<H, O, G>,
    gen: F,
    v: IVec3,
    u: IVec3,
    b: u8,
)
    requires
        w.wf(),
        u != v,
    ensures
        seen(w.removed(gen, v), gen, u, b) == seen(w, gen, u, b),
{
    let d = w.removed(gen, v);
    lemma_removal_keeps_order(w, gen, v);
    assert forall|i: int, c: u8|
        0 <= i < w.near.len() && w.near[i].covers(u) implies #[trigger] body_answers(
        d,
        gen,
        w.near[i],
        u,
        c,
    ) == body_answers(w, gen, w.near[i], u, c) by {
        lemma_removal_spares_answers(w, gen, v, u, i);
    }
    if b != AIR {
        if seen(d, gen, u, b) {
            let i = choose|i: int| #[trigger] owns(d, gen, u, i, b);
            assert(body_answers(d, gen, w.near[i], u, b));
            assert forall|j: int| 0 <= j < i && (#[trigger] w.near[j]).covers(
                u,
            ) implies body_answers(w, gen, w.near[j], u, AIR) by {
                assert(d.near[j].covers(u));
                assert(body_answers(d, gen, w.near[j], u, AIR));
            }
            assert(owns(w, gen, u, i, b));
        }
        if seen(w, gen, u, b) {
            let i = choose|i: int| #[trigger] owns(w, gen, u, i, b);
            assert(body_answers(d, gen, w.near[i], u, b));
            assert forall|j: int| 0 <= j < i && (#[trigger] d.near[j]).covers(
                u,
            ) implies body_answers(d, gen, d.near[j], u, AIR) by {
                assert(w.near[j].covers(u));
                assert(body_answers(d, gen, w.near[j], u, AIR) == body_answers(
                    w,
                    gen,
                    w.near[j],
                    u,
                    AIR,
                ));
            }
            assert(owns(d, gen, u, i, b));
        }
    } else {
        if seen(w, gen, u, AIR) {
            assert forall|j: int| 0 <= j < d.near.len() && (#[trigger] d.near[j]).covers(
                u,
            ) implies body_answers(d, gen, d.near[j], u, AIR) by {
                assert(w.near[j].covers(u));
                assert(body_answers(d, gen, w.near[j], u, AIR) == body_answers(
                    w,
                    gen,
                    w.near[j],
                    u,
                    AIR,
                ));
            }
        }
        if seen(d, gen, u, AIR) {
            assert forall|j: int| 0 <= j < w.near.len() && (#[trigger] w.near[j]).covers(
                u,
            ) implies body_answers(w, gen, w.near[j], u, AIR) by {
                assert(d.near[j].covers(u));
                assert(body_answers(d, gen, w.near[j], u, AIR) == body_answers(
                    w,
                    gen,
                    w.near[j],
                    u,
                    AIR,
                ));
            }
        }
    }
}

/// `gen` computes `terrain` for the bodies that `bodies` names.
pub open spec fn follows<G, F: Fn(Asteroid<G>, IVec3) -> u8>(
    gen: F,
    bodies: spec_fn(IVec3) -> Asteroid<G>,
    terrain: spec_fn(IVec3, IVec3) -> u8,
) -> bool {
    forall|key: IVec3, g: IVec3, b: u8| #[trigger]
        gen.ensures((bodies(key), g), b) ==> b == terrain(key, g)
}

/// The block that a query ought to find: the terrain, or air where a block was
/// dug away.
pub open spec fn pristine(
    edits: Map<(IVec3, IVec3), u8>,
    terrain: spec_fn(IVec3, IVec3) -> u8,
    key: IVec3,
    g: IVec3,
) -> u8 {
    if edits.contains_key((key, g)) {
        AIR
    } else {
        terrain(key, g)
    }
}

/// What is stored for one gen voxel of a body is what a query ought to find.
pub open spec fn faithful_at<H, O, G>(
    w: WorldState<H, O, G>,
    terrain: spec_fn(IVec3, IVec3) -> u8,
    key: IVec3,
    g: IVec3,
) -> bool {
    let k = (key, chunk_at(g));
    &&& w.chunks.contains_key(k) ==> w.chunks[k][slot(g)] == pristine(w.edits, terrain, key, g)
    &&& w.empty.contains(k) ==> pristine(w.edits, terrain, key, g) == AIR
}

/// Everything stored is what a query ought to find there.
pub open spec fn faithful<H, O, G>(
    w: WorldState<H, O, G>,
    terrain: spec_fn(IVec3, IVec3) -> u8,
) -> bool {
    forall|key: IVec3, g: IVec3| #[trigger] faithful_at(w, terrain, key, g)
}

/// Storage is transparent: while it is faithful, a query in a body's gen space
/// answers the terrain or the hole dug into it, whatever happens to be loaded.
pub proof fn law_storage_is_transparent<H, O, G, F: Fn(Asteroid<G>, IVec3) -> u8>(
    w: WorldState<H, O, G>,
    terrain: spec_fn(IVec3, IVec3) -> u8,
    bodies: spec_fn(IVec3) -> Asteroid<G>,
    gen: F,
    key: IVec3,
    g: IVec3,
    b: u8,
)
    requires
        w.wf(),
        faithful(w, terrain),
        follows(gen, bodies, terrain),
        answers(w, gen, key, bodies(key), g, b),
    ensures
        b == pristine(w.edits, terrain, key, g),
{
    assert(faithful_at(w, terrain, key, g));
}

/// An empty store is faithful to any terrain.
pub proof fn law_empty_store_is_faithful<H, O, G>(
    w: WorldState<H, O, G>,
    terrain: spec_fn(IVec3, IVec3) -> u8,
)
    requires
        w.chunks == Map::<(IVec3, IVec3), Seq<u8>>::empty(),
        w.empty == Set::<(IVec3, IVec3)>::empty(),
    ensures
        faithful(w, terrain),
{
}

/// Generating a chunk keeps storage faithful, provided that the generator
/// agrees with the terrain and that a chunk is called out of reach only if the
/// terrain holds no block in it.
pub proof fn law_generation_is_faithful<H, O, G, F: Fn(IVec3) -> u8>(
    w: WorldState<H, O, G>,
    terrain: spec_fn(IVec3, IVec3) -> u8,
    key: IVec3,
    cp: IVec3,
    in_reach: bool,
    gen: F,
    solid: bool,
    after: WorldState<H, O, G>,
)
    requires
        w.wf(),
        faithful(w, terrain),
        chunk_ok(cp),
        forall|v: IVec3, b: u8| #[trigger] gen.ensures((v,), b) ==> b == terrain(key, v),
        !in_reach ==> forall|v: IVec3| chunk_at(v) == cp ==> #[trigger] terrain(key, v) == AIR,
        generated(w, key, cp, in_reach, gen, solid, after),
    ensures
        faithful(after, terrain),
{
    assert(after.edits == w.edits);
    if in_reach {
        let blocks = choose|blocks: Seq<u8>|
            {
                &&& #[trigger] fills(w.edits, key, gen, cp, blocks, CHUNK_VOL as int)
                &&& solid == any_solid(blocks)
                &&& after == if solid {
                    w.stored(key, cp, blocks)
                } else {
                    w.vacated(key, cp)
                }
            };
        assert forall|g: IVec3| chunk_at(g) == cp implies #[trigger] pristine(
            w.edits,
            terrain,
            key,
            g,
        ) == blocks[slot(g)] by {
            law_voxel_to_slot(g);
            lemma_view_injective(voxel_in(cp, slot(g)).lattice(), g);
            assert(blocks[slot(g)] == blocks[slot(g)]);
        }
        assert forall|k: IVec3, g: IVec3| #[trigger] faithful_at(after, terrain, k, g) by {
            assert(faithful_at(w, terrain, k, g));
            law_voxel_to_slot(g);
            if (k, chunk_at(g)) == (key, cp) {
                assert(pristine(w.edits, terrain, key, g) == blocks[slot(g)]);
            }
        }
    } else {
        assert forall|k: IVec3, g: IVec3| #[trigger] faithful_at(after, terrain, k, g) by {
            assert(faithful_at(w, terrain, k, g));
        }
    }
}

/// Unloading, swallowing and forgetting keep storage faithful.
pub proof fn law_dropping_storage_is_faithful<H, O, G>(
    w: WorldState<H, O, G>,
    terrain: spec_fn(IVec3, IVec3) -> u8,
    key: IVec3,
    cp: IVec3,
    keep_near: IVec3,
    radius: i32,
)
    requires
        faithful(w, terrain),
    ensures
        faithful(w.unloaded(key, cp), terrain),
        faithful(w.consumed(key), terrain),
        faithful(w.forgotten(keep_near, radius), terrain),
{
    assert forall|k: IVec3, g: IVec3| #[trigger]
        faithful_at(w.unloaded(key, cp), terrain, k, g) by {
        assert(faithful_at(w, terrain, k, g));
    }
    assert forall|k: IVec3, g: IVec3| #[trigger] faithful_at(w.consumed(key), terrain, k, g) by {
        assert(faithful_at(w, terrain, k, g));
    }
    assert forall|k: IVec3, g: IVec3| #[trigger]
        faithful_at(w.forgotten(keep_near, radius), terrain, k, g) by {
        assert(faithful_at(w, terrain, k, g));
    }
}

/// Digging keeps storage faithful, one place at a time or many.
pub proof fn law_digging_is_faithful<H, O, G>(
    w: WorldState<H, O, G>,
    terrain: spec_fn(IVec3, IVec3) -> u8,
    s: Set<(IVec3, IVec3)>,
    key: IVec3,
    g: IVec3,
)
    requires
        w.wf(),
        faithful(w, terrain),
    ensures
        faithful(w.without(s), terrain),
        faithful(w.dug(key, g), terrain),
{
    lemma_without_faithful(w, terrain, s);
    lemma_without_none(w);
    lemma_without_insert(w, Set::empty(), (key, g));
    lemma_without_faithful(w, terrain, Set::empty().insert((key, g)));
}

proof fn lemma_without_faithful<H, O, G>(
    w: WorldState<H, O, G>,
    terrain: spec_fn(IVec3, IVec3) -> u8,
    s: Set<(IVec3, IVec3)>,
)
    requires
        w.wf(),
        faithful(w, terrain),
    ensures
        faithful(w.without(s), terrain),
{
    let d = w.without(s);
    assert forall|k: IVec3, h: IVec3| #[trigger] faithful_at(d, terrain, k, h) by {
        assert(faithful_at(w, terrain, k, h));
        lemma_known_without(w, s, k, h);
        law_voxel_to_slot(h);
        let c = (k, chunk_at(h));
        if w.chunks.contains_key(c) {
            assert(w.chunks[c].len() == CHUNK_VOL);
        }
    }
}

/// A removal keeps storage faithful.
pub proof fn lemma_removal_is_faithful<H, O, G, F: Fn(Asteroid<G>, IVec3) -> u8>(
    w: WorldState<H, O, G>,
    terrain: spec_fn(IVec3, IVec3) -> u8,
    gen: F,
    v: IVec3,
)
    requires
        w.wf(),
        faithful(w, terrain),
    ensures
        faithful(w.removed(gen, v), terrain),
{
    let s = spots(w, gen, v);
    lemma_removed(w, gen, v);
    lemma_without_faithful(w, terrain, s);
    assert forall|k: IVec3, g: IVec3| #[trigger]
        faithful_at(w.removed(gen, v), terrain, k, g) by {
        assert(faithful_at(w.without(s), terrain, k, g));
    }
}

/// Nothing of a swallowed body is stored, and if it was tracked it is marked
/// as eaten.
pub proof fn law_consumed_bodies_leave_no_storage<H, O, G>(
    w: WorldState<H, O, G>,
    key: IVec3,
    cp: IVec3,
)
    ensures
        !w.consumed(key).chunks.contains_key((key, cp)),
        !w.consumed(key).empty.contains((key, cp)),
        !w.consumed(key).dirty.contains((key, cp)),
        w.motion.contains_key(key) ==> w.consumed(key).motion.contains_key(key) && w.consumed(
            key,
        ).motion[key].eaten,
{
}

/// Swallowing one body leaves every other body's storage alone.
pub proof fn law_consuming_spares_other_bodies<H, O, G>(
    w: WorldState<H, O, G>,
    key: IVec3,
    other: IVec3,
    g: IVec3,
)
    requires
        other != key,
    ensures
        w.consumed(key).known(other, g) == w.known(other, g),
{
}

/// A query is answered in one way only, as long as the terrain function always
/// returns the same block for the same voxel.
pub proof fn law_block_is_determined<H, O, G, F: Fn(Asteroid<G>, IVec3) -> u8>(
    w: WorldState<H, O, G>,
    gen: F,
    v: IVec3,
    b: u8,
    c: u8,
)
    requires
        pure(gen),
        seen(w, gen, v, b),
        seen(w, gen, v, c),
    ensures
        b == c,
{
    if b != AIR {
        lemma_seen_once(w, gen, v, b, c);
    } else if c != AIR {
        lemma_seen_once(w, gen, v, c, b);
    }
}

/// A world voxel with a block stands for the place of that block and for no
/// other.
pub proof fn lemma_block_is_addressed<H, O, G, F: Fn(Asteroid<G>, IVec3) -> u8>(
    w: WorldState<H, O, G>,
    gen: F,
    v: IVec3,
    i: int,
    b: u8,
    p: Option<(NearBody<G>, IVec3)>,
)
    requires
        pure(gen),
        owns(w, gen, v, i, b),
        addressed(w, gen, v, p),
    ensures
        p == Some((w.near[i], w.near[i].gen_voxel(v))),
{
    let o = choose|o: Option<(NearBody<G>, IVec3)>| #[trigger]
        owned(w, gen, v, o) && p == if o is Some {
            o
        } else {
            w.boxed(v)
        };
    law_owner_is_determined(w, gen, v, i, b, o);
}

/// One body only owns the block at a world voxel, as long as the terrain
/// function always returns the same block for the same voxel.
pub proof fn law_owner_is_determined<H, O, G, F: Fn(Asteroid<G>, IVec3) -> u8>(
    w: WorldState<H, O, G>,
    gen: F,
    v: IVec3,
    i: int,
    b: u8,
    o: Option<(NearBody<G>, IVec3)>,
)
    requires
        pure(gen),
        owns(w, gen, v, i, b),
        owned(w, gen, v, o),
    ensures
        o == Some((w.near[i], w.near[i].gen_voxel(v))),
{
    match o {
        Some((nb, g)) => {
            let (k, c) = choose|k: int, c: u8| #[trigger]
                owns(w, gen, v, k, c) && nb == w.near[k] && g == nb.gen_voxel(v);
            if i < k {
                assert(body_answers(w, gen, w.near[i], v, AIR));
            } else if k < i {
                assert(body_answers(w, gen, w.near[k], v, AIR));
            }
        },
        None => {
            assert(body_answers(w, gen, w.near[i], v, AIR));
        },
    }
}

/// One body only owns the block at a world voxel, and it is one block only.
pub proof fn lemma_owner_is_unique<H, O, G, F: Fn(Asteroid<G>, IVec3) -> u8>(
    w: WorldState<H, O, G>,
    gen: F,
    v: IVec3,
    i: int,
    b: u8,
    k: int,
    c: u8,
)
    requires
        pure(gen),
        owns(w, gen, v, i, b),
        owns(w, gen, v, k, c),
    ensures
        i == k,
        b == c,
{
    if i < k {
        assert(body_answers(w, gen, w.near[i], v, AIR));
    } else if k < i {
        assert(body_answers(w, gen, w.near[k], v, AIR));
    }
}

proof fn lemma_seen_once<H, O, G, F: Fn(Asteroid<G>, IVec3) -> u8>(
    w: WorldState<H, O, G>,
    gen: F,
    v: IVec3,
    b: u8,
    c: u8,
)
    requires
        pure(gen),
        seen(w, gen, v, b),
        seen(w, gen, v, c),
        b != AIR,
    ensures
        b == c,
{
    let i = choose|i: int| #[trigger] owns(w, gen, v, i, b);
    if c == AIR {
        assert(body_answers(w, gen, w.near[i], v, AIR));
    } else {
        let k = choose|k: int| #[trigger] owns(w, gen, v, k, c);
        if i < k {
            assert(body_answers(w, gen, w.near[i], v, AIR));
        } else if k < i {
            assert(body_answers(w, gen, w.near[k], v, AIR));
        }
    }
}

/// Storage answers from the chunk that holds the voxel, if it is stored; from
/// the list of vacant chunks, if the chunk is on it; from the edits, if the
/// voxel has one; and only else from the terrain.
pub proof fn law_storage_is_asked_in_order<H, O, G, F: Fn(Asteroid<G>, IVec3) -> u8>(
    w: WorldState<H, O, G>,
    gen: F,
    key: IVec3,
    a: Asteroid<G>,
    g: IVec3,
    b: u8,
    cp: IVec3,
)
    requires
        answers(w, gen, key, a, g, b),
        16 * cp.x <= g.x < 16 * cp.x + 16,
        16 * cp.y <= g.y < 16 * cp.y + 16,
        16 * cp.z <= g.z < 16 * cp.z + 16,
    ensures
        w.chunks.contains_key((key, cp)) ==> b == w.chunks[(key, cp)][(g.x - 16 * cp.x) + 16 * (g.z
            - 16 * cp.z) + 256 * (g.y - 16 * cp.y)],
        !w.chunks.contains_key((key, cp)) && w.empty.contains((key, cp)) ==> b == AIR,
        !w.chunks.contains_key((key, cp)) && !w.empty.contains((key, cp)) ==> if w.edits.contains_key(
            (key, g),
        ) {
            b == w.edits[(key, g)]
        } else {
            gen.ensures((a, g), b)
        },
{
    crate::chunk::law_chunks_are_cubes(g, cp);
}

/// The block that is seen at a world voxel is that of the first nearby body
/// whose box holds the voxel's gen voxel and that has a block there.
pub proof fn law_first_block_is_seen<H, O, G, F: Fn(Asteroid<G>, IVec3) -> u8>(
    w: WorldState<H, O, G>,
    gen: F,
    v: IVec3,
    i: int,
    b: u8,
    j: int,
    g: IVec3,
)
    requires
        owns(w, gen, v, i, b),
        0 <= j <= i,
        g.x + w.near[j].off_vox.x == v.x,
        g.y + w.near[j].off_vox.y == v.y,
        g.z + w.near[j].off_vox.z == v.z,
    ensures
        0 <= i < w.near.len(),
        b != AIR,
        j == i ==> {
            &&& w.near[i].vmin.x <= g.x <= w.near[i].vmax.x
            &&& w.near[i].vmin.y <= g.y <= w.near[i].vmax.y
            &&& w.near[i].vmin.z <= g.z <= w.near[i].vmax.z
            &&& answers(w, gen, w.near[i].key, w.near[i].a, g, b)
        },
        j < i && w.near[j].vmin.x <= g.x <= w.near[j].vmax.x && w.near[j].vmin.y <= g.y
            <= w.near[j].vmax.y && w.near[j].vmin.z <= g.z <= w.near[j].vmax.z ==> answers(
            w,
            gen,
            w.near[j].key,
            w.near[j].a,
            g,
            AIR,
        ),
{
    crate::body::law_box_rides_the_offset(w.near[j], v, g);
    if j < i && w.near[j].covers(v) {
        assert(body_answers(w, gen, w.near[j], v, AIR));
    }
}

/// Air is seen at a world voxel only where every nearby body whose box holds its
/// gen voxel has air there.
pub proof fn law_air_hides_no_block<H, O, G, F: Fn(Asteroid<G>, IVec3) -> u8>(
    w: WorldState<H, O, G>,
    gen: F,
    v: IVec3,
    j: int,
    g: IVec3,
)
    requires
        seen(w, gen, v, AIR),
        0 <= j < w.near.len(),
        g.x + w.near[j].off_vox.x == v.x,
        g.y + w.near[j].off_vox.y == v.y,
        g.z + w.near[j].off_vox.z == v.z,
        w.near[j].vmin.x <= g.x <= w.near[j].vmax.x,
        w.near[j].vmin.y <= g.y <= w.near[j].vmax.y,
        w.near[j].vmin.z <= g.z <= w.near[j].vmax.z,
    ensures
        answers(w, gen, w.near[j].key, w.near[j].a, g, AIR),
{
    crate::body::law_box_rides_the_offset(w.near[j], v, g);
    assert(w.near[j].covers(v));
}

/// Every block belongs to somebody: what is seen at a world voxel, short of
/// air, is a block of the body that is named as its owner.
pub proof fn law_seen_block_has_an_owner<H, O, G, F: Fn(Asteroid<G>, IVec3) -> u8>(
    w: WorldState<H, O, G>,
    gen: F,
    v: IVec3,
    b: u8,
    o: Option<(NearBody<G>, IVec3)>,
)
    requires
        pure(gen),
        seen(w, gen, v, b),
        owned(w, gen, v, o),
    ensures
        b != AIR <==> o is Some,
        o matches Some((nb, g)) ==> w.near.contains(nb) && answers(w, gen, nb.key, nb.a, g, b)
            && g.x + nb.off_vox.x == v.x && g.y + nb.off_vox.y == v.y && g.z + nb.off_vox.z == v.z,
{
    match o {
        Some((nb, g)) => {
            let (i, c) = choose|i: int, c: u8| #[trigger]
                owns(w, gen, v, i, c) && nb == w.near[i] && g == nb.gen_voxel(v);
            assert(seen(w, gen, v, c));
            law_block_is_determined(w, gen, v, b, c);
            lemma_lattice_view(nb.gen_point(v));
        },
        None => {
            law_block_is_determined(w, gen, v, b, AIR);
        },
    }
}

/// Tier, species and wear at a world voxel are those of the body whose block is
/// seen there; wear that is noted is noted there.
pub proof fn law_block_speaks_for_its_body<H, O, G, F: Fn(Asteroid<G>, IVec3) -> u8>(
    w: WorldState<H, O, G>,
    gen: F,
    v: IVec3,
    i: int,
    b: u8,
    open_tier: i32,
    env: (i32, u8),
    worn: Option<H>,
    hp: H,
    after: WorldState<H, O, G>,
)
    requires
        pure(gen),
        owns(w, gen, v, i, b),
    ensures
        governed(w, gen, v, open_tier, env) ==> env == (w.near[i].a.tier, w.near[i].a.species),
        worn_to(w, gen, v, worn) ==> worn == w.damage.get(w.near[i].place(v)),
        noted(w, gen, v, hp, after) ==> after == (WorldState {
            damage: w.damage.insert(w.near[i].place(v), hp),
            ..w
        }),
{
    if governed(w, gen, v, open_tier, env) {
        let p = choose|p: Option<(NearBody<G>, IVec3)>| #[trigger]
            addressed(w, gen, v, p) && env == match p {
                Some((nb, _)) => (nb.a.tier, nb.a.species),
                None => (open_tier, 0u8),
            };
        lemma_block_is_addressed(w, gen, v, i, b, p);
    }
    if worn_to(w, gen, v, worn) {
        let p = choose|p: Option<(NearBody<G>, IVec3)>| #[trigger]
            addressed(w, gen, v, p) && worn == match p {
                Some((nb, g)) => w.damage.get((nb.key, g)),
                None => None,
            };
        lemma_block_is_addressed(w, gen, v, i, b, p);
    }
    if noted(w, gen, v, hp, after) {
        let p = choose|p: Option<(NearBody<G>, IVec3)>| #[trigger]
            addressed(w, gen, v, p) && after == match p {
                Some((nb, g)) => WorldState { damage: w.damage.insert((nb.key, g), hp), ..w },
                None => w,
            };
        lemma_block_is_addressed(w, gen, v, i, b, p);
    }
}

/// In the air inside a box, tier, species and wear are those of the first body
/// whose box holds the voxel; in open space the tier is the one given for it,
/// the species 0, and nothing is worn or noted.
pub proof fn law_air_speaks_for_the_first_box<H, O, G, F: Fn(Asteroid<G>, IVec3) -> u8>(
    w: WorldState<H, O, G>,
    gen: F,
    v: IVec3,
    i: int,
    open_tier: i32,
    env: (i32, u8),
    worn: Option<H>,
    hp: H,
    after: WorldState<H, O, G>,
)
    requires
        pure(gen),
        seen(w, gen, v, AIR),
        0 <= i <= w.near.len(),
        forall|j: int|
            0 <= j < i ==> {
                let nb = #[trigger] w.near[j];
                !(nb.vmin.x <= v.x - nb.off_vox.x <= nb.vmax.x && nb.vmin.y <= v.y - nb.off_vox.y
                    <= nb.vmax.y && nb.vmin.z <= v.z - nb.off_vox.z <= nb.vmax.z)
            },
        i < w.near.len() ==> {
            let nb = w.near[i];
            nb.vmin.x <= v.x - nb.off_vox.x <= nb.vmax.x && nb.vmin.y <= v.y - nb.off_vox.y
                <= nb.vmax.y && nb.vmin.z <= v.z - nb.off_vox.z <= nb.vmax.z
        },
    ensures
        governed(w, gen, v, open_tier, env) ==> env == if i < w.near.len() {
            (w.near[i].a.tier, w.near[i].a.species)
        } else {
            (open_tier, 0u8)
        },
        worn_to(w, gen, v, worn) ==> worn == if i < w.near.len() {
            w.damage.get(w.near[i].place(v))
        } else {
            None
        },
        noted(w, gen, v, hp, after) ==> after == if i < w.near.len() {
            WorldState { damage: w.damage.insert(w.near[i].place(v), hp), ..w }
        } else {
            w
        },
{
    lemma_boxed_first(w.near, v, i, 0);
    assert forall|p: Option<(NearBody<G>, IVec3)>| #[trigger] addressed(w, gen, v, p) implies p
        == w.boxed(v) by {
        let o = choose|o: Option<(NearBody<G>, IVec3)>| #[trigger]
            owned(w, gen, v, o) && p == if o is Some {
                o
            } else {
                w.boxed(v)
            };
        law_seen_block_has_an_owner(w, gen, v, AIR, o);
    }
    if governed(w, gen, v, open_tier, env) {
        let p = choose|p: Option<(NearBody<G>, IVec3)>| #[trigger]
            addressed(w, gen, v, p) && env == match p {
                Some((nb, _)) => (nb.a.tier, nb.a.species),
                None => (open_tier, 0u8),
            };
        assert(p == w.boxed(v));
    }
    if worn_to(w, gen, v, worn) {
        let p = choose|p: Option<(NearBody<G>, IVec3)>| #[trigger]
            addressed(w, gen, v, p) && worn == match p {
                Some((nb, g)) => w.damage.get((nb.key, g)),
                None => None,
            };
        assert(p == w.boxed(v));
    }
    if noted(w, gen, v, hp, after) {
        let p = choose|p: Option<(NearBody<G>, IVec3)>| #[trigger]
            addressed(w, gen, v, p) && after == match p {
                Some((nb, g)) => WorldState { damage: w.damage.insert((nb.key, g), hp), ..w },
                None => w,
            };
        assert(p == w.boxed(v));
    }
}

proof fn lemma_boxed_first<G>(near: Seq<NearBody<G>>, v: IVec3, i: int, n: int)
    requires
        0 <= n <= i <= near.len(),
        forall|j: int| 0 <= j < i ==> !(#[trigger] near[j]).covers(v),
        i < near.len() ==> near[i].covers(v),
    ensures
        boxed_from(near, v, n) == if i < near.len() {
            Some((near[i], near[i].gen_voxel(v)))
        } else {
            None
        },
    decreases i - n,
{
    if n < i {
        assert(!near[n].covers(v));
        lemma_boxed_first(near, v, i, n + 1);
    }
}

/// A player is carried by what the first probe inside a block touches: by how
/// far the body that holds the block moved. Probes in the air do not count, and
/// with no probe in a block nothing carries.
pub proof fn law_footing_carries<H, O, G, F: Fn(Asteroid<G>, IVec3) -> u8>(
    w: WorldState<H, O, G>,
    gen: F,
    probes: Seq<IVec3>,
    n: int,
    at: int,
    i: int,
    b: u8,
    d: IVec3,
)
    requires
        pure(gen),
        0 <= n <= at <= probes.len(),
        forall|m: int| n <= m < at ==> seen(w, gen, #[trigger] probes[m], AIR),
        at < probes.len() ==> owns(w, gen, probes[at], i, b),
        carried(w, gen, probes, n, d),
    ensures
        at < probes.len() && w.motion.contains_key(w.near[i].key) ==> d
            == w.motion[w.near[i].key].delta,
        at == probes.len() || !w.motion.contains_key(w.near[i].key) ==> d.x == 0 && d.y == 0 && d.z
            == 0,
    decreases at - n,
{
    if n < probes.len() {
        let o = choose|o: Option<(NearBody<G>, IVec3)>| #[trigger]
            owned(w, gen, probes[n], o) && match o {
                Some((nb, _)) => d == w.step_of(nb.key),
                None => carried(w, gen, probes, n + 1, d),
            };
        if n < at {
            law_seen_block_has_an_owner(w, gen, probes[n], AIR, o);
            law_footing_carries(w, gen, probes, n + 1, at, i, b, d);
        } else {
            law_owner_is_determined(w, gen, probes[at], i, b, o);
        }
    }
}

/// The chunks that a dug voxel makes stale are those that hold it or one of its
/// six neighbours.
pub proof fn law_touched_chunks(g: IVec3, c: IVec3, h: IVec3)
    ensures
        chunk_at(g) == c ==> touches(g, c),
        chunk_at(h) == c && ((h.y == g.y && h.z == g.z && (h.x == g.x + 1 || h.x == g.x - 1)) || (
        h.x == g.x && h.z == g.z && (h.y == g.y + 1 || h.y == g.y - 1)) || (h.x == g.x && h.y == g.y
            && (h.z == g.z + 1 || h.z == g.z - 1))) ==> touches(g, c),
        touches(g, c) ==> chunk_at(g) == c || exists|n: IVec3| #[trigger]
            chunk_at(n) == c && n@.minus(g@).length_squared() == 1,
{
    let f: int = if h.x == g.x + 1 {
        0
    } else if h.x == g.x - 1 {
        1
    } else if h.y == g.y + 1 {
        2
    } else if h.y == g.y - 1 {
        3
    } else if h.z == g.z + 1 {
        4
    } else {
        5
    };
    if crate::face::across(g, f) == h@ {
        lemma_view_injective(crate::face::across(g, f).lattice(), h);
        assert(crate::face::across(g, f).representable());
    }
    if touches(g, c) && chunk_at(g) != c {
        let e = choose|e: int|
            0 <= e < 6 && (#[trigger] crate::face::across(g, e)).representable() && c == chunk_at(
                crate::face::across(g, e).lattice(),
            );
        let n = crate::face::across(g, e).lattice();
        lemma_lattice_view(crate::face::across(g, e));
        assert(chunk_at(n) == c);
        assert(n@.minus(g@).length_squared() == 1) by (nonlinear_arith)
            requires
                n@.minus(g@) == crate::face::face_dir(e),
                0 <= e < 6,
        ;
    }
}

/// Where no body is near, everything is vacuum.
pub proof fn law_open_space_is_air<H, O, G, F: Fn(Asteroid<G>, IVec3) -> u8>(
    w: WorldState<H, O, G>,
    gen: F,
    v: IVec3,
    b: u8,
)
    requires
        forall|i: int| 0 <= i < w.near.len() ==> !(#[trigger] w.near[i]).covers(v),
        seen(w, gen, v, b),
    ensures
        b == AIR,
{
}

/// Terrain rides its body's offset: gen voxel `g` of a body displaced by `o`
/// is found at world voxel `g + o`.
pub proof fn law_terrain_rides_the_offset<G>(nb: NearBody<G>, g: IVec3, v: IVec3)
    requires
        g@.within(nb.vmin@, nb.vmax@),
        v@ == g@.plus(nb.off_vox@),
    ensures
        nb.covers(v),
        nb.gen_voxel(v) == g,
{
    assert(nb.gen_point(v) == g@);
    lemma_view_injective(nb.gen_voxel(v), g);
}

/// The first box that covers a voxel, where one body alone covers it.
proof fn lemma_boxed_alone<G>(near: Seq<NearBody<G>>, v: IVec3, i: int, n: int)
    requires
        0 <= n <= i < near.len(),
        near[i].covers(v),
        forall|j: int| 0 <= j < near.len() && j != i ==> !(#[trigger] near[j]).covers(v),
    ensures
        boxed_from(near, v, n) == Some((near[i], near[i].gen_voxel(v))),
    decreases i - n,
{
    if n < i {
        assert(!near[n].covers(v));
        lemma_boxed_alone(near, v, i, n + 1);
    }
}

/// A displaced body answers at its new place with its own terrain: where no
/// other body covers world voxel `g + o`, the block there is the block at gen
/// voxel `g` of the body displaced by `o`, and its tier and species govern.
pub proof fn law_displaced_body_answers_for_itself<H, O, G, F: Fn(Asteroid<G>, IVec3) -> u8>(
    w: WorldState<H, O, G>,
    gen: F,
    i: int,
    g: IVec3,
    v: IVec3,
    b: u8,
    open_tier: i32,
    env: (i32, u8),
)
    requires
        0 <= i < w.near.len(),
        g@.within(w.near[i].vmin@, w.near[i].vmax@),
        v@ == g@.plus(w.near[i].off_vox@),
        forall|j: int| 0 <= j < w.near.len() && j != i ==> !(#[trigger] w.near[j]).covers(v),
    ensures
        seen(w, gen, v, b) ==> answers(w, gen, w.near[i].key, w.near[i].a, g, b),
        governed(w, gen, v, open_tier, env) ==> env == (w.near[i].a.tier, w.near[i].a.species),
{
    law_terrain_rides_the_offset(w.near[i], g, v);
    if seen(w, gen, v, b) {
        if b == AIR {
            assert(w.near[i].covers(v));
        } else {
            let k = choose|k: int| #[trigger] owns(w, gen, v, k, b);
            assert(w.near[k].covers(v));
            assert(k == i);
        }
    }
    if governed(w, gen, v, open_tier, env) {
        let p = choose|p: Option<(NearBody<G>, IVec3)>| #[trigger]
            addressed(w, gen, v, p) && env == match p {
                Some((nb, _)) => (nb.a.tier, nb.a.species),
                None => (open_tier, 0u8),
            };
        let o = choose|o: Option<(NearBody<G>, IVec3)>| #[trigger]
            owned(w, gen, v, o) && p == if o is Some {
                o
            } else {
                w.boxed(v)
            };
        match o {
            Some((nb, h)) => {
                let (k, c) = choose|k: int, c: u8| #[trigger]
                    owns(w, gen, v, k, c) && nb == w.near[k] && h == nb.gen_voxel(v);
                assert(w.near[k].covers(v));
                assert(k == i);
            },
            None => {
                lemma_boxed_alone(w.near, v, i, 0);
            },
        }
    }
}

/// Flying back finds everything as it was left: a chunk that is dropped and
/// generated again answers, at each of its voxels, what it answered before.
pub proof fn law_regeneration_restores_the_chunk<H, O, G, F: Fn(IVec3) -> u8>(
    w: WorldState<H, O, G>,
    terrain: spec_fn(IVec3, IVec3) -> u8,
    key: IVec3,
    cp: IVec3,
    in_reach: bool,
    gen: F,
    solid: bool,
    after: WorldState<H, O, G>,
    g: IVec3,
)
    requires
        w.wf(),
        faithful(w, terrain),
        chunk_ok(cp),
        forall|v: IVec3, b: u8| #[trigger] gen.ensures((v,), b) ==> b == terrain(key, v),
        !in_reach ==> forall|v: IVec3| chunk_at(v) == cp ==> #[trigger] terrain(key, v) == AIR,
        generated(w.unloaded(key, cp), key, cp, in_reach, gen, solid, after),
        chunk_at(g) == cp,
    ensures
        after.known(key, g) == Some(pristine(w.edits, terrain, key, g)),
        w.chunks.contains_key((key, cp)) ==> after.known(key, g) == w.known(key, g),
{
    law_dropping_storage_is_faithful(w, terrain, key, cp, cp, 0);
    law_generation_is_faithful(
        w.unloaded(key, cp),
        terrain,
        key,
        cp,
        in_reach,
        gen,
        solid,
        after,
    );
    assert(faithful_at(after, terrain, key, g));
    assert(faithful_at(w, terrain, key, g));
    if in_reach {
        let u = w.unloaded(key, cp);
        let blocks = choose|blocks: Seq<u8>|
            {
                &&& #[trigger] fills(u.edits, key, gen, cp, blocks, CHUNK_VOL as int)
                &&& solid == any_solid(blocks)
                &&& after == if solid {
                    u.stored(key, cp, blocks)
                } else {
                    u.vacated(key, cp)
                }
            };
        assert(after.chunks.contains_key((key, cp)) || after.empty.contains((key, cp)));
    }
}

/// Every body in range is the one that `bodies` names by its key.
pub open spec fn described<G>(
    near: Seq<NearBody<G>>,
    bodies: spec_fn(IVec3) -> Asteroid<G>,
) -> bool {
    forall|i: int| 0 <= i < near.len() ==> (#[trigger] near[i]).a == bodies(near[i].key)
}

/// The block that ought to be seen at a world voxel through the bodies of
/// `near` from position `i` on: that of the first one with a block there, by
/// terrain and edits alone.
pub open spec fn shown<G>(
    near: Seq<NearBody<G>>,
    edits: Map<(IVec3, IVec3), u8>,
    terrain: spec_fn(IVec3, IVec3) -> u8,
    v: IVec3,
    i: int,
) -> u8
    decreases near.len() - i,
{
    if i < 0 || i >= near.len() {
        AIR
    } else if near[i].covers(v) && pristine(edits, terrain, near[i].key, near[i].gen_voxel(v))
        != AIR {
        pristine(edits, terrain, near[i].key, near[i].gen_voxel(v))
    } else {
        shown(near, edits, terrain, v, i + 1)
    }
}

/// Bodies without a block at a voxel do not count.
proof fn lemma_shown_skips<G>(
    near: Seq<NearBody<G>>,
    edits: Map<(IVec3, IVec3), u8>,
    terrain: spec_fn(IVec3, IVec3) -> u8,
    v: IVec3,
    n: int,
    i: int,
)
    requires
        0 <= n <= i <= near.len(),
        forall|j: int|
            n <= j < i && (#[trigger] near[j]).covers(v) ==> pristine(
                edits,
                terrain,
                near[j].key,
                near[j].gen_voxel(v),
            ) == AIR,
    ensures
        shown(near, edits, terrain, v, n) == shown(near, edits, terrain, v, i),
    decreases i - n,
{
    if n < i {
        assert(near[n].covers(v) ==> pristine(
            edits,
            terrain,
            near[n].key,
            near[n].gen_voxel(v),
        ) == AIR);
        lemma_shown_skips(near, edits, terrain, v, n + 1, i);
    }
}

/// What is seen at a world voxel is the terrain of the bodies around it with
/// the holes dug into them, whatever happens to be loaded.
pub proof fn law_world_shows_the_terrain<H, O, G, F: Fn(Asteroid<G>, IVec3) -> u8>(
    w: WorldState<H, O, G>,
    terrain: spec_fn(IVec3, IVec3) -> u8,
    bodies: spec_fn(IVec3) -> Asteroid<G>,
    gen: F,
    v: IVec3,
    b: u8,
)
    requires
        w.wf(),
        faithful(w, terrain),
        follows(gen, bodies, terrain),
        described(w.near, bodies),
        seen(w, gen, v, b),
    ensures
        b == shown(w.near, w.edits, terrain, v, 0),
{
    assert forall|i: int, c: u8| 0 <= i < w.near.len() && #[trigger] body_answers(
        w,
        gen,
        w.near[i],
        v,
        c,
    ) implies c == pristine(w.edits, terrain, w.near[i].key, w.near[i].gen_voxel(v)) by {
        let nb = w.near[i];
        assert(nb.a == bodies(nb.key));
        law_storage_is_transparent(w, terrain, bodies, gen, nb.key, nb.gen_voxel(v), c);
    }
    if b == AIR {
        lemma_shown_skips(w.near, w.edits, terrain, v, 0, w.near.len() as int);
    } else {
        let i = choose|i: int| #[trigger] owns(w, gen, v, i, b);
        lemma_shown_skips(w.near, w.edits, terrain, v, 0, i);
        assert(body_answers(w, gen, w.near[i], v, b));
    }
}

/// Unloading is invisible, and so is forgetting vacant chunks: what is seen at
/// any world voxel, mined or not, is what was seen there before.
pub proof fn law_unloading_is_invisible<H, O, G, F: Fn(Asteroid<G>, IVec3) -> u8>(
    w: WorldState<H, O, G>,
    terrain: spec_fn(IVec3, IVec3) -> u8,
    bodies: spec_fn(IVec3) -> Asteroid<G>,
    gen: F,
    key: IVec3,
    cp: IVec3,
    radius: i32,
    v: IVec3,
    b: u8,
    c: u8,
)
    requires
        w.wf(),
        faithful(w, terrain),
        follows(gen, bodies, terrain),
        described(w.near, bodies),
        seen(w, gen, v, b),
    ensures
        seen(w.unloaded(key, cp), gen, v, c) ==> b == c,
        seen(w.forgotten(cp, radius), gen, v, c) ==> b == c,
{
    law_world_shows_the_terrain(w, terrain, bodies, gen, v, b);
    law_dropping_storage_is_faithful(w, terrain, key, cp, cp, radius);
    if seen(w.unloaded(key, cp), gen, v, c) {
        law_world_shows_the_terrain(w.unloaded(key, cp), terrain, bodies, gen, v, c);
    }
    if seen(w.forgotten(cp, radius), gen, v, c) {
        law_world_shows_the_terrain(w.forgotten(cp, radius), terrain, bodies, gen, v, c);
    }
}

/// Generation is invisible too: a chunk generated from the terrain shows at
/// every world voxel what was seen there without it.
pub proof fn law_generation_is_invisible<
    H,
    O,
    G,
    F: Fn(Asteroid<G>, IVec3) -> u8,
    C: Fn(IVec3) -> u8,
>(
    w: WorldState<H, O, G>,
    terrain: spec_fn(IVec3, IVec3) -> u8,
    bodies: spec_fn(IVec3) -> Asteroid<G>,
    gen: F,
    key: IVec3,
    cp: IVec3,
    in_reach: bool,
    fill: C,
    solid: bool,
    after: WorldState<H, O, G>,
    v: IVec3,
    b: u8,
    c: u8,
)
    requires
        w.wf(),
        faithful(w, terrain),
        follows(gen, bodies, terrain),
        described(w.near, bodies),
        chunk_ok(cp),
        forall|g: IVec3, x: u8| #[trigger] fill.ensures((g,), x) ==> x == terrain(key, g),
        !in_reach ==> forall|g: IVec3| chunk_at(g) == cp ==> #[trigger] terrain(key, g) == AIR,
        generated(w, key, cp, in_reach, fill, solid, after),
        seen(w, gen, v, b),
        seen(after, gen, v, c),
    ensures
        b == c,
{
    law_generation_is_faithful(w, terrain, key, cp, in_reach, fill, solid, after);
    lemma_generation_keeps_order(w, key, cp, in_reach, fill, solid, after);
    law_world_shows_the_terrain(w, terrain, bodies, gen, v, b);
    law_world_shows_the_terrain(after, terrain, bodies, gen, v, c);
}

pub proof fn lemma_generation_keeps_order<H, O, G, C: Fn(IVec3) -> u8>(
    w: WorldState<H, O, G>,
    key: IVec3,
    cp: IVec3,
    in_reach: bool,
    fill: C,
    solid: bool,
    after: WorldState<H, O, G>,
)
    requires
        w.wf(),
        generated(w, key, cp, in_reach, fill, solid, after),
    ensures
        after.wf(),
        after.near == w.near,
        after.edits == w.edits,
{
    if in_reach {
        let blocks = choose|blocks: Seq<u8>|
            {
                &&& #[trigger] fills(w.edits, key, fill, cp, blocks, CHUNK_VOL as int)
                &&& solid == any_solid(blocks)
                &&& after == if solid {
                    w.stored(key, cp, blocks)
                } else {
                    w.vacated(key, cp)
                }
            };
        assert(blocks.len() == CHUNK_VOL);
        assert forall|k: (IVec3, IVec3)| #[trigger]
            after.chunks.contains_key(k) implies after.chunks[k].len() == CHUNK_VOL by {
            if k != (key, cp) {
                assert(w.chunks.contains_key(k));
            }
        }
    }
}

/// What was mined stays mined, at world voxels: after the block at `v` is
/// removed there is air; still after any chunk is unloaded; and still after
/// that chunk is generated again from the terrain.
pub proof fn law_mined_voxel_stays_air<
    H,
    O,
    G,
    F: Fn(Asteroid<G>, IVec3) -> u8,
    C: Fn(IVec3) -> u8,
>(
    w: WorldState<H, O, G>,
    terrain: spec_fn(IVec3, IVec3) -> u8,
    bodies: spec_fn(IVec3) -> Asteroid<G>,
    gen: F,
    v: IVec3,
    key: IVec3,
    cp: IVec3,
    in_reach: bool,
    fill: C,
    solid: bool,
    after: WorldState<H, O, G>,
    b: u8,
)
    requires
        w.wf(),
        faithful(w, terrain),
        follows(gen, bodies, terrain),
        described(w.near, bodies),
        chunk_ok(cp),
        forall|g: IVec3, x: u8| #[trigger] fill.ensures((g,), x) ==> x == terrain(key, g),
        !in_reach ==> forall|g: IVec3| chunk_at(g) == cp ==> #[trigger] terrain(key, g) == AIR,
        generated(
            w.removed(gen, v).unloaded(key, cp),
            key,
            cp,
            in_reach,
            fill,
            solid,
            after,
        ),
        seen(w.removed(gen, v), gen, v, AIR),
    ensures
        seen(w.removed(gen, v), gen, v, b) ==> b == AIR,
        seen(w.removed(gen, v).unloaded(key, cp), gen, v, b) ==> b == AIR,
        seen(after, gen, v, b) ==> b == AIR,
{
    let d = w.removed(gen, v);
    let u = d.unloaded(key, cp);
    lemma_removal_keeps_order(w, gen, v);
    lemma_removal_is_faithful(w, terrain, gen, v);
    law_dropping_storage_is_faithful(d, terrain, key, cp, cp, 0);
    assert(u.wf());
    law_world_shows_the_terrain(d, terrain, bodies, gen, v, AIR);
    if seen(d, gen, v, b) {
        law_removal_clears_the_voxel(w, gen, v, b);
    }
    if seen(u, gen, v, b) {
        law_world_shows_the_terrain(u, terrain, bodies, gen, v, b);
    }
    law_generation_is_faithful(u, terrain, key, cp, in_reach, fill, solid, after);
    lemma_generation_keeps_order(u, key, cp, in_reach, fill, solid, after);
    if seen(after, gen, v, b) {
        law_world_shows_the_terrain(after, terrain, bodies, gen, v, b);
    }
}

/// `made_of` tells for each listed body the terrain at `v`, and calls air
/// nothing.
pub open spec fn tells<G, M: Fn(Asteroid<G>, IVec3) -> Option<u8>>(
    listed: Seq<Keyed<G>>,
    terrain: spec_fn(IVec3, IVec3) -> u8,
    v: IVec3,
    made_of: M,
) -> bool {
    forall|n: int, r: Option<u8>|
        0 <= n < listed.len() && #[trigger] made_of.ensures((listed[n].a, v), r) ==> r != Some(AIR)
            && terrain(listed[n].key, v) == match r {
            Some(x) => x,
            None => AIR,
        }
}

/// No two bodies hold a block at gen voxel `g`.
pub open spec fn disjoint_at(terrain: spec_fn(IVec3, IVec3) -> u8, g: IVec3) -> bool {
    forall|a: IVec3, b: IVec3|
        a != b ==> #[trigger] terrain(a, g) == AIR || #[trigger] terrain(b, g) == AIR
}

/// A body is listed.
pub open spec fn is_listed<G>(listed: Seq<Keyed<G>>, key: IVec3) -> bool {
    exists|n: int| 0 <= n < listed.len() && (#[trigger] listed[n]).key == key
}

/// A body is in range and covers a voxel.
pub open spec fn is_near<G>(near: Seq<NearBody<G>>, v: IVec3, key: IVec3) -> bool {
    exists|i: int| 0 <= i < near.len() && (#[trigger] near[i]).covers(v) && near[i].key == key
}

/// The bodies in range and the listed ones are the same as far as `v` goes:
/// whichever holds a block there is listed exactly if it is in range and covers
/// the voxel.
pub open spec fn same_bodies_at<G>(
    near: Seq<NearBody<G>>,
    listed: Seq<Keyed<G>>,
    terrain: spec_fn(IVec3, IVec3) -> u8,
    v: IVec3,
) -> bool {
    forall|key: IVec3|
        #![trigger is_listed(listed, key)]
        #![trigger is_near(near, v, key)]
        terrain(key, v) != AIR ==> (is_listed(listed, key) <==> is_near(near, v, key))
}

/// What pure terrain finds at a voxel is some listed body's, or nothing where
/// all of them have none.
proof fn lemma_pure_terrain<G, M: Fn(Asteroid<G>, IVec3) -> Option<u8>>(
    listed: Seq<Keyed<G>>,
    terrain: spec_fn(IVec3, IVec3) -> u8,
    v: IVec3,
    made_of: M,
    n: int,
    c: u8,
)
    requires
        0 <= n <= listed.len(),
        tells(listed, terrain, v, made_of),
        terrain_at(listed.map_values(|k: Keyed<G>| k.a), v, made_of, n, c),
    ensures
        c == AIR ==> forall|m: int|
            n <= m < listed.len() ==> terrain((#[trigger] listed[m]).key, v) == AIR,
        c != AIR ==> exists|m: int|
            n <= m < listed.len() && terrain((#[trigger] listed[m]).key, v) == c,
    decreases listed.len() - n,
{
    let bodies = listed.map_values(|k: Keyed<G>| k.a);
    if n < listed.len() {
        assert(bodies[n] == listed[n].a);
        if made_of.ensures((listed[n].a, v), Some(c)) {
            assert(terrain(listed[n].key, v) == c);
        } else {
            assert(made_of.ensures((listed[n].a, v), None));
            assert(terrain(listed[n].key, v) == AIR);
            lemma_pure_terrain(listed, terrain, v, made_of, n + 1, c);
        }
    }
}

/// A block that is shown belongs to a body that covers the voxel.
proof fn lemma_shown_source<G>(
    near: Seq<NearBody<G>>,
    edits: Map<(IVec3, IVec3), u8>,
    terrain: spec_fn(IVec3, IVec3) -> u8,
    v: IVec3,
    n: int,
)
    requires
        0 <= n <= near.len(),
    ensures
        shown(near, edits, terrain, v, n) == AIR ==> forall|i: int|
            n <= i < near.len() && (#[trigger] near[i]).covers(v) ==> pristine(
                edits,
                terrain,
                near[i].key,
                near[i].gen_voxel(v),
            ) == AIR,
        shown(near, edits, terrain, v, n) != AIR ==> exists|i: int|
            n <= i < near.len() && (#[trigger] near[i]).covers(v) && pristine(
                edits,
                terrain,
                near[i].key,
                near[i].gen_voxel(v),
            ) == shown(near, edits, terrain, v, n),
    decreases near.len() - n,
{
    if n < near.len() {
        if near[n].covers(v) && pristine(edits, terrain, near[n].key, near[n].gen_voxel(v)) != AIR {
            assert(near[n].covers(v));
        } else {
            lemma_shown_source(near, edits, terrain, v, n + 1);
        }
    }
}

/// Stored chunks equal pure terrain: as long as nothing is dug and no body has
/// moved, the world holds at every voxel the block that pure terrain gives
/// there, voxel for voxel, whatever has been generated. Bodies are disjoint in
/// gen space.
pub proof fn law_stored_world_is_pure_terrain<
    H,
    O,
    G,
    F: Fn(Asteroid<G>, IVec3) -> u8,
    M: Fn(Asteroid<G>, IVec3) -> Option<u8>,
>(
    w: WorldState<H, O, G>,
    terrain: spec_fn(IVec3, IVec3) -> u8,
    bodies: spec_fn(IVec3) -> Asteroid<G>,
    gen: F,
    listed: Seq<Keyed<G>>,
    made_of: M,
    v: IVec3,
    b: u8,
    c: u8,
)
    requires
        w.wf(),
        faithful(w, terrain),
        follows(gen, bodies, terrain),
        described(w.near, bodies),
        w.edits == Map::<(IVec3, IVec3), u8>::empty(),
        forall|i: int| 0 <= i < w.near.len() ==> (#[trigger] w.near[i]).off_vox == origin(),
        disjoint_at(terrain, v),
        same_bodies_at(w.near, listed, terrain, v),
        tells(listed, terrain, v, made_of),
        seen(w, gen, v, b),
        terrain_at(listed.map_values(|k: Keyed<G>| k.a), v, made_of, 0, c),
    ensures
        b == c,
{
    law_world_shows_the_terrain(w, terrain, bodies, gen, v, b);
    lemma_shown_source(w.near, w.edits, terrain, v, 0);
    lemma_pure_terrain(listed, terrain, v, made_of, 0, c);
    assert forall|i: int| 0 <= i < w.near.len() implies (#[trigger] w.near[i]).gen_voxel(v) == v by {
        assert(w.near[i].gen_point(v) == v@);
        lemma_view_injective(w.near[i].gen_voxel(v), v);
    }
    if b != AIR {
        let i = choose|i: int|
            0 <= i < w.near.len() && (#[trigger] w.near[i]).covers(v) && pristine(
                w.edits,
                terrain,
                w.near[i].key,
                w.near[i].gen_voxel(v),
            ) == b;
        let key = w.near[i].key;
        assert(terrain(key, v) == b);
        assert(is_near(w.near, v, key));
        assert(is_listed(listed, key));
        let n = choose|n: int| 0 <= n < listed.len() && (#[trigger] listed[n]).key == key;
        assert(terrain(listed[n].key, v) == b);
        let m = choose|m: int|
            0 <= m < listed.len() && terrain((#[trigger] listed[m]).key, v) == c;
        if listed[m].key != key {
            assert(terrain(listed[m].key, v) == AIR || terrain(key, v) == AIR);
        }
    } else if c != AIR {
        let m = choose|m: int|
            0 <= m < listed.len() && terrain((#[trigger] listed[m]).key, v) == c;
        let key = listed[m].key;
        assert(is_listed(listed, key));
        assert(is_near(w.near, v, key));
        let i = choose|i: int|
            0 <= i < w.near.len() && (#[trigger] w.near[i]).covers(v) && w.near[i].key == key;
        assert(pristine(w.edits, terrain, w.near[i].key, w.near[i].gen_voxel(v)) == AIR);
    }
}

/// Chunk `cp` of body `key` was generated from the terrain.
pub open spec fn grown<H, O, G, C: Fn(IVec3) -> u8>(
    w: WorldState<H, O, G>,
    terrain: spec_fn(IVec3, IVec3) -> u8,
    key: IVec3,
    cp: IVec3,
    in_reach: bool,
    fill: C,
    solid: bool,
    after: WorldState<H, O, G>,
) -> bool {
    &&& forall|g: IVec3, x: u8| #[trigger] fill.ensures((g,), x) ==> x == terrain(key, g)
    &&& !in_reach ==> forall|g: IVec3| chunk_at(g) == cp ==> #[trigger] terrain(key, g) == AIR
    &&& generated(w, key, cp, in_reach, fill, solid, after)
}

/// Chunk `cp` of every listed body was generated from the terrain, one body
/// after the other.
pub open spec fn grown_each<H, O, G, C: Fn(IVec3) -> u8>(
    w: WorldState<H, O, G>,
    terrain: spec_fn(IVec3, IVec3) -> u8,
    listed: Seq<Keyed<G>>,
    cp: IVec3,
    fills: Seq<C>,
    after: WorldState<H, O, G>,
) -> bool
    decreases listed.len(),
{
    if listed.len() == 0 {
        after == w
    } else {
        exists|mid: WorldState<H, O, G>, in_reach: bool, solid: bool|
            grown_each(w, terrain, listed.drop_last(), cp, fills.drop_last(), mid)
                && #[trigger] grown(
                mid,
                terrain,
                listed.last().key,
                cp,
                in_reach,
                fills.last(),
                solid,
                after,
            )
    }
}

proof fn lemma_grown_each<H, O, G, C: Fn(IVec3) -> u8>(
    w: WorldState<H, O, G>,
    terrain: spec_fn(IVec3, IVec3) -> u8,
    listed: Seq<Keyed<G>>,
    cp: IVec3,
    fills: Seq<C>,
    after: WorldState<H, O, G>,
)
    requires
        w.wf(),
        faithful(w, terrain),
        chunk_ok(cp),
        grown_each(w, terrain, listed, cp, fills, after),
    ensures
        after.wf(),
        faithful(after, terrain),
        after.edits == w.edits,
        forall|n: int|
            0 <= n < listed.len() ==> after.chunks.contains_key(((#[trigger] listed[n]).key, cp))
                || after.empty.contains((listed[n].key, cp)),
    decreases listed.len(),
{
    if listed.len() > 0 {
        let key = listed.last().key;
        let (mid, in_reach, solid) = choose|mid: WorldState<H, O, G>, in_reach: bool, solid: bool|
            grown_each(w, terrain, listed.drop_last(), cp, fills.drop_last(), mid)
                && #[trigger] grown(mid, terrain, key, cp, in_reach, fills.last(), solid, after);
        lemma_grown_each(w, terrain, listed.drop_last(), cp, fills.drop_last(), mid);
        law_generation_is_faithful(mid, terrain, key, cp, in_reach, fills.last(), solid, after);
        lemma_generation_keeps_order(mid, key, cp, in_reach, fills.last(), solid, after);
        assert(after.chunks.contains_key((key, cp)) || after.empty.contains((key, cp)));
        assert forall|n: int| 0 <= n < listed.len() implies after.chunks.contains_key(
            ((#[trigger] listed[n]).key, cp),
        ) || after.empty.contains((listed[n].key, cp)) by {
            if n < listed.len() - 1 {
                assert(listed.drop_last()[n] == listed[n]);
            }
        }
    }
}

/// Chunk contents equal pure terrain: in a fresh world in which chunk `cp` of
/// every listed body has been generated, the block at every voxel is the one
/// that pure terrain gives there.
pub proof fn law_generated_chunks_equal_pure_terrain<
    H,
    O,
    G,
    C: Fn(IVec3) -> u8,
    F: Fn(Asteroid<G>, IVec3) -> u8,
    M: Fn(Asteroid<G>, IVec3) -> Option<u8>,
>(
    w: WorldState<H, O, G>,
    terrain: spec_fn(IVec3, IVec3) -> u8,
    bodies: spec_fn(IVec3) -> Asteroid<G>,
    cp: IVec3,
    fills: Seq<C>,
    mid: WorldState<H, O, G>,
    near: Seq<NearBody<G>>,
    gen: F,
    listed: Seq<Keyed<G>>,
    made_of: M,
    v: IVec3,
    b: u8,
    c: u8,
)
    requires
        w.wf(),
        w.chunks == Map::<(IVec3, IVec3), Seq<u8>>::empty(),
        w.empty == Set::<(IVec3, IVec3)>::empty(),
        w.edits == Map::<(IVec3, IVec3), u8>::empty(),
        chunk_ok(cp),
        grown_each(w, terrain, listed, cp, fills, mid),
        follows(gen, bodies, terrain),
        described(near, bodies),
        forall|i: int| 0 <= i < near.len() ==> (#[trigger] near[i]).off_vox == origin(),
        disjoint_at(terrain, v),
        same_bodies_at(near, listed, terrain, v),
        tells(listed, terrain, v, made_of),
        seen(WorldState { near, ..mid }, gen, v, b),
        terrain_at(listed.map_values(|k: Keyed<G>| k.a), v, made_of, 0, c),
    ensures
        b == c,
        forall|n: int|
            0 <= n < listed.len() ==> mid.chunks.contains_key(((#[trigger] listed[n]).key, cp))
                || mid.empty.contains((listed[n].key, cp)),
{
    law_empty_store_is_faithful(w, terrain);
    lemma_grown_each(w, terrain, listed, cp, fills, mid);
    let u = WorldState { near, ..mid };
    assert forall|k: IVec3, g: IVec3| #[trigger] faithful_at(u, terrain, k, g) by {
        assert(faithful_at(mid, terrain, k, g));
    }
    assert(u.wf());
    law_stored_world_is_pure_terrain(u, terrain, bodies, gen, listed, made_of, v, b, c);
}

/// Unloading a chunk takes it and its stale mark away, and nothing else.
pub proof fn law_unloading_takes_one_chunk<H, O, G>(
    w: WorldState<H, O, G>,
    key: IVec3,
    cp: IVec3,
    k: (IVec3, IVec3),
)
    ensures
        ({
            let after = w.unloaded(key, cp);
            &&& !after.chunks.contains_key((key, cp))
            &&& !after.dirty.contains((key, cp))
            &&& k != (key, cp) ==> after.chunks.get(k) == w.chunks.get(k)
            &&& k != (key, cp) ==> after.dirty.contains(k) == w.dirty.contains(k)
            &&& after.empty == w.empty
            &&& after.edits == w.edits
            &&& after.damage == w.damage
            &&& after.motion == w.motion
            &&& after.near == w.near
            &&& after.salt == w.salt
        }),
{
}

/// A vacant chunk is forgotten when it is further than three radii away along
/// any axis, and kept when it is not.
pub proof fn law_far_vacant_chunks_are_forgotten<H, O, G>(
    w: WorldState<H, O, G>,
    keep_near: IVec3,
    radius: i32,
    k: (IVec3, IVec3),
)
    ensures
        ({
            let after = w.forgotten(keep_near, radius);
            let (dx, dy, dz) = (
                k.1.x - keep_near.x,
                k.1.y - keep_near.y,
                k.1.z - keep_near.z,
            );
            &&& dx > 3 * radius || dx < -3 * radius ==> !after.empty.contains(k)
            &&& dy > 3 * radius || dy < -3 * radius ==> !after.empty.contains(k)
            &&& dz > 3 * radius || dz < -3 * radius ==> !after.empty.contains(k)
            &&& -3 * radius <= dx <= 3 * radius && -3 * radius <= dy <= 3 * radius && -3 * radius
                <= dz <= 3 * radius ==> after.empty.contains(k) == w.empty.contains(k)
            &&& after.chunks == w.chunks
            &&& after.dirty == w.dirty
            &&& after.edits == w.edits
            &&& after.damage == w.damage
            &&& after.motion == w.motion
            &&& after.near == w.near
        }),
{
}

/// Generating a chunk settles it: it is loaded with a stale mesh when it holds a
/// block, and listed as vacant when it holds none. No other chunk is touched.
pub proof fn law_generating_settles_the_chunk<H, O, G, F: Fn(IVec3) -> u8>(
    w: WorldState<H, O, G>,
    key: IVec3,
    cp: IVec3,
    in_reach: bool,
    gen: F,
    solid: bool,
    after: WorldState<H, O, G>,
    k: (IVec3, IVec3),
)
    requires
        generated(w, key, cp, in_reach, gen, solid, after),
    ensures
        solid ==> in_reach && after.chunks.contains_key((key, cp)) && after.dirty.contains(
            (key, cp),
        ),
        solid ==> exists|n: int|
            0 <= n < after.chunks[(key, cp)].len() && #[trigger] after.chunks[(key, cp)][n] != AIR,
        !solid ==> after.empty.contains((key, cp)) && after.chunks == w.chunks && after.dirty
            == w.dirty,
        k != (key, cp) ==> after.chunks.get(k) == w.chunks.get(k),
        k != (key, cp) ==> after.dirty.contains(k) == w.dirty.contains(k),
        k != (key, cp) ==> after.empty.contains(k) == w.empty.contains(k),
        after.edits == w.edits,
        after.damage == w.damage,
        after.motion == w.motion,
        after.near == w.near,
{
    if solid {
        let blocks = choose|blocks: Seq<u8>|
            {
                &&& #[trigger] fills(w.edits, key, gen, cp, blocks, CHUNK_VOL as int)
                &&& solid == any_solid(blocks)
                &&& after == w.stored(key, cp, blocks)
            };
        assert(after.chunks[(key, cp)] == blocks);
        let n = choose|n: int| 0 <= n < blocks.len() && #[trigger] blocks[n] != AIR;
        assert(after.chunks[(key, cp)][n] != AIR);
    }
}

} // verus!
