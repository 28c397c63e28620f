//! Laws of a whole day: what holds of every world that storage operations lead
//! to, from an empty store on.
use crate::blocks::AIR;
use crate::body::Asteroid;
use crate::chunk::{chunk_ok, CHUNK_VOL};
use crate::ivec::IVec3;
use crate::state::{seen, WorldState};
use crate::storage::{
    described, faithful, faithful_at, follows, grown, law_dropping_storage_is_faithful,
    law_empty_store_is_faithful, law_generation_is_faithful, law_unloading_is_invisible,
    law_world_shows_the_terrain, lemma_generation_keeps_order, lemma_removal_is_faithful,
    lemma_removal_keeps_order, lemma_removed, pristine, shown,
};
use vstd::prelude::*;

verus! {

/// Nothing stored changed: bodies moved, came into range or left it, wear was
/// noted, or stale meshes were handed out.
pub open spec fn stirred<H, O, G>(
    w: WorldState<H, O, G>,
    bodies: spec_fn(IVec3) -> Asteroid<G>,
    after: WorldState<H, O, G>,
) -> bool {
    &&& after.chunks == w.chunks
    &&& after.empty == w.empty
    &&& after.edits == w.edits
    &&& after.wf()
    &&& described(after.near, bodies)
}

/// One thing happened to the store: nothing much, a chunk was generated from
/// the terrain or unloaded, a block was removed, a body was swallowed, or vacant
/// chunks were forgotten.
pub open spec fn happened<
    H,
    O,
    G,
    F: Fn(Asteroid<G>, IVec3) -> u8,
    C: Fn(IVec3) -> u8,
>(
    w: WorldState<H, O, G>,
    terrain: spec_fn(IVec3, IVec3) -> u8,
    bodies: spec_fn(IVec3) -> Asteroid<G>,
    gen: F,
    fills: Set<C>,
    after: WorldState<H, O, G>,
) -> bool {
    ||| stirred(w, bodies, after)
    ||| exists|key: IVec3, cp: IVec3, in_reach: bool, fill: C, solid: bool|
        fills.contains(fill) && chunk_ok(cp) && #[trigger] grown(
            w,
            terrain,
            key,
            cp,
            in_reach,
            fill,
            solid,
            after,
        )
    ||| exists|v: IVec3| after == #[trigger] w.removed(gen, v)
    ||| exists|key: IVec3, cp: IVec3| after == #[trigger] w.unloaded(key, cp)
    ||| exists|key: IVec3| after == #[trigger] w.consumed(key)
    ||| exists|cp: IVec3, radius: i32| after == #[trigger] w.forgotten(cp, radius)
}

/// The worlds of one day in order, from an empty store on. `fills` are the
/// functions that chunks are generated with.
pub open spec fn lived<H, O, G, F: Fn(Asteroid<G>, IVec3) -> u8, C: Fn(IVec3) -> u8>(
    past: Seq<WorldState<H, O, G>>,
    terrain: spec_fn(IVec3, IVec3) -> u8,
    bodies: spec_fn(IVec3) -> Asteroid<G>,
    gen: F,
    fills: Set<C>,
) -> bool {
    &&& past.len() > 0
    &&& past[0].wf()
    &&& past[0].chunks == Map::<(IVec3, IVec3), Seq<u8>>::empty()
    &&& past[0].empty == Set::<(IVec3, IVec3)>::empty()
    &&& described(past[0].near, bodies)
    &&& forall|n: int|
        0 < n < past.len() ==> happened(past[n - 1], terrain, bodies, gen, fills, #[trigger] past[n])
}

/// Whatever happens leaves the store in order and faithful, and no edit is
/// lost.
proof fn lemma_happened<H, O, G, F: Fn(Asteroid<G>, IVec3) -> u8, C: Fn(IVec3) -> u8>(
    w: WorldState<H, O, G>,
    terrain: spec_fn(IVec3, IVec3) -> u8,
    bodies: spec_fn(IVec3) -> Asteroid<G>,
    gen: F,
    fills: Set<C>,
    after: WorldState<H, O, G>,
)
    requires
        w.wf(),
        faithful(w, terrain),
        described(w.near, bodies),
        happened(w, terrain, bodies, gen, fills, after),
    ensures
        after.wf(),
        faithful(after, terrain),
        described(after.near, bodies),
        forall|p: (IVec3, IVec3)| #[trigger]
            w.edits.contains_key(p) ==> after.edits.contains_key(p),
{
    if stirred(w, bodies, after) {
        assert forall|k: IVec3, g: IVec3| #[trigger] faithful_at(after, terrain, k, g) by {
            assert(faithful_at(w, terrain, k, g));
        }
    } else if exists|v: IVec3| after == #[trigger] w.removed(gen, v) {
        let v = choose|v: IVec3| after == #[trigger] w.removed(gen, v);
        lemma_removal_keeps_order(w, gen, v);
        lemma_removal_is_faithful(w, terrain, gen, v);
        lemma_removed(w, gen, v);
    } else if exists|key: IVec3, cp: IVec3| after == #[trigger] w.unloaded(key, cp) {
        let (key, cp) = choose|key: IVec3, cp: IVec3| after == #[trigger] w.unloaded(key, cp);
        law_dropping_storage_is_faithful(w, terrain, key, cp, cp, 0);
        lemma_subset_keeps_order(w, after);
    } else if exists|key: IVec3| after == #[trigger] w.consumed(key) {
        let key = choose|key: IVec3| after == #[trigger] w.consumed(key);
        law_dropping_storage_is_faithful(w, terrain, key, key, key, 0);
        lemma_subset_keeps_order(w, after);
    } else if exists|cp: IVec3, radius: i32| after == #[trigger] w.forgotten(cp, radius) {
        let (cp, radius) = choose|cp: IVec3, radius: i32|
            after == #[trigger] w.forgotten(cp, radius);
        law_dropping_storage_is_faithful(w, terrain, cp, cp, cp, radius);
        lemma_subset_keeps_order(w, after);
    } else {
        let (key, cp, in_reach, fill, solid) =
            choose|key: IVec3, cp: IVec3, in_reach: bool, fill: C, solid: bool|
            fills.contains(fill) && chunk_ok(cp) && #[trigger] grown(
                w,
                terrain,
                key,
                cp,
                in_reach,
                fill,
                solid,
                after,
            );
        law_generation_is_faithful(w, terrain, key, cp, in_reach, fill, solid, after);
        lemma_generation_keeps_order(w, key, cp, in_reach, fill, solid, after);
    }
}

/// A store stays in order when chunks leave it.
proof fn lemma_subset_keeps_order<H, O, G>(w: WorldState<H, O, G>, after: WorldState<H, O, G>)
    requires
        w.wf(),
        after.near == w.near,
        after.edits == w.edits,
        after.chunks.submap_of(w.chunks),
    ensures
        after.wf(),
{
    assert forall|k: (IVec3, IVec3)| #[trigger] after.chunks.contains_key(k) implies
        after.chunks[k].len() == CHUNK_VOL by {
        assert(after.chunks.dom().contains(k));
        assert(w.chunks.contains_key(k));
    }
}

/// Every world of the day is in order, and everything that it stores is what a
/// query ought to find there.
pub proof fn law_every_store_is_faithful<
    H,
    O,
    G,
    F: Fn(Asteroid<G>, IVec3) -> u8,
    C: Fn(IVec3) -> u8,
>(
    past: Seq<WorldState<H, O, G>>,
    terrain: spec_fn(IVec3, IVec3) -> u8,
    bodies: spec_fn(IVec3) -> Asteroid<G>,
    gen: F,
    fills: Set<C>,
    n: int,
)
    requires
        lived(past, terrain, bodies, gen, fills),
        0 <= n < past.len(),
    ensures
        past[n].wf(),
        faithful(past[n], terrain),
        described(past[n].near, bodies),
    decreases n,
{
    if n == 0 {
        law_empty_store_is_faithful(past[0], terrain);
    } else {
        law_every_store_is_faithful(past, terrain, bodies, gen, fills, n - 1);
        lemma_happened(past[n - 1], terrain, bodies, gen, fills, past[n]);
    }
}

/// At any moment of the day, the block seen at a world voxel is the one that
/// terrain and edits alone give there. What happens to be stored shows nowhere.
pub proof fn law_every_world_shows_the_terrain<
    H,
    O,
    G,
    F: Fn(Asteroid<G>, IVec3) -> u8,
    C: Fn(IVec3) -> u8,
>(
    past: Seq<WorldState<H, O, G>>,
    terrain: spec_fn(IVec3, IVec3) -> u8,
    bodies: spec_fn(IVec3) -> Asteroid<G>,
    gen: F,
    fills: Set<C>,
    n: int,
    v: IVec3,
    b: u8,
)
    requires
        lived(past, terrain, bodies, gen, fills),
        follows(gen, bodies, terrain),
        0 <= n < past.len(),
        seen(past[n], gen, v, b),
    ensures
        b == shown(past[n].near, past[n].edits, terrain, v, 0),
{
    law_every_store_is_faithful(past, terrain, bodies, gen, fills, n);
    law_world_shows_the_terrain(past[n], terrain, bodies, gen, v, b);
}

/// At any moment of the day, unloading a chunk or forgetting vacant ones
/// changes nothing that is seen.
pub proof fn law_unloading_is_always_invisible<
    H,
    O,
    G,
    F: Fn(Asteroid<G>, IVec3) -> u8,
    C: Fn(IVec3) -> u8,
>(
    past: Seq<WorldState<H, O, G>>,
    terrain: spec_fn(IVec3, IVec3) -> u8,
    bodies: spec_fn(IVec3) -> Asteroid<G>,
    gen: F,
    fills: Set<C>,
    n: int,
    key: IVec3,
    cp: IVec3,
    radius: i32,
    v: IVec3,
    b: u8,
    c: u8,
)
    requires
        lived(past, terrain, bodies, gen, fills),
        follows(gen, bodies, terrain),
        0 <= n < past.len(),
        seen(past[n], gen, v, b),
    ensures
        seen(past[n].unloaded(key, cp), gen, v, c) ==> b == c,
        seen(past[n].forgotten(cp, radius), gen, v, c) ==> b == c,
{
    law_every_store_is_faithful(past, terrain, bodies, gen, fills, n);
    law_unloading_is_invisible(past[n], terrain, bodies, gen, key, cp, radius, v, b, c);
}

/// What is dug away stays away: once a gen voxel of a body has its edit, storage
/// answers air there for the rest of the day.
pub proof fn law_mined_stays_mined_all_day<
    H,
    O,
    G,
    F: Fn(Asteroid<G>, IVec3) -> u8,
    C: Fn(IVec3) -> u8,
>(
    past: Seq<WorldState<H, O, G>>,
    terrain: spec_fn(IVec3, IVec3) -> u8,
    bodies: spec_fn(IVec3) -> Asteroid<G>,
    gen: F,
    fills: Set<C>,
    m: int,
    n: int,
    key: IVec3,
    g: IVec3,
)
    requires
        lived(past, terrain, bodies, gen, fills),
        0 <= m <= n < past.len(),
        past[m].edits.contains_key((key, g)),
    ensures
        past[n].edits.contains_key((key, g)),
        past[n].known(key, g) == Some(AIR),
    decreases n - m,
{
    law_every_store_is_faithful(past, terrain, bodies, gen, fills, n);
    if m < n {
        law_mined_stays_mined_all_day(past, terrain, bodies, gen, fills, m, n - 1, key, g);
        law_every_store_is_faithful(past, terrain, bodies, gen, fills, n - 1);
        lemma_happened(past[n - 1], terrain, bodies, gen, fills, past[n]);
    }
    assert(faithful_at(past[n], terrain, key, g));
    assert(pristine(past[n].edits, terrain, key, g) == AIR);
}

} // verus!
