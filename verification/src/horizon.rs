//! The hole feeds: bodies drift, and those past the horizon leave the world and
//! the scene together.
use crate::body::{body_kind, kind_of, BodyKind};
use crate::entities::{ChunkEntities, EntityTable};
use crate::ivec::IVec3;
use crate::motion::{all_stepped, drifted, steps_fit, swallowed, Drift};
use crate::state::WorldState;
use crate::world::VoxelWorld;
use vstd::prelude::*;

verus! {

/// A body that the horizon took this frame.
#[derive(Clone, Copy)]
pub struct Meal<E> {
    pub key: IVec3,
    /// Root of its meshes, if it was on display.
    pub root: Option<E>,
    /// A world dying is loud; a pebble is not.
    pub loud: bool,
}

/// The world after bodies have been swallowed one by one.
pub open spec fn all_consumed<H, O, G>(
    w: WorldState<H, O, G>,
    keys: Seq<IVec3>,
) -> WorldState<H, O, G>
    decreases keys.len(),
{
    if keys.len() == 0 {
        w
    } else {
        all_consumed(w, keys.drop_last()).consumed(keys.last())
    }
}

/// The scene without anything of some bodies.
pub open spec fn without<E>(t: EntityTable<E>, keys: Seq<IVec3>) -> EntityTable<E> {
    EntityTable {
        map: t.map.remove_keys(t.map.dom().filter(|k: (IVec3, IVec3)| keys.contains(k.0))),
        roots: t.roots.remove_keys(t.roots.dom().filter(|k: IVec3| keys.contains(k))),
    }
}

/// What is to be said of a swallowed body.
pub open spec fn meal_of<E>(t: EntityTable<E>, key: IVec3) -> Meal<E> {
    Meal { key, root: t.roots.get(key), loud: kind_of(key) is Planet }
}

/// The horizon took the bodies of `keys`, one by one: those that were said to
/// be swallowed. World and scene lost them, and `meals` tells of each.
pub open spec fn fed<H, O, G, E>(
    w: WorldState<H, O, G>,
    t: EntityTable<E>,
    drifts: Map<IVec3, Option<Drift<O>>>,
    keys: Seq<IVec3>,
    after: WorldState<H, O, G>,
    scene: EntityTable<E>,
    meals: Seq<Meal<E>>,
) -> bool {
    &&& keys.no_duplicates()
    &&& forall|k: IVec3| #[trigger] keys.contains(k) <==> swallowed(w.motion, drifts, k)
    &&& after == all_consumed(
        WorldState { motion: all_stepped(w.motion, drifts), ..w },
        keys,
    )
    &&& scene == without(t, keys)
    &&& meals == keys.map_values(|k: IVec3| meal_of(t, k))
}

/// Let every tracked body drift for one frame, and take those that the horizon
/// has reached out of the world and off the display.
pub fn feed<H: Copy, O: Copy, G: Copy, E: Copy, F: Fn(IVec3, O) -> Option<Drift<O>>>(
    world: &mut VoxelWorld<H, O, G>,
    entities: &mut ChunkEntities<E>,
    drift: &F,
) -> (meals: Vec<Meal<E>>)
    requires
        old(world)@.wf(),
        forall|k: IVec3, o: O| #[trigger] drift.requires((k, o)),
        steps_fit(old(world)@.motion, *drift),
    ensures
        final(world)@.wf(),
        exists|drifts: Map<IVec3, Option<Drift<O>>>, keys: Seq<IVec3>|
            drifted(old(world)@.motion, *drift, drifts) && #[trigger] fed(
                old(world)@,
                old(entities)@,
                drifts,
                keys,
                final(world)@,
                final(entities)@,
                meals@,
            ),
{
    let ghost scene = entities@;
    let keys = world.advance_bodies(drift);
    let ghost stepped = world@;
    let mut meals: Vec<Meal<E>> = Vec::new();
    let mut i: usize = 0;
    assert(keys@.take(0) =~= Seq::<IVec3>::empty());
    assert(without(scene, keys@.take(0)) =~= scene);
    while i < keys.len()
        invariant
            i <= keys.len(),
            world@.wf(),
            keys@.no_duplicates(),
            world@ == all_consumed(stepped, keys@.take(i as int)),
            entities@ == without(scene, keys@.take(i as int)),
            meals.len() == i,
            forall|j: int| 0 <= j < i ==> #[trigger] meals@[j] == meal_of(scene, keys@[j]),
        decreases keys.len() - i,
    {
        let key = keys[i];
        world.consume_body(key);
        proof {
            let head = keys@.take(i as int);
            let next = keys@.take(i + 1);
            assert(next.drop_last() =~= head);
            assert(next.last() == key);
            assert(!head.contains(key)) by {
                if head.contains(key) {
                    let j = choose|j: int| 0 <= j < head.len() && head[j] == key;
                    assert(keys@[j] != keys@[i as int]);
                }
            }
            assert forall|k: IVec3| #[trigger] next.contains(k) <==> (head.contains(k) || k
                == key) by {
                if head.contains(k) {
                    let j = choose|j: int| 0 <= j < head.len() && head[j] == k;
                    assert(next[j] == k);
                }
                assert(next[i as int] == key);
                if next.contains(k) && k != key {
                    let j = choose|j: int| 0 <= j < next.len() && next[j] == k;
                    assert(head[j] == k);
                }
            }
        }
        let root = entities.despawn_body(key);
        meals.push(Meal { key, root, loud: matches!(body_kind(key), BodyKind::Planet(_)) });
        assert(entities@ =~= without(scene, keys@.take(i + 1)));
        i += 1;
    }
    assert(keys@.take(keys@.len() as int) =~= keys@);
    proof {
        let drifts = choose|drifts: Map<IVec3, Option<Drift<O>>>|
            {
                &&& #[trigger] drifted(old(world)@.motion, *drift, drifts)
                &&& stepped.motion == all_stepped(old(world)@.motion, drifts)
                &&& forall|k: IVec3| #[trigger]
                    keys@.contains(k) <==> swallowed(old(world)@.motion, drifts, k)
            };
        assert(meals@ =~= keys@.map_values(|k: IVec3| meal_of(scene, k)));
        assert(fed(old(world)@, scene, drifts, keys@, world@, entities@, meals@));
    }
    meals
}

/// A frame of feeding, body by body: one that is alive, is not the home rock and
/// is said to be swallowed is eaten, its chunks and its display are gone, and it
/// is reported; any other body stays where it was told to go, with its chunks
/// and on display, and is not.
pub proof fn law_feeding_takes_what_the_horizon_reached<H, O, G, E>(
    w: WorldState<H, O, G>,
    t: EntityTable<E>,
    drifts: Map<IVec3, Option<Drift<O>>>,
    keys: Seq<IVec3>,
    after: WorldState<H, O, G>,
    scene: EntityTable<E>,
    meals: Seq<Meal<E>>,
    k: IVec3,
    cp: IVec3,
)
    requires
        fed(w, t, drifts, keys, after, scene, meals),
        w.motion.contains_key(k),
    ensures
        ({
            let took = !w.motion[k].eaten && (k.x != 0 || k.y != 0 || k.z != 0) && drifts[k] is Some
                && drifts[k]->0.swallowed;
            &&& after.motion.contains_key(k)
            &&& after.motion[k].eaten == (w.motion[k].eaten || took)
            &&& took ==> after.chunks.get((k, cp)) is None && scene.map.get((k, cp)) is None
                && scene.roots.get(k) is None
            &&& !took ==> after.chunks.get((k, cp)) == w.chunks.get((k, cp)) && scene.map.get(
                (k, cp),
            ) == t.map.get((k, cp)) && scene.roots.get(k) == t.roots.get(k)
            &&& took <==> exists|n: int| 0 <= n < meals.len() && (#[trigger] meals[n]).key == k
            &&& forall|n: int|
                0 <= n < meals.len() && (#[trigger] meals[n]).key == k ==> meals[n].root
                    == t.roots.get(k) && meals[n].loud == (k.x >= 1_000_000)
            &&& forall|n: int, m: int|
                0 <= n < m < meals.len() ==> (#[trigger] meals[n]).key != (#[trigger] meals[m]).key
            &&& after.edits == w.edits
        }),
{
    let mid = WorldState { motion: all_stepped(w.motion, drifts), ..w };
    assert(mid.motion.contains_key(k));
    if keys.contains(k) {
        law_swallowed_bodies_are_eaten(mid, keys, k);
        lemma_edits_outlast_feeding(mid, keys);
        assert(meals[keys.index_of(k)].key == k);
    } else {
        law_feeding_spares_the_rest(mid, keys, k, cp);
        assert(after.motion.get(k) == mid.motion.get(k));
    }
    assert forall|n: int| 0 <= n < meals.len() implies (#[trigger] meals[n]).key == keys[n] by {}
    if exists|n: int| 0 <= n < meals.len() && (#[trigger] meals[n]).key == k {
        let n = choose|n: int| 0 <= n < meals.len() && (#[trigger] meals[n]).key == k;
        assert(keys[n] == k);
    }
}

proof fn lemma_edits_outlast_feeding<H, O, G>(w: WorldState<H, O, G>, keys: Seq<IVec3>)
    ensures
        all_consumed(w, keys).edits == w.edits,
    decreases keys.len(),
{
    if keys.len() > 0 {
        lemma_edits_outlast_feeding(w, keys.drop_last());
    }
}

/// What the horizon takes is gone for the day: a tracked body among the
/// swallowed ones is marked as eaten, and none of its chunks is left.
pub proof fn law_swallowed_bodies_are_eaten<H, O, G>(
    w: WorldState<H, O, G>,
    keys: Seq<IVec3>,
    k: IVec3,
)
    requires
        keys.contains(k),
        w.motion.contains_key(k),
    ensures
        all_consumed(w, keys).motion.contains_key(k),
        all_consumed(w, keys).motion[k].eaten,
        forall|cp: IVec3| !all_consumed(w, keys).chunks.contains_key((k, cp)),
    decreases keys.len(),
{
    lemma_still_tracked(w, keys.drop_last(), k);
    let i = choose|i: int| 0 <= i < keys.len() && keys[i] == k;
    if i < keys.len() - 1 {
        assert(keys.drop_last()[i] == k);
        law_swallowed_bodies_are_eaten(w, keys.drop_last(), k);
    }
}

proof fn lemma_still_tracked<H, O, G>(w: WorldState<H, O, G>, keys: Seq<IVec3>, k: IVec3)
    requires
        w.motion.contains_key(k),
    ensures
        all_consumed(w, keys).motion.contains_key(k),
    decreases keys.len(),
{
    if keys.len() > 0 {
        lemma_still_tracked(w, keys.drop_last(), k);
    }
}

/// The horizon spares what it has not reached: chunks and motion of a body that
/// is not among the swallowed ones stay as they were, and so do all edits.
pub proof fn law_feeding_spares_the_rest<H, O, G>(
    w: WorldState<H, O, G>,
    keys: Seq<IVec3>,
    k: IVec3,
    cp: IVec3,
)
    requires
        !keys.contains(k),
    ensures
        all_consumed(w, keys).motion.get(k) == w.motion.get(k),
        all_consumed(w, keys).chunks.get((k, cp)) == w.chunks.get((k, cp)),
        all_consumed(w, keys).empty.contains((k, cp)) == w.empty.contains((k, cp)),
        all_consumed(w, keys).edits == w.edits,
    decreases keys.len(),
{
    if keys.len() > 0 {
        assert(keys.last() == keys[keys.len() - 1]);
        assert(!keys.drop_last().contains(k)) by {
            if keys.drop_last().contains(k) {
                let j = choose|j: int| 0 <= j < keys.len() - 1 && keys.drop_last()[j] == k;
                assert(keys[j] == k);
            }
        }
        law_feeding_spares_the_rest(w, keys.drop_last(), k, cp);
    }
}

} // verus!
