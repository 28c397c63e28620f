//! Which scene entity draws which chunk.
//!
//! Every body has one root entity; the two mesh entities of each of its chunks
//! hang below it. `E` is a handle to an entity of the scene.
use crate::ivec::IVec3;
use crate::state::WorldState;
use crate::voxel_map::{PairMap, VoxelMap};
use crate::world::VoxelWorld;
use vstd::prelude::*;

verus! {

/// The content of the table.
#[verifier::ext_equal]
pub struct EntityTable<E> {
    /// Lit and glowing mesh of each chunk on display.
    pub map: Map<(IVec3, IVec3), (E, E)>,
    /// Root of each body on display.
    pub roots: Map<IVec3, E>,
}

pub struct ChunkEntities<E> {
    map: PairMap<(E, E)>,
    roots: VoxelMap<E>,
}

impl<E> View for ChunkEntities<E> {
    type V = EntityTable<E>;

    closed spec fn view(&self) -> EntityTable<E> {
        EntityTable { map: self.map@, roots: self.roots@ }
    }
}

/// A chunk that leaves the display, with its two mesh entities.
#[derive(Clone, Copy)]
pub struct Gone<E> {
    pub key: IVec3,
    pub cp: IVec3,
    pub solid: E,
    pub glow: E,
}

/// Keys of the chunks in `gone`.
pub open spec fn gone_keys<E>(gone: Seq<Gone<E>>) -> Set<(IVec3, IVec3)> {
    Set::new(|k: (IVec3, IVec3)| exists|i: int| 0 <= i < gone.len() && is_key(#[trigger] gone[i], k))
}

/// `g` is about chunk `k`.
pub open spec fn is_key<E>(g: Gone<E>, k: (IVec3, IVec3)) -> bool {
    (g.key, g.cp) == k
}

/// No chunk is listed twice.
pub open spec fn gone_once<E>(gone: Seq<Gone<E>>) -> bool {
    forall|i: int, j: int|
        0 <= i < j < gone.len() ==> (#[trigger] gone[i]).key != (#[trigger] gone[j]).key
            || gone[i].cp != gone[j].cp
}

/// The table without the chunks in `gone`, whose entities it lists.
pub open spec fn dropped<E>(t: EntityTable<E>, gone: Seq<Gone<E>>, after: EntityTable<E>) -> bool {
    &&& gone_once(gone)
    &&& forall|i: int|
        0 <= i < gone.len() ==> t.map.contains_key(((#[trigger] gone[i]).key, gone[i].cp))
            && t.map[(gone[i].key, gone[i].cp)] == (gone[i].solid, gone[i].glow)
    &&& after == (EntityTable { map: t.map.remove_keys(gone_keys(gone)), ..t })
}

/// `s` lists every root of a table, each once.
pub open spec fn lists_roots<E>(roots: Map<IVec3, E>, s: Seq<(IVec3, E)>) -> bool {
    &&& forall|i: int, j: int| 0 <= i < j < s.len() ==> (#[trigger] s[i]).0 != (#[trigger] s[j]).0
    &&& forall|i: int|
        0 <= i < s.len() ==> roots.contains_key((#[trigger] s[i]).0) && roots[s[i].0] == s[i].1
    &&& forall|k: IVec3| #[trigger]
        roots.contains_key(k) ==> exists|i: int| 0 <= i < s.len() && (#[trigger] s[i]).0 == k
}

impl<E: Copy> ChunkEntities<E> {
    pub fn new() -> (t: Self)
        ensures
            t@ == (EntityTable::<E> { map: Map::empty(), roots: Map::empty() }),
    {
        ChunkEntities { map: PairMap::new(), roots: VoxelMap::new() }
    }

    /// A body's root, spawned when it is first asked for.
    pub fn root<F: FnOnce() -> E>(&mut self, key: IVec3, spawn: F) -> (e: E)
        requires
            spawn.requires(()),
        ensures
            match old(self)@.roots.get(key) {
                Some(known) => e == known && final(self)@ == old(self)@,
                None => spawn.ensures((), e) && final(self)@ == (EntityTable {
                    roots: old(self)@.roots.insert(key, e),
                    ..old(self)@
                }),
            },
    {
        if let Some(known) = self.roots.get(key) {
            return *known;
        }
        let e = spawn();
        self.roots.insert(key, e);
        e
    }

    /// Note the mesh entities of a chunk.
    pub fn insert(&mut self, key: IVec3, cp: IVec3, solid: E, glow: E)
        ensures
            final(self)@ == (EntityTable {
                map: old(self)@.map.insert((key, cp), (solid, glow)),
                ..old(self)@
            }),
    {
        self.map.insert(key, cp, (solid, glow));
    }

    /// The mesh entities of a chunk.
    pub fn get(&self, key: IVec3, cp: IVec3) -> (r: Option<(E, E)>)
        ensures
            r == self@.map.get((key, cp)),
    {
        match self.map.get(key, cp) {
            Some(e) => Some(*e),
            None => None,
        }
    }

    /// Take one body off the display. Its root is handed back; the scene drops
    /// everything below it along with it.
    pub fn despawn_body(&mut self, key: IVec3) -> (root: Option<E>)
        ensures
            root == old(self)@.roots.get(key),
            final(self)@ == (EntityTable {
                map: old(self)@.map.remove_keys(
                    old(self)@.map.dom().filter(|k: (IVec3, IVec3)| k.0 == key),
                ),
                roots: old(self)@.roots.remove(key),
            }),
    {
        let root = self.roots.remove(key);
        self.map.remove_body(key);
        root
    }

    /// Take everything off the display. The roots are handed back, one for
    /// each body.
    pub fn despawn_all(&mut self) -> (roots: Vec<(IVec3, E)>)
        ensures
            final(self)@ == (EntityTable::<E> { map: Map::empty(), roots: Map::empty() }),
            lists_roots(old(self)@.roots, roots@),
    {
        let ks = self.roots.keys();
        let mut roots: Vec<(IVec3, E)> = Vec::new();
        let mut i: usize = 0;
        while i < ks.len()
            invariant
                i <= ks.len(),
                roots.len() == i,
                ks@.no_duplicates(),
                forall|k: IVec3| #[trigger] ks@.contains(k) <==> self@.roots.contains_key(k),
                forall|j: int|
                    0 <= j < i ==> (#[trigger] roots@[j]).0 == ks@[j]
                        && self@.roots.contains_key(roots@[j].0) && self@.roots[roots@[j].0]
                        == roots@[j].1,
            decreases ks.len() - i,
        {
            let k = ks[i];
            assert(ks@.contains(ks@[i as int]));
            if let Some(e) = self.roots.get(k) {
                roots.push((k, *e));
            }
            i += 1;
        }
        assert forall|k: IVec3| #[trigger] self@.roots.contains_key(k) implies exists|i: int|
            0 <= i < roots.len() && (#[trigger] roots@[i]).0 == k by {
            assert(ks@.contains(k));
            assert(roots@[ks@.index_of(k)].0 == k);
        }
        self.roots.clear();
        self.map.clear();
        roots
    }
}

/// The world without the chunks in `gone`.
pub open spec fn unloaded_all<H, O, G, E>(
    w: WorldState<H, O, G>,
    gone: Seq<Gone<E>>,
) -> WorldState<H, O, G> {
    WorldState {
        chunks: w.chunks.remove_keys(gone_keys(gone)),
        dirty: w.dirty.difference(gone_keys(gone)),
        ..w
    }
}

/// Drop the storage and the mesh entities of every chunk on display that `far`
/// calls far, and the vacant chunks well outside `radius`. The dropped entities
/// are handed back.
pub fn unload_far_chunks<H: Copy, O: Copy, G: Copy, E: Copy, F: Fn(IVec3, IVec3) -> bool>(
    entities: &mut ChunkEntities<E>,
    world: &mut VoxelWorld<H, O, G>,
    far: &F,
    player_chunk: IVec3,
    radius: i32,
) -> (gone: Vec<Gone<E>>)
    requires
        old(world)@.wf(),
        forall|k: IVec3, cp: IVec3| #[trigger] far.requires((k, cp)),
    ensures
        final(world)@.wf(),
        dropped(old(entities)@, gone@, final(entities)@),
        final(world)@ == unloaded_all(old(world)@, gone@).forgotten(player_chunk, radius),
        forall|k: (IVec3, IVec3)| #[trigger]
            old(entities)@.map.contains_key(k) ==> far.ensures(k, gone_keys(gone@).contains(k)),
        forall|k: (IVec3, IVec3)| #[trigger]
            old(entities)@.map.contains_key(k) ==> exists|is_far: bool| #[trigger]
                far.ensures(k, is_far) && (is_far ==> !final(entities)@.map.contains_key(k)
                    && !final(world)@.chunks.contains_key(k)) && (!is_far
                    ==> final(entities)@.map.get(k) == old(entities)@.map.get(k)
                    && final(world)@.chunks.get(k) == old(world)@.chunks.get(k)),
        forall|k: (IVec3, IVec3)|
            !old(entities)@.map.contains_key(k) ==> !(#[trigger] final(entities)@.map.contains_key(k))
                && final(world)@.chunks.get(k) == old(world)@.chunks.get(k),
        final(entities)@.roots == old(entities)@.roots,
        final(world)@.edits == old(world)@.edits,
        final(world)@.damage == old(world)@.damage,
        final(world)@.motion == old(world)@.motion,
        final(world)@.near == old(world)@.near,
        forall|k: (IVec3, IVec3)| #[trigger]
            final(world)@.empty.contains(k) <==> old(world)@.empty.contains(k) && -3 * radius
                <= k.1.x - player_chunk.x <= 3 * radius && -3 * radius <= k.1.y - player_chunk.y
                <= 3 * radius && -3 * radius <= k.1.z - player_chunk.z <= 3 * radius,
        forall|i: int|
            0 <= i < gone.len() ==> old(entities)@.map.get(
                ((#[trigger] gone@[i]).key, gone@[i].cp),
            ) == Some((gone@[i].solid, gone@[i].glow)) && !final(entities)@.map.contains_key(
                (gone@[i].key, gone@[i].cp),
            ),
{
    let ghost table = entities@;
    let ghost before = world@;
    let ks = entities.map.keys();
    let mut gone: Vec<Gone<E>> = Vec::new();
    let mut i: usize = 0;
    assert(gone_keys(gone@) =~= Set::empty());
    assert(entities@ =~= EntityTable { map: table.map.remove_keys(gone_keys(gone@)), ..table });
    assert(world@ =~= unloaded_all(before, gone@));
    while i < ks.len()
        invariant
            i <= ks.len(),
            before.wf(),
            world@.wf(),
            forall|k: IVec3, cp: IVec3| #[trigger] far.requires((k, cp)),
            ks@.no_duplicates(),
            forall|k: (IVec3, IVec3)| #[trigger] ks@.contains(k) <==> table.map.contains_key(k),
            dropped(table, gone@, entities@),
            world@ == unloaded_all(before, gone@),
            forall|k: (IVec3, IVec3)| #[trigger]
                gone_keys(gone@).contains(k) ==> ks@.take(i as int).contains(k),
            forall|j: int|
                0 <= j < i ==> far.ensures(
                    #[trigger] ks@[j],
                    gone_keys(gone@).contains(ks@[j]),
                ),
        decreases ks.len() - i,
    {
        let (key, cp) = ks[i];
        let ghost k = (key, cp);
        assert(ks@.contains(ks@[i as int]));
        let ghost earlier = gone@;
        let ghost was = world@;
        let ghost shown = entities@;
        assert(!ks@.take(i as int).contains(k)) by {
            if ks@.take(i as int).contains(k) {
                assert(ks@[ks@.take(i as int).index_of(k)] == ks@[i as int]);
            }
        }
        assert(!gone_keys(earlier).contains(k));
        let is_far = far(key, cp);
        if is_far {
            if let Some((solid, glow)) = entities.map.remove(key, cp) {
                let g = Gone { key, cp, solid, glow };
                gone.push(g);
                world.unload_chunk(key, cp);
                proof {
                    lemma_gone_push(earlier, g);
                    assert(world@ =~= unloaded_all(before, gone@));
                    assert(entities@ =~= EntityTable {
                        map: table.map.remove_keys(gone_keys(gone@)),
                        ..table
                    });
                    assert forall|a: int, b: int| 0 <= a < b < gone@.len() implies (
                    #[trigger] gone@[a]).key != (#[trigger] gone@[b]).key || gone@[a].cp
                        != gone@[b].cp by {
                        if b == earlier.len() {
                            if (earlier[a].key, earlier[a].cp) == k {
                                assert(is_key(earlier[a], k));
                                assert(gone_keys(earlier).contains(k));
                            }
                        }
                    }
                }
            }
            assert(gone_keys(gone@).contains(k));
        }
        proof {
            assert(ks@.take(i + 1) =~= ks@.take(i as int).push(k));
            assert forall|x: (IVec3, IVec3)| #[trigger]
                gone_keys(gone@).contains(x) implies ks@.take(i + 1).contains(x) by {
                if gone_keys(earlier).contains(x) {
                    let t = ks@.take(i as int);
                    assert(ks@.take(i + 1)[t.index_of(x)] == x);
                } else {
                    assert(x == k);
                    assert(ks@.take(i + 1)[i as int] == k);
                }
            }
            assert forall|j: int| 0 <= j < i + 1 implies far.ensures(
                #[trigger] ks@[j],
                gone_keys(gone@).contains(ks@[j]),
            ) by {
                if j < i {
                    assert(ks@[j] != ks@[i as int]);
                    assert(gone_keys(gone@).contains(ks@[j]) == gone_keys(earlier).contains(ks@[j]));
                }
            }
        }
        i += 1;
    }
    world.forget_empty(player_chunk, radius);
    assert forall|k: (IVec3, IVec3)| #[trigger] table.map.contains_key(k) implies far.ensures(
        k,
        gone_keys(gone@).contains(k),
    ) by {
        assert(ks@.contains(k));
        assert(ks@[ks@.index_of(k)] == k);
    }
    proof {
        assert forall|k: (IVec3, IVec3)| #[trigger] gone_keys(
            gone@,
        ).contains(k) implies table.map.contains_key(k) by {
            let i = choose|i: int| 0 <= i < gone@.len() && is_key(#[trigger] gone@[i], k);
            assert(table.map.contains_key((gone@[i].key, gone@[i].cp)));
        }
        assert forall|i: int| 0 <= i < gone@.len() implies gone_keys(gone@).contains(
            ((#[trigger] gone@[i]).key, gone@[i].cp),
        ) by {
            assert(is_key(gone@[i], (gone@[i].key, gone@[i].cp)));
        }
        assert forall|k: (IVec3, IVec3)| #[trigger] table.map.contains_key(
            k,
        ) implies exists|is_far: bool| #[trigger]
            far.ensures(k, is_far) && (is_far ==> !entities@.map.contains_key(k)
                && !world@.chunks.contains_key(k)) && (!is_far ==> entities@.map.get(k)
                == table.map.get(k) && world@.chunks.get(k) == before.chunks.get(k)) by {
            assert(far.ensures(k, gone_keys(gone@).contains(k)));
        }
    }
    gone
}

proof fn lemma_gone_push<E>(gone: Seq<Gone<E>>, g: Gone<E>)
    ensures
        gone_keys(gone.push(g)) == gone_keys(gone).insert((g.key, g.cp)),
{
    let all = gone.push(g);
    assert forall|k: (IVec3, IVec3)| #[trigger]
        gone_keys(all).contains(k) <==> gone_keys(gone).insert((g.key, g.cp)).contains(k) by {
        if gone_keys(gone).contains(k) {
            let i = choose|i: int| 0 <= i < gone.len() && is_key(#[trigger] gone[i], k);
            assert(is_key(all[i], k));
        }
        assert(all[gone.len() as int] == g);
        if k == (g.key, g.cp) {
            assert(is_key(all[gone.len() as int], k));
        }
        if gone_keys(all).contains(k) {
            let i = choose|i: int| 0 <= i < all.len() && is_key(#[trigger] all[i], k);
            if i < gone.len() {
                assert(is_key(gone[i], k));
            }
        }
    }
    assert(gone_keys(all) =~= gone_keys(gone).insert((g.key, g.cp)));
}

/// A list of roots is complete: every root of the table is on it, once, under
/// its key, and nothing else is.
pub proof fn law_every_root_is_listed<E>(roots: Map<IVec3, E>, s: Seq<(IVec3, E)>, k: IVec3)
    requires
        lists_roots(roots, s),
    ensures
        roots.contains_key(k) ==> exists|i: int| 0 <= i < s.len() && #[trigger] s[i] == (k, roots[k]),
        forall|i: int|
            0 <= i < s.len() && (#[trigger] s[i]).0 == k ==> roots.contains_key(k) && s[i].1
                == roots[k],
        forall|i: int, j: int|
            0 <= i < j < s.len() ==> !((#[trigger] s[i]).0 == k && (#[trigger] s[j]).0 == k),
{
    if roots.contains_key(k) {
        let i = choose|i: int| 0 <= i < s.len() && (#[trigger] s[i]).0 == k;
        assert(s[i] == (k, roots[k]));
    }
}

} // verus!
