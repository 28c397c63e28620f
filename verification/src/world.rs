//! Voxel storage for a field of moving bodies.
//!
//! Every body owns its own *gen space*, the frame it was generated in. Chunks,
//! edits and damage live there and never move; a body carries a whole-voxel
//! offset that maps its gen space into the world. Chunks are a cache of the
//! terrain with the player's edits baked in, so they can be dropped and
//! rebuilt at any time.
//!
//! Terrain itself is a function that callers hand in, and the smooth parts of
//! the simulation ride along untouched: `G` is the shape of a body, `O` its
//! smooth displacement, `H` the hit points of a block.
use crate::blocks::AIR;
use crate::body::{Asteroid, BodyMotion, NearBody, PLANET_KEY_BASE};
use crate::chunk::{
    chunk_at, chunk_of, chunk_ok, law_voxel_to_slot, local_index, slot, slot_voxel, voxel_in,
    CHUNK_VOL,
};
use crate::face::{across, dir_of, FACE_COUNT};
use crate::ivec::{lemma_view_injective, magnitude, IVec3};
use crate::motion::{advance_all, all_stepped, drifted, steps_fit, swallowed, sweep, swept, Drift};
use crate::nearby::{law_bodies_stand_in_one_place, nearby_list, refreshed, Placed};
use crate::state::{
    addressed, answers, any_solid, beside, body_answers, boxed_from, carried, fills, generated,
    governed, noted, owned, owns, placed_once, pure, seen, standing, stands, total, worn_to,
    WorldState,
};
use crate::storage::{
    law_removal_belongs_to_the_owner, law_removal_clears_the_voxel, law_removal_leaves_no_wear,
    law_removal_spares_the_rest, lemma_boxed, lemma_removal_keeps_order, lemma_removal_leaves_air,
    lemma_without_insert, lemma_without_none,
};
use crate::voxel_map::{PairMap, VoxelMap};
use vstd::prelude::*;

verus! {

/// One chunk's blocks, by slot.
pub struct Chunk {
    blocks: Vec<u8>,
}

impl View for Chunk {
    type V = Seq<u8>;

    closed spec fn view(&self) -> Seq<u8> {
        self.blocks@
    }
}

pub struct VoxelWorld<H, O, G> {
    chunks: PairMap<Chunk>,
    empty: PairMap<()>,
    dirty: PairMap<()>,
    damage: PairMap<H>,
    edits: PairMap<u8>,
    motion: VoxelMap<BodyMotion<O>>,
    nearby: Vec<NearBody<G>>,
    salt: u64,
}

impl<H, O, G> View for VoxelWorld<H, O, G> {
    type V = WorldState<H, O, G>;

    closed spec fn view(&self) -> WorldState<H, O, G> {
        WorldState {
            chunks: self.chunks@.map_values(|c: Chunk| c@),
            empty: self.empty@.dom(),
            dirty: self.dirty@.dom(),
            damage: self.damage@,
            edits: self.edits@,
            motion: self.motion@,
            near: self.nearby@,
            salt: self.salt,
        }
    }
}

impl<H: Copy, O: Copy, G: Copy> VoxelWorld<H, O, G> {
    /// An empty world: nothing stored, nothing tracked, day seed zero.
    pub fn new() -> (w: Self)
        ensures
            w@ == (WorldState::<H, O, G> {
                chunks: Map::empty(),
                empty: Set::empty(),
                dirty: Set::empty(),
                damage: Map::empty(),
                edits: Map::empty(),
                motion: Map::empty(),
                near: Seq::empty(),
                salt: 0,
            }),
            w@.wf(),
    {
        let w = VoxelWorld {
            chunks: PairMap::new(),
            empty: PairMap::new(),
            dirty: PairMap::new(),
            damage: PairMap::new(),
            edits: PairMap::new(),
            motion: VoxelMap::new(),
            nearby: Vec::new(),
            salt: 0,
        };
        assert(w@.chunks =~= Map::empty());
        assert(w@.empty =~= Set::empty());
        assert(w@.dirty =~= Set::empty());
        w
    }

    pub fn nearby(&self) -> (r: &Vec<NearBody<G>>)
        ensures
            r@ == self@.near,
    {
        &self.nearby
    }

    pub fn world_salt(&self) -> (r: u64)
        ensures
            r == self@.salt,
    {
        self.salt
    }

    /// Block id in one body's gen space: storage, then edits, then terrain.
    pub fn block_gen<F: Fn(Asteroid<G>, IVec3) -> u8>(
        &self,
        key: IVec3,
        a: Asteroid<G>,
        g: IVec3,
        gen: &F,
    ) -> (b: u8)
        requires
            self@.wf(),
            total(*gen),
        ensures
            answers(self@, *gen, key, a, g, b),
            ({
                let k = (key, chunk_at(g));
                if self@.chunks.contains_key(k) {
                    b == self@.chunks[k][slot(g)]
                } else if self@.empty.contains(k) {
                    b == AIR
                } else if self@.edits.contains_key((key, g)) {
                    b == self@.edits[(key, g)]
                } else {
                    gen.ensures((a, g), b)
                }
            }),
    {
        let cp = chunk_of(g);
        if let Some(c) = self.chunks.get(key, cp) {
            assert(self@.chunks.contains_key((key, cp)));
            return c.blocks[local_index(g)];
        }
        if self.empty.contains(key, cp) {
            return AIR;
        }
        if let Some(b) = self.edits.get(key, g) {
            return *b;
        }
        gen(a, g)
    }

    /// The nearby body whose block is seen at a world voxel, by its position in
    /// the list, and the block.
    pub fn look<F: Fn(Asteroid<G>, IVec3) -> u8>(&self, v: IVec3, gen: &F) -> (r: Option<(usize, u8)>)
        requires
            self@.wf(),
            total(*gen),
        ensures
            match r {
                Some((i, b)) => owns(self@, *gen, v, i as int, b),
                None => seen(self@, *gen, v, AIR),
            },
    {
        let mut i: usize = 0;
        while i < self.nearby.len()
            invariant
                self@.wf(),
                total(*gen),
                i <= self@.near.len(),
                self.nearby@ == self@.near,
                forall|j: int|
                    0 <= j < i && (#[trigger] self@.near[j]).covers(v) ==> body_answers(
                        self@,
                        *gen,
                        self@.near[j],
                        v,
                        AIR,
                    ),
            decreases self.nearby.len() - i,
        {
            let nb = self.nearby[i];
            if let Some(g) = nb.locate(v) {
                let b = self.block_gen(nb.key, nb.a, g, gen);
                if b != AIR {
                    return Some((i, b));
                }
            }
            i += 1;
        }
        None
    }

    /// Block id at a world voxel, through each nearby body in turn.
    pub fn block<F: Fn(Asteroid<G>, IVec3) -> u8>(&self, v: IVec3, gen: &F) -> (b: u8)
        requires
            self@.wf(),
            total(*gen),
        ensures
            seen(self@, *gen, v, b),
    {
        match self.look(v, gen) {
            Some((i, b)) => {
                assert(owns(self@, *gen, v, i as int, b));
                b
            },
            None => AIR,
        }
    }

    /// The nearby body whose block is seen at a world voxel, and its gen voxel
    /// there. `None` where there is air.
    pub fn resolve<F: Fn(Asteroid<G>, IVec3) -> u8>(&self, v: IVec3, gen: &F) -> (r: Option<
        (NearBody<G>, IVec3),
    >)
        requires
            self@.wf(),
            total(*gen),
        ensures
            owned(self@, *gen, v, r),
    {
        if let Some((i, b)) = self.look(v, gen) {
            assert(owns(self@, *gen, v, i as int, b));
            let nb = self.nearby[i];
            if let Some(g) = nb.locate(v) {
                return Some((nb, g));
            }
        }
        None
    }

    /// The first nearby body whose box covers a world voxel, and its gen voxel
    /// there.
    fn boxed_at(&self, v: IVec3) -> (r: Option<(NearBody<G>, IVec3)>)
        ensures
            r == self@.boxed(v),
    {
        let mut i: usize = 0;
        while i < self.nearby.len()
            invariant
                i <= self@.near.len(),
                self.nearby@ == self@.near,
                self@.boxed(v) == boxed_from(self@.near, v, i as int),
            decreases self.nearby.len() - i,
        {
            let nb = self.nearby[i];
            if let Some(g) = nb.locate(v) {
                return Some((nb, g));
            }
            i += 1;
        }
        None
    }

    /// Whether a world voxel holds a block: any nearby body's, where its box covers
    /// the voxel.
    pub fn solid<F: Fn(Asteroid<G>, IVec3) -> u8>(&self, v: IVec3, gen: &F) -> (r: bool)
        requires
            self@.wf(),
            total(*gen),
        ensures
            exists|b: u8| #[trigger] seen(self@, *gen, v, b) && r == (b != AIR),
    {
        self.block(v, gen) != AIR
    }
}


impl<H: Copy, O: Copy, G: Copy> VoxelWorld<H, O, G> {
    /// Whether a chunk has been generated, with or without blocks in it.
    pub fn is_loaded(&self, key: IVec3, cp: IVec3) -> (r: bool)
        ensures
            r == (self@.chunks.contains_key((key, cp)) || self@.empty.contains((key, cp))),
    {
        self.chunks.contains(key, cp) || self.empty.contains(key, cp)
    }

    /// Generate (or regenerate) one body's chunk in gen space. Returns false
    /// if it holds none of that body's blocks. `in_reach` tells whether the
    /// body's surface can reach the chunk at all.
    pub fn generate_chunk<F: Fn(IVec3) -> u8>(
        &mut self,
        key: IVec3,
        cp: IVec3,
        in_reach: bool,
        gen: &F,
    ) -> (r: bool)
        requires
            old(self)@.wf(),
            chunk_ok(cp),
            forall|v: IVec3| #[trigger] gen.requires((v,)),
        ensures
            final(self)@.wf(),
            generated(old(self)@, key, cp, in_reach, *gen, r, final(self)@),
            !in_reach ==> !r,
            r ==> final(self)@.chunks.contains_key((key, cp)) && final(self)@.dirty.contains(
                (key, cp),
            ) && final(self)@.empty == old(self)@.empty,
            !r ==> final(self)@.empty.contains((key, cp)) && final(self)@.chunks
                == old(self)@.chunks && final(self)@.dirty == old(self)@.dirty,
            forall|v: IVec3|
                in_reach && #[trigger] chunk_at(v) == cp ==> {
                    let b = if r {
                        final(self)@.chunks[(key, cp)][slot(v)]
                    } else {
                        AIR
                    };
                    if old(self)@.edits.contains_key((key, v)) {
                        b == old(self)@.edits[(key, v)]
                    } else {
                        gen.ensures((v,), b)
                    }
                },
            r ==> exists|v: IVec3| #[trigger]
                chunk_at(v) == cp && final(self)@.chunks[(key, cp)][slot(v)] != AIR,
            forall|k: (IVec3, IVec3)|
                k != (key, cp) ==> (#[trigger] final(self)@.chunks.contains_key(k)
                    <==> old(self)@.chunks.contains_key(k)) && (old(self)@.chunks.contains_key(k)
                    ==> final(self)@.chunks[k] == old(self)@.chunks[k]),
            forall|k: (IVec3, IVec3)|
                k != (key, cp) ==> (#[trigger] final(self)@.empty.contains(k)
                    <==> old(self)@.empty.contains(k)),
            final(self)@.edits == old(self)@.edits,
            final(self)@.damage == old(self)@.damage,
            final(self)@.motion == old(self)@.motion,
            final(self)@.near == old(self)@.near,
            final(self)@.salt == old(self)@.salt,
    {
        let ghost before = self@;
        if !in_reach {
            self.empty.insert(key, cp, ());
            assert(self@ =~= before.vacated(key, cp));
            return false;
        }
        let mut blocks: Vec<u8> = Vec::new();
        let mut solid = false;
        let mut i: usize = 0;
        while i < CHUNK_VOL
            invariant
                i <= CHUNK_VOL,
                chunk_ok(cp),
                forall|v: IVec3| #[trigger] gen.requires((v,)),
                fills(self@.edits, key, *gen, cp, blocks@, i as int),
                solid == any_solid(blocks@),
            decreases CHUNK_VOL - i,
        {
            let v = slot_voxel(cp, i);
            let b = match self.edits.get(key, v) {
                Some(e) => *e,
                None => gen(v),
            };
            let ghost earlier = blocks@;
            blocks.push(b);
            proof {
                if solid {
                    let j = choose|j: int| 0 <= j < earlier.len() && earlier[j] != AIR;
                    assert(blocks@[j] != AIR);
                }
                if b != AIR {
                    assert(blocks@[i as int] != AIR);
                }
            }
            solid = solid || b != AIR;
            i += 1;
        }
        let ghost filled = blocks@;
        proof {
            assert forall|v: IVec3| #[trigger] chunk_at(v) == cp implies if before.edits.contains_key(
                (key, v),
            ) {
                filled[slot(v)] == before.edits[(key, v)]
            } else {
                gen.ensures((v,), filled[slot(v)])
            } by {
                law_voxel_to_slot(v);
                lemma_view_injective(voxel_in(cp, slot(v)).lattice(), v);
                assert(filled[slot(v)] == filled[slot(v)]);
            }
        }
        if !solid {
            self.empty.insert(key, cp, ());
            assert(self@ =~= before.vacated(key, cp));
            assert forall|v: IVec3| #[trigger] chunk_at(v) == cp implies filled[slot(v)] == AIR by {
                law_voxel_to_slot(v);
            }
            return false;
        }
        proof {
            let j = choose|j: int| 0 <= j < filled.len() && filled[j] != AIR;
            crate::chunk::law_slot_to_voxel(cp, j);
            assert(chunk_at(voxel_in(cp, j).lattice()) == cp);
        }
        self.chunks.insert(key, cp, Chunk { blocks });
        self.dirty.insert(key, cp, ());
        assert(self@ =~= before.stored(key, cp, filled));
        true
    }

    /// Drop one chunk's storage. What the chunk was known to hold can be
    /// generated again.
    pub fn unload_chunk(&mut self, key: IVec3, cp: IVec3)
        requires
            old(self)@.wf(),
        ensures
            final(self)@.wf(),
            final(self)@ == old(self)@.unloaded(key, cp),
            !final(self)@.chunks.contains_key((key, cp)),
            !final(self)@.dirty.contains((key, cp)),
            forall|k: (IVec3, IVec3)|
                k != (key, cp) ==> #[trigger] final(self)@.chunks.get(k) == old(self)@.chunks.get(k),
            forall|k: (IVec3, IVec3)|
                k != (key, cp) ==> #[trigger] final(self)@.dirty.contains(k)
                    == old(self)@.dirty.contains(k),
            final(self)@.edits == old(self)@.edits,
            final(self)@.damage == old(self)@.damage,
            final(self)@.empty == old(self)@.empty,
            final(self)@.motion == old(self)@.motion,
            final(self)@.near == old(self)@.near,
            final(self)@.salt == old(self)@.salt,
    {
        let ghost before = self@;
        self.chunks.remove(key, cp);
        self.dirty.remove(key, cp);
        assert(self@ =~= before.unloaded(key, cp));
    }

    /// Drop all storage of a swallowed body. Edits are kept.
    pub fn consume_body(&mut self, key: IVec3)
        requires
            old(self)@.wf(),
        ensures
            final(self)@.wf(),
            final(self)@ == old(self)@.consumed(key),
            forall|k: (IVec3, IVec3)| #[trigger]
                final(self)@.chunks.get(k) == if k.0 == key {
                    None
                } else {
                    old(self)@.chunks.get(k)
                },
            forall|k: (IVec3, IVec3)| #[trigger]
                final(self)@.empty.contains(k) <==> old(self)@.empty.contains(k) && k.0 != key,
            forall|k: (IVec3, IVec3)| #[trigger]
                final(self)@.dirty.contains(k) <==> old(self)@.dirty.contains(k) && k.0 != key,
            forall|k: IVec3| #[trigger]
                final(self)@.motion.contains_key(k) <==> old(self)@.motion.contains_key(k),
            old(self)@.motion.contains_key(key) ==> final(self)@.motion[key].eaten
                && final(self)@.motion[key].offset == old(self)@.motion[key].offset
                && final(self)@.motion[key].off_vox == old(self)@.motion[key].off_vox,
            forall|k: IVec3|
                k != key ==> #[trigger] final(self)@.motion.get(k) == old(self)@.motion.get(k),
            final(self)@.edits == old(self)@.edits,
            final(self)@.damage == old(self)@.damage,
            final(self)@.near == old(self)@.near,
            final(self)@.salt == old(self)@.salt,
    {
        let ghost before = self@;
        self.chunks.remove_body(key);
        self.empty.remove_body(key);
        self.dirty.remove_body(key);
        if let Some(m) = self.motion.remove(key) {
            self.motion.insert(key, BodyMotion { eaten: true, ..m });
        }
        assert(self@.chunks =~= before.consumed(key).chunks);
        assert(self@.empty =~= before.consumed(key).empty);
        assert(self@.dirty =~= before.consumed(key).dirty);
        assert(self@.motion =~= before.consumed(key).motion);
    }

    /// Forget the vacant chunks further than three radii (in chunks, along any
    /// axis) from `keep_near`.
    pub fn forget_empty(&mut self, keep_near: IVec3, radius: i32)
        requires
            old(self)@.wf(),
        ensures
            final(self)@.wf(),
            final(self)@ == old(self)@.forgotten(keep_near, radius),
            forall|k: (IVec3, IVec3)| #[trigger]
                final(self)@.empty.contains(k) <==> old(self)@.empty.contains(k) && -3 * radius
                    <= k.1.x - keep_near.x <= 3 * radius && -3 * radius <= k.1.y - keep_near.y <= 3
                    * radius && -3 * radius <= k.1.z - keep_near.z <= 3 * radius,
            final(self)@.chunks == old(self)@.chunks,
            final(self)@.dirty == old(self)@.dirty,
            final(self)@.edits == old(self)@.edits,
            final(self)@.damage == old(self)@.damage,
            final(self)@.motion == old(self)@.motion,
            final(self)@.near == old(self)@.near,
            final(self)@.salt == old(self)@.salt,
    {
        let ghost before = self@;
        let ks = self.empty.keys();
        let mut i: usize = 0;
        while i < ks.len()
            invariant
                i <= ks.len(),
                ks@.no_duplicates(),
                forall|k: (IVec3, IVec3)| #[trigger] ks@.contains(k) <==> before.empty.contains(k),
                self@ == (WorldState { empty: self@.empty, ..before }),
                forall|k: (IVec3, IVec3)| #[trigger]
                    self@.empty.contains(k) <==> before.empty.contains(k) && (ks@.take(
                        i as int,
                    ).contains(k) ==> k.1@.minus(keep_near@).max_abs() <= radius * 3),
            decreases ks.len() - i,
        {
            let (key, cp) = ks[i];
            let ghost was = self@.empty;
            if spread(cp, keep_near) > radius as i64 * 3 {
                self.empty.remove(key, cp);
                assert(self@.empty =~= was.remove((key, cp)));
            }
            proof {
                assert(ks@.take(i + 1) =~= ks@.take(i as int).push((key, cp)));
                assert forall|k: (IVec3, IVec3)| #[trigger] self@.empty.contains(k) <==> before.empty.contains(
                    k,
                ) && (ks@.take(i + 1).contains(k) ==> k.1@.minus(keep_near@).max_abs() <= radius * 3) by {
                    if ks@.take(i + 1).contains(k) {
                        let j = ks@.take(i + 1).index_of(k);
                        if j < i {
                            assert(ks@.take(i as int)[j] == k);
                        }
                    }
                    if ks@.take(i as int).contains(k) {
                        let j = ks@.take(i as int).index_of(k);
                        assert(ks@.take(i + 1)[j] == k);
                    }
                    assert(ks@.take(i + 1)[i as int] == (key, cp));
                    assert(ks@[i as int] == (key, cp));
                    assert(ks@.contains((key, cp)));
                }
            }
            i += 1;
        }
        assert(ks@.take(ks@.len() as int) =~= ks@);
        assert(self@.empty =~= before.forgotten(keep_near, radius).empty);
    }

    /// Day reset: drop all storage, edits, damage and motion, and reseed the
    /// field.
    pub fn reset_for_new_day(&mut self, salt: u64)
        ensures
            final(self)@.wf(),
            final(self)@ == (WorldState::<H, O, G> {
                chunks: Map::empty(),
                empty: Set::empty(),
                dirty: Set::empty(),
                damage: Map::empty(),
                edits: Map::empty(),
                motion: Map::empty(),
                near: Seq::empty(),
                salt,
            }),
    {
        self.salt = salt;
        self.chunks.clear();
        self.empty.clear();
        self.dirty.clear();
        self.damage.clear();
        self.edits.clear();
        self.motion.clear();
        self.nearby.clear();
        assert(self@.chunks =~= Map::empty());
        assert(self@.empty =~= Set::empty());
        assert(self@.dirty =~= Set::empty());
    }

    /// Dig one gen voxel of a body away.
    fn dig(&mut self, key: IVec3, g: IVec3)
        requires
            old(self)@.wf(),
        ensures
            final(self)@.wf(),
            final(self)@ == old(self)@.dug(key, g),
    {
        let ghost before = self@;
        let cp = chunk_of(g);
        self.edits.insert(key, g, AIR);
        self.damage.remove(key, g);
        let ghost stored = self.chunks@;
        if let Some(c) = self.chunks.remove(key, cp) {
            assert(before.chunks.contains_key((key, cp)));
            let mut blocks = c.blocks;
            blocks.set(local_index(g), AIR);
            self.chunks.insert(key, cp, Chunk { blocks });
            self.dirty.insert(key, cp, ());
        }
        let ghost goal = before.dug(key, g);
        assert(self@.chunks =~= goal.chunks);
        let mut f: usize = 0;
        while f < FACE_COUNT
            invariant
                f <= FACE_COUNT,
                cp == chunk_at(g),
                goal == before.dug(key, g),
                self@ == (WorldState { dirty: self@.dirty, ..goal }),
                forall|k: (IVec3, IVec3)| #[trigger]
                    self@.dirty.contains(k) <==> before.dirty.contains(k) || (
                    before.chunks.contains_key(k) && k.0 == key && (k.1 == cp || beside(
                        g,
                        k.1,
                        f as int,
                    ))),
            decreases FACE_COUNT - f,
        {
            let ghost was = self@.dirty;
            assert forall|c: IVec3| beside(g, c, f + 1) <==> beside(g, c, f as int) || (across(
                g,
                f as int,
            ).representable() && c == chunk_at(across(g, f as int).lattice())) by {
                if beside(g, c, f as int) {
                    let e = choose|e: int|
                        0 <= e < f && (#[trigger] across(g, e)).representable() && c == chunk_at(
                            across(g, e).lattice(),
                        );
                    assert(across(g, e).representable());
                }
            }
            if let Some(n) = g.checked_add(dir_of(f)) {
                let ncp = chunk_of(n);
                proof {
                    lemma_view_injective(n, across(g, f as int).lattice());
                }
                assert(self.chunks@.contains_key((key, ncp)) == self@.chunks.contains_key((key, ncp)));
                assert(goal.chunks.contains_key((key, ncp)) == before.chunks.contains_key((key, ncp)));
                if ncp != cp && self.chunks.contains(key, ncp) {
                    self.dirty.insert(key, ncp, ());
                    assert(self@.dirty =~= was.insert((key, ncp)));
                }
            }
            f += 1;
        }
        assert(self@.dirty =~= goal.dirty);
    }

    /// Every place where a nearby body holds a block at a world voxel.
    fn places<F: Fn(Asteroid<G>, IVec3) -> u8>(&self, v: IVec3, gen: &F) -> (s: Vec<(IVec3, IVec3)>)
        requires
            self@.wf(),
            pure(*gen),
        ensures
            s@.to_set() == standing(self@, *gen, v),
            forall|j: int|
                0 <= j < self@.near.len() && (#[trigger] self@.near[j]).covers(v) ==> standing(
                    self@,
                    *gen,
                    v,
                ).contains(self@.near[j].place(v)) || body_answers(
                    self@,
                    *gen,
                    self@.near[j],
                    v,
                    AIR,
                ),
    {
        let mut s: Vec<(IVec3, IVec3)> = Vec::new();
        let mut i: usize = 0;
        while i < self.nearby.len()
            invariant
                self@.wf(),
                pure(*gen),
                i <= self@.near.len(),
                self.nearby@ == self@.near,
                forall|n: int|
                    0 <= n < s.len() ==> standing(self@, *gen, v).contains(#[trigger] s@[n]),
                forall|j: int|
                    0 <= j < i && (#[trigger] self@.near[j]).covers(v) ==> s@.contains(
                        self@.near[j].place(v),
                    ) || (body_answers(self@, *gen, self@.near[j], v, AIR) && !stands(
                        self@,
                        *gen,
                        v,
                        j,
                    )),
            decreases self.nearby.len() - i,
        {
            let nb = self.nearby[i];
            let ghost earlier = s@;
            if let Some(g) = nb.locate(v) {
                let b = self.block_gen(nb.key, nb.a, g, gen);
                assert(body_answers(self@, *gen, self@.near[i as int], v, b));
                if b != AIR {
                    assert(stands(self@, *gen, v, i as int));
                    s.push((nb.key, g));
                    assert(s@[earlier.len() as int] == self@.near[i as int].place(v));
                }
            }
            proof {
                assert forall|j: int|
                    0 <= j < i && earlier.contains(self@.near[j].place(v)) implies s@.contains(
                    #[trigger] self@.near[j].place(v),
                ) by {
                    let n = earlier.index_of(self@.near[j].place(v));
                    assert(s@[n] == earlier[n]);
                }
            }
            i += 1;
        }
        assert forall|p: (IVec3, IVec3)| s@.contains(p) <==> #[trigger] standing(
            self@,
            *gen,
            v,
        ).contains(p) by {
            if s@.contains(p) {
                assert(s@[s@.index_of(p)] == p);
            }
            if standing(self@, *gen, v).contains(p) {
                let j = choose|j: int| #[trigger]
                    stands(self@, *gen, v, j) && p == self@.near[j].place(v);
                assert(self@.near[j].covers(v));
            }
        }
        assert(s@.to_set() =~= standing(self@, *gen, v));
        s
    }

    /// Remove the block at a world voxel: from now on no nearby body holds one
    /// there, and nothing else changes to the eye. A voxel that is air already
    /// gets its edit all the same, where a nearby body's box covers it.
    pub fn set_air<F: Fn(Asteroid<G>, IVec3) -> u8>(&mut self, v: IVec3, gen: &F)
        requires
            old(self)@.wf(),
            pure(*gen),
        ensures
            final(self)@.wf(),
            final(self)@ == old(self)@.removed(*gen, v),
            seen(final(self)@, *gen, v, AIR),
            forall|b: u8| #[trigger] seen(final(self)@, *gen, v, b) ==> b == AIR,
            forall|r: Option<H>| #[trigger] worn_to(final(self)@, *gen, v, r) ==> r is None,
            forall|u: IVec3, b: u8|
                u != v ==> #[trigger] seen(final(self)@, *gen, u, b) == seen(
                    old(self)@,
                    *gen,
                    u,
                    b,
                ),
            forall|i: int, b: u8| #[trigger]
                owns(old(self)@, *gen, v, i, b) ==> final(self)@.edits.contains_key(
                    old(self)@.near[i].place(v),
                ) && !final(self)@.damage.contains_key(old(self)@.near[i].place(v)),
    {
        let ghost before = self@;
        let found = self.places(v, gen);
        let boxed = self.boxed_at(v);
        proof {
            lemma_boxed(before.near, v, 0);
            if found.len() > 0 {
                assert(standing(before, *gen, v).contains(found@[0]));
            }
            assert forall|i: int| stands(before, *gen, v, i) implies found.len() > 0 && boxed
                is Some by {
                assert(standing(before, *gen, v).contains(before.near[i].place(v)));
                assert(before.near[i].covers(v));
            }
        }
        if let Some((nb, g)) = boxed {
            if found.len() == 0 {
                self.dig(nb.key, g);
            } else {
                self.dig_all(&found);
                self.damage.remove(nb.key, g);
            }
        }
        assert(self@ =~= before.removed(*gen, v));
        proof {
            assert forall|b: u8| #[trigger] seen(self@, *gen, v, b) implies b == AIR by {
                law_removal_clears_the_voxel(before, *gen, v, b);
            }
            assert forall|r: Option<H>| #[trigger] worn_to(self@, *gen, v, r) implies r is None by {
                law_removal_leaves_no_wear(before, *gen, v, r);
            }
            assert forall|u: IVec3, b: u8| u != v implies #[trigger] seen(self@, *gen, u, b)
                == seen(before, *gen, u, b) by {
                law_removal_spares_the_rest(before, *gen, v, u, b);
            }
            assert forall|i: int, b: u8| #[trigger] owns(before, *gen, v, i, b) implies
                self@.edits.contains_key(before.near[i].place(v)) && !self@.damage.contains_key(
                before.near[i].place(v),
            ) by {
                law_removal_belongs_to_the_owner(before, *gen, v, i, b);
            }
            lemma_removal_leaves_air(before, *gen, v);
            lemma_removal_keeps_order(before, *gen, v);
        }
    }

    /// Dig several places away.
    fn dig_all(&mut self, s: &Vec<(IVec3, IVec3)>)
        requires
            old(self)@.wf(),
        ensures
            final(self)@.wf(),
            final(self)@ == old(self)@.without(s@.to_set()),
    {
        let ghost before = self@;
        let mut n: usize = 0;
        proof {
            lemma_without_none(before);
            assert(s@.take(0).to_set() =~= Set::empty());
        }
        while n < s.len()
            invariant
                n <= s.len(),
                before.wf(),
                self@.wf(),
                self@ == before.without(s@.take(n as int).to_set()),
            decreases s.len() - n,
        {
            let (key, g) = s[n];
            self.dig(key, g);
            proof {
                let head = s@.take(n as int);
                let all = s@.take(n + 1);
                lemma_without_insert(before, head.to_set(), (key, g));
                assert forall|p: (IVec3, IVec3)| #[trigger]
                    all.to_set().contains(p) <==> head.to_set().insert((key, g)).contains(p) by {
                    if head.contains(p) {
                        assert(all[head.index_of(p)] == p);
                    }
                    assert(all[n as int] == (key, g));
                    if all.contains(p) && all.index_of(p) < n {
                        assert(head[all.index_of(p)] == p);
                    }
                }
                assert(all.to_set() =~= head.to_set().insert((key, g)));
            }
            n += 1;
        }
        assert(s@.take(s@.len() as int) =~= s@);
    }
}

/// Largest coordinate distance between two vectors.
fn spread(a: IVec3, b: IVec3) -> (d: i64)
    ensures
        d == a@.minus(b@).max_abs(),
{
    let x: i64 = gap(a.x, b.x);
    let y: i64 = gap(a.y, b.y);
    let z: i64 = gap(a.z, b.z);
    let xy: i64 = if x >= y {
        x
    } else {
        y
    };
    if xy >= z {
        xy
    } else {
        z
    }
}

fn gap(a: i32, b: i32) -> (d: i64)
    ensures
        d == magnitude(a - b),
{
    if a >= b {
        a as i64 - b as i64
    } else {
        b as i64 - a as i64
    }
}

impl<H: Copy, O: Copy, G: Copy> VoxelWorld<H, O, G> {
    /// Tier and species that govern a world voxel: those of the body whose
    /// block is there, else of the body whose box covers it, and in open space
    /// the tier given for it and species 0.
    pub fn env_of<F: Fn(Asteroid<G>, IVec3) -> u8>(
        &self,
        v: IVec3,
        open_tier: i32,
        gen: &F,
    ) -> (r: (i32, u8))
        requires
            self@.wf(),
            total(*gen),
        ensures
            governed(self@, *gen, v, open_tier, r),
    {
        let p = self.address(v, gen);
        assert(addressed(self@, *gen, v, p));
        match p {
            Some((nb, _)) => (nb.a.tier, nb.a.species),
            None => (open_tier, 0),
        }
    }

    /// The place that a world voxel stands for: that of the block seen there,
    /// and in the air that of the first box that covers it.
    fn address<F: Fn(Asteroid<G>, IVec3) -> u8>(&self, v: IVec3, gen: &F) -> (r: Option<
        (NearBody<G>, IVec3),
    >)
        requires
            self@.wf(),
            total(*gen),
        ensures
            addressed(self@, *gen, v, r),
    {
        let o = self.resolve(v, gen);
        assert(owned(self@, *gen, v, o));
        match o {
            Some(place) => Some(place),
            None => self.boxed_at(v),
        }
    }

    /// What is noted to remain at a world voxel, if it was ever worn.
    pub fn damage_of<F: Fn(Asteroid<G>, IVec3) -> u8>(&self, v: IVec3, gen: &F) -> (r: Option<H>)
        requires
            self@.wf(),
            total(*gen),
        ensures
            worn_to(self@, *gen, v, r),
    {
        let p = self.address(v, gen);
        assert(addressed(self@, *gen, v, p));
        match p {
            Some((nb, g)) => match self.damage.get(nb.key, g) {
                Some(hp) => Some(*hp),
                None => None,
            },
            None => None,
        }
    }

    /// Note what remains at a world voxel. Does nothing where no nearby body
    /// covers it.
    pub fn set_damage<F: Fn(Asteroid<G>, IVec3) -> u8>(&mut self, v: IVec3, hp: H, gen: &F)
        requires
            old(self)@.wf(),
            total(*gen),
        ensures
            final(self)@.wf(),
            noted(old(self)@, *gen, v, hp, final(self)@),
    {
        let p = self.address(v, gen);
        assert(addressed(old(self)@, *gen, v, p));
        if let Some((nb, g)) = p {
            self.damage.insert(nb.key, g, hp);
        }
        assert(self@.chunks == old(self)@.chunks);
        assert(self@.edits == old(self)@.edits);
        assert(self@.near == old(self)@.near);
    }

    /// A body's displacement, once something tracks it.
    pub fn motion_of(&self, key: IVec3) -> (r: Option<BodyMotion<O>>)
        ensures
            r == self@.motion.get(key),
    {
        match self.motion.get(key) {
            Some(m) => Some(*m),
            None => None,
        }
    }

    /// The smooth offset of a body, `still` while nothing tracks it.
    pub fn offset_of(&self, key: IVec3, still: O) -> (r: O)
        ensures
            r == if self@.motion.contains_key(key) {
                self@.motion[key].offset
            } else {
                still
            },
    {
        match self.motion.get(key) {
            Some(m) => m.offset,
            None => still,
        }
    }

    pub fn is_eaten(&self, key: IVec3) -> (r: bool)
        ensures
            r == (self@.motion.contains_key(key) && self@.motion[key].eaten),
    {
        match self.motion.get(key) {
            Some(m) => m.eaten,
            None => false,
        }
    }

    /// Direct access to the displacement table.
    pub fn motion_mut(&mut self) -> (m: &mut VoxelMap<BodyMotion<O>>)
        requires
            old(self)@.wf(),
        ensures
            (*m)@ == old(self)@.motion,
            final(self)@ == (WorldState { motion: (*final(m))@, ..old(self)@ }),
            final(self)@.wf(),
    {
        &mut self.motion
    }

    /// How far, in voxels, the body that the probed voxels touch moved this
    /// frame. Probes are tried in order; the first inside a block decides.
    pub fn carrier_delta<F: Fn(Asteroid<G>, IVec3) -> u8>(
        &self,
        probes: &Vec<IVec3>,
        gen: &F,
    ) -> (d: IVec3)
        requires
            self@.wf(),
            total(*gen),
        ensures
            carried(self@, *gen, probes@, 0, d),
    {
        self.carrier_from(probes, 0, gen)
    }

    fn carrier_from<F: Fn(Asteroid<G>, IVec3) -> u8>(
        &self,
        probes: &Vec<IVec3>,
        i: usize,
        gen: &F,
    ) -> (d: IVec3)
        requires
            self@.wf(),
            total(*gen),
            i <= probes.len(),
        ensures
            carried(self@, *gen, probes@, i as int, d),
        decreases probes.len() - i,
    {
        if i == probes.len() {
            return IVec3::zero();
        }
        let o = self.resolve(probes[i], gen);
        assert(owned(self@, *gen, probes@[i as int], o));
        if let Some((nb, _)) = o {
            return match self.motion.get(nb.key) {
                Some(m) => m.delta,
                None => IVec3::zero(),
            };
        }
        self.carrier_from(probes, i + 1, gen)
    }

    /// Rebuild the list of bodies in range from the tracked bodies, the field
    /// cells of the box from `lo` to `hi`, and the planets.
    pub fn refresh_nearby<F: Fn(IVec3, Option<O>) -> Option<Placed<G>>>(
        &mut self,
        lo: IVec3,
        hi: IVec3,
        planets: usize,
        judge: &F,
    )
        requires
            old(self)@.wf(),
            PLANET_KEY_BASE + planets <= i32::MAX,
            forall|k: IVec3, o: Option<O>| #[trigger] judge.requires((k, o)),
        ensures
            final(self)@.wf(),
            final(self)@ == (WorldState { near: final(self)@.near, ..old(self)@ }),
            refreshed(old(self)@.motion, lo, hi, planets as nat, *judge, final(self)@.near),
    {
        let ghost before = self@;
        self.nearby = nearby_list(&self.motion, lo, hi, planets, judge);
        assert(placed_once(self.nearby@)) by {
            law_bodies_stand_in_one_place(before.motion, lo, hi, planets as nat, *judge, self.nearby@);
        }
        assert(self@ =~= WorldState { near: self@.near, ..before });
    }

    /// Take up to `limit` chunks off the list of stale meshes.
    pub fn take_dirty(&mut self, limit: usize) -> (batch: Vec<(IVec3, IVec3)>)
        requires
            old(self)@.wf(),
        ensures
            final(self)@.wf(),
            batch@.no_duplicates(),
            forall|k: (IVec3, IVec3)| #[trigger] batch@.contains(k) ==> old(self)@.dirty.contains(k),
            final(self)@ == (WorldState {
                dirty: old(self)@.dirty.difference(batch@.to_set()),
                ..old(self)@
            }),
            batch.len() <= limit,
            batch.len() < limit ==> final(self)@.dirty == Set::<(IVec3, IVec3)>::empty(),
    {
        let ghost before = self@;
        let ks = self.dirty.keys();
        let mut batch: Vec<(IVec3, IVec3)> = Vec::new();
        while batch.len() < ks.len() && batch.len() < limit
            invariant
                batch.len() <= ks.len(),
                batch.len() <= limit,
                batch@ == ks@.take(batch.len() as int),
                ks@.no_duplicates(),
                forall|k: (IVec3, IVec3)| #[trigger] ks@.contains(k) <==> before.dirty.contains(k),
                before.wf(),
                self@ == (WorldState {
                    dirty: before.dirty.difference(batch@.to_set()),
                    ..before
                }),
            decreases ks.len() - batch.len(),
        {
            let (key, cp) = ks[batch.len()];
            let ghost was = batch@;
            let ghost stale = self@.dirty;
            batch.push((key, cp));
            self.dirty.remove(key, cp);
            assert(self@.dirty =~= stale.remove((key, cp)));
            assert(batch@ =~= ks@.take(batch.len() as int));
            assert forall|k: (IVec3, IVec3)|
                batch@.contains(k) <==> was.contains(k) || k == (key, cp) by {
                if was.contains(k) {
                    assert(batch@[was.index_of(k)] == k);
                }
                assert(batch@[was.len() as int] == (key, cp));
                if batch@.contains(k) && batch@.index_of(k) < was.len() {
                    assert(was[batch@.index_of(k)] == k);
                }
            }
            assert(self@.dirty =~= before.dirty.difference(batch@.to_set()));
        }
        assert forall|k: (IVec3, IVec3)| #[trigger] batch@.contains(k) implies before.dirty.contains(
            k,
        ) by {
            assert(ks@[batch@.index_of(k)] == k);
            assert(ks@.contains(k));
        }
        if batch.len() < limit {
            assert(batch@ =~= ks@);
            assert(self@.dirty =~= Set::empty());
        }
        batch
    }
}

impl<H: Copy, O: Copy, G: Copy> VoxelWorld<H, O, G> {
    /// Advance every tracked body by one step of infall and report those that
    /// the horizon has reached.
    pub fn advance_bodies<F: Fn(IVec3, O) -> Option<Drift<O>>>(&mut self, drift: &F) -> (consumed:
        Vec<IVec3>)
        requires
            old(self)@.wf(),
            forall|k: IVec3, o: O| #[trigger] drift.requires((k, o)),
            steps_fit(old(self)@.motion, *drift),
        ensures
            final(self)@.wf(),
            final(self)@ == (WorldState { motion: final(self)@.motion, ..old(self)@ }),
            consumed@.no_duplicates(),
            exists|drifts: Map<IVec3, Option<Drift<O>>>|
                {
                    &&& #[trigger] drifted(old(self)@.motion, *drift, drifts)
                    &&& final(self)@.motion == all_stepped(old(self)@.motion, drifts)
                    &&& forall|k: IVec3| #[trigger]
                        consumed@.contains(k) <==> swallowed(old(self)@.motion, drifts, k)
                },
    {
        let ghost before = self@;
        let consumed = advance_all(&mut self.motion, drift);
        assert(self@ =~= WorldState { motion: self@.motion, ..before });
        consumed
    }

    /// Register the bodies coming into tracking range: the cells of the box
    /// from `lo` to `hi` that hold one, the planets, and the home rock.
    pub fn register_bodies<N: Fn(IVec3) -> Option<(O, IVec3)>, P: Fn(IVec3) -> (O, IVec3)>(
        &mut self,
        lo: IVec3,
        hi: IVec3,
        planets: usize,
        still: O,
        notice: &N,
        displaced: &P,
    )
        requires
            old(self)@.wf(),
            PLANET_KEY_BASE + planets <= i32::MAX,
            forall|k: IVec3| #[trigger] notice.requires((k,)),
            forall|k: IVec3| #[trigger] displaced.requires((k,)),
        ensures
            final(self)@.wf(),
            final(self)@ == (WorldState { motion: final(self)@.motion, ..old(self)@ }),
            swept(
                old(self)@.motion,
                lo,
                hi,
                planets as int,
                still,
                *notice,
                *displaced,
                final(self)@.motion,
            ),
    {
        let ghost before = self@;
        sweep(&mut self.motion, lo, hi, planets, still, notice, displaced);
        assert(self@ =~= WorldState { motion: self@.motion, ..before });
    }
}

} // verus!
