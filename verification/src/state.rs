//! What a voxel world holds, and what can be asked of it.
use crate::blocks::AIR;
use crate::body::{Asteroid, BodyMotion, NearBody};
use crate::chunk::{chunk_at, slot, voxel_in, CHUNK_VOL};
use crate::face::{across, FACE_COUNT};
use crate::ivec::{origin, IVec3};
use vstd::prelude::*;

verus! {

/// The whole content of a voxel world.
#[verifier::ext_equal]
pub struct WorldState<H, O, G> {
    /// Stored chunks, by body and chunk, each a block per slot.
    pub chunks: Map<(IVec3, IVec3), Seq<u8>>,
    /// Chunks known to hold none of their body's blocks.
    pub empty: Set<(IVec3, IVec3)>,
    /// Chunks whose mesh is stale.
    pub dirty: Set<(IVec3, IVec3)>,
    /// Remaining hit points of partly mined blocks, by body and gen voxel.
    pub damage: Map<(IVec3, IVec3), H>,
    /// Mined voxels, by body and gen voxel.
    pub edits: Map<(IVec3, IVec3), u8>,
    /// Displacement by body.
    pub motion: Map<IVec3, BodyMotion<O>>,
    /// Bodies in range, in the order they are consulted.
    pub near: Seq<NearBody<G>>,
    /// The day's seed of the asteroid field.
    pub salt: u64,
}

/// The bodies of `near` from position `i` on, searched in order for the first
/// whose box covers `v`.
pub open spec fn boxed_from<G>(near: Seq<NearBody<G>>, v: IVec3, i: int) -> Option<
    (NearBody<G>, IVec3),
>
    decreases near.len() - i,
{
    if i < 0 || i >= near.len() {
        None
    } else if near[i].covers(v) {
        Some((near[i], near[i].gen_voxel(v)))
    } else {
        boxed_from(near, v, i + 1)
    }
}

/// Entries of one body agree on where it stands.
pub open spec fn placed_once<G>(near: Seq<NearBody<G>>) -> bool {
    forall|i: int, j: int|
        0 <= i < near.len() && 0 <= j < near.len() && (#[trigger] near[i]).key == (
        #[trigger] near[j]).key ==> near[i].off_vox == near[j].off_vox
}

impl<H, O, G> WorldState<H, O, G> {
    /// Stored chunks are full bricks, the only edit ever made is to dig a block
    /// away, and a body in range stands in one place.
    pub open spec fn wf(self) -> bool {
        &&& forall|k: (IVec3, IVec3)| #[trigger]
            self.chunks.contains_key(k) ==> self.chunks[k].len() == CHUNK_VOL
        &&& forall|p: (IVec3, IVec3)| #[trigger]
            self.edits.contains_key(p) ==> self.edits[p] == AIR
        &&& placed_once(self.near)
    }

    /// What storage alone says of a gen voxel: a stored chunk first, then the
    /// list of vacant chunks, then the edits. `None` leaves it to the terrain.
    pub open spec fn known(self, key: IVec3, g: IVec3) -> Option<u8> {
        let k = (key, chunk_at(g));
        if self.chunks.contains_key(k) {
            Some(self.chunks[k][slot(g)])
        } else if self.empty.contains(k) {
            Some(AIR)
        } else if self.edits.contains_key((key, g)) {
            Some(self.edits[(key, g)])
        } else {
            None
        }
    }

    /// The first nearby body whose box covers a world voxel, and its gen voxel
    /// there.
    pub open spec fn boxed(self, v: IVec3) -> Option<(NearBody<G>, IVec3)> {
        boxed_from(self.near, v, 0)
    }
}

/// A terrain function that may be called anywhere.
pub open spec fn total<G, F: Fn(Asteroid<G>, IVec3) -> u8>(gen: F) -> bool {
    forall|a: Asteroid<G>, g: IVec3| #[trigger] gen.requires((a, g))
}

/// A terrain function that may be called anywhere and always returns the same
/// block for the same voxel.
pub open spec fn pure<G, F: Fn(Asteroid<G>, IVec3) -> u8>(gen: F) -> bool {
    &&& total(gen)
    &&& forall|a: Asteroid<G>, g: IVec3, x: u8, y: u8| #[trigger]
        gen.ensures((a, g), x) && #[trigger] gen.ensures((a, g), y) ==> x == y
}

/// `b` is an answer to "what block is at gen voxel `g` of body `key`": what
/// storage knows, or else what the terrain function returned.
pub open spec fn answers<H, O, G, F: Fn(Asteroid<G>, IVec3) -> u8>(
    w: WorldState<H, O, G>,
    gen: F,
    key: IVec3,
    a: Asteroid<G>,
    g: IVec3,
    b: u8,
) -> bool {
    match w.known(key, g) {
        Some(x) => b == x,
        None => gen.ensures((a, g), b),
    }
}

/// Nearby body `nb` answers `b` for world voxel `v`.
pub open spec fn body_answers<H, O, G, F: Fn(Asteroid<G>, IVec3) -> u8>(
    w: WorldState<H, O, G>,
    gen: F,
    nb: NearBody<G>,
    v: IVec3,
    b: u8,
) -> bool {
    answers(w, gen, nb.key, nb.a, nb.gen_voxel(v), b)
}

/// The block at world voxel `v` is block `b` of the `i`-th nearby body: the
/// first in the list that covers the voxel and holds a block there.
pub open spec fn owns<H, O, G, F: Fn(Asteroid<G>, IVec3) -> u8>(
    w: WorldState<H, O, G>,
    gen: F,
    v: IVec3,
    i: int,
    b: u8,
) -> bool {
    &&& 0 <= i < w.near.len()
    &&& w.near[i].covers(v)
    &&& b != AIR
    &&& body_answers(w, gen, w.near[i], v, b)
    &&& forall|j: int|
        0 <= j < i && (#[trigger] w.near[j]).covers(v) ==> body_answers(
            w,
            gen,
            w.near[j],
            v,
            AIR,
        )
}

/// `b` is an answer to "what block is at world voxel `v`": that of the first
/// covering body in the nearby list that holds a block there, and air when
/// none does.
pub open spec fn seen<H, O, G, F: Fn(Asteroid<G>, IVec3) -> u8>(
    w: WorldState<H, O, G>,
    gen: F,
    v: IVec3,
    b: u8,
) -> bool {
    if b == AIR {
        forall|i: int|
            0 <= i < w.near.len() && (#[trigger] w.near[i]).covers(v) ==> body_answers(
                w,
                gen,
                w.near[i],
                v,
                AIR,
            )
    } else {
        exists|i: int| #[trigger] owns(w, gen, v, i, b)
    }
}

/// `r` is the body whose block is seen at a world voxel, and its gen voxel
/// there; `None` where there is air.
pub open spec fn owned<H, O, G, F: Fn(Asteroid<G>, IVec3) -> u8>(
    w: WorldState<H, O, G>,
    gen: F,
    v: IVec3,
    r: Option<(NearBody<G>, IVec3)>,
) -> bool {
    match r {
        Some((nb, g)) => exists|i: int, b: u8| #[trigger]
            owns(w, gen, v, i, b) && nb == w.near[i] && g == nb.gen_voxel(v),
        None => seen(w, gen, v, AIR),
    }
}

/// `r` is the place that a world voxel stands for, as body and gen voxel: that
/// of the block that is seen there; in the air, that of the first body whose box
/// covers the voxel; `None` in open space.
pub open spec fn addressed<H, O, G, F: Fn(Asteroid<G>, IVec3) -> u8>(
    w: WorldState<H, O, G>,
    gen: F,
    v: IVec3,
    r: Option<(NearBody<G>, IVec3)>,
) -> bool {
    exists|o: Option<(NearBody<G>, IVec3)>| #[trigger]
        owned(w, gen, v, o) && r == if o is Some {
            o
        } else {
            w.boxed(v)
        }
}

/// `r` is the tier and species that govern a world voxel: those of the body
/// that it stands for, and in open space the tier given for it and species 0.
pub open spec fn governed<H, O, G, F: Fn(Asteroid<G>, IVec3) -> u8>(
    w: WorldState<H, O, G>,
    gen: F,
    v: IVec3,
    open_tier: i32,
    r: (i32, u8),
) -> bool {
    exists|p: Option<(NearBody<G>, IVec3)>| #[trigger]
        addressed(w, gen, v, p) && r == match p {
            Some((nb, _)) => (nb.a.tier, nb.a.species),
            None => (open_tier, 0u8),
        }
}

/// `r` is what is noted to remain at a world voxel, if it was ever worn.
pub open spec fn worn_to<H, O, G, F: Fn(Asteroid<G>, IVec3) -> u8>(
    w: WorldState<H, O, G>,
    gen: F,
    v: IVec3,
    r: Option<H>,
) -> bool {
    exists|p: Option<(NearBody<G>, IVec3)>| #[trigger]
        addressed(w, gen, v, p) && r == match p {
            Some((nb, g)) => w.damage.get((nb.key, g)),
            None => None,
        }
}

/// What remains at a world voxel was noted. In open space nothing is.
pub open spec fn noted<H, O, G, F: Fn(Asteroid<G>, IVec3) -> u8>(
    w: WorldState<H, O, G>,
    gen: F,
    v: IVec3,
    hp: H,
    after: WorldState<H, O, G>,
) -> bool {
    exists|p: Option<(NearBody<G>, IVec3)>| #[trigger]
        addressed(w, gen, v, p) && after == match p {
            Some((nb, g)) => WorldState { damage: w.damage.insert((nb.key, g), hp), ..w },
            None => w,
        }
}

/// The `i`-th nearby body covers world voxel `v` and holds a block there.
pub open spec fn stands<H, O, G, F: Fn(Asteroid<G>, IVec3) -> u8>(
    w: WorldState<H, O, G>,
    gen: F,
    v: IVec3,
    i: int,
) -> bool {
    &&& 0 <= i < w.near.len()
    &&& w.near[i].covers(v)
    &&& exists|b: u8| b != AIR && #[trigger] body_answers(w, gen, w.near[i], v, b)
}

/// Every place, as body and gen voxel, where a nearby body holds a block at
/// world voxel `v`. Two bodies that have drifted into each other can both hold
/// one.
pub open spec fn standing<H, O, G, F: Fn(Asteroid<G>, IVec3) -> u8>(
    w: WorldState<H, O, G>,
    gen: F,
    v: IVec3,
) -> Set<(IVec3, IVec3)> {
    Set::new(
        |p: (IVec3, IVec3)|
            exists|i: int| #[trigger] stands(w, gen, v, i) && p == w.near[i].place(v),
    )
}

/// The places that a removal at world voxel `v` digs away: wherever a block
/// stands there; where none does, that of the first box that covers the voxel.
pub open spec fn spots<H, O, G, F: Fn(Asteroid<G>, IVec3) -> u8>(
    w: WorldState<H, O, G>,
    gen: F,
    v: IVec3,
) -> Set<(IVec3, IVec3)> {
    if exists|i: int| stands(w, gen, v, i) {
        standing(w, gen, v)
    } else {
        match w.boxed(v) {
            Some((nb, g)) => set![(nb.key, g)],
            None => Set::empty(),
        }
    }
}

/// The blocks of a freshly generated chunk: the edit where there is one, else
/// what the terrain function returned.
pub open spec fn fills<F: Fn(IVec3) -> u8>(
    edits: Map<(IVec3, IVec3), u8>,
    key: IVec3,
    gen: F,
    cp: IVec3,
    blocks: Seq<u8>,
    n: int,
) -> bool {
    &&& blocks.len() == n
    &&& forall|i: int|
        0 <= i < n ==> {
            let v = voxel_in(cp, i).lattice();
            if edits.contains_key((key, v)) {
                #[trigger] blocks[i] == edits[(key, v)]
            } else {
                gen.ensures((v,), blocks[i])
            }
        }
}

/// Whether any of the blocks is solid.
pub open spec fn any_solid(blocks: Seq<u8>) -> bool {
    exists|i: int| 0 <= i < blocks.len() && #[trigger] blocks[i] != AIR
}

/// The chunk `c` holds the neighbour of `g` across one of the first `n` faces.
pub open spec fn beside(g: IVec3, c: IVec3, n: int) -> bool {
    exists|f: int|
        0 <= f < n && (#[trigger] across(g, f)).representable() && c == chunk_at(
            across(g, f).lattice(),
        )
}

/// The chunk `c` holds `g` or one of its six face neighbours.
pub open spec fn touches(g: IVec3, c: IVec3) -> bool {
    c == chunk_at(g) || beside(g, c, FACE_COUNT as int)
}

/// One of the places of `s` is slot `n` of chunk `k`.
pub open spec fn hollow(s: Set<(IVec3, IVec3)>, k: (IVec3, IVec3), n: int) -> bool {
    exists|g: IVec3| #[trigger] s.contains((k.0, g)) && chunk_at(g) == k.1 && slot(g) == n
}

/// One of the places of `s` lies in chunk `c` or next to it.
pub open spec fn borders(s: Set<(IVec3, IVec3)>, c: (IVec3, IVec3)) -> bool {
    exists|g: IVec3| #[trigger] s.contains((c.0, g)) && touches(g, c.1)
}

impl<H, O, G> WorldState<H, O, G> {
    /// The world with one gen voxel of a body dug away: the edit is recorded,
    /// the stored chunk follows, its damage is forgotten, and every stored
    /// chunk of the body that touches the voxel is stale.
    pub open spec fn dug(self, key: IVec3, g: IVec3) -> Self {
        let k = (key, chunk_at(g));
        WorldState {
            edits: self.edits.insert((key, g), AIR),
            damage: self.damage.remove((key, g)),
            chunks: if self.chunks.contains_key(k) {
                self.chunks.insert(k, self.chunks[k].update(slot(g), AIR))
            } else {
                self.chunks
            },
            dirty: self.dirty.union(
                self.chunks.dom().filter(|c: (IVec3, IVec3)| c.0 == key && touches(g, c.1)),
            ),
            ..self
        }
    }

    /// The world with all places of `s` dug away.
    pub open spec fn without(self, s: Set<(IVec3, IVec3)>) -> Self {
        WorldState {
            edits: Map::new(
                |p: (IVec3, IVec3)| self.edits.contains_key(p) || s.contains(p),
                |p: (IVec3, IVec3)|
                    if s.contains(p) {
                        AIR
                    } else {
                        self.edits[p]
                    },
            ),
            damage: self.damage.remove_keys(s),
            chunks: self.chunks.map_entries(
                |k: (IVec3, IVec3), blocks: Seq<u8>|
                    Seq::new(
                        blocks.len(),
                        |n: int|
                            if hollow(s, k, n) {
                                AIR
                            } else {
                                blocks[n]
                            },
                    ),
            ),
            dirty: self.dirty.union(
                self.chunks.dom().filter(|c: (IVec3, IVec3)| borders(s, c)),
            ),
            ..self
        }
    }

    /// The world after a removal at a world voxel. Whatever stands there is dug
    /// away; where nothing stands, the first body whose box covers the voxel is
    /// dug there all the same. No wear is left at that box's place either way.
    pub open spec fn removed<F: Fn(Asteroid<G>, IVec3) -> u8>(self, gen: F, v: IVec3) -> Self {
        let stood = exists|i: int| stands(self, gen, v, i);
        match self.boxed(v) {
            Some((nb, g)) => if stood {
                let d = self.without(standing(self, gen, v));
                WorldState { damage: d.damage.remove((nb.key, g)), ..d }
            } else {
                self.dug(nb.key, g)
            },
            None => self,
        }
    }

    /// The world without one stored chunk.
    pub open spec fn unloaded(self, key: IVec3, cp: IVec3) -> Self {
        WorldState {
            chunks: self.chunks.remove((key, cp)),
            dirty: self.dirty.remove((key, cp)),
            ..self
        }
    }

    /// The world without the vacant chunks further than three radii (in
    /// chunks, along any axis) from `keep_near`.
    pub open spec fn forgotten(self, keep_near: IVec3, radius: i32) -> Self {
        WorldState {
            empty: self.empty.filter(
                |k: (IVec3, IVec3)| k.1@.minus(keep_near@).max_abs() <= radius * 3,
            ),
            ..self
        }
    }

    /// The world with one chunk known to be vacant.
    pub open spec fn vacated(self, key: IVec3, cp: IVec3) -> Self {
        WorldState { empty: self.empty.insert((key, cp)), ..self }
    }

    /// The world with one chunk stored, its mesh stale.
    pub open spec fn stored(self, key: IVec3, cp: IVec3, blocks: Seq<u8>) -> Self {
        WorldState {
            chunks: self.chunks.insert((key, cp), blocks),
            dirty: self.dirty.insert((key, cp)),
            ..self
        }
    }

    /// The world after a body has been swallowed: none of its chunks is left,
    /// and if it was tracked it is marked as eaten.
    pub open spec fn consumed(self, key: IVec3) -> Self {
        WorldState {
            chunks: self.chunks.remove_keys(
                self.chunks.dom().filter(|k: (IVec3, IVec3)| k.0 == key),
            ),
            empty: self.empty.filter(|k: (IVec3, IVec3)| k.0 != key),
            dirty: self.dirty.filter(|k: (IVec3, IVec3)| k.0 != key),
            motion: if self.motion.contains_key(key) {
                self.motion.insert(key, BodyMotion { eaten: true, ..self.motion[key] })
            } else {
                self.motion
            },
            ..self
        }
    }
}

/// Generating chunk `cp` of body `key` turned `w` into `after` and reported
/// `solid`: a chunk out of reach is vacant; one in reach is filled, and stored
/// if any of its blocks is solid, else vacant.
pub open spec fn generated<H, O, G, F: Fn(IVec3) -> u8>(
    w: WorldState<H, O, G>,
    key: IVec3,
    cp: IVec3,
    in_reach: bool,
    gen: F,
    solid: bool,
    after: WorldState<H, O, G>,
) -> bool {
    if in_reach {
        exists|blocks: Seq<u8>|
            {
                &&& #[trigger] fills(w.edits, key, gen, cp, blocks, CHUNK_VOL as int)
                &&& solid == any_solid(blocks)
                &&& after == if solid {
                    w.stored(key, cp, blocks)
                } else {
                    w.vacated(key, cp)
                }
            }
    } else {
        !solid && after == w.vacated(key, cp)
    }
}

/// What carries a player whose feet touch the world voxels `probes`, from
/// probe `i` on: the first probe inside a block decides, by the body whose
/// block it is.
pub open spec fn carried<H, O, G, F: Fn(Asteroid<G>, IVec3) -> u8>(
    w: WorldState<H, O, G>,
    gen: F,
    probes: Seq<IVec3>,
    i: int,
    d: IVec3,
) -> bool
    decreases probes.len() - i,
{
    if i < 0 || i >= probes.len() {
        d == origin()
    } else {
        exists|o: Option<(NearBody<G>, IVec3)>| #[trigger]
            owned(w, gen, probes[i], o) && match o {
                Some((nb, _)) => d == w.step_of(nb.key),
                None => carried(w, gen, probes, i + 1, d),
            }
    }
}

impl<H, O, G> WorldState<H, O, G> {
    /// How far a body moved this frame, in voxels.
    pub open spec fn step_of(self, key: IVec3) -> IVec3 {
        if self.motion.contains_key(key) {
            self.motion[key].delta
        } else {
            origin()
        }
    }
}

} // verus!
