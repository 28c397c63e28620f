//! The mining laser at work: heat, the block in the beam, and what becomes of
//! it.
//!
//! Hit points are `H`; how a block wears is the caller's.
use crate::blocks::{AIR, BARRIER};
use crate::body::{Asteroid, NearBody};
use crate::ivec::IVec3;
use crate::player::{beam_on, heat_of, laser_step, strike, switched, Beam, LaserState};
use crate::state::{addressed, body_answers, owns, pure, seen, WorldState};
use crate::storage::{
    law_block_is_determined, law_removal_clears_the_voxel, law_removal_spares_the_rest,
    lemma_block_is_addressed, lemma_owner_is_unique,
};
use crate::world::VoxelWorld;
use vstd::prelude::*;

verus! {

/// The block in the beam.
#[derive(Clone, Copy, PartialEq, Eq, Structural, Debug)]
pub struct Struck {
    pub voxel: IVec3,
    pub id: u8,
    pub tier: i32,
    pub species: u8,
}

/// What the beam did this frame.
#[derive(Clone, Copy)]
pub enum Mined<H> {
    /// Nothing is in reach.
    Nothing,
    /// A block was looked at; `noted` is what remains of it, if it was ever
    /// worn.
    Looked { at: Struck, noted: Option<H> },
    /// A block was worn down to `left`.
    Worn { at: Struck, left: H },
    /// A block broke.
    Broken { at: Struck },
}

/// A frame of mining.
#[derive(Clone, Copy)]
pub struct MiningFrame<H> {
    pub laser: LaserState,
    /// The laser overheated just now.
    pub overheated: bool,
    pub mined: Mined<H>,
}

/// Block `b` of the `i`-th nearby body as the beam finds it.
pub open spec fn found<H, O, G>(w: WorldState<H, O, G>, v: IVec3, i: int, b: u8) -> Struck {
    Struck { voxel: v, id: b, tier: w.near[i].a.tier, species: w.near[i].a.species }
}

/// The beam on block `b` of the `i`-th nearby body: a lit one wears it, unless
/// it is a barrier, and breaks it when nothing remains. `burn` gets the block's
/// id, its tier and what remained, and tells what remains now and whether that
/// is nothing.
pub open spec fn beamed<
    H,
    O,
    G,
    F: Fn(Asteroid<G>, IVec3) -> u8,
    B: Fn(u8, i32, Option<H>) -> (H, bool),
>(
    w: WorldState<H, O, G>,
    gen: F,
    v: IVec3,
    i: int,
    b: u8,
    firing: bool,
    burn: B,
    after: WorldState<H, O, G>,
    m: Mined<H>,
) -> bool {
    let at = found(w, v, i, b);
    let place = w.near[i].place(v);
    if firing && b != BARRIER {
        exists|r: (H, bool)| #[trigger]
            burn.ensures((b, at.tier, w.damage.get(place)), r) && if r.1 {
                m == Mined::<H>::Broken { at } && after == w.removed(gen, v)
            } else {
                m == (Mined::Worn { at, left: r.0 }) && after == (WorldState {
                    damage: w.damage.insert(place, r.0),
                    ..w
                })
            }
    } else {
        m == (Mined::Looked { at, noted: w.damage.get(place) }) && after == w
    }
}

/// What the beam did to the block at the end of the look ray, if there is one.
pub open spec fn mined<
    H,
    O,
    G,
    F: Fn(Asteroid<G>, IVec3) -> u8,
    B: Fn(u8, i32, Option<H>) -> (H, bool),
>(
    w: WorldState<H, O, G>,
    gen: F,
    hit: Option<IVec3>,
    firing: bool,
    burn: B,
    after: WorldState<H, O, G>,
    m: Mined<H>,
) -> bool {
    match hit {
        None => m is Nothing && after == w,
        Some(v) => if m is Nothing {
            seen(w, gen, v, AIR) && after == w
        } else {
            exists|i: int, b: u8| #[trigger]
                owns(w, gen, v, i, b) && beamed(w, gen, v, i, b, firing, burn, after, m)
        },
    }
}

/// A frame of mining: the laser's switches follow its heat, then the beam does
/// its work on the block at `hit`.
pub fn mining<
    H: Copy,
    O: Copy,
    G: Copy,
    F: Fn(Asteroid<G>, IVec3) -> u8,
    B: Fn(u8, i32, Option<H>) -> (H, bool),
>(
    world: &mut VoxelWorld<H, O, G>,
    gen: &F,
    laser: LaserState,
    trigger: bool,
    cooled: bool,
    saturated: bool,
    hit: Option<IVec3>,
    burn: &B,
) -> (r: MiningFrame<H>)
    requires
        old(world)@.wf(),
        pure(*gen),
        forall|id: u8, tier: i32, left: Option<H>| #[trigger] burn.requires((id, tier, left)),
    ensures
        final(world)@.wf(),
        ({
            let h = heat_of(laser.locked, trigger);
            &&& r.laser == switched(laser, h, cooled, saturated)
            &&& r.overheated == (h is Rises && saturated)
        }),
        mined(old(world)@, *gen, hit, r.laser.firing, *burn, final(world)@, r.mined),
        r.laser.firing == (trigger && !laser.locked && !saturated),
        r.overheated == (trigger && !laser.locked && saturated),
        r.laser.locked == if laser.locked {
            !cooled
        } else {
            trigger && saturated
        },
        hit is None ==> r.mined is Nothing,
        forall|v: IVec3, i: int, b: u8|
            hit == Some(v) && #[trigger] owns(old(world)@, *gen, v, i, b) ==> if r.laser.firing && b
                != BARRIER {
                r.mined is Worn || r.mined is Broken
            } else {
                r.mined is Looked && final(world)@ == old(world)@
            },
{
    let (after, overheated) = laser_step(laser, trigger, cooled, saturated);
    let v = match hit {
        Some(v) => v,
        None => {
            return MiningFrame { laser: after, overheated, mined: Mined::Nothing };
        },
    };
    let (i, id) = match world.look(v, gen) {
        Some(found) => found,
        None => {
            proof {
                assert forall|j: int, b: u8| !#[trigger] owns(world@, *gen, v, j, b) by {
                    if owns(world@, *gen, v, j, b) {
                        assert(seen(world@, *gen, v, b));
                        law_block_is_determined(world@, *gen, v, AIR, b);
                    }
                }
            }
            return MiningFrame { laser: after, overheated, mined: Mined::Nothing };
        },
    };
    let ghost before = world@;
    assert(owns(before, *gen, v, i as int, id));
    let a = world.nearby()[i].a;
    let at = Struck { voxel: v, id, tier: a.tier, species: a.species };
    let left = world.damage_of(v, gen);
    proof {
        let p = choose|p: Option<(NearBody<G>, IVec3)>| #[trigger]
            addressed(before, *gen, v, p) && left == match p {
                Some((nb, g)) => before.damage.get((nb.key, g)),
                None => None,
            };
        lemma_block_is_addressed(before, *gen, v, i as int, id, p);
    }
    let m = if beam_on(id, after.firing) == Beam::Burns {
        let r = burn(id, a.tier, left);
        assert(burn.ensures((id, at.tier, before.damage.get(before.near[i as int].place(v))), r));
        strike(world, v, r.0, r.1, gen);
        if r.1 {
            Mined::Broken { at }
        } else {
            proof {
                let p = choose|p: Option<(NearBody<G>, IVec3)>| #[trigger]
                    addressed(before, *gen, v, p) && world@ == match p {
                        Some((nb, g)) => WorldState {
                            damage: before.damage.insert((nb.key, g), r.0),
                            ..before
                        },
                        None => before,
                    };
                lemma_block_is_addressed(before, *gen, v, i as int, id, p);
            }
            Mined::Worn { at, left: r.0 }
        }
    } else {
        Mined::Looked { at, noted: left }
    };
    assert(beamed(before, *gen, v, i as int, id, after.firing, *burn, world@, m));
    proof {
        assert forall|j: int, b: u8| #[trigger] owns(before, *gen, v, j, b) implies b == id by {
            lemma_owner_is_unique(before, *gen, v, i as int, id, j, b);
        }
    }
    MiningFrame { laser: after, overheated, mined: m }
}

/// A lit beam always bites: whatever block it lands on, short of a barrier, is
/// worn or broken, by what `burn` said of that block and of what was left of
/// it. A worn block stands, with its new wear noted; a broken one leaves air.
pub proof fn law_lit_beam_bites<
    H,
    O,
    G,
    F: Fn(Asteroid<G>, IVec3) -> u8,
    B: Fn(u8, i32, Option<H>) -> (H, bool),
>(
    w: WorldState<H, O, G>,
    gen: F,
    v: IVec3,
    i: int,
    b: u8,
    burn: B,
    after: WorldState<H, O, G>,
    m: Mined<H>,
)
    requires
        w.wf(),
        pure(gen),
        mined(w, gen, Some(v), true, burn, after, m),
        owns(w, gen, v, i, b),
        b != BARRIER,
    ensures
        m is Worn || m is Broken,
        exists|r: (H, bool)| #[trigger]
            burn.ensures((b, w.near[i].a.tier, w.damage.get(w.near[i].place(v))), r) && if r.1 {
                m == (Mined::<H>::Broken {
                    at: Struck {
                        voxel: v,
                        id: b,
                        tier: w.near[i].a.tier,
                        species: w.near[i].a.species,
                    },
                })
            } else {
                m == (Mined::Worn {
                    at: Struck {
                        voxel: v,
                        id: b,
                        tier: w.near[i].a.tier,
                        species: w.near[i].a.species,
                    },
                    left: r.0,
                })
            },
        m is Broken ==> forall|x: u8| #[trigger] seen(after, gen, v, x) ==> x == AIR,
        m matches Mined::Worn { at, left } ==> after.damage.contains_key(w.near[i].place(v))
            && after.damage[w.near[i].place(v)] == left && owns(after, gen, v, i, b),
{
    lemma_finds_the_owner(w, gen, v, i, b, true, burn, after, m);
    if m is Broken {
        assert forall|x: u8| #[trigger] seen(after, gen, v, x) implies x == AIR by {
            law_removal_clears_the_voxel(w, gen, v, x);
        }
    } else {
        assert forall|j: int, x: u8| 0 <= j < w.near.len() implies #[trigger] body_answers(
            after,
            gen,
            w.near[j],
            v,
            x,
        ) == body_answers(w, gen, w.near[j], v, x) by {}
    }
}

/// The beam does its work on the block that is seen, whoever looks.
proof fn lemma_finds_the_owner<
    H,
    O,
    G,
    F: Fn(Asteroid<G>, IVec3) -> u8,
    B: Fn(u8, i32, Option<H>) -> (H, bool),
>(
    w: WorldState<H, O, G>,
    gen: F,
    v: IVec3,
    i: int,
    b: u8,
    firing: bool,
    burn: B,
    after: WorldState<H, O, G>,
    m: Mined<H>,
)
    requires
        pure(gen),
        mined(w, gen, Some(v), firing, burn, after, m),
        owns(w, gen, v, i, b),
    ensures
        beamed(w, gen, v, i, b, firing, burn, after, m),
{
    if m is Nothing {
        assert(seen(w, gen, v, b));
        law_block_is_determined(w, gen, v, AIR, b);
    } else {
        let (j, c) = choose|j: int, c: u8| #[trigger]
            owns(w, gen, v, j, c) && beamed(w, gen, v, j, c, firing, burn, after, m);
        lemma_owner_is_unique(w, gen, v, i, b, j, c);
    }
}

/// What is in the beam is reported: a block that the beam lands on and does not
/// wear is looked at, with what is left of it; where there is air, or nothing in
/// reach, nothing is.
pub proof fn law_beam_reports_what_it_meets<
    H,
    O,
    G,
    F: Fn(Asteroid<G>, IVec3) -> u8,
    B: Fn(u8, i32, Option<H>) -> (H, bool),
>(
    w: WorldState<H, O, G>,
    gen: F,
    v: IVec3,
    i: int,
    b: u8,
    firing: bool,
    burn: B,
    after: WorldState<H, O, G>,
    m: Mined<H>,
)
    requires
        pure(gen),
        mined(w, gen, Some(v), firing, burn, after, m),
        owns(w, gen, v, i, b),
    ensures
        !(m is Nothing),
        m is Looked <==> !firing || b == BARRIER,
        m is Looked ==> after == w && m == (Mined::Looked {
            at: Struck { voxel: v, id: b, tier: w.near[i].a.tier, species: w.near[i].a.species },
            noted: w.damage.get(w.near[i].place(v)),
        }),
{
    lemma_finds_the_owner(w, gen, v, i, b, firing, burn, after, m);
}

/// The trigger works: an unlocked laser fires while it is held, until its heat
/// saturates; released or locked it does not.
pub proof fn law_trigger_fires(s: LaserState, trigger: bool, cooled: bool, saturated: bool)
    ensures
        ({
            let after = switched(s, heat_of(s.locked, trigger), cooled, saturated);
            &&& after.firing <==> trigger && !s.locked && !saturated
            &&& !s.locked ==> (after.locked <==> trigger && saturated)
            &&& s.locked ==> (after.locked <==> !cooled)
        }),
{
}

/// A dark beam changes nothing: without fire the world stays as it is.
pub proof fn law_dark_beam_changes_nothing<
    H,
    O,
    G,
    F: Fn(Asteroid<G>, IVec3) -> u8,
    B: Fn(u8, i32, Option<H>) -> (H, bool),
>(
    w: WorldState<H, O, G>,
    gen: F,
    hit: Option<IVec3>,
    burn: B,
    after: WorldState<H, O, G>,
    m: Mined<H>,
)
    requires
        mined(w, gen, hit, false, burn, after, m),
    ensures
        after == w,
        !(m is Worn),
        !(m is Broken),
{
}

/// Barriers resist: no beam wears or breaks one.
pub proof fn law_barriers_resist<
    H,
    O,
    G,
    F: Fn(Asteroid<G>, IVec3) -> u8,
    B: Fn(u8, i32, Option<H>) -> (H, bool),
>(
    w: WorldState<H, O, G>,
    gen: F,
    hit: Option<IVec3>,
    firing: bool,
    burn: B,
    after: WorldState<H, O, G>,
    m: Mined<H>,
)
    requires
        mined(w, gen, hit, firing, burn, after, m),
    ensures
        m matches Mined::Broken { at } ==> at.id != BARRIER,
        m matches Mined::Worn { at, left } ==> at.id != BARRIER,
        m is Nothing || m is Looked ==> after == w,
{
}

/// A broken block is gone: its voxel is air from then on, and no other voxel
/// changes.
pub proof fn law_broken_block_is_gone<
    H,
    O,
    G,
    F: Fn(Asteroid<G>, IVec3) -> u8,
    B: Fn(u8, i32, Option<H>) -> (H, bool),
>(
    w: WorldState<H, O, G>,
    gen: F,
    hit: Option<IVec3>,
    firing: bool,
    burn: B,
    after: WorldState<H, O, G>,
    at: Struck,
    u: IVec3,
    b: u8,
)
    requires
        w.wf(),
        mined(w, gen, hit, firing, burn, after, Mined::Broken { at }),
    ensures
        hit == Some(at.voxel),
        u == at.voxel && seen(after, gen, u, b) ==> b == AIR,
        u != at.voxel ==> seen(after, gen, u, b) == seen(w, gen, u, b),
{
    if u == at.voxel {
        if seen(after, gen, u, b) {
            law_removal_clears_the_voxel(w, gen, u, b);
        }
    } else {
        law_removal_spares_the_rest(w, gen, at.voxel, u, b);
    }
}

/// Mining moves nothing: bodies, the nearby list and the day's seed stay, and
/// only a broken block changes what is dug or stored.
pub proof fn law_mining_moves_nothing<
    H,
    O,
    G,
    F: Fn(Asteroid<G>, IVec3) -> u8,
    B: Fn(u8, i32, Option<H>) -> (H, bool),
>(
    w: WorldState<H, O, G>,
    gen: F,
    hit: Option<IVec3>,
    firing: bool,
    burn: B,
    after: WorldState<H, O, G>,
    m: Mined<H>,
)
    requires
        mined(w, gen, hit, firing, burn, after, m),
    ensures
        after.motion == w.motion,
        after.near == w.near,
        after.salt == w.salt,
        m is Broken || (after.edits == w.edits && after.chunks == w.chunks),
        m is Worn || m is Broken || after.damage == w.damage,
{
}

} // verus!
