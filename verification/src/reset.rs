//! The turn of the day: one frame of teardown and rebirth.
use crate::body::BodyMotion;
use crate::day::DayState;
use crate::economy::{Inventory, Stack, Wallet};
use crate::entities::{lists_roots, ChunkEntities, EntityTable};
use crate::ivec::IVec3;
use crate::lod::{built, lists_built, retired_cells, ImpostorState, Impostors, Retired};
use crate::player::LaserState;
use crate::state::WorldState;
use crate::world::VoxelWorld;
use vstd::prelude::*;

verus! {

/// What leaves the scene when a day ends.
pub struct Teardown<E> {
    /// Day that dawns.
    pub day: u32,
    /// Roots of all bodies on display.
    pub roots: Vec<(IVec3, E)>,
    /// Impostors of rocks.
    pub rocks: Vec<Retired<E>>,
    /// Impostors of planets.
    pub planets: Vec<E>,
}

/// A world with nothing in it.
pub open spec fn blank<H, O, G>(salt: u64) -> WorldState<H, O, G> {
    WorldState {
        chunks: Map::empty(),
        empty: Set::empty(),
        dirty: Set::empty(),
        damage: Map::empty(),
        edits: Map::empty(),
        motion: Map::empty(),
        near: Seq::empty(),
        salt,
    }
}

/// An impostor table with nothing in it.
pub open spec fn no_impostors<E>() -> ImpostorState<E> {
    ImpostorState {
        map: Map::empty(),
        queue: Seq::empty(),
        eaten: Set::empty(),
        planets: Seq::empty(),
        eaten_planets: Set::empty(),
    }
}

/// Carry out a pending reset: a fresh field for the new day, an empty scene,
/// empty pockets and a cold laser. Upgrades are not touched. Without a pending
/// reset nothing happens.
pub fn day_reset<H: Copy, O: Copy, G: Copy, E: Copy>(
    day: &mut DayState,
    world: &mut VoxelWorld<H, O, G>,
    entities: &mut ChunkEntities<E>,
    impostors: &mut Impostors<E>,
    wallet: &mut Wallet,
    inventory: &mut Inventory,
    laser: &mut LaserState,
) -> (t: Option<Teardown<E>>)
    requires
        old(world)@.wf(),
        old(day).pending_reset ==> old(day).day > 0,
        old(inventory).wf(),
    ensures
        final(world)@.wf(),
        final(inventory).wf(),
        t is Some <==> old(day).pending_reset,
        *final(day) == (DayState { pending_reset: false, ..*old(day) }),
        t is None ==> {
            &&& final(world)@ == old(world)@
            &&& final(entities)@ == old(entities)@
            &&& final(impostors)@ == old(impostors)@
            &&& *final(wallet) == *old(wallet)
            &&& *final(inventory) == *old(inventory)
            &&& *final(laser) == *old(laser)
        },
        t matches Some(d) ==> {
            &&& d.day == old(day).day
            &&& final(world)@ == blank::<H, O, G>((old(day).day - 1) as u64)
            &&& final(entities)@ == (EntityTable::<E> { map: Map::empty(), roots: Map::empty() })
            &&& final(impostors)@ == no_impostors::<E>()
            &&& final(world)@.chunks == Map::<(IVec3, IVec3), Seq<u8>>::empty()
            &&& final(world)@.empty == Set::<(IVec3, IVec3)>::empty()
            &&& final(world)@.dirty == Set::<(IVec3, IVec3)>::empty()
            &&& final(world)@.edits == Map::<(IVec3, IVec3), u8>::empty()
            &&& final(world)@.damage == Map::<(IVec3, IVec3), H>::empty()
            &&& final(world)@.motion == Map::<IVec3, BodyMotion<O>>::empty()
            &&& final(world)@.near.len() == 0
            &&& final(world)@.salt == old(day).day - 1
            &&& final(impostors)@.map == Map::<IVec3, Option<E>>::empty()
            &&& final(impostors)@.queue.len() == 0
            &&& final(impostors)@.eaten == Set::<IVec3>::empty()
            &&& final(impostors)@.planets.len() == 0
            &&& final(impostors)@.eaten_planets == Set::<IVec3>::empty()
            &&& final(wallet).money == 0
            &&& final(inventory)@ == Seq::<Stack>::empty()
            &&& final(inventory).load() == 0
            &&& *final(laser) == (LaserState { firing: false, locked: false })
            &&& d.planets@ == old(impostors)@.planets
            &&& lists_built(old(impostors)@.map, d.rocks@)
            &&& forall|c: IVec3| #[trigger]
                retired_cells(d.rocks@).contains(c) <==> built(old(impostors)@.map, c)
            &&& lists_roots(old(entities)@.roots, d.roots@)
        },
{
    let salt = match day.take_reset() {
        Some(salt) => salt,
        None => {
            return None;
        },
    };
    world.reset_for_new_day(salt);
    let roots = entities.despawn_all();
    let (rocks, planets) = impostors.despawn_all();
    wallet.money = 0;
    inventory.clear();
    laser.firing = false;
    laser.locked = false;
    Some(Teardown { day: day.day, roots, rocks, planets })
}

} // verus!
