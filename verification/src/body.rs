//! Bodies of the field: belt asteroids, planets, and the home rock.
use crate::ivec::{lemma_view_injective, IVec3, Point};
use vstd::prelude::*;

verus! {

/// An asteroid or a planet.
#[derive(Clone, Copy)]
pub struct Asteroid<G> {
    pub seed: u64,
    /// Difficulty tier from distance to home.
    pub tier: i32,
    /// Visual identity: row of the rock tables.
    pub species: u8,
    /// One of the big landable worlds.
    pub is_planet: bool,
    /// Where it is and how it bulges.
    pub shape: G,
}

/// A body's displacement. `offset` is smooth and drives the mesh root;
/// `off_vox` is the whole-voxel version that storage and collision use;
/// `delta` is how far the whole-voxel position moved this frame.
#[derive(Clone, Copy)]
pub struct BodyMotion<O> {
    pub offset: O,
    pub off_vox: IVec3,
    pub delta: IVec3,
    pub eaten: bool,
    pub backfilled: bool,
}

/// A body within interaction range, with its world-to-gen mapping.
#[derive(Clone, Copy)]
pub struct NearBody<G> {
    pub key: IVec3,
    pub a: Asteroid<G>,
    /// Whole-voxel offset from gen space to the world.
    pub off_vox: IVec3,
    /// Gen-space bounding box, both corners included.
    pub vmin: IVec3,
    pub vmax: IVec3,
}

impl<G> NearBody<G> {
    pub fn new(key: IVec3, a: Asteroid<G>, off_vox: IVec3, vmin: IVec3, vmax: IVec3) -> (nb: Self)
        ensures
            nb == (NearBody { key, a, off_vox, vmin, vmax }),
    {
        NearBody { key, a, off_vox, vmin, vmax }
    }

    /// The gen-space point behind a world voxel.
    pub open spec fn gen_point(self, v: IVec3) -> Point {
        v@.minus(self.off_vox@)
    }

    /// The gen-space voxel behind a world voxel that the box covers.
    pub open spec fn gen_voxel(self, v: IVec3) -> IVec3 {
        self.gen_point(v).lattice()
    }

    /// The place behind a world voxel: body and gen voxel.
    pub open spec fn place(self, v: IVec3) -> (IVec3, IVec3) {
        (self.key, self.gen_voxel(v))
    }

    /// Whether the body's box covers a world voxel.
    pub open spec fn covers(self, v: IVec3) -> bool {
        self.gen_point(v).within(self.vmin@, self.vmax@)
    }

    /// The gen-space voxel behind a world voxel, if the box covers it.
    pub fn locate(&self, v: IVec3) -> (r: Option<IVec3>)
        ensures
            r is Some <==> self.covers(v),
            r matches Some(g) ==> g == self.gen_voxel(v) && g@ == self.gen_point(v),
            r is Some <==> self.vmin.x <= v.x - self.off_vox.x <= self.vmax.x && self.vmin.y <= v.y
                - self.off_vox.y <= self.vmax.y && self.vmin.z <= v.z - self.off_vox.z
                <= self.vmax.z,
            r matches Some(g) ==> g.x + self.off_vox.x == v.x && g.y + self.off_vox.y == v.y && g.z
                + self.off_vox.z == v.z,
    {
        match v.checked_sub(self.off_vox) {
            Some(g) => {
                if g.within(self.vmin, self.vmax) {
                    proof {
                        lemma_view_injective(g, self.gen_voxel(v));
                    }
                    Some(g)
                } else {
                    None
                }
            },
            None => None,
        }
    }
}

/// Planets have keys outside any reachable cell of the field, from here on
/// along x.
pub const PLANET_KEY_BASE: i32 = 1_000_000;

/// The day's number of planets.
pub const PLANET_COUNT: usize = 6;

/// Key of the `i`-th planet.
pub open spec fn planet_key_at(i: int) -> IVec3 {
    IVec3 { x: (PLANET_KEY_BASE + i) as i32, y: 0, z: 0 }
}

/// Key of the `i`-th planet.
pub fn planet_key(i: usize) -> (k: IVec3)
    requires
        PLANET_KEY_BASE + i <= i32::MAX,
    ensures
        k == planet_key_at(i as int),
        k.x == PLANET_KEY_BASE + i && k.y == 0 && k.z == 0,
{
    IVec3::new(PLANET_KEY_BASE + i as i32, 0, 0)
}

/// What a body key names.
#[derive(Clone, Copy, PartialEq, Eq, Structural, Debug)]
pub enum BodyKind {
    /// The planet at this position of the day's list.
    Planet(usize),
    /// Whatever the field cell of that key holds.
    Cell,
}

/// What a body key names.
pub open spec fn kind_of(key: IVec3) -> BodyKind {
    if key.x >= PLANET_KEY_BASE {
        BodyKind::Planet((key.x - PLANET_KEY_BASE) as usize)
    } else {
        BodyKind::Cell
    }
}

/// What a body key names: a planet if its x lies in the planets' range, else
/// a field cell.
pub fn body_kind(key: IVec3) -> (k: BodyKind)
    ensures
        k == kind_of(key),
        key.x < PLANET_KEY_BASE <==> k is Cell,
        key.x >= PLANET_KEY_BASE ==> k == BodyKind::Planet((key.x - PLANET_KEY_BASE) as usize),
{
    if key.x >= PLANET_KEY_BASE {
        BodyKind::Planet((key.x - PLANET_KEY_BASE) as usize)
    } else {
        BodyKind::Cell
    }
}

/// A body's box goes with it: it covers exactly the world voxels whose gen
/// voxel, which lies back by the body's offset, is in the box.
pub proof fn law_box_rides_the_offset<G>(nb: NearBody<G>, v: IVec3, g: IVec3)
    requires
        g.x + nb.off_vox.x == v.x,
        g.y + nb.off_vox.y == v.y,
        g.z + nb.off_vox.z == v.z,
    ensures
        nb.covers(v) <==> nb.vmin.x <= g.x <= nb.vmax.x && nb.vmin.y <= g.y <= nb.vmax.y
            && nb.vmin.z <= g.z <= nb.vmax.z,
        nb.gen_voxel(v) == g,
        nb.place(v) == (nb.key, g),
{
    lemma_view_injective(nb.gen_voxel(v), g);
}

/// Keys of planets start at their base, one after the other along x; all other
/// keys name field cells.
pub proof fn law_keys_of_planets(key: IVec3, i: int)
    ensures
        key.x < 1_000_000 <==> kind_of(key) is Cell,
        key.x >= 1_000_000 ==> kind_of(key) == BodyKind::Planet((key.x - 1_000_000) as usize),
        0 <= i <= i32::MAX - 1_000_000 ==> planet_key_at(i).x == 1_000_000 + i && planet_key_at(i).y
            == 0 && planet_key_at(i).z == 0,
{
}

/// A planet's key names that planet.
pub proof fn law_planet_key_names_its_planet(i: int)
    requires
        0 <= i <= i32::MAX - PLANET_KEY_BASE,
    ensures
        kind_of(planet_key_at(i)) == BodyKind::Planet(i as usize),
{
}

} // verus!
