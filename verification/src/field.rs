//! The asteroid field: which cells hold a rock, and which rocks a query has to
//! look at.
//!
//! What is smooth about a body (where it is, how it bulges) is `G`, and comes
//! from the caller.
use crate::blocks::{AIR, ORE, REGOLITH, ROCK};
use crate::body::{
    body_kind, kind_of, planet_key, planet_key_at, Asteroid, BodyKind, PLANET_COUNT,
    PLANET_KEY_BASE,
};
use crate::cells::{cell_box, lists_box};
use crate::hash::{
    hash3, hash3_of, hash_unit, salted, salted_with, seed_unit, seed_unit_of, UNIT,
};
use crate::ivec::{origin, IVec3, Point};
use vstd::prelude::*;

verus! {

/// Least unit hash that leaves a cell empty: a share of 0.018 of the cells
/// hold a rock.
pub const EMPTY_FROM: u64 = 301_990;

/// Seed of the home rock.
pub const HOME_SEED: u64 = 0xCAFE_D00D;

/// One of -2, -1, 1, 2, never 0, from a unit hash.
pub open spec fn offset_pick(u: u64) -> int {
    let v = u as int / 0x40_0000 - 2;
    if v >= 0 {
        v + 1
    } else {
        v
    }
}

/// The cell that is bound to hold a starter rock on a given day.
pub open spec fn starter_of(salt: u64) -> Point {
    let s = salt.wrapping_add(0xB00B5);
    Point {
        x: offset_pick(seed_unit_of(s, 11)),
        y: offset_pick(seed_unit_of(s, 22)),
        z: offset_pick(seed_unit_of(s, 33)),
    }
}

fn pick(s: u64, k: u64) -> (v: i32)
    ensures
        v == offset_pick(seed_unit_of(s, k)),
        v == -2 || v == -1 || v == 1 || v == 2,
{
    let u: u64 = seed_unit(s, k);
    let v: i32 = (u / 0x40_0000) as i32 - 2;
    if v >= 0 {
        v + 1
    } else {
        v
    }
}

/// The cell that is bound to hold a starter rock on a given day. It is never
/// the home cell and never further than two cells from it.
pub fn starter_cell(salt: u64) -> (c: IVec3)
    ensures
        c@ == starter_of(salt),
        c != origin(),
        c@.within(Point { x: -2, y: -2, z: -2 }, Point { x: 2, y: 2, z: 2 }),
{
    let s: u64 = salt.wrapping_add(0xB00B5);
    IVec3::new(pick(s, 11), pick(s, 22), pick(s, 33))
}

/// What a cell of the field may hold.
#[derive(Clone, Copy, PartialEq, Eq, Structural, Debug)]
pub enum CellRoll {
    Home,
    Starter,
    Rock,
    Empty,
}

/// What a cell of the field may hold on a given day.
pub open spec fn roll_of(c: IVec3, salt: u64) -> CellRoll {
    if c == origin() {
        CellRoll::Home
    } else if c@ == starter_of(salt) {
        CellRoll::Starter
    } else if hash3_of(c, salted_with(0xF1E1D, salt)) >> 40 >= EMPTY_FROM {
        CellRoll::Empty
    } else {
        CellRoll::Rock
    }
}

/// What a cell of the field may hold on a given day.
pub fn cell_roll(c: IVec3, salt: u64) -> (r: CellRoll)
    ensures
        r == roll_of(c, salt),
        r is Home <==> c.x == 0 && c.y == 0 && c.z == 0,
        r is Rock ==> hash3_of(c, salted_with(0xF1E1D, salt)) >> 40 < 301_990,
        r is Empty ==> hash3_of(c, salted_with(0xF1E1D, salt)) >> 40 >= 301_990,
        r is Starter ==> -2 <= c.x <= 2 && c.x != 0 && -2 <= c.y <= 2 && c.y != 0 && -2 <= c.z <= 2
            && c.z != 0,
{
    if c == IVec3::zero() {
        return CellRoll::Home;
    }
    let s = starter_cell(salt);
    if c == s {
        CellRoll::Starter
    } else {
        proof {
            if c@ == s@ {
                crate::ivec::lemma_view_injective(c, s);
            }
        }
        if hash_unit(c, salted(0xF1E1D, salt)) >= EMPTY_FROM {
            CellRoll::Empty
        } else {
            CellRoll::Rock
        }
    }
}

/// Species that a seed draws.
pub open spec fn species_of(seed: u64) -> u8 {
    ((seed >> 17) % 8) as u8
}

/// Species that a seed draws.
pub fn species(seed: u64) -> (s: u8)
    ensures
        s == species_of(seed),
        s < 8,
{
    ((seed >> 17) % 8) as u8
}

/// A body with the statistics that follow from its seed.
pub open spec fn shaped_of<G>(seed: u64, tier: i32, is_planet: bool, shape: G) -> Asteroid<G> {
    Asteroid { seed, tier, species: species_of(seed), is_planet, shape }
}

/// A body with the statistics that follow from its seed.
pub fn shaped<G>(seed: u64, tier: i32, is_planet: bool, shape: G) -> (a: Asteroid<G>)
    ensures
        a == shaped_of(seed, tier, is_planet, shape),
        a.seed == seed,
        a.tier == tier,
        a.species == (seed >> 17) % 8,
        a.is_planet == is_planet,
        a.shape == shape,
{
    Asteroid { seed, tier, species: species(seed), is_planet, shape }
}

/// The home rock: fixed across days, so that the depot never moves.
pub open spec fn home_rock<G>(shape: G) -> Asteroid<G> {
    Asteroid { seed: HOME_SEED, tier: 0, species: 0, is_planet: false, shape }
}

/// `r` is what a field cell holds: the home rock at the origin; in the starter
/// cell a tier 0 rock in the shape that `first` gives it; elsewhere, if the cell
/// rolled a rock, what `fit` makes of it: its distance tier and shape, or `None`
/// where there is no room for it.
pub open spec fn in_cell<G, S: Fn(IVec3) -> G, F: Fn(IVec3) -> Option<(i32, G)>>(
    c: IVec3,
    salt: u64,
    home: G,
    first: S,
    fit: F,
    r: Option<Asteroid<G>>,
) -> bool {
    let seed = hash3_of(c, salted_with(0xA5, salt));
    match roll_of(c, salt) {
        CellRoll::Home => r == Some(home_rock(home)),
        CellRoll::Empty => r is None,
        CellRoll::Starter => exists|shape: G| #[trigger]
            first.ensures((c,), shape) && r == Some(shaped_of(seed, 0, false, shape)),
        CellRoll::Rock => exists|f: Option<(i32, G)>| #[trigger]
            fit.ensures((c,), f) && r == match f {
                Some((tier, shape)) => Some(shaped_of(seed, tier, false, shape)),
                None => None,
            },
    }
}

/// The asteroid that a field cell holds, if any. A starter rock is guaranteed:
/// its cell always holds one, of tier 0.
pub fn asteroid_in_cell<G, S: Fn(IVec3) -> G, F: Fn(IVec3) -> Option<(i32, G)>>(
    c: IVec3,
    salt: u64,
    home: G,
    first: &S,
    fit: &F,
) -> (r: Option<Asteroid<G>>)
    requires
        forall|c: IVec3| #[trigger] first.requires((c,)),
        forall|c: IVec3| #[trigger] fit.requires((c,)),
    ensures
        in_cell(c, salt, home, *first, *fit, r),
        roll_of(c, salt) is Starter ==> r is Some && r->0.tier == 0,
{
    match cell_roll(c, salt) {
        CellRoll::Home => Some(
            Asteroid { seed: HOME_SEED, tier: 0, species: 0, is_planet: false, shape: home },
        ),
        CellRoll::Empty => None,
        CellRoll::Starter => {
            let shape = first(c);
            let ghost told = shape;
            let r = Some(shaped(hash3(c, salted(0xA5, salt)), 0, false, shape));
            assert(first.ensures((c,), told));
            r
        },
        CellRoll::Rock => {
            let f = fit(c);
            let ghost told = f;
            let r = match f {
                Some((tier, shape)) => Some(
                    shaped(hash3(c, salted(0xA5, salt)), tier, false, shape),
                ),
                None => None,
            };
            assert(fit.ensures((c,), told));
            r
        },
    }
}

/// A starter rock is guaranteed every day: it lies in a cell within two cells
/// of home, never in home's own, and is of tier 0 whatever its shape.
pub proof fn law_starter_rock_is_guaranteed<G, S: Fn(IVec3) -> G, F: Fn(IVec3) -> Option<(i32, G)>>(
    salt: u64,
    home: G,
    first: S,
    fit: F,
    r: Option<Asteroid<G>>,
)
    requires
        in_cell(starter_of(salt).lattice(), salt, home, first, fit, r),
    ensures
        r is Some,
        r->0.tier == 0,
        first.ensures((starter_of(salt).lattice(),), r->0.shape),
        starter_of(salt).within(Point { x: -2, y: -2, z: -2 }, Point { x: 2, y: 2, z: 2 }),
        starter_of(salt).x != 0,
        starter_of(salt).y != 0,
        starter_of(salt).z != 0,
{
    law_starter_cell_rolls_a_rock(salt);
    lemma_pick_bounds(seed_unit_of(salt.wrapping_add(0xB00B5), 11));
    lemma_pick_bounds(seed_unit_of(salt.wrapping_add(0xB00B5), 22));
    lemma_pick_bounds(seed_unit_of(salt.wrapping_add(0xB00B5), 33));
    lemma_seed_unit_bound(salt.wrapping_add(0xB00B5), 11);
    lemma_seed_unit_bound(salt.wrapping_add(0xB00B5), 22);
    lemma_seed_unit_bound(salt.wrapping_add(0xB00B5), 33);
}

/// A cell is what its roll makes it: home at the origin and nowhere else; the
/// starter's cell; and elsewhere a rock or nothing, by the cell's hash alone, a
/// share of 0.018 of them a rock.
pub proof fn law_cells_are_rolled(c: IVec3, salt: u64)
    ensures
        roll_of(c, salt) is Home <==> c.x == 0 && c.y == 0 && c.z == 0,
        roll_of(c, salt) is Starter <==> c@ == starter_of(salt),
        c@ != starter_of(salt) && (c.x != 0 || c.y != 0 || c.z != 0) ==> (roll_of(c, salt) is Rock
            <==> hash3_of(c, salted_with(0xF1E1D, salt)) >> 40 < 301_990),
        c@ != starter_of(salt) && (c.x != 0 || c.y != 0 || c.z != 0) ==> (roll_of(c, salt) is Empty
            <==> hash3_of(c, salted_with(0xF1E1D, salt)) >> 40 >= 301_990),
{
    law_starter_cell_rolls_a_rock(salt);
    if c.x == 0 && c.y == 0 && c.z == 0 {
        assert(c == origin());
    }
}

/// A cell holds what its roll and the room around it allow: home the home rock,
/// the same every day; the starter's cell a rock of tier 0; a rolled cell the
/// rock that fits, of the tier found for it, and none if none does; an empty
/// cell nothing. Everything else about a rock follows from its cell and the day.
pub proof fn law_cells_hold_what_they_rolled<G, S: Fn(IVec3) -> G, F: Fn(IVec3) -> Option<(i32, G)>>(
    c: IVec3,
    salt: u64,
    home: G,
    first: S,
    fit: F,
    r: Option<Asteroid<G>>,
)
    requires
        in_cell(c, salt, home, first, fit, r),
    ensures
        c.x == 0 && c.y == 0 && c.z == 0 ==> r == Some(
            Asteroid { seed: HOME_SEED, tier: 0, species: 0, is_planet: false, shape: home },
        ),
        roll_of(c, salt) is Empty ==> r is None,
        roll_of(c, salt) is Starter ==> r is Some && r->0.tier == 0 && first.ensures(
            (c,),
            r->0.shape,
        ),
        roll_of(c, salt) is Rock ==> match r {
            Some(a) => fit.ensures((c,), Some((a.tier, a.shape))),
            None => fit.ensures((c,), None),
        },
        r is Some && (c.x != 0 || c.y != 0 || c.z != 0) ==> r->0.seed == hash3_of(
            c,
            salted_with(0xA5, salt),
        ) && r->0.species == (r->0.seed >> 17) % 8 && !r->0.is_planet,
{
    if c.x == 0 && c.y == 0 && c.z == 0 {
        assert(c == origin());
    }
    if roll_of(c, salt) is Rock {
        let f = choose|f: Option<(i32, G)>| #[trigger]
            fit.ensures((c,), f) && r == match f {
                Some((tier, shape)) => Some(
                    shaped_of(hash3_of(c, salted_with(0xA5, salt)), tier, false, shape),
                ),
                None => None,
            };
        assert(fit.ensures((c,), f));
        if let Some((tier, shape)) = f {
            assert(f == Some((tier, shape)));
        }
    }
}

/// The field is deterministic: a cell holds the same rock whenever it is asked
/// for on one day, as long as the functions that shape rocks are pure.
pub proof fn law_field_is_deterministic<G, S: Fn(IVec3) -> G, F: Fn(IVec3) -> Option<(i32, G)>>(
    c: IVec3,
    salt: u64,
    home: G,
    first: S,
    fit: F,
    r: Option<Asteroid<G>>,
    q: Option<Asteroid<G>>,
)
    requires
        forall|x: G, y: G| #[trigger]
            first.ensures((c,), x) && #[trigger] first.ensures((c,), y) ==> x == y,
        forall|x: Option<(i32, G)>, y: Option<(i32, G)>| #[trigger]
            fit.ensures((c,), x) && #[trigger] fit.ensures((c,), y) ==> x == y,
        in_cell(c, salt, home, first, fit, r),
        in_cell(c, salt, home, first, fit, q),
    ensures
        r == q,
{
}

/// The starter cell never rolls empty, and neither does home: a day without a
/// first target is impossible.
pub proof fn law_starter_cell_rolls_a_rock(salt: u64)
    ensures
        starter_of(salt) != origin()@,
        roll_of(starter_of(salt).lattice(), salt) == CellRoll::Starter,
        roll_of(origin(), salt) == CellRoll::Home,
{
    lemma_pick_bounds(seed_unit_of(salt.wrapping_add(0xB00B5), 11));
    lemma_pick_bounds(seed_unit_of(salt.wrapping_add(0xB00B5), 22));
    lemma_pick_bounds(seed_unit_of(salt.wrapping_add(0xB00B5), 33));
    lemma_seed_unit_bound(salt.wrapping_add(0xB00B5), 11);
    lemma_seed_unit_bound(salt.wrapping_add(0xB00B5), 22);
    lemma_seed_unit_bound(salt.wrapping_add(0xB00B5), 33);
    crate::ivec::lemma_lattice_view(starter_of(salt));
}

proof fn lemma_seed_unit_bound(seed: u64, k: u64)
    ensures
        seed_unit_of(seed, k) < UNIT,
{
    let x = crate::hash::mixed(seed ^ k.wrapping_mul(0x9E37_79B9_7F4A_7C15));
    assert(x >> 40 < 0x100_0000) by (bit_vector);
}

proof fn lemma_pick_bounds(u: u64)
    ensures
        u < UNIT ==> -2 <= offset_pick(u) <= 2,
        offset_pick(u) != 0,
{
}

/// Seed of the `i`-th planet on a given day.
pub open spec fn planet_seed_of(i: int, salt: u64) -> u64 {
    hash3_of(
        Point { x: i + 11, y: 47, z: -23 }.lattice(),
        salt.wrapping_mul(0x9E37_79B9_7F4A_7C15) ^ 0x7AB1E7,
    )
}

/// Tier of the `i`-th planet: 12 for the innermost, falling to 4, eight tiers
/// over five gaps rounded to the nearest.
pub open spec fn planet_tier_of(i: int) -> int {
    12 - (16 * i + 5) / 10
}

/// The planets of a day, shaped by `orbit` from position and seed.
pub open spec fn planets_of<G, F: Fn(usize, u64) -> G>(
    salt: u64,
    orbit: F,
    n: int,
    planets: Seq<Asteroid<G>>,
) -> bool {
    &&& planets.len() == n
    &&& forall|i: int|
        0 <= i < n ==> (#[trigger] planets[i]) == shaped_of(
            planet_seed_of(i, salt),
            planet_tier_of(i) as i32,
            true,
            planets[i].shape,
        ) && orbit.ensures((i as usize, planet_seed_of(i, salt)), planets[i].shape)
}

/// The day's planets. Index 0 is the innermost orbit.
pub fn build_planets<G, F: Fn(usize, u64) -> G>(salt: u64, orbit: &F) -> (planets: Vec<Asteroid<G>>)
    requires
        forall|i: usize, seed: u64| #[trigger] orbit.requires((i, seed)),
    ensures
        planets_of(salt, *orbit, PLANET_COUNT as int, planets@),
{
    let mut planets: Vec<Asteroid<G>> = Vec::new();
    let mut i: usize = 0;
    while i < PLANET_COUNT
        invariant
            i <= PLANET_COUNT,
            forall|i: usize, seed: u64| #[trigger] orbit.requires((i, seed)),
            planets_of(salt, *orbit, i as int, planets@),
        decreases PLANET_COUNT - i,
    {
        let v = IVec3::new(i as i32 + 11, 47, -23);
        assert(v == Point { x: i + 11, y: 47, z: -23 }.lattice());
        let seed: u64 = hash3(v, salt.wrapping_mul(0x9E37_79B9_7F4A_7C15) ^ 0x7AB1E7);
        let tier: i32 = 12 - (16 * i as i32 + 5) / 10;
        let shape = orbit(i, seed);
        planets.push(shaped(seed, tier, true, shape));
        i += 1;
    }
    planets
}

/// The endgame lives closest to the star: tiers fall with the orbit, from 12
/// to 4.
pub proof fn law_planet_tiers_fall(i: int, j: int)
    requires
        0 <= i < j < PLANET_COUNT,
    ensures
        planet_tier_of(j) < planet_tier_of(i),
        planet_tier_of(0) == 12,
        planet_tier_of(PLANET_COUNT - 1) == 4,
{
}

/// A starter's cell is drawn evenly: each coordinate is -2, -1, 1 or 2, by the
/// quarter that its unit hash falls in.
pub proof fn law_starter_coordinates_are_quarters(u: u64)
    requires
        u < 0x100_0000,
    ensures
        offset_pick(u) == -2 <==> u < 0x40_0000,
        offset_pick(u) == -1 <==> 0x40_0000 <= u < 0x80_0000,
        offset_pick(u) == 1 <==> 0x80_0000 <= u < 0xC0_0000,
        offset_pick(u) == 2 <==> 0xC0_0000 <= u,
{
}

/// The starter's cell is drawn from the day: each coordinate from its own draw.
pub proof fn law_starter_is_drawn_from_the_day(salt: u64)
    ensures
        starter_of(salt).x == offset_pick(seed_unit_of(salt.wrapping_add(0xB00B5), 11)),
        starter_of(salt).y == offset_pick(seed_unit_of(salt.wrapping_add(0xB00B5), 22)),
        starter_of(salt).z == offset_pick(seed_unit_of(salt.wrapping_add(0xB00B5), 33)),
{
}

/// No two planets of a day are alike: each has a seed of its own.
pub proof fn law_planets_have_their_own_seeds(i: int, j: int, salt: u64)
    requires
        0 <= i < PLANET_COUNT,
        0 <= j < PLANET_COUNT,
        planet_seed_of(i, salt) == planet_seed_of(j, salt),
    ensures
        i == j,
{
    crate::hash::law_cells_hash_apart(
        Point { x: i + 11, y: 47, z: -23 }.lattice(),
        Point { x: j + 11, y: 47, z: -23 }.lattice(),
        salt.wrapping_mul(0x9E37_79B9_7F4A_7C15) ^ 0x7AB1E7,
    );
}

/// No two rocks of a day are alike either: bodies of two cells within a million
/// of home have seeds of their own.
pub proof fn law_rocks_have_their_own_seeds(a: IVec3, b: IVec3, salt: u64)
    requires
        -0x10_0000 <= a.x < 0x10_0000,
        -0x10_0000 <= a.y < 0x10_0000,
        -0x10_0000 <= a.z < 0x10_0000,
        -0x10_0000 <= b.x < 0x10_0000,
        -0x10_0000 <= b.y < 0x10_0000,
        -0x10_0000 <= b.z < 0x10_0000,
        hash3_of(a, salted_with(0xA5, salt)) == hash3_of(b, salted_with(0xA5, salt)),
    ensures
        a == b,
{
    crate::hash::law_cells_hash_apart(a, b, salted_with(0xA5, salt));
}

/// Every day has its six planets, each of its own orbit's tier, with species and
/// shape drawn from its seed.
pub proof fn law_planets_of_the_day<G, F: Fn(usize, u64) -> G>(
    salt: u64,
    orbit: F,
    planets: Seq<Asteroid<G>>,
    i: int,
)
    requires
        planets_of(salt, orbit, PLANET_COUNT as int, planets),
        0 <= i < PLANET_COUNT,
    ensures
        planets.len() == 6,
        planets[i].is_planet,
        planets[i].seed == planet_seed_of(i, salt),
        planets[i].species == (planets[i].seed >> 17) % 8,
        planets[i].tier == 12 - (16 * i + 5) / 10,
        orbit.ensures((i as usize, planets[i].seed), planets[i].shape),
{
    assert(planets[i] == shaped_of(
        planet_seed_of(i, salt),
        planet_tier_of(i) as i32,
        true,
        planets[i].shape,
    ));
}

/// The body that a key names: a planet of the day's list, or what `look` finds
/// in the field cell.
pub fn body_by_key<G: Copy, F: Fn(IVec3) -> Option<Asteroid<G>>>(
    key: IVec3,
    planets: &Vec<Asteroid<G>>,
    look: &F,
) -> (r: Option<Asteroid<G>>)
    requires
        forall|c: IVec3| #[trigger] look.requires((c,)),
    ensures
        match kind_of(key) {
            BodyKind::Planet(i) => r == if i < planets.len() {
                Some(planets@[i as int])
            } else {
                None
            },
            BodyKind::Cell => look.ensures((key,), r),
        },
        key.x < 1_000_000 ==> look.ensures((key,), r),
        key.x >= 1_000_000 ==> r == if key.x - 1_000_000 < planets.len() {
            Some(planets@[key.x - 1_000_000])
        } else {
            None
        },
{
    match body_kind(key) {
        BodyKind::Planet(i) => {
            if i < planets.len() {
                Some(planets[i])
            } else {
                None
            }
        },
        BodyKind::Cell => look(key),
    }
}

/// A body with its key.
#[derive(Clone, Copy)]
pub struct Keyed<G> {
    pub key: IVec3,
    pub a: Asteroid<G>,
}

/// `r` is what looking at one cell adds to a list of overlapping bodies: the
/// body in it, if there is one and it reaches the region.
pub open spec fn cell_hit<G, L: Fn(IVec3) -> Option<Asteroid<G>>, T: Fn(Asteroid<G>) -> bool>(
    look: L,
    touches: T,
    c: IVec3,
    r: Option<Keyed<G>>,
) -> bool {
    exists|found: Option<Asteroid<G>>| #[trigger]
        look.ensures((c,), found) && match found {
            Some(a) => exists|t: bool| #[trigger]
                touches.ensures((a,), t) && r == if t {
                    Some(Keyed { key: c, a })
                } else {
                    None
                },
            None => r is None,
        }
}

/// `r` is what one planet adds to a list of overlapping bodies.
pub open spec fn planet_hit<G, T: Fn(Asteroid<G>) -> bool>(
    touches: T,
    planets: Seq<Asteroid<G>>,
    i: int,
    r: Option<Keyed<G>>,
) -> bool {
    exists|t: bool| #[trigger]
        touches.ensures((planets[i],), t) && r == if t {
            Some(Keyed { key: planet_key_at(i), a: planets[i] })
        } else {
            None
        }
}

/// The entries that are there, in order.
pub open spec fn gathered<G>(hits: Seq<Option<Keyed<G>>>) -> Seq<Keyed<G>>
    decreases hits.len(),
{
    if hits.len() == 0 {
        Seq::empty()
    } else {
        match hits.last() {
            Some(k) => gathered(hits.drop_last()).push(k),
            None => gathered(hits.drop_last()),
        }
    }
}

/// `out` lists the bodies that reach a region: those in the cells of the box
/// from `lo` to `hi` in listing order, then the planets.
pub open spec fn overlapping<G, L: Fn(IVec3) -> Option<Asteroid<G>>, T: Fn(Asteroid<G>) -> bool>(
    lo: IVec3,
    hi: IVec3,
    planets: Seq<Asteroid<G>>,
    look: L,
    touches: T,
    out: Seq<Keyed<G>>,
) -> bool {
    exists|cells: Seq<IVec3>, hits: Seq<Option<Keyed<G>>>|
        {
            &&& #[trigger] lists_box(cells, lo, hi)
            &&& #[trigger] hit_list(cells, planets, look, touches, hits, cells.len() + planets.len())
            &&& out == gathered(hits)
        }
}

/// The first `n` entries of a hit list: cells first, then planets.
pub open spec fn hit_list<G, L: Fn(IVec3) -> Option<Asteroid<G>>, T: Fn(Asteroid<G>) -> bool>(
    cells: Seq<IVec3>,
    planets: Seq<Asteroid<G>>,
    look: L,
    touches: T,
    hits: Seq<Option<Keyed<G>>>,
    n: nat,
) -> bool {
    &&& hits.len() == n
    &&& forall|i: int|
        0 <= i < n ==> if i < cells.len() {
            cell_hit(look, touches, cells[i], #[trigger] hits[i])
        } else {
            planet_hit(touches, planets, i - cells.len(), hits[i])
        }
}

/// All bodies whose surface could reach a region, with their keys. The caller
/// gives the region as a box of cells that is wide enough, and a test.
pub fn bodies_overlapping<
    G: Copy,
    L: Fn(IVec3) -> Option<Asteroid<G>>,
    T: Fn(Asteroid<G>) -> bool,
>(
    lo: IVec3,
    hi: IVec3,
    planets: &Vec<Asteroid<G>>,
    look: &L,
    touches: &T,
) -> (out: Vec<Keyed<G>>)
    requires
        forall|c: IVec3| #[trigger] look.requires((c,)),
        forall|a: Asteroid<G>| #[trigger] touches.requires((a,)),
        PLANET_KEY_BASE + planets.len() <= i32::MAX,
    ensures
        overlapping(lo, hi, planets@, *look, *touches, out@),
{
    let cells = cell_box(lo, hi);
    let mut out: Vec<Keyed<G>> = Vec::new();
    let ghost mut hits: Seq<Option<Keyed<G>>> = Seq::empty();
    let mut i: usize = 0;
    while i < cells.len()
        invariant
            i <= cells.len(),
            forall|c: IVec3| #[trigger] look.requires((c,)),
            forall|a: Asteroid<G>| #[trigger] touches.requires((a,)),
            hit_list(cells@, planets@, *look, *touches, hits, i as nat),
            out@ == gathered(hits),
        decreases cells.len() - i,
    {
        let c = cells[i];
        let found = look(c);
        let ghost mut hit: Option<Keyed<G>> = None;
        if let Some(a) = found {
            let t = touches(a);
            if t {
                out.push(Keyed { key: c, a });
                proof {
                    hit = Some(Keyed { key: c, a });
                }
            }
            assert(touches.ensures((a,), t));
        }
        proof {
            assert(look.ensures((c,), found));
            assert(cell_hit(*look, *touches, c, hit));
            lemma_hits_push(cells@, planets@, *look, *touches, hits, i as nat, hit);
            assert(hits.push(hit).drop_last() =~= hits);
            hits = hits.push(hit);
        }
        i += 1;
    }
    let mut n: usize = 0;
    while n < planets.len()
        invariant
            n <= planets.len(),
            PLANET_KEY_BASE + planets.len() <= i32::MAX,
            forall|a: Asteroid<G>| #[trigger] touches.requires((a,)),
            hit_list(cells@, planets@, *look, *touches, hits, (cells.len() + n) as nat),
            out@ == gathered(hits),
        decreases planets.len() - n,
    {
        let a = planets[n];
        let t = touches(a);
        let ghost mut hit: Option<Keyed<G>> = None;
        if t {
            let key = planet_key(n);
            out.push(Keyed { key, a });
            proof {
                hit = Some(Keyed { key, a });
            }
        }
        proof {
            assert(touches.ensures((planets@[n as int],), t));
            assert(planet_hit(*touches, planets@, n as int, hit));
            lemma_hits_push(
                cells@,
                planets@,
                *look,
                *touches,
                hits,
                (cells.len() + n) as nat,
                hit,
            );
            assert(hits.push(hit).drop_last() =~= hits);
            hits = hits.push(hit);
        }
        n += 1;
    }
    assert(lists_box(cells@, lo, hi));
    assert(hit_list(cells@, planets@, *look, *touches, hits, cells@.len() + planets@.len()));
    out
}

proof fn lemma_hits_push<G, L: Fn(IVec3) -> Option<Asteroid<G>>, T: Fn(Asteroid<G>) -> bool>(
    cells: Seq<IVec3>,
    planets: Seq<Asteroid<G>>,
    look: L,
    touches: T,
    hits: Seq<Option<Keyed<G>>>,
    n: nat,
    hit: Option<Keyed<G>>,
)
    requires
        hit_list(cells, planets, look, touches, hits, n),
        if n < cells.len() {
            cell_hit(look, touches, cells[n as int], hit)
        } else {
            planet_hit(touches, planets, n - cells.len(), hit)
        },
    ensures
        hit_list(cells, planets, look, touches, hits.push(hit), n + 1),
{
    let all = hits.push(hit);
    assert forall|i: int| 0 <= i < n + 1 implies if i < cells.len() {
        cell_hit(look, touches, cells[i], #[trigger] all[i])
    } else {
        planet_hit(touches, planets, i - cells.len(), all[i])
    } by {
        if i < n {
            assert(all[i] == hits[i]);
        }
    }
}

/// The same bodies without their keys.
pub fn asteroids_overlapping<
    G: Copy,
    L: Fn(IVec3) -> Option<Asteroid<G>>,
    T: Fn(Asteroid<G>) -> bool,
>(
    lo: IVec3,
    hi: IVec3,
    planets: &Vec<Asteroid<G>>,
    look: &L,
    touches: &T,
) -> (out: Vec<Asteroid<G>>)
    requires
        forall|c: IVec3| #[trigger] look.requires((c,)),
        forall|a: Asteroid<G>| #[trigger] touches.requires((a,)),
        PLANET_KEY_BASE + planets.len() <= i32::MAX,
    ensures
        exists|keyed: Seq<Keyed<G>>| #[trigger]
            overlapping(lo, hi, planets@, *look, *touches, keyed) && out@ == keyed.map_values(
                |k: Keyed<G>| k.a,
            ),
{
    let keyed = bodies_overlapping(lo, hi, planets, look, touches);
    let mut out: Vec<Asteroid<G>> = Vec::new();
    while out.len() < keyed.len()
        invariant
            out.len() <= keyed.len(),
            forall|i: int| 0 <= i < out.len() ==> #[trigger] out@[i] == keyed@[i].a,
        decreases keyed.len() - out.len(),
    {
        out.push(keyed[out.len()].a);
    }
    assert(out@ =~= keyed@.map_values(|k: Keyed<G>| k.a));
    out
}

/// A body reaches a region: `look` finds it in its cell, or it is a planet, and
/// `touches` says yes.
pub open spec fn reaches<G, L: Fn(IVec3) -> Option<Asteroid<G>>, T: Fn(Asteroid<G>) -> bool>(
    lo: IVec3,
    hi: IVec3,
    planets: Seq<Asteroid<G>>,
    look: L,
    touches: T,
    k: Keyed<G>,
) -> bool {
    &&& touches.ensures((k.a,), true)
    &&& (k.key@.within(lo@, hi@) && look.ensures((k.key,), Some(k.a))) || exists|i: int|
        0 <= i < planets.len() && k == (Keyed { key: #[trigger] planet_key_at(i), a: planets[i] })
}

/// What is gathered is what is there.
proof fn lemma_gathered_members<G>(hits: Seq<Option<Keyed<G>>>, k: Keyed<G>)
    ensures
        gathered(hits).contains(k) <==> exists|i: int|
            0 <= i < hits.len() && #[trigger] hits[i] == Some(k),
    decreases hits.len(),
{
    if hits.len() > 0 {
        let head = hits.drop_last();
        lemma_gathered_members(head, k);
        let g = gathered(head);
        assert forall|i: int| 0 <= i < head.len() implies #[trigger] head[i] == hits[i] by {}
        if g.contains(k) {
            let i = choose|i: int| 0 <= i < head.len() && #[trigger] head[i] == Some(k);
            assert(hits[i] == Some(k));
            if hits.last() is Some {
                assert(g.push(hits.last()->0)[g.index_of(k)] == k);
            }
        }
        if hits.last() == Some(k) {
            assert(hits[hits.len() - 1] == Some(k));
            assert(g.push(k)[g.len() as int] == k);
        }
        if exists|i: int| 0 <= i < hits.len() && #[trigger] hits[i] == Some(k) {
            let i = choose|i: int| 0 <= i < hits.len() && #[trigger] hits[i] == Some(k);
            if i < head.len() {
                assert(head[i] == Some(k));
            }
        }
        if gathered(hits).contains(k) && hits.last() is Some {
            let n = gathered(hits).index_of(k);
            if n < g.len() {
                assert(g[n] == k);
            }
        }
    }
}

/// Entries with different keys stay different when they are gathered.
proof fn lemma_gathered_distinct<G>(hits: Seq<Option<Keyed<G>>>, n: int, m: int)
    requires
        forall|i: int, j: int|
            0 <= i < j < hits.len() && (#[trigger] hits[i]) is Some && (#[trigger] hits[j]) is Some
                ==> hits[i]->0.key != hits[j]->0.key,
        0 <= n < m < gathered(hits).len(),
    ensures
        gathered(hits)[n].key != gathered(hits)[m].key,
    decreases hits.len(),
{
    if hits.len() > 0 {
        let head = hits.drop_last();
        let g = gathered(head);
        assert forall|i: int| 0 <= i < head.len() implies #[trigger] head[i] == hits[i] by {}
        if m < g.len() {
            lemma_gathered_distinct(head, n, m);
        } else {
            lemma_gathered_members(head, g[n]);
            assert(g.contains(g[n]));
            let i = choose|i: int| 0 <= i < head.len() && #[trigger] head[i] == Some(g[n]);
            assert(hits[i] == Some(g[n]));
            assert(hits[hits.len() - 1] is Some);
        }
    }
}

/// A body is listed exactly when it reaches the region, and once: as long as
/// the functions handed in are pure, every field cell of the box and every
/// planet is in the list if and only if it touches, and no key occurs twice.
/// Field cells lie below the keys of the planets.
pub proof fn law_overlap_lists_what_touches<
    G,
    L: Fn(IVec3) -> Option<Asteroid<G>>,
    T: Fn(Asteroid<G>) -> bool,
>(
    lo: IVec3,
    hi: IVec3,
    planets: Seq<Asteroid<G>>,
    look: L,
    touches: T,
    out: Seq<Keyed<G>>,
    k: Keyed<G>,
)
    requires
        hi.x < PLANET_KEY_BASE,
        PLANET_KEY_BASE + planets.len() <= i32::MAX,
        forall|c: IVec3, x: Option<Asteroid<G>>, y: Option<Asteroid<G>>| #[trigger]
            look.ensures((c,), x) && #[trigger] look.ensures((c,), y) ==> x == y,
        forall|a: Asteroid<G>, x: bool, y: bool| #[trigger]
            touches.ensures((a,), x) && #[trigger] touches.ensures((a,), y) ==> x == y,
        overlapping(lo, hi, planets, look, touches, out),
    ensures
        out.contains(k) <==> reaches(lo, hi, planets, look, touches, k),
        forall|n: int, m: int|
            0 <= n < m < out.len() ==> (#[trigger] out[n]).key != (#[trigger] out[m]).key,
{
    let (cells, hits) = choose|cells: Seq<IVec3>, hits: Seq<Option<Keyed<G>>>|
        {
            &&& #[trigger] lists_box(cells, lo, hi)
            &&& #[trigger] hit_list(cells, planets, look, touches, hits, cells.len() + planets.len())
            &&& out == gathered(hits)
        };
    lemma_gathered_members(hits, k);
    assert forall|i: int| 0 <= i < hits.len() && (#[trigger] hits[i]) is Some implies hits[i]->0.key
        == (if i < cells.len() {
        cells[i]
    } else {
        planet_key_at(i - cells.len())
    }) by {}
    if out.contains(k) {
        let i = choose|i: int| 0 <= i < hits.len() && #[trigger] hits[i] == Some(k);
        if i < cells.len() {
            assert(cell_hit(look, touches, cells[i], hits[i]));
            assert(cells.contains(cells[i]));
        } else {
            assert(planet_hit(touches, planets, i - cells.len(), hits[i]));
            assert(k == (Keyed {
                key: planet_key_at(i - cells.len()),
                a: planets[i - cells.len()],
            }));
        }
        assert(reaches(lo, hi, planets, look, touches, k));
    }
    if reaches(lo, hi, planets, look, touches, k) {
        if k.key@.within(lo@, hi@) && look.ensures((k.key,), Some(k.a)) {
            assert(cells.contains(k.key));
            let i = cells.index_of(k.key);
            assert(cells[i] == k.key);
            assert(cell_hit(look, touches, cells[i], hits[i]));
            assert(hits[i] == Some(k));
        } else {
            let i = choose|i: int|
                0 <= i < planets.len() && k == (Keyed {
                    key: #[trigger] planet_key_at(i),
                    a: planets[i],
                });
            assert(planet_hit(
                touches,
                planets,
                (cells.len() + i) - cells.len(),
                hits[cells.len() + i],
            ));
            assert(hits[cells.len() + i] == Some(k));
        }
    }
    assert forall|i: int, j: int|
        0 <= i < j < hits.len() && (#[trigger] hits[i]) is Some && (#[trigger] hits[j]) is Some implies hits[i]->0.key
        != hits[j]->0.key by {
        if j < cells.len() {
            assert(crate::cells::listed_before(cells[i], cells[j]));
        } else if i < cells.len() {
            assert(cells.contains(cells[i]));
        }
    }
    assert forall|n: int, m: int| 0 <= n < m < out.len() implies (#[trigger] out[n]).key != (
    #[trigger] out[m]).key by {
        lemma_gathered_distinct(hits, n, m);
    }
}

/// A body that reaches a region is listed, wherever in the box or among the
/// planets it is; one that does not is not.
pub proof fn law_bodies_that_touch_are_listed<
    G,
    L: Fn(IVec3) -> Option<Asteroid<G>>,
    T: Fn(Asteroid<G>) -> bool,
>(
    lo: IVec3,
    hi: IVec3,
    planets: Seq<Asteroid<G>>,
    look: L,
    touches: T,
    out: Seq<Keyed<G>>,
    c: IVec3,
    a: Asteroid<G>,
    i: int,
)
    requires
        hi.x < PLANET_KEY_BASE,
        PLANET_KEY_BASE + planets.len() <= i32::MAX,
        forall|c: IVec3, x: Option<Asteroid<G>>, y: Option<Asteroid<G>>| #[trigger]
            look.ensures((c,), x) && #[trigger] look.ensures((c,), y) ==> x == y,
        forall|a: Asteroid<G>, x: bool, y: bool| #[trigger]
            touches.ensures((a,), x) && #[trigger] touches.ensures((a,), y) ==> x == y,
        overlapping(lo, hi, planets, look, touches, out),
    ensures
        lo.x <= c.x <= hi.x && lo.y <= c.y <= hi.y && lo.z <= c.z <= hi.z && look.ensures(
            (c,),
            Some(a),
        ) ==> (out.contains(Keyed { key: c, a }) <==> touches.ensures((a,), true)),
        0 <= i < planets.len() ==> (out.contains(
            Keyed { key: IVec3 { x: (1_000_000 + i) as i32, y: 0, z: 0 }, a: planets[i] },
        ) <==> touches.ensures((planets[i],), true)),
{
    law_overlap_lists_what_touches(lo, hi, planets, look, touches, out, Keyed { key: c, a });
    if 0 <= i < planets.len() {
        let k = Keyed { key: planet_key_at(i), a: planets[i] };
        law_overlap_lists_what_touches(lo, hi, planets, look, touches, out, k);
    }
}

/// The list of bodies that reach a region is the same whenever it is asked
/// for, as long as the functions handed in are pure.
pub proof fn law_overlap_is_deterministic<
    G,
    L: Fn(IVec3) -> Option<Asteroid<G>>,
    T: Fn(Asteroid<G>) -> bool,
>(
    lo: IVec3,
    hi: IVec3,
    planets: Seq<Asteroid<G>>,
    look: L,
    touches: T,
    out: Seq<Keyed<G>>,
    again: Seq<Keyed<G>>,
)
    requires
        forall|c: IVec3, x: Option<Asteroid<G>>, y: Option<Asteroid<G>>| #[trigger]
            look.ensures((c,), x) && #[trigger] look.ensures((c,), y) ==> x == y,
        forall|a: Asteroid<G>, x: bool, y: bool| #[trigger]
            touches.ensures((a,), x) && #[trigger] touches.ensures((a,), y) ==> x == y,
        overlapping(lo, hi, planets, look, touches, out),
        overlapping(lo, hi, planets, look, touches, again),
    ensures
        out == again,
{
    let (cells, hits) = choose|cells: Seq<IVec3>, hits: Seq<Option<Keyed<G>>>|
        {
            &&& #[trigger] lists_box(cells, lo, hi)
            &&& #[trigger] hit_list(cells, planets, look, touches, hits, cells.len() + planets.len())
            &&& out == gathered(hits)
        };
    let (twins, repeats) = choose|cells: Seq<IVec3>, hits: Seq<Option<Keyed<G>>>|
        {
            &&& #[trigger] lists_box(cells, lo, hi)
            &&& #[trigger] hit_list(cells, planets, look, touches, hits, cells.len() + planets.len())
            &&& again == gathered(hits)
        };
    crate::cells::law_box_listing_is_unique(cells, twins, lo, hi);
    assert forall|i: int| 0 <= i < hits.len() implies hits[i] == repeats[i] by {
        if i < cells.len() {
            assert(cell_hit(look, touches, cells[i], hits[i]));
            assert(cell_hit(look, touches, cells[i], repeats[i]));
        } else {
            assert(planet_hit(touches, planets, i - cells.len(), hits[i]));
            assert(planet_hit(touches, planets, i - cells.len(), repeats[i]));
        }
    }
    assert(hits =~= repeats);
}

/// A rock seen from somewhere.
#[derive(Clone, Copy)]
pub struct Sighting<G> {
    pub a: Asteroid<G>,
    /// Distance to its surface, as a number that grows with it.
    pub rank: u64,
    /// Its center is the origin.
    pub at_origin: bool,
}

/// A sighting that counts.
pub open spec fn eligible<G>(s: Option<Sighting<G>>, exclude_home: bool) -> bool {
    s is Some && !(exclude_home && s->0.at_origin)
}

/// `best` is the first of the eligible sightings of least rank.
pub open spec fn nearest_sighting<G>(
    cells: Seq<IVec3>,
    seen: Seq<Option<Sighting<G>>>,
    exclude_home: bool,
    best: Option<Keyed<G>>,
) -> bool {
    match best {
        Some(k) => exists|i: int|
            {
                &&& 0 <= i < seen.len()
                &&& eligible(#[trigger] seen[i], exclude_home)
                &&& k == (Keyed { key: cells[i], a: seen[i]->0.a })
                &&& forall|j: int|
                    0 <= j < seen.len() && eligible(#[trigger] seen[j], exclude_home)
                        ==> seen[i]->0.rank <= seen[j]->0.rank && (j < i ==> seen[i]->0.rank
                        < seen[j]->0.rank)
            },
        None => forall|j: int|
            0 <= j < seen.len() ==> !eligible(#[trigger] seen[j], exclude_home),
    }
}

/// A cell is at most two cells from another along every axis.
pub open spec fn within_two(pc: IVec3, c: IVec3) -> bool {
    -2 <= c.x - pc.x <= 2 && -2 <= c.y - pc.y <= 2 && -2 <= c.z - pc.z <= 2
}

/// `best` is the nearest rock among the cells that are at most two cells from
/// `pc`; the first in listing order wins a tie.
pub open spec fn nearest_rock<G, L: Fn(IVec3) -> Option<Sighting<G>>>(
    pc: IVec3,
    exclude_home: bool,
    look: L,
    best: Option<Keyed<G>>,
) -> bool {
    exists|lo: IVec3, hi: IVec3, cells: Seq<IVec3>, seen: Seq<Option<Sighting<G>>>|
        {
            &&& #[trigger] lists_box(cells, lo, hi)
            &&& forall|c: IVec3| #[trigger] within_two(pc, c) <==> c@.within(lo@, hi@)
            &&& seen.len() == cells.len()
            &&& forall|i: int|
                0 <= i < cells.len() ==> look.ensures((cells[i],), #[trigger] seen[i])
            &&& #[trigger] nearest_sighting(cells, seen, exclude_home, best)
        }
}

fn two_down(n: i32) -> (m: i32)
    ensures
        m == if n < i32::MIN + 2 {
            i32::MIN as int
        } else {
            n - 2
        },
{
    if n < i32::MIN + 2 {
        i32::MIN
    } else {
        n - 2
    }
}

fn two_up(n: i32) -> (m: i32)
    ensures
        m == if n > i32::MAX - 2 {
            i32::MAX as int
        } else {
            n + 2
        },
{
    if n > i32::MAX - 2 {
        i32::MAX
    } else {
        n + 2
    }
}

/// The nearest asteroid within two cells of `pc`, with its key.
pub fn nearest_asteroid_keyed<G: Copy, L: Fn(IVec3) -> Option<Sighting<G>>>(
    pc: IVec3,
    exclude_home: bool,
    look: &L,
) -> (best: Option<Keyed<G>>)
    requires
        forall|c: IVec3| #[trigger] look.requires((c,)),
    ensures
        nearest_rock(pc, exclude_home, *look, best),
{
    let lo = IVec3::new(two_down(pc.x), two_down(pc.y), two_down(pc.z));
    let hi = IVec3::new(two_up(pc.x), two_up(pc.y), two_up(pc.z));
    let cells = cell_box(lo, hi);
    let ghost mut seen: Seq<Option<Sighting<G>>> = Seq::empty();
    let mut best: Option<Keyed<G>> = None;
    let mut best_rank: u64 = 0;
    let ghost mut at: int = 0;
    let mut i: usize = 0;
    while i < cells.len()
        invariant
            i <= cells.len(),
            forall|c: IVec3| #[trigger] look.requires((c,)),
            seen.len() == i,
            forall|j: int| 0 <= j < i ==> look.ensures((cells@[j],), #[trigger] seen[j]),
            best is None ==> forall|j: int|
                0 <= j < i ==> !eligible(#[trigger] seen[j], exclude_home),
            best is Some ==> {
                &&& 0 <= at < i
                &&& eligible(seen[at], exclude_home)
                &&& seen[at]->0.rank == best_rank
                &&& best == Some(Keyed { key: cells@[at], a: seen[at]->0.a })
                &&& forall|j: int|
                    0 <= j < i && eligible(#[trigger] seen[j], exclude_home) ==> best_rank
                        <= seen[j]->0.rank && (j < at ==> best_rank < seen[j]->0.rank)
            },
        decreases cells.len() - i,
    {
        let c = cells[i];
        let sight = look(c);
        let ghost earlier = seen;
        proof {
            seen = seen.push(sight);
            assert forall|j: int| 0 <= j < i implies #[trigger] seen[j] == earlier[j] by {}
        }
        if let Some(s) = sight {
            if !(exclude_home && s.at_origin) {
                let closer = match best {
                    Some(_) => s.rank < best_rank,
                    None => true,
                };
                if closer {
                    best = Some(Keyed { key: c, a: s.a });
                    best_rank = s.rank;
                    proof {
                        at = i as int;
                    }
                }
            }
        }
        i += 1;
    }
    proof {
        assert(lists_box(cells@, lo, hi));
        assert forall|c: IVec3| #[trigger] within_two(pc, c) <==> c@.within(lo@, hi@) by {}
        assert(nearest_sighting(cells@, seen, exclude_home, best)) by {
            if best is Some {
                assert(eligible(seen[at], exclude_home));
            }
        }
    }
    best
}

/// The nearest asteroid within two cells of `pc`.
pub fn nearest_asteroid<G: Copy, L: Fn(IVec3) -> Option<Sighting<G>>>(
    pc: IVec3,
    exclude_home: bool,
    look: &L,
) -> (best: Option<Asteroid<G>>)
    requires
        forall|c: IVec3| #[trigger] look.requires((c,)),
    ensures
        exists|keyed: Option<Keyed<G>>| #[trigger]
            nearest_rock(pc, exclude_home, *look, keyed) && best == match keyed {
                Some(k) => Some(k.a),
                None => None,
            },
{
    match nearest_asteroid_keyed(pc, exclude_home, look) {
        Some(k) => Some(k.a),
        None => None,
    }
}

/// The nearest rock is nearest: none is named only where no rock counts within
/// two cells, and of those that count none is nearer than the one named.
pub proof fn law_nearest_rock_is_nearest<G, L: Fn(IVec3) -> Option<Sighting<G>>>(
    pc: IVec3,
    exclude_home: bool,
    look: L,
    best: Option<Keyed<G>>,
    c: IVec3,
    s: Option<Sighting<G>>,
)
    requires
        forall|c: IVec3, x: Option<Sighting<G>>, y: Option<Sighting<G>>| #[trigger]
            look.ensures((c,), x) && #[trigger] look.ensures((c,), y) ==> x == y,
        nearest_rock(pc, exclude_home, look, best),
        within_two(pc, c),
        look.ensures((c,), s),
    ensures
        match best {
            Some(k) => within_two(pc, k.key) && exists|t: Option<Sighting<G>>|
                {
                    &&& #[trigger] look.ensures((k.key,), t)
                    &&& eligible(t, exclude_home)
                    &&& t->0.a == k.a
                    &&& eligible(s, exclude_home) ==> t->0.rank <= s->0.rank
                },
            None => !eligible(s, exclude_home),
        },
{
    let (lo, hi, cells, seen) = choose|
        lo: IVec3,
        hi: IVec3,
        cells: Seq<IVec3>,
        seen: Seq<Option<Sighting<G>>>,
    |
        {
            &&& #[trigger] lists_box(cells, lo, hi)
            &&& forall|c: IVec3| #[trigger] within_two(pc, c) <==> c@.within(lo@, hi@)
            &&& seen.len() == cells.len()
            &&& forall|i: int|
                0 <= i < cells.len() ==> look.ensures((cells[i],), #[trigger] seen[i])
            &&& #[trigger] nearest_sighting(cells, seen, exclude_home, best)
        };
    assert(cells.contains(c));
    let j = cells.index_of(c);
    assert(cells[j] == c);
    assert(look.ensures((cells[j],), seen[j]));
    assert(seen[j] == s);
    if let Some(k) = best {
        let i = choose|i: int|
            {
                &&& 0 <= i < seen.len()
                &&& eligible(#[trigger] seen[i], exclude_home)
                &&& k == (Keyed { key: cells[i], a: seen[i]->0.a })
                &&& forall|j: int|
                    0 <= j < seen.len() && eligible(#[trigger] seen[j], exclude_home)
                        ==> seen[i]->0.rank <= seen[j]->0.rank && (j < i ==> seen[i]->0.rank
                        < seen[j]->0.rank)
            };
        assert(cells.contains(cells[i]));
        assert(within_two(pc, cells[i]));
        assert(look.ensures((cells[i],), seen[i]));
    }
}

/// What a voxel of a body is made of, given how deep it lies: nothing outside
/// the surface, dust in the shell, crystal in the core and where a vein runs,
/// rock elsewhere.
pub open spec fn material(inside: bool, in_shell: bool, in_core: bool, vein: bool) -> Option<u8> {
    if !inside {
        None
    } else if in_shell {
        Some(REGOLITH)
    } else if in_core || vein {
        Some(ORE)
    } else {
        Some(ROCK)
    }
}

/// What a voxel of a body is made of.
pub fn classify(inside: bool, in_shell: bool, in_core: bool, vein: bool) -> (b: Option<u8>)
    ensures
        b == material(inside, in_shell, in_core, vein),
{
    if !inside {
        return None;
    }
    if in_shell {
        return Some(REGOLITH);
    }
    if in_core {
        return Some(ORE);
    }
    Some(
        if vein {
            ORE
        } else {
            ROCK
        },
    )
}

/// `b` is an answer to what pure terrain holds at a voxel: the material of the
/// first body that has any there, and air when none has.
pub open spec fn terrain_at<G, M: Fn(Asteroid<G>, IVec3) -> Option<u8>>(
    bodies: Seq<Asteroid<G>>,
    v: IVec3,
    made_of: M,
    i: int,
    b: u8,
) -> bool
    decreases bodies.len() - i,
{
    if i < 0 || i >= bodies.len() {
        b == AIR
    } else {
        (made_of.ensures((bodies[i], v), Some(b))) || (made_of.ensures((bodies[i], v), None)
            && terrain_at(bodies, v, made_of, i + 1, b))
    }
}

/// Pure terrain at one voxel, given the bodies that reach it.
pub fn block_at<G: Copy, M: Fn(Asteroid<G>, IVec3) -> Option<u8>>(
    bodies: &Vec<Asteroid<G>>,
    v: IVec3,
    made_of: &M,
) -> (b: u8)
    requires
        forall|a: Asteroid<G>, v: IVec3| #[trigger] made_of.requires((a, v)),
    ensures
        terrain_at(bodies@, v, *made_of, 0, b),
{
    block_from(bodies, v, made_of, 0)
}

fn block_from<G: Copy, M: Fn(Asteroid<G>, IVec3) -> Option<u8>>(
    bodies: &Vec<Asteroid<G>>,
    v: IVec3,
    made_of: &M,
    i: usize,
) -> (b: u8)
    requires
        i <= bodies.len(),
        forall|a: Asteroid<G>, v: IVec3| #[trigger] made_of.requires((a, v)),
    ensures
        terrain_at(bodies@, v, *made_of, i as int, b),
    decreases bodies.len() - i,
{
    if i == bodies.len() {
        return AIR;
    }
    match made_of(bodies[i], v) {
        Some(b) => b,
        None => block_from(bodies, v, made_of, i + 1),
    }
}

/// Terrain is deterministic: two queries of one voxel give the same block,
/// whatever happened in between, as long as the function that tells what bodies
/// are made of is pure.
pub proof fn law_terrain_is_deterministic<G, M: Fn(Asteroid<G>, IVec3) -> Option<u8>>(
    bodies: Seq<Asteroid<G>>,
    v: IVec3,
    made_of: M,
    i: int,
    b: u8,
    c: u8,
)
    requires
        forall|a: Asteroid<G>, x: Option<u8>, y: Option<u8>| #[trigger]
            made_of.ensures((a, v), x) && #[trigger] made_of.ensures((a, v), y) ==> x == y,
        terrain_at(bodies, v, made_of, i, b),
        terrain_at(bodies, v, made_of, i, c),
    ensures
        b == c,
    decreases bodies.len() - i,
{
    if 0 <= i < bodies.len() && made_of.ensures((bodies[i], v), None) {
        law_terrain_is_deterministic(bodies, v, made_of, i + 1, b, c);
    }
}

/// Tier and species of the first body that covers a voxel; in open space the
/// tier given for it and species 0.
pub open spec fn env_at<G, C: Fn(Asteroid<G>) -> bool>(
    bodies: Seq<Asteroid<G>>,
    covers: C,
    open_tier: i32,
    i: int,
    r: (i32, u8),
) -> bool
    decreases bodies.len() - i,
{
    if i < 0 || i >= bodies.len() {
        r == (open_tier, 0u8)
    } else {
        (covers.ensures((bodies[i],), true) && r == (bodies[i].tier, bodies[i].species)) || (
        covers.ensures((bodies[i],), false) && env_at(bodies, covers, open_tier, i + 1, r))
    }
}

/// Tier and species that govern a voxel, given the bodies that reach it.
pub fn voxel_env<G: Copy, C: Fn(Asteroid<G>) -> bool>(
    bodies: &Vec<Asteroid<G>>,
    covers: &C,
    open_tier: i32,
) -> (r: (i32, u8))
    requires
        forall|a: Asteroid<G>| #[trigger] covers.requires((a,)),
    ensures
        env_at(bodies@, *covers, open_tier, 0, r),
{
    env_from(bodies, covers, open_tier, 0)
}

fn env_from<G: Copy, C: Fn(Asteroid<G>) -> bool>(
    bodies: &Vec<Asteroid<G>>,
    covers: &C,
    open_tier: i32,
    i: usize,
) -> (r: (i32, u8))
    requires
        i <= bodies.len(),
        forall|a: Asteroid<G>| #[trigger] covers.requires((a,)),
    ensures
        env_at(bodies@, *covers, open_tier, i as int, r),
    decreases bodies.len() - i,
{
    if i == bodies.len() {
        return (open_tier, 0);
    }
    let a = bodies[i];
    if covers(a) {
        (a.tier, a.species)
    } else {
        env_from(bodies, covers, open_tier, i + 1)
    }
}

/// Tier that governs a voxel.
pub fn tier_of_voxel<G: Copy, C: Fn(Asteroid<G>) -> bool>(
    bodies: &Vec<Asteroid<G>>,
    covers: &C,
    open_tier: i32,
) -> (tier: i32)
    requires
        forall|a: Asteroid<G>| #[trigger] covers.requires((a,)),
    ensures
        exists|r: (i32, u8)| #[trigger]
            env_at(bodies@, *covers, open_tier, 0, r) && tier == r.0,
{
    voxel_env(bodies, covers, open_tier).0
}

/// Rows that a column over the home rock is searched through: from this one
/// down to its negative.
pub const HOME_TOP: i32 = 69;

/// `y` is the first open row above the home rock at a column: one above the
/// highest row that `solid` calls solid, and 0 when there is none.
pub open spec fn surface_row<S: Fn(IVec3) -> bool>(vx: i32, vz: i32, solid: S, y: int) -> bool {
    (y == 0 && forall|r: i32|
        -HOME_TOP <= r <= HOME_TOP ==> #[trigger] solid.ensures((IVec3 { x: vx, y: r, z: vz },), false))
        || exists|top: i32|
        {
            &&& -HOME_TOP <= top <= HOME_TOP
            &&& #[trigger] solid.ensures((IVec3 { x: vx, y: top, z: vz },), true)
            &&& forall|r: i32|
                top < r <= HOME_TOP ==> #[trigger] solid.ensures(
                    (IVec3 { x: vx, y: r, z: vz },),
                    false,
                )
            &&& y == top + 1
        }
}

/// Row of the first open voxel above the home rock at a column.
pub fn surface_y_at<S: Fn(IVec3) -> bool>(vx: i32, vz: i32, solid: &S) -> (y: i32)
    requires
        forall|v: IVec3| #[trigger] solid.requires((v,)),
    ensures
        surface_row(vx, vz, *solid, y as int),
{
    let mut row: i32 = HOME_TOP;
    while row >= -HOME_TOP
        invariant
            -HOME_TOP - 1 <= row <= HOME_TOP,
            forall|v: IVec3| #[trigger] solid.requires((v,)),
            forall|r: i32|
                row < r <= HOME_TOP ==> #[trigger] solid.ensures(
                    (IVec3 { x: vx, y: r, z: vz },),
                    false,
                ),
        decreases row + HOME_TOP + 1,
    {
        let hit = solid(IVec3::new(vx, row, vz));
        if hit {
            assert(solid.ensures((IVec3 { x: vx, y: row, z: vz },), true));
            return row + 1;
        }
        row = row - 1;
    }
    0
}

/// Lattice values over a box, precomputed.
pub struct FieldGrid<T> {
    origin: IVec3,
    nx: usize,
    ny: usize,
    nz: usize,
    values: Vec<T>,
}

/// Place of the lattice point at (x, y, z) from the corner of a grid.
pub open spec fn grid_place(x: int, y: int, z: int, nx: int, ny: int) -> int {
    (z * ny + y) * nx + x
}

impl<T> FieldGrid<T> {
    /// Corner of the box.
    pub closed spec fn corner(self) -> IVec3 {
        self.origin
    }

    /// Lattice points along each axis.
    pub closed spec fn size(self) -> Point {
        Point { x: self.nx as int, y: self.ny as int, z: self.nz as int }
    }

    /// Value at a lattice point of the box.
    pub closed spec fn value(self, q: Point) -> T {
        let l = q.minus(self.origin@);
        self.values@[grid_place(l.x, l.y, l.z, self.nx as int, self.ny as int)]
    }

    /// A value for every point of the box.
    pub closed spec fn wf(self) -> bool {
        self.values.len() == self.nx * self.ny * self.nz
    }

    /// Whether the box holds a lattice point.
    pub open spec fn holds(self, q: Point) -> bool {
        let l = q.minus(self.corner()@);
        0 <= l.x < self.size().x && 0 <= l.y < self.size().y && 0 <= l.z < self.size().z
    }
}

proof fn lemma_place(x: int, y: int, z: int, nx: int, ny: int, nz: int)
    requires
        0 <= x < nx,
        0 <= y < ny,
        0 <= z < nz,
    ensures
        0 <= grid_place(x, y, z, nx, ny) < nx * ny * nz,
        grid_place(x, y, z, nx, ny) == (z * ny + y) * nx + x,
        grid_place(x, y, z, nx, ny) / nx == z * ny + y,
        grid_place(x, y, z, nx, ny) % nx == x,
        (z * ny + y) / ny == z,
        (z * ny + y) % ny == y,
{
    let r = z * ny + y;
    assert(0 <= r < ny * nz) by (nonlinear_arith)
        requires
            r == z * ny + y,
            0 <= y < ny,
            0 <= z < nz,
    ;
    assert(0 <= r * nx + x < nx * ny * nz) by (nonlinear_arith)
        requires
            0 <= r,
            r + 1 <= ny * nz,
            0 <= x < nx,
    ;
    vstd::arithmetic::div_mod::lemma_fundamental_div_mod_converse(r * nx + x, nx, r, x);
    vstd::arithmetic::div_mod::lemma_fundamental_div_mod_converse(r, ny, z, y);
}

impl<T: Copy> FieldGrid<T> {
    /// Evaluate `lattice` at every point of the box.
    pub fn for_box<F: Fn(IVec3) -> T>(
        origin: IVec3,
        nx: usize,
        ny: usize,
        nz: usize,
        lattice: &F,
    ) -> (g: Self)
        requires
            0 < nx,
            0 < ny,
            0 < nz,
            nx * ny * nz <= i32::MAX,
            origin.x + nx - 1 <= i32::MAX,
            origin.y + ny - 1 <= i32::MAX,
            origin.z + nz - 1 <= i32::MAX,
            forall|q: IVec3| #[trigger] lattice.requires((q,)),
        ensures
            g.wf(),
            g.corner() == origin,
            g.size() == (Point { x: nx as int, y: ny as int, z: nz as int }),
            forall|q: IVec3| g.holds(q@) ==> #[trigger] lattice.ensures((q,), g.value(q@)),
            forall|q: IVec3|
                origin.x <= q.x < origin.x + nx && origin.y <= q.y < origin.y + ny && origin.z <= q.z
                    < origin.z + nz ==> g.holds(q@) && #[trigger] lattice.ensures((q,), g.value(q@)),
    {
        let mut values: Vec<T> = Vec::new();
        assert(nx <= nx * ny <= nx * ny * nz && ny <= nx * ny && nz <= nx * ny * nz)
            by (nonlinear_arith)
            requires
                0 < nx,
                0 < ny,
                0 < nz,
        ;
        let area: usize = nx * ny;
        let total: usize = area * nz;
        let mut i: usize = 0;
        while i < total
            invariant
                i <= total,
                total == nx * ny * nz,
                values.len() == i,
                0 < nx <= i32::MAX,
                0 < ny <= i32::MAX,
                0 < nz <= i32::MAX,
                total <= i32::MAX,
                origin.x + nx - 1 <= i32::MAX,
                origin.y + ny - 1 <= i32::MAX,
                origin.z + nz - 1 <= i32::MAX,
                forall|q: IVec3| #[trigger] lattice.requires((q,)),
                forall|j: int|
                    0 <= j < i ==> lattice.ensures(
                        (grid_point(origin, nx as int, ny as int, j),),
                        #[trigger] values@[j],
                    ),
            decreases total - i,
        {
            let row: usize = i / nx;
            let x: i32 = (i % nx) as i32;
            proof {
                lemma_row_bound(i as int, nx as int, ny as int, nz as int);
            }
            let y: i32 = (row % ny) as i32;
            let z: i32 = (row / ny) as i32;
            let q = IVec3::new(origin.x + x, origin.y + y, origin.z + z);
            assert(q == grid_point(origin, nx as int, ny as int, i as int));
            values.push(lattice(q));
            i += 1;
        }
        let g = FieldGrid { origin, nx, ny, nz, values };
        assert forall|q: IVec3| g.holds(q@) implies #[trigger] lattice.ensures(
            (q,),
            g.value(q@),
        ) by {
            let l = q@.minus(origin@);
            lemma_place(l.x, l.y, l.z, nx as int, ny as int, nz as int);
            let j = grid_place(l.x, l.y, l.z, nx as int, ny as int);
            assert(grid_point(origin, nx as int, ny as int, j)@ == q@);
            crate::ivec::lemma_view_injective(grid_point(origin, nx as int, ny as int, j), q);
            assert(lattice.ensures(
                (grid_point(origin, nx as int, ny as int, j),),
                g.values@[j],
            ));
        }
        g
    }

    /// The value at a lattice point of the box.
    pub fn at(&self, q: IVec3) -> (v: T)
        requires
            self.wf(),
            self.holds(q@),
        ensures
            v == self.value(q@),
    {
        let x: usize = (q.x as i64 - self.origin.x as i64) as usize;
        let y: usize = (q.y as i64 - self.origin.y as i64) as usize;
        let z: usize = (q.z as i64 - self.origin.z as i64) as usize;
        proof {
            lemma_place(
                x as int,
                y as int,
                z as int,
                self.nx as int,
                self.ny as int,
                self.nz as int,
            );
            assert(0 <= z * self.ny && 0 <= (z * self.ny + y) * self.nx && z * self.ny + y <= (z
                * self.ny + y) * self.nx) by (nonlinear_arith)
                requires
                    self.nx >= 1,
                    y >= 0,
                    z >= 0,
                    self.ny >= 0,
            ;
        }
        self.values[(z * self.ny + y) * self.nx + x]
    }
}

/// The lattice point at place `j` of a grid.
pub open spec fn grid_point(origin: IVec3, nx: int, ny: int, j: int) -> IVec3 {
    Point {
        x: origin.x + j % nx,
        y: origin.y + j / nx % ny,
        z: origin.z + j / nx / ny,
    }.lattice()
}

proof fn lemma_row_bound(i: int, nx: int, ny: int, nz: int)
    requires
        0 <= i < nx * ny * nz,
        0 < nx,
        0 < ny,
        0 < nz,
    ensures
        0 <= i % nx < nx,
        0 <= i / nx % ny < ny,
        0 <= i / nx / ny < nz,
{
    let r = i / nx;
    vstd::arithmetic::div_mod::lemma_fundamental_div_mod(i, nx);
    vstd::arithmetic::div_mod::lemma_mod_bound(i, nx);
    vstd::arithmetic::div_mod::lemma_mod_bound(r, ny);
    assert(0 <= r < ny * nz) by (nonlinear_arith)
        requires
            i == nx * r + i % nx,
            0 <= i % nx < nx,
            0 <= i < nx * ny * nz,
            nx > 0,
    ;
    vstd::arithmetic::div_mod::lemma_fundamental_div_mod(r, ny);
    let z = r / ny;
    assert(0 <= z < nz) by (nonlinear_arith)
        requires
            r == ny * z + r % ny,
            0 <= r % ny < ny,
            0 <= r < ny * nz,
            ny > 0,
    ;
}

/// Of all rocks within two cells that count, a nearest one is named: none nearer
/// is passed over, and none is named only if none counts. Home does not count
/// when it is left out.
pub proof fn law_nearest_rock_is_found<G, L: Fn(IVec3) -> Option<Sighting<G>>>(
    pc: IVec3,
    exclude_home: bool,
    look: L,
    best: Option<Keyed<G>>,
    c: IVec3,
    s: Sighting<G>,
)
    requires
        forall|c: IVec3, x: Option<Sighting<G>>, y: Option<Sighting<G>>| #[trigger]
            look.ensures((c,), x) && #[trigger] look.ensures((c,), y) ==> x == y,
        nearest_rock(pc, exclude_home, look, best),
        -2 <= c.x - pc.x <= 2,
        -2 <= c.y - pc.y <= 2,
        -2 <= c.z - pc.z <= 2,
        look.ensures((c,), Some(s)),
        !(exclude_home && s.at_origin),
    ensures
        best is Some,
        -2 <= best->0.key.x - pc.x <= 2,
        -2 <= best->0.key.y - pc.y <= 2,
        -2 <= best->0.key.z - pc.z <= 2,
        exists|t: Sighting<G>| #[trigger]
            look.ensures((best->0.key,), Some(t)) && t.a == best->0.a && t.rank <= s.rank && !(
            exclude_home && t.at_origin),
{
    law_nearest_rock_is_nearest(pc, exclude_home, look, best, c, Some(s));
    let k = best->0;
    let t = choose|t: Option<Sighting<G>>|
        {
            &&& #[trigger] look.ensures((k.key,), t)
            &&& eligible(t, exclude_home)
            &&& t->0.a == k.a
            &&& eligible(Some(s), exclude_home) ==> t->0.rank <= s.rank
        };
    assert(t == Some(t->0));
    assert(look.ensures((best->0.key,), Some(t->0)));
}

/// A voxel is made of what its depth says: outside the surface of nothing, in
/// the shell of dust, in the core and along veins of crystal, else of rock.
pub proof fn law_depth_makes_the_material(inside: bool, in_shell: bool, in_core: bool, vein: bool)
    ensures
        material(inside, in_shell, in_core, vein) is None <==> !inside,
        material(inside, in_shell, in_core, vein) == Some(2u8) <==> inside && in_shell,
        material(inside, in_shell, in_core, vein) == Some(4u8) <==> inside && !in_shell && (in_core
            || vein),
        material(inside, in_shell, in_core, vein) == Some(3u8) <==> inside && !in_shell && !in_core
            && !vein,
{
}

/// Pure terrain is the first body's that has any there: bodies before it have
/// none, and where none has any there is air.
pub proof fn law_terrain_is_the_first_bodys<G, M: Fn(Asteroid<G>, IVec3) -> Option<u8>>(
    bodies: Seq<Asteroid<G>>,
    v: IVec3,
    made_of: M,
    n: int,
    b: u8,
    i: int,
    x: u8,
)
    requires
        forall|a: Asteroid<G>, x: Option<u8>, y: Option<u8>| #[trigger]
            made_of.ensures((a, v), x) && #[trigger] made_of.ensures((a, v), y) ==> x == y,
        terrain_at(bodies, v, made_of, n, b),
        0 <= n <= i <= bodies.len(),
        forall|j: int| n <= j < i ==> made_of.ensures((#[trigger] bodies[j], v), None),
    ensures
        i == bodies.len() ==> b == AIR,
        i < bodies.len() && made_of.ensures((bodies[i], v), Some(x)) ==> b == x,
    decreases i - n,
{
    if n < i {
        assert(made_of.ensures((bodies[n], v), None));
        law_terrain_is_the_first_bodys(bodies, v, made_of, n + 1, b, i, x);
    }
}

/// Tier and species at a voxel are those of the first body that covers it, and
/// in open space the tier given for it and species 0.
pub proof fn law_environment_is_the_first_bodys<G, C: Fn(Asteroid<G>) -> bool>(
    bodies: Seq<Asteroid<G>>,
    covers: C,
    open_tier: i32,
    n: int,
    r: (i32, u8),
    i: int,
)
    requires
        forall|a: Asteroid<G>, x: bool, y: bool| #[trigger]
            covers.ensures((a,), x) && #[trigger] covers.ensures((a,), y) ==> x == y,
        env_at(bodies, covers, open_tier, n, r),
        0 <= n <= i <= bodies.len(),
        forall|j: int| n <= j < i ==> covers.ensures((#[trigger] bodies[j],), false),
    ensures
        i == bodies.len() ==> r == (open_tier, 0u8),
        i < bodies.len() && covers.ensures((bodies[i],), true) ==> r == (
            bodies[i].tier,
            bodies[i].species,
        ),
    decreases i - n,
{
    if n < i {
        assert(covers.ensures((bodies[n],), false));
        law_environment_is_the_first_bodys(bodies, covers, open_tier, n + 1, r, i);
    }
}

/// The surface row of a column is the one above its highest solid row: every
/// row from there up is open, and with no solid row it is row 0.
pub proof fn law_surface_lies_on_the_highest_rock<S: Fn(IVec3) -> bool>(
    vx: i32,
    vz: i32,
    solid: S,
    y: int,
    row: i32,
)
    requires
        forall|v: IVec3, x: bool, y: bool| #[trigger]
            solid.ensures((v,), x) && #[trigger] solid.ensures((v,), y) ==> x == y,
        surface_row(vx, vz, solid, y),
        -69 <= row <= 69,
        solid.ensures((IVec3 { x: vx, y: row, z: vz },), true),
    ensures
        row < y <= 70,
        solid.ensures((IVec3 { x: vx, y: (y - 1) as i32, z: vz },), true),
        forall|r: i32|
            y <= r <= 69 ==> #[trigger] solid.ensures((IVec3 { x: vx, y: r, z: vz },), false),
{
    let v = IVec3 { x: vx, y: row, z: vz };
    assert(solid.ensures((v,), true));
    assert(!solid.ensures((v,), false));
}

/// Over a column without rock the surface is row 0.
pub proof fn law_bare_column_has_row_zero<S: Fn(IVec3) -> bool>(vx: i32, vz: i32, solid: S, y: int)
    requires
        surface_row(vx, vz, solid, y),
        forall|r: i32|
            -69 <= r <= 69 ==> !#[trigger] solid.ensures((IVec3 { x: vx, y: r, z: vz },), true),
    ensures
        y == 0,
{
}

/// Of rocks equally near the first in listing order is named: by z, then y, then
/// x.
pub proof fn law_nearest_tie_goes_to_the_first<G, L: Fn(IVec3) -> Option<Sighting<G>>>(
    pc: IVec3,
    exclude_home: bool,
    look: L,
    k: Keyed<G>,
    c: IVec3,
    s: Sighting<G>,
    t: Sighting<G>,
)
    requires
        forall|c: IVec3, x: Option<Sighting<G>>, y: Option<Sighting<G>>| #[trigger]
            look.ensures((c,), x) && #[trigger] look.ensures((c,), y) ==> x == y,
        nearest_rock(pc, exclude_home, look, Some(k)),
        -2 <= c.x - pc.x <= 2,
        -2 <= c.y - pc.y <= 2,
        -2 <= c.z - pc.z <= 2,
        look.ensures((c,), Some(s)),
        look.ensures((k.key,), Some(t)),
        !(exclude_home && s.at_origin),
        s.rank == t.rank,
    ensures
        k.key.z <= c.z,
        k.key.z == c.z ==> k.key.y <= c.y,
        k.key.z == c.z && k.key.y == c.y ==> k.key.x <= c.x,
{
    let (lo, hi, cells, seen) = choose|
        lo: IVec3,
        hi: IVec3,
        cells: Seq<IVec3>,
        seen: Seq<Option<Sighting<G>>>,
    |
        {
            &&& #[trigger] lists_box(cells, lo, hi)
            &&& forall|c: IVec3| #[trigger] within_two(pc, c) <==> c@.within(lo@, hi@)
            &&& seen.len() == cells.len()
            &&& forall|i: int|
                0 <= i < cells.len() ==> look.ensures((cells[i],), #[trigger] seen[i])
            &&& #[trigger] nearest_sighting(cells, seen, exclude_home, Some(k))
        };
    let i = choose|i: int|
        {
            &&& 0 <= i < seen.len()
            &&& eligible(#[trigger] seen[i], exclude_home)
            &&& k == (Keyed { key: cells[i], a: seen[i]->0.a })
            &&& forall|j: int|
                0 <= j < seen.len() && eligible(#[trigger] seen[j], exclude_home)
                    ==> seen[i]->0.rank <= seen[j]->0.rank && (j < i ==> seen[i]->0.rank
                    < seen[j]->0.rank)
        };
    assert(within_two(pc, c));
    assert(cells.contains(c));
    let j = cells.index_of(c);
    assert(look.ensures((cells[j],), seen[j]));
    assert(seen[j] == Some(s));
    assert(look.ensures((cells[i],), seen[i]));
    assert(seen[i] == Some(t));
    assert(eligible(seen[j], exclude_home));
    if i < j {
        crate::cells::law_listing_holds_the_box(cells, lo, hi, c, i, j);
    }
}

} // verus!
