//! The player: input, collision with the voxel grid, and the mining laser.
use crate::blocks::{
    block_display_name, display_text, has_ore, ore_value, ore_worth, AIR, BARRIER, ORE, REGOLITH,
};
use crate::body::Asteroid;
use crate::ivec::IVec3;
use crate::state::{body_answers, noted, owns, pure, seen, stands, total, WorldState};
use crate::storage::{law_block_is_determined, law_block_speaks_for_its_body, lemma_boxed};
use crate::world::VoxelWorld;
use vstd::prelude::*;

verus! {

/// Whether the controls are live after this frame's clicks: a click takes
/// them, escape gives them back, and a frame with both gives them back.
pub open spec fn focus_of(focused: bool, click: bool, escape: bool) -> bool {
    (focused || click) && !escape
}

/// What happens to the cursor this frame.
#[derive(Clone, Copy, PartialEq, Eq, Structural, Debug)]
pub struct FocusChange {
    /// Lock and hide the cursor.
    pub grab: bool,
    /// After that, free and show it.
    pub release: bool,
    /// Controls are live afterwards.
    pub focused: bool,
}

/// Take or give back the controls.
pub fn grab_cursor(focused: bool, click: bool, escape: bool) -> (c: FocusChange)
    ensures
        c.grab == (!focused && click),
        c.release == ((focused || click) && escape),
        c.focused == focus_of(focused, click, escape),
        c.focused == ((focused || click) && !escape),
{
    let mut live = focused;
    let grab = !live && click;
    if grab {
        live = true;
    }
    let release = live && escape;
    if release {
        live = false;
    }
    FocusChange { grab, release, focused: live }
}

/// Movement keys held down.
#[derive(Clone, Copy, PartialEq, Eq, Structural, Debug)]
pub struct MoveKeys {
    pub forward: bool,
    pub back: bool,
    pub right: bool,
    pub left: bool,
    pub up: bool,
    pub down: bool,
    pub brake: bool,
}

/// Where the player wants to go: -1, 0 or 1 along each of the player's axes.
#[derive(Clone, Copy, PartialEq, Eq, Structural, Debug)]
pub struct Wish {
    pub forward: i32,
    pub right: i32,
    pub up: i32,
    pub brake: bool,
}

/// Two opposite keys as a direction.
pub open spec fn axis_of(plus: bool, minus: bool) -> int {
    (if plus {
        1int
    } else {
        0
    }) - (if minus {
        1int
    } else {
        0
    })
}

fn axis_from(plus: bool, minus: bool) -> (a: i32)
    ensures
        a == axis_of(plus, minus),
{
    if plus && !minus {
        1
    } else if minus && !plus {
        -1
    } else {
        0
    }
}

/// Where the player wants to go, given the keys held down: nowhere while
/// the controls are not live.
pub open spec fn wish_of(focused: bool, keys: MoveKeys) -> Wish {
    if focused {
        Wish {
            forward: axis_of(keys.forward, keys.back) as i32,
            right: axis_of(keys.right, keys.left) as i32,
            up: axis_of(keys.up, keys.down) as i32,
            brake: keys.brake,
        }
    } else {
        Wish { forward: 0, right: 0, up: 0, brake: false }
    }
}

/// Where the player wants to go.
pub fn wish(focused: bool, keys: MoveKeys) -> (w: Wish)
    ensures
        w == wish_of(focused, keys),
        w.forward == if focused && keys.forward && !keys.back {
            1int
        } else if focused && keys.back && !keys.forward {
            -1
        } else {
            0
        },
        w.right == if focused && keys.right && !keys.left {
            1int
        } else if focused && keys.left && !keys.right {
            -1
        } else {
            0
        },
        w.up == if focused && keys.up && !keys.down {
            1int
        } else if focused && keys.down && !keys.up {
            -1
        } else {
            0
        },
        w.brake == (focused && keys.brake),
{
    if !focused {
        return Wish { forward: 0, right: 0, up: 0, brake: false };
    }
    Wish {
        forward: axis_from(keys.forward, keys.back),
        right: axis_from(keys.right, keys.left),
        up: axis_from(keys.up, keys.down),
        brake: keys.brake,
    }
}

/// How velocity is found this frame.
#[derive(Clone, Copy, PartialEq, Eq, Structural, Debug)]
pub enum Drive {
    /// Planted on a surface: velocity follows the keys directly.
    Walk { jump: bool },
    /// Free flight: accelerate, and bleed speed off while drifting or braking.
    Fly { damp: bool, hard: bool },
}

/// Whether a wish to go somewhere calls for thrust.
pub open spec fn thrusting(w: Wish) -> bool {
    w.forward != 0 || w.right != 0 || w.up != 0
}

/// How velocity is found for a wish, on the ground and in flight.
pub open spec fn drive_of(grounded: bool, w: Wish) -> Drive {
    if grounded {
        Drive::Walk { jump: w.up > 0 }
    } else {
        Drive::Fly { damp: !thrusting(w) || w.brake, hard: w.brake }
    }
}

/// How velocity is found this frame, and whether the jet is heard.
pub fn drive(grounded: bool, w: Wish) -> (r: (Drive, bool))
    ensures
        r == (drive_of(grounded, w), !grounded && thrusting(w)),
        grounded ==> r.0 == (Drive::Walk { jump: w.up > 0 }) && !r.1,
        !grounded ==> r.1 == (w.forward != 0 || w.right != 0 || w.up != 0) && r.0 == (Drive::Fly {
            damp: w.brake || (w.forward == 0 && w.right == 0 && w.up == 0),
            hard: w.brake,
        }),
{
    if grounded {
        return (Drive::Walk { jump: w.up > 0 }, false);
    }
    let thrust = w.forward != 0 || w.right != 0 || w.up != 0;
    (Drive::Fly { damp: !thrust || w.brake, hard: w.brake }, thrust)
}

/// What moving along one axis does.
#[derive(Clone, Copy, PartialEq, Eq, Structural, Debug)]
pub enum AxisMove {
    /// No speed along a level axis.
    Still,
    /// No vertical speed: look for ground just below the feet.
    Probe,
    /// The way is free.
    Free,
    /// Stopped by a wall, or by the floor.
    Stopped { floor: bool },
}

/// What moving along one axis (0 = x, 1 = y, 2 = z) does, given the sign of the
/// step and whether the box collides after it.
pub fn axis_move(axis: usize, sign: i32, collides: bool) -> (m: AxisMove)
    ensures
        m == if sign == 0 {
            if axis == 1 {
                AxisMove::Probe
            } else {
                AxisMove::Still
            }
        } else if !collides {
            AxisMove::Free
        } else {
            AxisMove::Stopped { floor: axis == 1 && sign < 0 }
        },
{
    if sign == 0 {
        if axis == 1 {
            AxisMove::Probe
        } else {
            AxisMove::Still
        }
    } else if !collides {
        AxisMove::Free
    } else {
        AxisMove::Stopped { floor: axis == 1 && sign < 0 }
    }
}

/// Whether a landing is felt: ground that was not there before, met fast.
pub fn touchdown(grounded: bool, was_grounded: bool, fast: bool) -> (r: bool)
    ensures
        r == (grounded && !was_grounded && fast),
{
    grounded && !was_grounded && fast
}

/// `hit` tells whether the box from `lo` to `hi` overlaps a block: it was found
/// in one of its voxels, or air was found in all of them.
pub open spec fn overlap<H, O, G, F: Fn(Asteroid<G>, IVec3) -> u8>(
    w: WorldState<H, O, G>,
    gen: F,
    lo: IVec3,
    hi: IVec3,
    hit: bool,
) -> bool {
    if hit {
        exists|v: IVec3, b: u8|
            v@.within(lo@, hi@) && b != AIR && #[trigger] seen(w, gen, v, b)
    } else {
        forall|v: IVec3| v@.within(lo@, hi@) ==> #[trigger] seen(w, gen, v, AIR)
    }
}

/// Whether the box of voxels from `lo` to `hi`, both included, overlaps a
/// block.
pub fn collides<H: Copy, O: Copy, G: Copy, F: Fn(Asteroid<G>, IVec3) -> u8>(
    world: &VoxelWorld<H, O, G>,
    lo: IVec3,
    hi: IVec3,
    gen: &F,
) -> (hit: bool)
    requires
        world@.wf(),
        total(*gen),
    ensures
        overlap(world@, *gen, lo, hi, hit),
{
    let cells = crate::cells::cell_box(lo, hi);
    let mut i: usize = 0;
    while i < cells.len()
        invariant
            i <= cells.len(),
            world@.wf(),
            total(*gen),
            crate::cells::lists_box(cells@, lo, hi),
            forall|j: int| 0 <= j < i ==> seen(world@, *gen, #[trigger] cells@[j], AIR),
        decreases cells.len() - i,
    {
        let v = cells[i];
        assert(cells@.contains(cells@[i as int]));
        let b = world.block(v, gen);
        if b != AIR {
            assert(seen(world@, *gen, v, b));
            return true;
        }
        i += 1;
    }
    assert forall|v: IVec3| v@.within(lo@, hi@) implies #[trigger] seen(world@, *gen, v, AIR) by {
        assert(cells@.contains(v));
        assert(cells@[cells@.index_of(v)] == v);
    }
    false
}

/// A box collides exactly when one of its voxels holds a block.
pub proof fn law_collision_is_a_block_in_the_box<H, O, G, F: Fn(Asteroid<G>, IVec3) -> u8>(
    w: WorldState<H, O, G>,
    gen: F,
    lo: IVec3,
    hi: IVec3,
    hit: bool,
    v: IVec3,
    b: u8,
)
    requires
        pure(gen),
        overlap(w, gen, lo, hi, hit),
        lo.x <= v.x <= hi.x,
        lo.y <= v.y <= hi.y,
        lo.z <= v.z <= hi.z,
        seen(w, gen, v, b),
    ensures
        b != AIR ==> hit,
        !hit ==> b == AIR,
        hit ==> exists|u: IVec3, c: u8|
            lo.x <= u.x <= hi.x && lo.y <= u.y <= hi.y && lo.z <= u.z <= hi.z && c != AIR
                && #[trigger] seen(w, gen, u, c),
{
    if !hit {
        assert(v@.within(lo@, hi@));
        assert(seen(w, gen, v, AIR));
        law_block_is_determined(w, gen, v, b, AIR);
    } else {
        let (u, c) = choose|u: IVec3, c: u8|
            u@.within(lo@, hi@) && c != AIR && #[trigger] seen(w, gen, u, c);
        assert(lo.x <= u.x <= hi.x);
    }
}

/// What the laser's heat does this frame.
#[derive(Clone, Copy, PartialEq, Eq, Structural, Debug)]
pub enum Heat {
    /// Locked out: it vents, fast.
    Vents,
    /// Trigger held: it rises.
    Rises,
    /// Idle: it falls.
    Falls,
}

/// The laser's switches.
#[derive(Clone, Copy, PartialEq, Eq, Structural, Debug)]
pub struct LaserState {
    pub firing: bool,
    pub locked: bool,
}

/// What the laser's heat does: a lockout overrides the trigger.
pub open spec fn heat_of(locked: bool, trigger: bool) -> Heat {
    if locked {
        Heat::Vents
    } else if trigger {
        Heat::Rises
    } else {
        Heat::Falls
    }
}

/// What the laser's heat does this frame.
pub fn heat_course(locked: bool, trigger: bool) -> (h: Heat)
    ensures
        h == heat_of(locked, trigger),
{
    if locked {
        Heat::Vents
    } else if trigger {
        Heat::Rises
    } else {
        Heat::Falls
    }
}

/// The laser's switches after its heat has run its course. `cooled` is whether
/// venting has brought the heat down to where a lockout clears, `saturated`
/// whether rising heat has reached its limit.
pub open spec fn switched(s: LaserState, h: Heat, cooled: bool, saturated: bool) -> LaserState {
    match h {
        Heat::Vents => LaserState { firing: false, locked: !cooled },
        Heat::Rises => LaserState { firing: !saturated, locked: saturated },
        Heat::Falls => LaserState { firing: false, ..s },
    }
}

/// The laser's switches after its heat has run its course, and whether it
/// overheated just now.
pub fn laser_step(s: LaserState, trigger: bool, cooled: bool, saturated: bool) -> (r: (
    LaserState,
    bool,
))
    ensures
        ({
            let h = heat_of(s.locked, trigger);
            r == (switched(s, h, cooled, saturated), h is Rises && saturated)
        }),
        r.0.firing == (trigger && !s.locked && !saturated),
        r.0.locked == if s.locked {
            !cooled
        } else {
            trigger && saturated
        },
        r.1 == (trigger && !s.locked && saturated),
{
    match heat_course(s.locked, trigger) {
        Heat::Vents => (LaserState { firing: false, locked: !cooled }, false),
        Heat::Rises => (LaserState { firing: !saturated, locked: saturated }, saturated),
        Heat::Falls => (LaserState { firing: false, locked: s.locked }, false),
    }
}

/// A locked laser is silent: it does not fire in the frame that locks it, nor
/// while it vents, whatever the trigger does.
pub proof fn law_locked_laser_is_silent(
    s: LaserState,
    trigger: bool,
    cooled: bool,
    saturated: bool,
)
    ensures
        ({
            let after = switched(s, heat_of(s.locked, trigger), cooled, saturated);
            (s.locked || after.locked) ==> !after.firing
        }),
{
}

/// What the beam does to the block that it lands on.
#[derive(Clone, Copy, PartialEq, Eq, Structural, Debug)]
pub enum Beam {
    /// Nothing there: the beam runs on.
    Passes,
    /// The block is looked at.
    Inspects,
    /// The block takes damage.
    Burns,
}

/// What the beam does to a block: barriers take no damage.
pub fn beam_on(id: u8, firing: bool) -> (b: Beam)
    ensures
        b == if id == AIR {
            Beam::Passes
        } else if firing && id != BARRIER {
            Beam::Burns
        } else {
            Beam::Inspects
        },
{
    if id == AIR {
        Beam::Passes
    } else if firing && id != BARRIER {
        Beam::Burns
    } else {
        Beam::Inspects
    }
}

/// Deal a blow to a block: it breaks when nothing remains, else what remains is
/// noted.
pub fn strike<H: Copy, O: Copy, G: Copy, F: Fn(Asteroid<G>, IVec3) -> u8>(
    world: &mut VoxelWorld<H, O, G>,
    v: IVec3,
    remaining: H,
    broken: bool,
    gen: &F,
)
    requires
        old(world)@.wf(),
        pure(*gen),
    ensures
        final(world)@.wf(),
        if broken {
            final(world)@ == old(world)@.removed(*gen, v)
        } else {
            noted(old(world)@, *gen, v, remaining, final(world)@)
        },
        broken ==> seen(final(world)@, *gen, v, AIR),
        forall|u: IVec3, b: u8|
            u != v || !broken ==> #[trigger] seen(final(world)@, *gen, u, b) == seen(
                old(world)@,
                *gen,
                u,
                b,
            ),
        forall|i: int, b: u8| #[trigger]
            owns(old(world)@, *gen, v, i, b) ==> final(world)@.damage.get(
                old(world)@.near[i].place(v),
            ) == if broken {
                None
            } else {
                Some(remaining)
            },
{
    let ghost before = world@;
    if broken {
        world.set_air(v, gen);
    } else {
        world.set_damage(v, remaining, gen);
        proof {
            assert forall|i: int, b: u8| #[trigger] owns(before, *gen, v, i, b) implies world@
                == (WorldState {
                damage: before.damage.insert(before.near[i].place(v), remaining),
                ..before
            }) by {
                law_block_speaks_for_its_body(
                    before,
                    *gen,
                    v,
                    i,
                    b,
                    0,
                    (0, 0),
                    None,
                    remaining,
                    world@,
                );
            }
            assert(world@ =~= WorldState { damage: world@.damage, ..before });
            assert forall|u: IVec3, b: u8| #[trigger] seen(world@, *gen, u, b) == seen(
                before,
                *gen,
                u,
                b,
            ) by {
                lemma_wear_shows_nowhere(before, *gen, world@.damage, u, b);
            }
        }
    }
}

/// Wear shows nowhere: what is seen at a voxel does not depend on it.
proof fn lemma_wear_shows_nowhere<H, O, G, F: Fn(Asteroid<G>, IVec3) -> u8>(
    w: WorldState<H, O, G>,
    gen: F,
    damage: Map<(IVec3, IVec3), H>,
    u: IVec3,
    b: u8,
)
    ensures
        seen(WorldState { damage, ..w }, gen, u, b) == seen(w, gen, u, b),
{
    let d = WorldState { damage, ..w };
    assert forall|j: int, c: u8| 0 <= j < w.near.len() implies #[trigger] body_answers(
        d,
        gen,
        w.near[j],
        u,
        c,
    ) == body_answers(w, gen, w.near[j], u, c) by {}
    assert forall|i: int| #[trigger] owns(d, gen, u, i, b) == owns(w, gen, u, i, b) by {}
    if b != AIR {
        if seen(d, gen, u, b) {
            let i = choose|i: int| #[trigger] owns(d, gen, u, i, b);
            assert(owns(w, gen, u, i, b));
        }
        if seen(w, gen, u, b) {
            let i = choose|i: int| #[trigger] owns(w, gen, u, i, b);
            assert(owns(d, gen, u, i, b));
        }
    } else {
        assert(d.near == w.near);
        assert forall|j: int| 0 <= j < w.near.len() && (#[trigger] w.near[j]).covers(
            u,
        ) implies body_answers(d, gen, w.near[j], u, AIR) == body_answers(
            w,
            gen,
            w.near[j],
            u,
            AIR,
        ) by {}
        if seen(d, gen, u, b) {
            assert forall|j: int| 0 <= j < w.near.len() && (#[trigger] w.near[j]).covers(
                u,
            ) implies body_answers(w, gen, w.near[j], u, AIR) by {
                assert(d.near[j].covers(u));
            }
        }
        if seen(w, gen, u, b) {
            assert forall|j: int| 0 <= j < d.near.len() && (#[trigger] d.near[j]).covers(
                u,
            ) implies body_answers(d, gen, d.near[j], u, AIR) by {
                assert(w.near[j].covers(u));
            }
        }
    }
}

/// A broken block forgets its damage: what grows back in its place, were it
/// ever generated again, starts fresh.
pub proof fn law_broken_block_forgets_damage<H, O, G, F: Fn(Asteroid<G>, IVec3) -> u8>(
    w: WorldState<H, O, G>,
    gen: F,
    v: IVec3,
    i: int,
    b: u8,
)
    requires
        owns(w, gen, v, i, b),
    ensures
        !w.removed(gen, v).damage.contains_key(w.near[i].place(v)),
{
    assert(stands(w, gen, v, i));
    assert(w.near[i].covers(v));
    lemma_boxed(w.near, v, 0);
}

/// What the crosshair points at.
pub struct TargetBlock {
    pub name: String,
    pub indestructible: bool,
    /// Sale value if this is a crystal, else 0.
    pub value: u64,
}

/// Describe the block at the crosshair.
pub fn target_block(id: u8, tier: i32, species: u8) -> (t: TargetBlock)
    requires
        id == ORE ==> has_ore(tier as int),
    ensures
        t.name@ == display_text(id, tier as int, species),
        t.indestructible == (id == BARRIER),
        t.value == if id == ORE {
            ore_worth(tier as int)
        } else {
            0
        },
{
    TargetBlock {
        name: block_display_name(id, tier, species),
        indestructible: id == BARRIER,
        value: if id == ORE {
            ore_value(tier)
        } else {
            0
        },
    }
}

/// How a breaking block sounds.
#[derive(Clone, Copy, PartialEq, Eq, Structural, Debug)]
pub enum BreakSound {
    /// Crystals ring, deeper for higher tiers.
    Ring,
    /// Dust crunches brightly.
    Dust,
    /// Rock crunches, heavier for higher tiers.
    Crunch,
}

/// How a breaking block sounds.
pub fn break_sound(id: u8) -> (s: BreakSound)
    ensures
        s == if id == ORE {
            BreakSound::Ring
        } else if id == REGOLITH {
            BreakSound::Dust
        } else {
            BreakSound::Crunch
        },
{
    if id == ORE {
        BreakSound::Ring
    } else if id == REGOLITH {
        BreakSound::Dust
    } else {
        BreakSound::Crunch
    }
}

/// How a moving body goes about it, by its state: which way it leans along an
/// axis, where a step takes it, which voxels its box covers, where it stands
/// after backing up to the boundary that it crossed, and which voxels lie just
/// below its feet.
pub struct Gait<L, M, X, N, P> {
    pub lean: L,
    pub shift: M,
    pub extent: X,
    pub snap: N,
    pub feet: P,
}

/// A body with this gait can go anywhere.
pub open spec fn able<
    S,
    L: Fn(S, usize) -> i32,
    M: Fn(S, usize) -> S,
    X: Fn(S) -> (IVec3, IVec3),
    N: Fn(S, usize) -> S,
    P: Fn(S) -> (IVec3, IVec3),
>(gait: Gait<L, M, X, N, P>) -> bool {
    &&& forall|s: S, a: usize| #[trigger] gait.lean.requires((s, a))
    &&& forall|s: S, a: usize| #[trigger] gait.shift.requires((s, a))
    &&& forall|s: S| #[trigger] gait.extent.requires((s,))
    &&& forall|s: S, a: usize| #[trigger] gait.snap.requires((s, a))
    &&& forall|s: S| #[trigger] gait.feet.requires((s,))
}

/// `hit` tells whether the voxels that `part` names for a state hold a block.
pub open spec fn bumps<H, O, G, S, F: Fn(Asteroid<G>, IVec3) -> u8, X: Fn(S) -> (IVec3, IVec3)>(
    w: WorldState<H, O, G>,
    gen: F,
    s: S,
    part: X,
    hit: bool,
) -> bool {
    exists|span: (IVec3, IVec3)| #[trigger]
        part.ensures((s,), span) && overlap(w, gen, span.0, span.1, hit)
}

/// A step along an axis led to `t` and into a block or not, and ended at
/// `after`: in the open it stays where it led; against a block it backs up, and
/// against one below the feet there is a floor.
pub open spec fn stepped_to<
    H,
    O,
    G,
    S,
    F: Fn(Asteroid<G>, IVec3) -> u8,
    L: Fn(S, usize) -> i32,
    M: Fn(S, usize) -> S,
    X: Fn(S) -> (IVec3, IVec3),
    N: Fn(S, usize) -> S,
    P: Fn(S) -> (IVec3, IVec3),
>(
    w: WorldState<H, O, G>,
    gen: F,
    gait: Gait<L, M, X, N, P>,
    axis: usize,
    sign: i32,
    t: S,
    after: S,
    floor: bool,
) -> bool {
    exists|hit: bool| #[trigger]
        bumps(w, gen, t, gait.extent, hit) && if hit {
            gait.snap.ensures((t, axis), after) && floor == (axis == 1 && sign < 0)
        } else {
            after == t && !floor
        }
}

/// Moving along one axis turned body state `s` into `after` and found a floor
/// or not. A body that does not lean looks for ground just below its feet.
pub open spec fn moved_axis<
    H,
    O,
    G,
    S,
    F: Fn(Asteroid<G>, IVec3) -> u8,
    L: Fn(S, usize) -> i32,
    M: Fn(S, usize) -> S,
    X: Fn(S) -> (IVec3, IVec3),
    N: Fn(S, usize) -> S,
    P: Fn(S) -> (IVec3, IVec3),
>(
    w: WorldState<H, O, G>,
    gen: F,
    gait: Gait<L, M, X, N, P>,
    s: S,
    axis: usize,
    after: S,
    floor: bool,
) -> bool {
    exists|sign: i32| #[trigger]
        gait.lean.ensures((s, axis), sign) && if sign == 0 {
            after == s && if axis == 1 {
                bumps(w, gen, s, gait.feet, floor)
            } else {
                !floor
            }
        } else {
            exists|t: S| #[trigger]
                gait.shift.ensures((s, axis), t) && stepped_to(
                    w,
                    gen,
                    gait,
                    axis,
                    sign,
                    t,
                    after,
                    floor,
                )
        }
}

/// Move along one axis and stop at solid voxels. Tells whether a floor was met.
pub fn move_axis<
    H: Copy,
    O: Copy,
    G: Copy,
    S: Copy,
    F: Fn(Asteroid<G>, IVec3) -> u8,
    L: Fn(S, usize) -> i32,
    M: Fn(S, usize) -> S,
    X: Fn(S) -> (IVec3, IVec3),
    N: Fn(S, usize) -> S,
    P: Fn(S) -> (IVec3, IVec3),
>(
    world: &VoxelWorld<H, O, G>,
    gen: &F,
    gait: &Gait<L, M, X, N, P>,
    s: S,
    axis: usize,
) -> (r: (S, bool))
    requires
        world@.wf(),
        total(*gen),
        able::<S, L, M, X, N, P>(*gait),
    ensures
        moved_axis(world@, *gen, *gait, s, axis, r.0, r.1),
{
    let lean = &gait.lean;
    let sign: i32 = lean(s, axis);
    assert(gait.lean.ensures((s, axis), sign));
    if sign == 0 {
        if axis == 1 {
            let feet = &gait.feet;
            let span = feet(s);
            assert(gait.feet.ensures((s,), span));
            let floor = collides(world, span.0, span.1, gen);
            assert(bumps(world@, *gen, s, gait.feet, floor));
            return (s, floor);
        }
        return (s, false);
    }
    let shift = &gait.shift;
    let t = shift(s, axis);
    assert(gait.shift.ensures((s, axis), t));
    let extent = &gait.extent;
    let span = extent(t);
    assert(gait.extent.ensures((t,), span));
    let hit = collides(world, span.0, span.1, gen);
    assert(bumps(world@, *gen, t, gait.extent, hit));
    match axis_move(axis, sign, hit) {
        AxisMove::Stopped { floor } => {
            let snap = &gait.snap;
            let after = snap(t, axis);
            assert(stepped_to(world@, *gen, *gait, axis, sign, t, after, floor));
            (after, floor)
        },
        _ => {
            assert(stepped_to(world@, *gen, *gait, axis, sign, t, t, false));
            (t, false)
        },
    }
}

/// One substep: along x, then z, then y. A floor counts only on the last.
pub open spec fn substep<
    H,
    O,
    G,
    S,
    F: Fn(Asteroid<G>, IVec3) -> u8,
    L: Fn(S, usize) -> i32,
    M: Fn(S, usize) -> S,
    X: Fn(S) -> (IVec3, IVec3),
    N: Fn(S, usize) -> S,
    P: Fn(S) -> (IVec3, IVec3),
>(
    w: WorldState<H, O, G>,
    gen: F,
    gait: Gait<L, M, X, N, P>,
    s: S,
    grounded: bool,
    after: S,
    after_grounded: bool,
) -> bool {
    exists|x: (S, bool), z: (S, bool), y: (S, bool)|
        {
            &&& #[trigger] moved_axis(w, gen, gait, s, 0, x.0, x.1)
            &&& #[trigger] moved_axis(w, gen, gait, x.0, 2, z.0, z.1)
            &&& #[trigger] moved_axis(w, gen, gait, z.0, 1, y.0, y.1)
            &&& after == y.0
            &&& after_grounded == (grounded || y.1)
        }
}

/// `n` substeps turned `s` into `after`; `grounded` tells whether any of them
/// met a floor.
pub open spec fn swept<
    H,
    O,
    G,
    S,
    F: Fn(Asteroid<G>, IVec3) -> u8,
    L: Fn(S, usize) -> i32,
    M: Fn(S, usize) -> S,
    X: Fn(S) -> (IVec3, IVec3),
    N: Fn(S, usize) -> S,
    P: Fn(S) -> (IVec3, IVec3),
>(
    w: WorldState<H, O, G>,
    gen: F,
    gait: Gait<L, M, X, N, P>,
    s: S,
    n: int,
    after: S,
    grounded: bool,
) -> bool
    decreases n,
{
    if n <= 0 {
        after == s && !grounded
    } else {
        exists|mid: S, floor: bool|
            swept(w, gen, gait, s, n - 1, mid, floor) && #[trigger] substep(
                w,
                gen,
                gait,
                mid,
                floor,
                after,
                grounded,
            )
    }
}

/// Move through `n` substeps, axis by axis, so that no wall is tunneled.
pub fn swept_move<
    H: Copy,
    O: Copy,
    G: Copy,
    S: Copy,
    F: Fn(Asteroid<G>, IVec3) -> u8,
    L: Fn(S, usize) -> i32,
    M: Fn(S, usize) -> S,
    X: Fn(S) -> (IVec3, IVec3),
    N: Fn(S, usize) -> S,
    P: Fn(S) -> (IVec3, IVec3),
>(
    world: &VoxelWorld<H, O, G>,
    gen: &F,
    gait: &Gait<L, M, X, N, P>,
    s: S,
    n: u32,
) -> (r: (S, bool))
    requires
        world@.wf(),
        total(*gen),
        able::<S, L, M, X, N, P>(*gait),
    ensures
        swept(world@, *gen, *gait, s, n as int, r.0, r.1),
{
    let mut at = s;
    let mut grounded = false;
    let mut k: u32 = 0;
    while k < n
        invariant
            k <= n,
            world@.wf(),
            total(*gen),
            able::<S, L, M, X, N, P>(*gait),
            swept(world@, *gen, *gait, s, k as int, at, grounded),
        decreases n - k,
    {
        let ghost mid = at;
        let ghost floor = grounded;
        let x = move_axis(world, gen, gait, at, 0);
        let z = move_axis(world, gen, gait, x.0, 2);
        let y = move_axis(world, gen, gait, z.0, 1);
        at = y.0;
        grounded = grounded || y.1;
        assert(moved_axis(world@, *gen, *gait, mid, 0, x.0, x.1));
        assert(moved_axis(world@, *gen, *gait, x.0, 2, z.0, z.1));
        assert(moved_axis(world@, *gen, *gait, z.0, 1, y.0, y.1));
        assert(substep(world@, *gen, *gait, mid, floor, at, grounded));
        k += 1;
    }
    (at, grounded)
}

/// The box of a body overlaps no block.
pub open spec fn clear<H, O, G, S, F: Fn(Asteroid<G>, IVec3) -> u8, X: Fn(S) -> (IVec3, IVec3)>(
    w: WorldState<H, O, G>,
    gen: F,
    extent: X,
    s: S,
) -> bool {
    forall|span: (IVec3, IVec3)| #[trigger]
        extent.ensures((s,), span) ==> overlap(w, gen, span.0, span.1, false)
}

/// The box of `after` covers no voxel that the box of `s` does not.
pub open spec fn stays_in<S, X: Fn(S) -> (IVec3, IVec3)>(extent: X, s: S, after: S) -> bool {
    forall|span: (IVec3, IVec3)| #[trigger]
        extent.ensures((after,), span) ==> exists|was: (IVec3, IVec3)| #[trigger]
            extent.ensures((s,), was) && span.0@.within(was.0@, was.1@) && span.1@.within(
                was.0@,
                was.1@,
            )
}

/// A gait that backs up properly: what a body covers depends on its state
/// alone, and after a step into a block it is back among the voxels that it
/// came from.
pub open spec fn backs_up<
    S,
    L: Fn(S, usize) -> i32,
    M: Fn(S, usize) -> S,
    X: Fn(S) -> (IVec3, IVec3),
    N: Fn(S, usize) -> S,
    P: Fn(S) -> (IVec3, IVec3),
>(gait: Gait<L, M, X, N, P>) -> bool {
    &&& forall|s: S, a: (IVec3, IVec3), b: (IVec3, IVec3)| #[trigger]
        gait.extent.ensures((s,), a) && #[trigger] gait.extent.ensures((s,), b) ==> a == b
    &&& forall|s: S, t: S, after: S, axis: usize| #[trigger]
        gait.shift.ensures((s, axis), t) && #[trigger] gait.snap.ensures((t, axis), after)
            ==> stays_in(gait.extent, s, after)
}

proof fn lemma_within_clear<H, O, G, S, F: Fn(Asteroid<G>, IVec3) -> u8, X: Fn(S) -> (IVec3, IVec3)>(
    w: WorldState<H, O, G>,
    gen: F,
    extent: X,
    s: S,
    after: S,
)
    requires
        clear(w, gen, extent, s),
        stays_in(extent, s, after),
    ensures
        clear(w, gen, extent, after),
{
    assert forall|span: (IVec3, IVec3)| #[trigger] extent.ensures((after,), span) implies overlap(
        w,
        gen,
        span.0,
        span.1,
        false,
    ) by {
        let was = choose|was: (IVec3, IVec3)| #[trigger]
            extent.ensures((s,), was) && span.0@.within(was.0@, was.1@) && span.1@.within(
                was.0@,
                was.1@,
            );
        assert(overlap(w, gen, was.0, was.1, false));
        assert forall|v: IVec3| v@.within(span.0@, span.1@) implies #[trigger] seen(
            w,
            gen,
            v,
            AIR,
        ) by {
            assert(v@.within(was.0@, was.1@));
        }
    }
}

/// A gait that goes by the body's state alone: each of its functions has one
/// answer for it.
pub open spec fn steady<
    S,
    L: Fn(S, usize) -> i32,
    M: Fn(S, usize) -> S,
    X: Fn(S) -> (IVec3, IVec3),
    N: Fn(S, usize) -> S,
    P: Fn(S) -> (IVec3, IVec3),
>(gait: Gait<L, M, X, N, P>) -> bool {
    &&& forall|s: S, a: usize, x: i32, y: i32| #[trigger]
        gait.lean.ensures((s, a), x) && #[trigger] gait.lean.ensures((s, a), y) ==> x == y
    &&& forall|s: S, a: usize, x: S, y: S| #[trigger]
        gait.shift.ensures((s, a), x) && #[trigger] gait.shift.ensures((s, a), y) ==> x == y
    &&& forall|s: S, x: (IVec3, IVec3), y: (IVec3, IVec3)| #[trigger]
        gait.extent.ensures((s,), x) && #[trigger] gait.extent.ensures((s,), y) ==> x == y
    &&& forall|s: S, x: (IVec3, IVec3), y: (IVec3, IVec3)| #[trigger]
        gait.feet.ensures((s,), x) && #[trigger] gait.feet.ensures((s,), y) ==> x == y
}

/// A step goes where it leads, unless a block is in the way: with no lean the
/// body stays, and finds a floor if a block lies just below its feet; with one
/// it ends where the step led if its box there holds no block, and backs up if
/// it holds one, onto a floor exactly if the step went down.
pub proof fn law_step_goes_where_it_leads<
    H,
    O,
    G,
    S,
    F: Fn(Asteroid<G>, IVec3) -> u8,
    L: Fn(S, usize) -> i32,
    M: Fn(S, usize) -> S,
    X: Fn(S) -> (IVec3, IVec3),
    N: Fn(S, usize) -> S,
    P: Fn(S) -> (IVec3, IVec3),
>(
    w: WorldState<H, O, G>,
    gen: F,
    gait: Gait<L, M, X, N, P>,
    s: S,
    axis: usize,
    after: S,
    floor: bool,
    sign: i32,
    t: S,
    span: (IVec3, IVec3),
    v: IVec3,
    b: u8,
)
    requires
        pure(gen),
        steady::<S, L, M, X, N, P>(gait),
        moved_axis(w, gen, gait, s, axis, after, floor),
        gait.lean.ensures((s, axis), sign),
    ensures
        sign == 0 ==> after == s,
        sign == 0 && axis != 1 ==> !floor,
        sign == 0 && axis == 1 && gait.feet.ensures((s,), span) ==> {
            &&& !floor ==> (span.0.x <= v.x <= span.1.x && span.0.y <= v.y <= span.1.y && span.0.z
                <= v.z <= span.1.z && seen(w, gen, v, b) ==> b == AIR)
            &&& floor ==> exists|u: IVec3, c: u8|
                span.0.x <= u.x <= span.1.x && span.0.y <= u.y <= span.1.y && span.0.z <= u.z
                    <= span.1.z && c != AIR && #[trigger] seen(w, gen, u, c)
        },
        sign != 0 && gait.shift.ensures((s, axis), t) && gait.extent.ensures((t,), span) ==> {
            ||| {
                &&& after == t
                &&& !floor
                &&& span.0.x <= v.x <= span.1.x && span.0.y <= v.y <= span.1.y && span.0.z <= v.z
                    <= span.1.z && seen(w, gen, v, b) ==> b == AIR
            }
            ||| {
                &&& gait.snap.ensures((t, axis), after)
                &&& floor == (axis == 1 && sign < 0)
                &&& exists|u: IVec3, c: u8|
                    span.0.x <= u.x <= span.1.x && span.0.y <= u.y <= span.1.y && span.0.z <= u.z
                        <= span.1.z && c != AIR && #[trigger] seen(w, gen, u, c)
            }
        },
{
    let lean = choose|lean: i32| #[trigger]
        gait.lean.ensures((s, axis), lean) && if lean == 0 {
            after == s && if axis == 1 {
                bumps(w, gen, s, gait.feet, floor)
            } else {
                !floor
            }
        } else {
            exists|t: S| #[trigger]
                gait.shift.ensures((s, axis), t) && stepped_to(
                    w,
                    gen,
                    gait,
                    axis,
                    lean,
                    t,
                    after,
                    floor,
                )
        };
    assert(lean == sign);
    if sign == 0 {
        if axis == 1 && gait.feet.ensures((s,), span) {
            let other = choose|other: (IVec3, IVec3)| #[trigger]
                gait.feet.ensures((s,), other) && overlap(w, gen, other.0, other.1, floor);
            assert(other == span);
            lemma_bump(w, gen, span, floor, v, b);
        }
    } else if gait.shift.ensures((s, axis), t) && gait.extent.ensures((t,), span) {
        let to = choose|to: S| #[trigger]
            gait.shift.ensures((s, axis), to) && stepped_to(
                w,
                gen,
                gait,
                axis,
                sign,
                to,
                after,
                floor,
            );
        assert(to == t);
        let hit = choose|hit: bool| #[trigger]
            bumps(w, gen, t, gait.extent, hit) && if hit {
                gait.snap.ensures((t, axis), after) && floor == (axis == 1 && sign < 0)
            } else {
                after == t && !floor
            };
        let other = choose|other: (IVec3, IVec3)| #[trigger]
            gait.extent.ensures((t,), other) && overlap(w, gen, other.0, other.1, hit);
        assert(other == span);
        lemma_bump(w, gen, span, hit, v, b);
    }
}

proof fn lemma_bump<H, O, G, F: Fn(Asteroid<G>, IVec3) -> u8>(
    w: WorldState<H, O, G>,
    gen: F,
    span: (IVec3, IVec3),
    hit: bool,
    v: IVec3,
    b: u8,
)
    requires
        pure(gen),
        overlap(w, gen, span.0, span.1, hit),
    ensures
        !hit ==> (span.0.x <= v.x <= span.1.x && span.0.y <= v.y <= span.1.y && span.0.z <= v.z
            <= span.1.z && seen(w, gen, v, b) ==> b == AIR),
        hit ==> exists|u: IVec3, c: u8|
            span.0.x <= u.x <= span.1.x && span.0.y <= u.y <= span.1.y && span.0.z <= u.z
                <= span.1.z && c != AIR && #[trigger] seen(w, gen, u, c),
{
    if hit {
        let (u, c) = choose|u: IVec3, c: u8|
            u@.within(span.0@, span.1@) && c != AIR && #[trigger] seen(w, gen, u, c);
        assert(span.0.x <= u.x <= span.1.x);
    } else if v@.within(span.0@, span.1@) && seen(w, gen, v, b) {
        assert(seen(w, gen, v, AIR));
        law_block_is_determined(w, gen, v, b, AIR);
    }
}

/// A sweep is its substeps, one after the other, and each substep moves along
/// x, then z, then y; a floor met on the last of these grounds the body, and
/// once grounded it stays so to the end of the sweep.
pub proof fn law_sweep_is_its_substeps<
    H,
    O,
    G,
    S,
    F: Fn(Asteroid<G>, IVec3) -> u8,
    L: Fn(S, usize) -> i32,
    M: Fn(S, usize) -> S,
    X: Fn(S) -> (IVec3, IVec3),
    N: Fn(S, usize) -> S,
    P: Fn(S) -> (IVec3, IVec3),
>(
    w: WorldState<H, O, G>,
    gen: F,
    gait: Gait<L, M, X, N, P>,
    s: S,
    n: int,
    after: S,
    grounded: bool,
)
    requires
        swept(w, gen, gait, s, n, after, grounded),
    ensures
        n <= 0 ==> after == s && !grounded,
        n > 0 ==> exists|mid: S, floor: bool, x: (S, bool), z: (S, bool), y: (S, bool)|
            {
                &&& #[trigger] swept(w, gen, gait, s, n - 1, mid, floor)
                &&& #[trigger] moved_axis(w, gen, gait, mid, 0, x.0, x.1)
                &&& #[trigger] moved_axis(w, gen, gait, x.0, 2, z.0, z.1)
                &&& #[trigger] moved_axis(w, gen, gait, z.0, 1, y.0, y.1)
                &&& after == y.0
                &&& grounded <==> floor || y.1
            },
{
    if n > 0 {
        let (mid, floor) = choose|mid: S, floor: bool|
            swept(w, gen, gait, s, n - 1, mid, floor) && #[trigger] substep(
                w,
                gen,
                gait,
                mid,
                floor,
                after,
                grounded,
            );
        let (x, z, y) = choose|x: (S, bool), z: (S, bool), y: (S, bool)|
            {
                &&& #[trigger] moved_axis(w, gen, gait, mid, 0, x.0, x.1)
                &&& #[trigger] moved_axis(w, gen, gait, x.0, 2, z.0, z.1)
                &&& #[trigger] moved_axis(w, gen, gait, z.0, 1, y.0, y.1)
                &&& after == y.0
                &&& grounded == (floor || y.1)
            };
        assert(swept(w, gen, gait, s, n - 1, mid, floor));
    }
}

/// A move along one axis stops at the world's blocks: a body that overlapped
/// none overlaps none afterwards.
pub proof fn law_move_stops_at_blocks<
    H,
    O,
    G,
    S,
    F: Fn(Asteroid<G>, IVec3) -> u8,
    L: Fn(S, usize) -> i32,
    M: Fn(S, usize) -> S,
    X: Fn(S) -> (IVec3, IVec3),
    N: Fn(S, usize) -> S,
    P: Fn(S) -> (IVec3, IVec3),
>(
    w: WorldState<H, O, G>,
    gen: F,
    gait: Gait<L, M, X, N, P>,
    s: S,
    axis: usize,
    after: S,
    floor: bool,
)
    requires
        backs_up::<S, L, M, X, N, P>(gait),
        moved_axis(w, gen, gait, s, axis, after, floor),
        clear(w, gen, gait.extent, s),
    ensures
        clear(w, gen, gait.extent, after),
{
    let sign = choose|sign: i32| #[trigger]
        gait.lean.ensures((s, axis), sign) && if sign == 0 {
            after == s && if axis == 1 {
                bumps(w, gen, s, gait.feet, floor)
            } else {
                !floor
            }
        } else {
            exists|t: S| #[trigger]
                gait.shift.ensures((s, axis), t) && stepped_to(
                    w,
                    gen,
                    gait,
                    axis,
                    sign,
                    t,
                    after,
                    floor,
                )
        };
    if sign != 0 {
        let t = choose|t: S| #[trigger]
            gait.shift.ensures((s, axis), t) && stepped_to(
                w,
                gen,
                gait,
                axis,
                sign,
                t,
                after,
                floor,
            );
        let hit = choose|hit: bool| #[trigger]
            bumps(w, gen, t, gait.extent, hit) && if hit {
                gait.snap.ensures((t, axis), after) && floor == (axis == 1 && sign < 0)
            } else {
                after == t && !floor
            };
        if hit {
            lemma_within_clear(w, gen, gait.extent, s, after);
        } else {
            let span = choose|span: (IVec3, IVec3)| #[trigger]
                gait.extent.ensures((t,), span) && overlap(w, gen, span.0, span.1, hit);
            assert forall|other: (IVec3, IVec3)| #[trigger]
                gait.extent.ensures((after,), other) implies overlap(
                w,
                gen,
                other.0,
                other.1,
                false,
            ) by {
                assert(other == span);
            }
        }
    }
}

/// A sweep never leaves the body embedded in rock: if its box overlapped no
/// block at the start, it overlaps none at the end.
pub proof fn law_sweep_never_embeds<
    H,
    O,
    G,
    S,
    F: Fn(Asteroid<G>, IVec3) -> u8,
    L: Fn(S, usize) -> i32,
    M: Fn(S, usize) -> S,
    X: Fn(S) -> (IVec3, IVec3),
    N: Fn(S, usize) -> S,
    P: Fn(S) -> (IVec3, IVec3),
>(
    w: WorldState<H, O, G>,
    gen: F,
    gait: Gait<L, M, X, N, P>,
    s: S,
    n: int,
    after: S,
    grounded: bool,
)
    requires
        backs_up::<S, L, M, X, N, P>(gait),
        swept(w, gen, gait, s, n, after, grounded),
        clear(w, gen, gait.extent, s),
    ensures
        clear(w, gen, gait.extent, after),
    decreases n,
{
    if n > 0 {
        let (mid, floor) = choose|mid: S, floor: bool|
            swept(w, gen, gait, s, n - 1, mid, floor) && #[trigger] substep(
                w,
                gen,
                gait,
                mid,
                floor,
                after,
                grounded,
            );
        law_sweep_never_embeds(w, gen, gait, s, n - 1, mid, floor);
        let (x, z, y) = choose|x: (S, bool), z: (S, bool), y: (S, bool)|
            {
                &&& #[trigger] moved_axis(w, gen, gait, mid, 0, x.0, x.1)
                &&& #[trigger] moved_axis(w, gen, gait, x.0, 2, z.0, z.1)
                &&& #[trigger] moved_axis(w, gen, gait, z.0, 1, y.0, y.1)
                &&& after == y.0
                &&& grounded == (floor || y.1)
            };
        law_move_stops_at_blocks(w, gen, gait, mid, 0, x.0, x.1);
        law_move_stops_at_blocks(w, gen, gait, x.0, 2, z.0, z.1);
        law_move_stops_at_blocks(w, gen, gait, z.0, 1, y.0, y.1);
    }
}

/// How a frame of movement ended.
#[derive(Clone, Copy, PartialEq, Eq, Structural, Debug)]
pub struct Stride {
    pub grounded: bool,
    /// The jet is heard.
    pub jet: bool,
    /// A landing is felt.
    pub landed: bool,
}

/// A frame of movement for a wish: `steer` set the velocity and the number of
/// substeps, `fast` judged the speed before the sweep, and the sweep ran.
pub open spec fn strode<
    H,
    O,
    G,
    S,
    F: Fn(Asteroid<G>, IVec3) -> u8,
    T: Fn(S, Wish, Drive) -> (S, u32),
    L: Fn(S, usize) -> i32,
    M: Fn(S, usize) -> S,
    X: Fn(S) -> (IVec3, IVec3),
    N: Fn(S, usize) -> S,
    P: Fn(S) -> (IVec3, IVec3),
    V: Fn(S) -> bool,
>(
    world: WorldState<H, O, G>,
    gen: F,
    gait: Gait<L, M, X, N, P>,
    s: S,
    grounded: bool,
    w: Wish,
    steer: T,
    fast: V,
    after: S,
    r: Stride,
) -> bool {
    exists|p: (S, u32), quick: bool|
        {
            &&& #[trigger] steer.ensures((s, w, drive_of(grounded, w)), p)
            &&& #[trigger] fast.ensures((p.0,), quick)
            &&& swept(world, gen, gait, p.0, p.1 as int, after, r.grounded)
            &&& r.jet == (!grounded && thrusting(w))
            &&& r.landed == (r.grounded && !grounded && quick)
        }
}

/// Move the player for a frame: the keys make a wish, the wish a velocity, and
/// the velocity is swept through the voxels of the world. `steer` turns the
/// wish into a velocity and says in how many substeps to sweep, `fast` judges
/// whether a landing at this speed is felt.
pub fn player_move<
    H: Copy,
    O: Copy,
    G: Copy,
    S: Copy,
    F: Fn(Asteroid<G>, IVec3) -> u8,
    T: Fn(S, Wish, Drive) -> (S, u32),
    L: Fn(S, usize) -> i32,
    M: Fn(S, usize) -> S,
    X: Fn(S) -> (IVec3, IVec3),
    N: Fn(S, usize) -> S,
    P: Fn(S) -> (IVec3, IVec3),
    V: Fn(S) -> bool,
>(
    world: &VoxelWorld<H, O, G>,
    gen: &F,
    gait: &Gait<L, M, X, N, P>,
    s: S,
    grounded: bool,
    focused: bool,
    keys: MoveKeys,
    steer: &T,
    fast: &V,
) -> (r: (S, Stride))
    requires
        world@.wf(),
        total(*gen),
        able::<S, L, M, X, N, P>(*gait),
        forall|s: S, w: Wish, d: Drive| #[trigger] steer.requires((s, w, d)),
        forall|s: S| #[trigger] fast.requires((s,)),
    ensures
        strode(
            world@,
            *gen,
            *gait,
            s,
            grounded,
            wish_of(focused, keys),
            *steer,
            *fast,
            r.0,
            r.1,
        ),
{
    let w = wish(focused, keys);
    let (how, jet) = drive(grounded, w);
    let (ready, steps) = steer(s, w, how);
    let quick = fast(ready);
    assert(steer.ensures((s, w, how), (ready, steps)) && fast.ensures((ready,), quick));
    let (after, floor) = swept_move(world, gen, gait, ready, steps);
    let landed = touchdown(floor, grounded, quick);
    (after, Stride { grounded: floor, jet, landed })
}

/// Hands off the controls, nothing thrusts, and no landing is felt by one who
/// already stands.
pub proof fn law_idle_player_makes_no_noise<
    H,
    O,
    G,
    S,
    F: Fn(Asteroid<G>, IVec3) -> u8,
    T: Fn(S, Wish, Drive) -> (S, u32),
    L: Fn(S, usize) -> i32,
    M: Fn(S, usize) -> S,
    X: Fn(S) -> (IVec3, IVec3),
    N: Fn(S, usize) -> S,
    P: Fn(S) -> (IVec3, IVec3),
    V: Fn(S) -> bool,
>(
    world: WorldState<H, O, G>,
    gen: F,
    gait: Gait<L, M, X, N, P>,
    s: S,
    grounded: bool,
    focused: bool,
    keys: MoveKeys,
    steer: T,
    fast: V,
    after: S,
    r: Stride,
)
    requires
        strode(world, gen, gait, s, grounded, wish_of(focused, keys), steer, fast, after, r),
    ensures
        !focused ==> !r.jet,
        grounded ==> !r.jet && !r.landed,
{
}

/// The keys steer: while the controls are live the wish is the keys held, one
/// against the other, and otherwise nothing; on the ground it makes a walk, in
/// flight a thrust, which is heard, and which is damped when there is none or
/// when braking.
pub proof fn law_keys_make_the_wish(grounded: bool, focused: bool, keys: MoveKeys)
    ensures
        ({
            let w = wish_of(focused, keys);
            &&& w.forward > 0 <==> focused && keys.forward && !keys.back
            &&& w.forward < 0 <==> focused && keys.back && !keys.forward
            &&& w.right > 0 <==> focused && keys.right && !keys.left
            &&& w.right < 0 <==> focused && keys.left && !keys.right
            &&& w.up > 0 <==> focused && keys.up && !keys.down
            &&& w.up < 0 <==> focused && keys.down && !keys.up
            &&& -1 <= w.forward <= 1 && -1 <= w.right <= 1 && -1 <= w.up <= 1
            &&& w.brake == (focused && keys.brake)
            &&& thrusting(w) <==> w.forward != 0 || w.right != 0 || w.up != 0
            &&& grounded ==> drive_of(grounded, w) == (Drive::Walk { jump: w.up > 0 })
            &&& !grounded ==> drive_of(grounded, w) == (Drive::Fly {
                damp: w.brake || (w.forward == 0 && w.right == 0 && w.up == 0),
                hard: w.brake,
            })
        }),
{
}

/// A frame of movement is the sweep of what steering made of the wish; the jet
/// is heard in flight with thrust, and a landing is felt on fresh ground met
/// fast.
pub proof fn law_player_moves_as_steered<
    H,
    O,
    G,
    S,
    F: Fn(Asteroid<G>, IVec3) -> u8,
    T: Fn(S, Wish, Drive) -> (S, u32),
    L: Fn(S, usize) -> i32,
    M: Fn(S, usize) -> S,
    X: Fn(S) -> (IVec3, IVec3),
    N: Fn(S, usize) -> S,
    P: Fn(S) -> (IVec3, IVec3),
    V: Fn(S) -> bool,
>(
    world: WorldState<H, O, G>,
    gen: F,
    gait: Gait<L, M, X, N, P>,
    s: S,
    grounded: bool,
    focused: bool,
    keys: MoveKeys,
    steer: T,
    fast: V,
    after: S,
    r: Stride,
)
    requires
        strode(world, gen, gait, s, grounded, wish_of(focused, keys), steer, fast, after, r),
    ensures
        r.jet <==> !grounded && focused && (keys.forward != keys.back || keys.right != keys.left
            || keys.up != keys.down),
        r.landed ==> r.grounded && !grounded,
        exists|p: (S, u32), quick: bool|
            {
                &&& #[trigger] steer.ensures(
                    (s, wish_of(focused, keys), drive_of(grounded, wish_of(focused, keys))),
                    p,
                )
                &&& #[trigger] fast.ensures((p.0,), quick)
                &&& swept(world, gen, gait, p.0, p.1 as int, after, r.grounded)
                &&& r.landed == (r.grounded && !grounded && quick)
            },
{
    let w = wish_of(focused, keys);
    let (p, quick) = choose|p: (S, u32), quick: bool|
        {
            &&& #[trigger] steer.ensures((s, w, drive_of(grounded, w)), p)
            &&& #[trigger] fast.ensures((p.0,), quick)
            &&& swept(world, gen, gait, p.0, p.1 as int, after, r.grounded)
            &&& r.jet == (!grounded && thrusting(w))
            &&& r.landed == (r.grounded && !grounded && quick)
        };
    assert(steer.ensures((s, w, drive_of(grounded, w)), p) && fast.ensures((p.0,), quick));
}

/// The player is never left embedded in the world's blocks: one whose box
/// overlaps no block before a frame overlaps none after it, as long as steering
/// only sets the velocity.
pub proof fn law_player_is_never_embedded<
    H,
    O,
    G,
    S,
    F: Fn(Asteroid<G>, IVec3) -> u8,
    T: Fn(S, Wish, Drive) -> (S, u32),
    L: Fn(S, usize) -> i32,
    M: Fn(S, usize) -> S,
    X: Fn(S) -> (IVec3, IVec3),
    N: Fn(S, usize) -> S,
    P: Fn(S) -> (IVec3, IVec3),
    V: Fn(S) -> bool,
>(
    world: WorldState<H, O, G>,
    gen: F,
    gait: Gait<L, M, X, N, P>,
    s: S,
    grounded: bool,
    w: Wish,
    steer: T,
    fast: V,
    after: S,
    r: Stride,
)
    requires
        backs_up::<S, L, M, X, N, P>(gait),
        forall|s: S, w: Wish, d: Drive, p: (S, u32)| #[trigger]
            steer.ensures((s, w, d), p) ==> stays_in(gait.extent, s, p.0),
        strode(world, gen, gait, s, grounded, w, steer, fast, after, r),
        clear(world, gen, gait.extent, s),
    ensures
        clear(world, gen, gait.extent, after),
{
    let (p, quick) = choose|p: (S, u32), quick: bool|
        {
            &&& #[trigger] steer.ensures((s, w, drive_of(grounded, w)), p)
            &&& #[trigger] fast.ensures((p.0,), quick)
            &&& swept(world, gen, gait, p.0, p.1 as int, after, r.grounded)
            &&& r.jet == (!grounded && thrusting(w))
            &&& r.landed == (r.grounded && !grounded && quick)
        };
    lemma_within_clear(world, gen, gait.extent, s, p.0);
    law_sweep_never_embeds(world, gen, gait, p.0, p.1 as int, after, r.grounded);
}

/// A thrown item moved along one axis: into the open, or stopped by a block.
/// `advance` gives the next state and the voxel that it would be in, `stop` the
/// state after running into a block.
pub open spec fn thrown_axis<
    H,
    O,
    G,
    S,
    F: Fn(Asteroid<G>, IVec3) -> u8,
    A: Fn(S, usize) -> (S, IVec3),
    Z: Fn(S, usize) -> S,
>(
    w: WorldState<H, O, G>,
    gen: F,
    s: S,
    axis: usize,
    advance: A,
    stop: Z,
    after: S,
) -> bool {
    exists|n: (S, IVec3), b: u8|
        {
            &&& #[trigger] advance.ensures((s, axis), n)
            &&& #[trigger] seen(w, gen, n.1, b)
            &&& if b != AIR {
                stop.ensures((s, axis), after)
            } else {
                after == n.0
            }
        }
}

/// A thrown item moved along the first `n` axes.
pub open spec fn thrown<
    H,
    O,
    G,
    S,
    F: Fn(Asteroid<G>, IVec3) -> u8,
    A: Fn(S, usize) -> (S, IVec3),
    Z: Fn(S, usize) -> S,
>(
    w: WorldState<H, O, G>,
    gen: F,
    s: S,
    n: int,
    advance: A,
    stop: Z,
    after: S,
) -> bool
    decreases n,
{
    if n <= 0 {
        after == s
    } else {
        exists|mid: S|
            thrown(w, gen, s, n - 1, advance, stop, mid) && #[trigger] thrown_axis(
                w,
                gen,
                mid,
                (n - 1) as usize,
                advance,
                stop,
                after,
            )
    }
}

/// Ballistic motion of a drop or a charge: each axis in turn stops at a block
/// instead of entering it.
pub fn throw_step<
    H: Copy,
    O: Copy,
    G: Copy,
    S: Copy,
    F: Fn(Asteroid<G>, IVec3) -> u8,
    A: Fn(S, usize) -> (S, IVec3),
    Z: Fn(S, usize) -> S,
>(
    world: &VoxelWorld<H, O, G>,
    gen: &F,
    s: S,
    advance: &A,
    stop: &Z,
) -> (after: S)
    requires
        world@.wf(),
        total(*gen),
        forall|s: S, a: usize| #[trigger] advance.requires((s, a)),
        forall|s: S, a: usize| #[trigger] stop.requires((s, a)),
    ensures
        thrown(world@, *gen, s, 3, *advance, *stop, after),
{
    let mut at = s;
    let mut axis: usize = 0;
    while axis < 3
        invariant
            axis <= 3,
            world@.wf(),
            total(*gen),
            forall|s: S, a: usize| #[trigger] advance.requires((s, a)),
            forall|s: S, a: usize| #[trigger] stop.requires((s, a)),
            thrown(world@, *gen, s, axis as int, *advance, *stop, at),
        decreases 3 - axis,
    {
        let ghost mid = at;
        let n = advance(at, axis);
        let b = world.block(n.1, gen);
        if b != AIR {
            at = stop(at, axis);
        } else {
            at = n.0;
        }
        assert(advance.ensures((mid, axis), n));
        assert(seen(world@, *gen, n.1, b));
        assert(thrown_axis(world@, *gen, mid, ((axis + 1) - 1) as usize, *advance, *stop, at));
        axis += 1;
    }
    at
}

/// A thrown item goes on in the open and stops at a block: along each axis it
/// is where it would be next if there is air there, and else where stopping put
/// it.
pub proof fn law_throw_stops_at_blocks<
    H,
    O,
    G,
    S,
    F: Fn(Asteroid<G>, IVec3) -> u8,
    A: Fn(S, usize) -> (S, IVec3),
    Z: Fn(S, usize) -> S,
>(
    w: WorldState<H, O, G>,
    gen: F,
    s: S,
    axis: usize,
    advance: A,
    stop: Z,
    after: S,
    n: (S, IVec3),
    b: u8,
)
    requires
        pure(gen),
        forall|s: S, a: usize, x: (S, IVec3), y: (S, IVec3)| #[trigger]
            advance.ensures((s, a), x) && #[trigger] advance.ensures((s, a), y) ==> x == y,
        thrown_axis(w, gen, s, axis, advance, stop, after),
        advance.ensures((s, axis), n),
        seen(w, gen, n.1, b),
    ensures
        b == AIR ==> after == n.0,
        b != AIR ==> stop.ensures((s, axis), after),
{
    let (m, c) = choose|m: (S, IVec3), c: u8|
        {
            &&& #[trigger] advance.ensures((s, axis), m)
            &&& #[trigger] seen(w, gen, m.1, c)
            &&& if c != AIR {
                stop.ensures((s, axis), after)
            } else {
                after == m.0
            }
        };
    law_block_is_determined(w, gen, n.1, b, c);
}

/// A throw moves along all three axes, one after the other.
pub proof fn law_throw_takes_all_axes<
    H,
    O,
    G,
    S,
    F: Fn(Asteroid<G>, IVec3) -> u8,
    A: Fn(S, usize) -> (S, IVec3),
    Z: Fn(S, usize) -> S,
>(w: WorldState<H, O, G>, gen: F, s: S, advance: A, stop: Z, after: S)
    requires
        thrown(w, gen, s, 3, advance, stop, after),
    ensures
        exists|x: S, y: S|
            {
                &&& #[trigger] thrown_axis(w, gen, s, 0, advance, stop, x)
                &&& #[trigger] thrown_axis(w, gen, x, 1, advance, stop, y)
                &&& thrown_axis(w, gen, y, 2, advance, stop, after)
            },
{
    reveal_with_fuel(thrown, 4);
    let y = choose|mid: S|
        thrown(w, gen, s, 2, advance, stop, mid) && #[trigger] thrown_axis(
            w,
            gen,
            mid,
            2,
            advance,
            stop,
            after,
        );
    let x = choose|mid: S|
        thrown(w, gen, s, 1, advance, stop, mid) && #[trigger] thrown_axis(
            w,
            gen,
            mid,
            1,
            advance,
            stop,
            y,
        );
    let z = choose|mid: S|
        thrown(w, gen, s, 0, advance, stop, mid) && #[trigger] thrown_axis(
            w,
            gen,
            mid,
            0,
            advance,
            stop,
            x,
        );
    assert(z == s);
    assert(thrown_axis(w, gen, s, 0, advance, stop, x) && thrown_axis(
        w,
        gen,
        x,
        1,
        advance,
        stop,
        y,
    ));
}

/// Parts of the laser's light show.
#[derive(Clone, Copy, PartialEq, Eq, Structural, Debug)]
pub enum LaserFx {
    Core,
    Halo,
    Glow,
    Light,
}

/// Whether a part of the light show is on: the beam while firing, the glow and
/// the light only where it lands on something.
pub fn laser_part_shown(part: LaserFx, firing: bool, has_hit: bool) -> (r: bool)
    ensures
        r == (firing && (has_hit || part is Core || part is Halo)),
{
    match part {
        LaserFx::Glow | LaserFx::Light => firing && has_hit,
        _ => firing,
    }
}

} // verus!
