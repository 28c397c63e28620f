//! The pull of the hole on the bodies of the field: which bodies are tracked,
//! and how their displacement advances.
//!
//! Where a body goes is smooth and comes from the caller; which bodies move,
//! which are noticed and which are swallowed is decided here.
use crate::body::{planet_key, planet_key_at, BodyMotion, PLANET_KEY_BASE};
use crate::cells::{cell_box, lists_box};
use crate::ivec::{origin, IVec3};
use crate::voxel_map::VoxelMap;
use vstd::prelude::*;

verus! {

/// Where one step of infall takes a body.
#[derive(Clone, Copy)]
pub struct Drift<O> {
    pub offset: O,
    /// `offset`, rounded to whole voxels.
    pub off_vox: IVec3,
    /// The horizon has reached it.
    pub swallowed: bool,
}

/// Displacement of a body when it is first noticed.
pub open spec fn first_motion<O>(offset: O, off_vox: IVec3) -> BodyMotion<O> {
    BodyMotion { offset, off_vox, delta: origin(), eaten: false, backfilled: true }
}

/// A body that the hole can move: alive, and not the home rock.
pub open spec fn mobile<O>(motion: Map<IVec3, BodyMotion<O>>, k: IVec3) -> bool {
    motion.contains_key(k) && !motion[k].eaten && k != origin()
}

/// One body's displacement after a step. Eaten bodies and the home rock only
/// come to rest; a body that no longer exists keeps its state.
pub open spec fn stepped<O>(k: IVec3, m: BodyMotion<O>, d: Option<Drift<O>>) -> BodyMotion<O> {
    if m.eaten || k == origin() {
        BodyMotion { delta: origin(), ..m }
    } else {
        match d {
            Some(d) => BodyMotion {
                offset: d.offset,
                delta: d.off_vox@.minus(m.off_vox@).lattice(),
                off_vox: d.off_vox,
                ..m
            },
            None => m,
        }
    }
}

/// All displacements after a step, given what was said of each body.
pub open spec fn all_stepped<O>(
    motion: Map<IVec3, BodyMotion<O>>,
    drifts: Map<IVec3, Option<Drift<O>>>,
) -> Map<IVec3, BodyMotion<O>> {
    motion.map_entries(|k: IVec3, m: BodyMotion<O>| stepped(k, m, drifts[k]))
}

/// `drifts` is what `drift` said of each mobile body.
pub open spec fn drifted<O, F: Fn(IVec3, O) -> Option<Drift<O>>>(
    motion: Map<IVec3, BodyMotion<O>>,
    drift: F,
    drifts: Map<IVec3, Option<Drift<O>>>,
) -> bool {
    forall|k: IVec3|
        mobile(motion, k) ==> drift.ensures((k, motion[k].offset), #[trigger] drifts[k])
}

/// Whether a body was said to be swallowed.
pub open spec fn swallowed<O>(
    motion: Map<IVec3, BodyMotion<O>>,
    drifts: Map<IVec3, Option<Drift<O>>>,
    k: IVec3,
) -> bool {
    mobile(motion, k) && drifts[k] is Some && drifts[k]->0.swallowed
}

/// `drift` never moves a body so far in one step that the whole-voxel step
/// would not fit.
pub open spec fn steps_fit<O, F: Fn(IVec3, O) -> Option<Drift<O>>>(
    motion: Map<IVec3, BodyMotion<O>>,
    drift: F,
) -> bool {
    forall|k: IVec3, d: Drift<O>|
        mobile(motion, k) && #[trigger] drift.ensures((k, motion[k].offset), Some(d))
            ==> d.off_vox@.minus(motion[k].off_vox@).representable()
}

/// A body that can move was at `m`, was told `d`, and is at `after`: it is
/// where it was told to go, by the difference in whole voxels, and is taken
/// exactly when it was said to be; a body of which nothing was said stays.
pub open spec fn went<O>(
    m: BodyMotion<O>,
    d: Option<Drift<O>>,
    after: BodyMotion<O>,
    taken: bool,
) -> bool {
    match d {
        Some(d) => {
            &&& after.offset == d.offset
            &&& after.off_vox == d.off_vox
            &&& after.delta.x == d.off_vox.x - m.off_vox.x
            &&& after.delta.y == d.off_vox.y - m.off_vox.y
            &&& after.delta.z == d.off_vox.z - m.off_vox.z
            &&& after.eaten == m.eaten
            &&& after.backfilled == m.backfilled
            &&& taken == d.swallowed
        },
        None => after == m && !taken,
    }
}

/// Advance every tracked body by one step and report those that the horizon
/// has reached. A body is only marked as eaten when its storage is dropped.
pub fn advance_all<O: Copy, F: Fn(IVec3, O) -> Option<Drift<O>>>(
    motion: &mut VoxelMap<BodyMotion<O>>,
    drift: &F,
) -> (consumed: Vec<IVec3>)
    requires
        forall|k: IVec3, o: O| #[trigger] drift.requires((k, o)),
        steps_fit(old(motion)@, *drift),
    ensures
        consumed@.no_duplicates(),
        exists|drifts: Map<IVec3, Option<Drift<O>>>|
            {
                &&& #[trigger] drifted(old(motion)@, *drift, drifts)
                &&& final(motion)@ == all_stepped(old(motion)@, drifts)
                &&& forall|k: IVec3| #[trigger]
                    consumed@.contains(k) <==> swallowed(old(motion)@, drifts, k)
            },
        forall|k: IVec3| #[trigger]
            final(motion)@.contains_key(k) <==> old(motion)@.contains_key(k),
        forall|k: IVec3| #[trigger]
            old(motion)@.contains_key(k) && !old(motion)@[k].eaten && (k.x != 0 || k.y != 0 || k.z
                != 0) ==> exists|d: Option<Drift<O>>| #[trigger]
                drift.ensures((k, old(motion)@[k].offset), d) && went(
                    old(motion)@[k],
                    d,
                    final(motion)@[k],
                    consumed@.contains(k),
                ),
        forall|k: IVec3| #[trigger]
            old(motion)@.contains_key(k) && (old(motion)@[k].eaten || (k.x == 0 && k.y == 0 && k.z
                == 0)) ==> final(motion)@[k] == (BodyMotion {
                delta: IVec3 { x: 0, y: 0, z: 0 },
                ..old(motion)@[k]
            }),
        forall|k: IVec3| #[trigger]
            consumed@.contains(k) ==> old(motion)@.contains_key(k) && !old(motion)@[k].eaten && (k.x
                != 0 || k.y != 0 || k.z != 0),
{
    let ghost before = motion@;
    let ks = motion.keys();
    let mut consumed: Vec<IVec3> = Vec::new();
    let ghost mut drifts: Map<IVec3, Option<Drift<O>>> = Map::empty();
    let mut i: usize = 0;
    while i < ks.len()
        invariant
            i <= ks.len(),
            forall|k: IVec3, o: O| #[trigger] drift.requires((k, o)),
            steps_fit(before, *drift),
            ks@.no_duplicates(),
            forall|k: IVec3| #[trigger] ks@.contains(k) <==> before.contains_key(k),
            motion@.dom() == before.dom(),
            forall|j: int|
                0 <= j < i ==> motion@[#[trigger] ks@[j]] == stepped(
                    ks@[j],
                    before[ks@[j]],
                    drifts[ks@[j]],
                ),
            forall|j: int| i <= j < ks.len() ==> motion@[#[trigger] ks@[j]] == before[ks@[j]],
            forall|j: int|
                0 <= j < i && mobile(before, #[trigger] ks@[j]) ==> drift.ensures(
                    (ks@[j], before[ks@[j]].offset),
                    drifts[ks@[j]],
                ),
            consumed@.no_duplicates(),
            forall|k: IVec3| #[trigger]
                consumed@.contains(k) <==> swallowed(before, drifts, k) && ks@.take(
                    i as int,
                ).contains(k),
        decreases ks.len() - i,
    {
        let k = ks[i];
        assert(ks@.contains(ks@[i as int]));
        let ghost earlier = consumed@;
        let ghost told = drifts;
        let ghost was = motion@;
        assert(!ks@.take(i as int).contains(k)) by {
            if ks@.take(i as int).contains(k) {
                assert(ks@[ks@.take(i as int).index_of(k)] == ks@[i as int]);
            }
        }
        let m = match motion.get(k) {
            Some(m) => *m,
            None => {
                assert(false);
                return consumed;
            },
        };
        assert(m == before[k]);
        let moved: BodyMotion<O>;
        if m.eaten || k == IVec3::zero() {
            moved = BodyMotion { delta: IVec3::zero(), ..m };
        } else {
            let d = drift(k, m.offset);
            proof {
                drifts = drifts.insert(k, d);
            }
            match d {
                Some(d) => {
                    assert(drift.ensures((k, before[k].offset), Some(d)));
                    let delta = match d.off_vox.checked_sub(m.off_vox) {
                        Some(delta) => delta,
                        None => IVec3::zero(),
                    };
                    proof {
                        crate::ivec::lemma_view_injective(
                            delta,
                            d.off_vox@.minus(m.off_vox@).lattice(),
                        );
                    }
                    moved = BodyMotion {
                        offset: d.offset,
                        delta,
                        off_vox: d.off_vox,
                        eaten: m.eaten,
                        backfilled: m.backfilled,
                    };
                    if d.swallowed {
                        consumed.push(k);
                    }
                },
                None => {
                    moved = m;
                },
            }
        }
        motion.insert(k, moved);
        proof {
            assert(motion@.dom() =~= before.dom());
            assert(ks@.take(i + 1) =~= ks@.take(i as int).push(k));
            assert forall|j: int| 0 <= j < i implies #[trigger] ks@[j] != k by {
                assert(ks@[j] != ks@[i as int]);
            }
            assert forall|j: int| i < j < ks.len() implies #[trigger] ks@[j] != k by {
                assert(ks@[j] != ks@[i as int]);
            }
            assert forall|x: IVec3| #[trigger]
                consumed@.contains(x) <==> swallowed(before, drifts, x) && ks@.take(
                    i + 1,
                ).contains(x) by {
                let t = ks@.take(i as int);
                if t.contains(x) {
                    assert(ks@.take(i + 1)[t.index_of(x)] == x);
                }
                assert(ks@.take(i + 1)[i as int] == k);
                if ks@.take(i + 1).contains(x) && ks@.take(i + 1).index_of(x) < i {
                    assert(t[ks@.take(i + 1).index_of(x)] == x);
                }
                if earlier.contains(x) {
                    assert(consumed@[earlier.index_of(x)] == x);
                }
                if consumed@.contains(x) && consumed@.index_of(x) < earlier.len() {
                    assert(earlier[consumed@.index_of(x)] == x);
                }
                if consumed@.len() > earlier.len() {
                    assert(consumed@[earlier.len() as int] == k);
                }
            }
            assert(!earlier.contains(k));
        }
        i += 1;
    }
    proof {
        assert(ks@.take(ks@.len() as int) =~= ks@);
        assert forall|k: IVec3| mobile(before, k) implies drift.ensures(
            (k, before[k].offset),
            #[trigger] drifts[k],
        ) by {
            assert(ks@.contains(k));
            assert(ks@[ks@.index_of(k)] == k);
        }
        assert(drifted(before, *drift, drifts));
        assert forall|k: IVec3| before.contains_key(k) implies #[trigger] motion@[k] == stepped(
            k,
            before[k],
            drifts[k],
        ) by {
            assert(ks@.contains(k));
            assert(ks@[ks@.index_of(k)] == k);
        }
        assert(motion@ =~= all_stepped(before, drifts));
        assert forall|k: IVec3| #[trigger] before.contains_key(k) && !before[k].eaten && (k.x != 0
            || k.y != 0 || k.z != 0) implies exists|d: Option<Drift<O>>| #[trigger]
            drift.ensures((k, before[k].offset), d) && went(
            before[k],
            d,
            motion@[k],
            consumed@.contains(k),
        ) by {
            law_infall_takes_bodies_along(before, *drift, drifts, k);
            assert(drift.ensures((k, before[k].offset), drifts[k]));
        }
    }
    consumed
}

/// The hole pulls every body: one that is alive and is not the home rock is
/// after a step where it was told to go, wherever in the field it is, and it is
/// swallowed exactly when it was said to be.
pub proof fn law_infall_takes_bodies_along<O, F: Fn(IVec3, O) -> Option<Drift<O>>>(
    motion: Map<IVec3, BodyMotion<O>>,
    drift: F,
    drifts: Map<IVec3, Option<Drift<O>>>,
    k: IVec3,
)
    requires
        steps_fit(motion, drift),
        drifted(motion, drift, drifts),
        motion.contains_key(k),
        !motion[k].eaten,
        k.x != 0 || k.y != 0 || k.z != 0,
    ensures
        drift.ensures((k, motion[k].offset), drifts[k]),
        all_stepped(motion, drifts).contains_key(k),
        drifts[k] matches Some(d) ==> {
            let after = all_stepped(motion, drifts)[k];
            &&& after.offset == d.offset
            &&& after.off_vox == d.off_vox
            &&& after.delta.x == d.off_vox.x - motion[k].off_vox.x
            &&& after.delta.y == d.off_vox.y - motion[k].off_vox.y
            &&& after.delta.z == d.off_vox.z - motion[k].off_vox.z
            &&& after.eaten == motion[k].eaten
            &&& after.backfilled == motion[k].backfilled
            &&& swallowed(motion, drifts, k) == d.swallowed
        },
        drifts[k] is None ==> all_stepped(motion, drifts)[k] == motion[k] && !swallowed(
            motion,
            drifts,
            k,
        ),
{
    assert(mobile(motion, k));
    assert(drift.ensures((k, motion[k].offset), drifts[k]));
    if let Some(d) = drifts[k] {
        assert(drift.ensures((k, motion[k].offset), Some(d)));
    }
}

/// The home rock never moves, and an eaten body stays where it was: a step
/// leaves their displacement alone and their delta at zero.
pub proof fn law_home_and_eaten_bodies_rest<O>(
    motion: Map<IVec3, BodyMotion<O>>,
    drifts: Map<IVec3, Option<Drift<O>>>,
    k: IVec3,
)
    requires
        motion.contains_key(k),
        k == origin() || motion[k].eaten,
    ensures
        all_stepped(motion, drifts).contains_key(k),
        all_stepped(motion, drifts)[k] == (BodyMotion { delta: origin(), ..motion[k] }),
{
}

/// Whole-voxel steps add up: a body's offset after a step is its offset
/// before plus the reported delta.
pub proof fn law_delta_is_the_step<O, F: Fn(IVec3, O) -> Option<Drift<O>>>(
    motion: Map<IVec3, BodyMotion<O>>,
    drift: F,
    drifts: Map<IVec3, Option<Drift<O>>>,
    k: IVec3,
)
    requires
        steps_fit(motion, drift),
        drifted(motion, drift, drifts),
        mobile(motion, k),
        drifts[k] is Some,
    ensures
        all_stepped(motion, drifts)[k].off_vox@ == motion[k].off_vox@.plus(
            all_stepped(motion, drifts)[k].delta@,
        ),
{
    let d = drifts[k]->0;
    assert(drifts[k] == Some(d));
    assert(drift.ensures((k, motion[k].offset), drifts[k]));
    crate::ivec::lemma_lattice_view(d.off_vox@.minus(motion[k].off_vox@));
}

/// A discovery sweep turned `old_motion` into `new_motion`.
///
/// Bodies that were tracked keep their state. The home rock and the first
/// `planets` planets are tracked from now on, and so is every cell of the box
/// in which `notice` saw a body; the home rock starts at rest, a planet where
/// `displaced` put it, a cell where `notice` put it.
pub open spec fn swept<O, N: Fn(IVec3) -> Option<(O, IVec3)>, P: Fn(IVec3) -> (O, IVec3)>(
    old_motion: Map<IVec3, BodyMotion<O>>,
    lo: IVec3,
    hi: IVec3,
    planets: int,
    still: O,
    notice: N,
    displaced: P,
    new_motion: Map<IVec3, BodyMotion<O>>,
) -> bool {
    &&& forall|k: IVec3| #[trigger]
        old_motion.contains_key(k) ==> new_motion.contains_key(k) && new_motion[k] == old_motion[k]
    &&& forall|k: IVec3| #[trigger]
        new_motion.contains_key(k) && !old_motion.contains_key(k) ==> accounted(
            lo,
            hi,
            planets,
            still,
            notice,
            displaced,
            k,
            new_motion[k],
        )
    &&& forall|k: IVec3|
        k@.within(lo@, hi@) && !#[trigger] new_motion.contains_key(k) ==> notice.ensures((k,), None)
    &&& forall|i: int| 0 <= i < planets ==> new_motion.contains_key(#[trigger] planet_key_at(i))
    &&& new_motion.contains_key(origin())
}

/// The first displacement `m` of body `k` is justified.
pub open spec fn accounted<O, N: Fn(IVec3) -> Option<(O, IVec3)>, P: Fn(IVec3) -> (O, IVec3)>(
    lo: IVec3,
    hi: IVec3,
    planets: int,
    still: O,
    notice: N,
    displaced: P,
    k: IVec3,
    m: BodyMotion<O>,
) -> bool {
    if k == origin() {
        m == first_motion(still, origin())
    } else {
        m == first_motion(m.offset, m.off_vox) && ((k@.within(lo@, hi@) && notice.ensures(
            (k,),
            Some((m.offset, m.off_vox)),
        )) || (is_planet_key(k, planets) && displaced.ensures((k,), (m.offset, m.off_vox))))
    }
}

/// `k` is the key of one of the first `planets` planets.
pub open spec fn is_planet_key(k: IVec3, planets: int) -> bool {
    exists|i: int| 0 <= i < planets && k == #[trigger] planet_key_at(i)
}

fn first<O>(offset: O, off_vox: IVec3) -> (m: BodyMotion<O>)
    ensures
        m == first_motion(offset, off_vox),
{
    BodyMotion { offset, off_vox, delta: IVec3::zero(), eaten: false, backfilled: true }
}

/// Register the bodies coming into tracking range. `still` is the smooth
/// offset of a body at rest.
pub fn sweep<O: Copy, N: Fn(IVec3) -> Option<(O, IVec3)>, P: Fn(IVec3) -> (O, IVec3)>(
    motion: &mut VoxelMap<BodyMotion<O>>,
    lo: IVec3,
    hi: IVec3,
    planets: usize,
    still: O,
    notice: &N,
    displaced: &P,
)
    requires
        PLANET_KEY_BASE + planets <= i32::MAX,
        forall|k: IVec3| #[trigger] notice.requires((k,)),
        forall|k: IVec3| #[trigger] displaced.requires((k,)),
    ensures
        swept(
            old(motion)@,
            lo,
            hi,
            planets as int,
            still,
            *notice,
            *displaced,
            final(motion)@,
        ),
        forall|k: IVec3| #[trigger]
            old(motion)@.contains_key(k) ==> final(motion)@.contains_key(k) && final(motion)@[k]
                == old(motion)@[k],
        forall|k: IVec3|
            lo.x <= k.x <= hi.x && lo.y <= k.y <= hi.y && lo.z <= k.z <= hi.z
                && !#[trigger] final(motion)@.contains_key(k) ==> notice.ensures((k,), None),
        forall|k: IVec3|
            PLANET_KEY_BASE <= k.x < PLANET_KEY_BASE + planets && k.y == 0 && k.z == 0
                ==> #[trigger] final(motion)@.contains_key(k),
        forall|k: IVec3|
            k.x == 0 && k.y == 0 && k.z == 0 ==> #[trigger] final(motion)@.contains_key(k),
{
    let ghost before = motion@;
    let cells = cell_box(lo, hi);
    let mut i: usize = 0;
    while i < cells.len()
        invariant
            i <= cells.len(),
            lists_box(cells@, lo, hi),
            forall|k: IVec3| #[trigger] notice.requires((k,)),
            forall|k: IVec3| #[trigger]
                before.contains_key(k) ==> motion@.contains_key(k) && motion@[k] == before[k],
            forall|k: IVec3| #[trigger]
                motion@.contains_key(k) && !before.contains_key(k) ==> accounted(
                    lo,
                    hi,
                    planets as int,
                    still,
                    *notice,
                    *displaced,
                    k,
                    motion@[k],
                ),
            forall|j: int|
                0 <= j < i && !motion@.contains_key(#[trigger] cells@[j]) ==> notice.ensures(
                    (cells@[j],),
                    None,
                ),
        decreases cells.len() - i,
    {
        let c = cells[i];
        assert(cells@.contains(cells@[i as int]));
        if !motion.contains(c) {
            match notice(c) {
                Some((offset, off_vox)) => {
                    if c == IVec3::zero() {
                        motion.insert(c, first(still, IVec3::zero()));
                    } else {
                        motion.insert(c, first(offset, off_vox));
                    }
                },
                None => {},
            }
        }
        i += 1;
    }
    assert forall|k: IVec3|
        k@.within(lo@, hi@) && !#[trigger] motion@.contains_key(k) implies notice.ensures(
        (k,),
        None,
    ) by {
        assert(cells@.contains(k));
        assert(cells@[cells@.index_of(k)] == k);
    }
    let mut n: usize = 0;
    while n < planets
        invariant
            n <= planets,
            PLANET_KEY_BASE + planets <= i32::MAX,
            forall|k: IVec3| #[trigger] displaced.requires((k,)),
            forall|k: IVec3| #[trigger]
                before.contains_key(k) ==> motion@.contains_key(k) && motion@[k] == before[k],
            forall|k: IVec3| #[trigger]
                motion@.contains_key(k) && !before.contains_key(k) ==> accounted(
                    lo,
                    hi,
                    planets as int,
                    still,
                    *notice,
                    *displaced,
                    k,
                    motion@[k],
                ),
            forall|k: IVec3|
                k@.within(lo@, hi@) && !#[trigger] motion@.contains_key(k) ==> notice.ensures(
                    (k,),
                    None,
                ),
            forall|i: int| 0 <= i < n ==> motion@.contains_key(#[trigger] planet_key_at(i)),
        decreases planets - n,
    {
        let key = planet_key(n);
        if !motion.contains(key) {
            let (offset, off_vox) = displaced(key);
            motion.insert(key, first(offset, off_vox));
            assert(is_planet_key(key, planets as int)) by {
                assert(key == planet_key_at(n as int));
            }
        }
        n += 1;
    }
    if !motion.contains(IVec3::zero()) {
        motion.insert(IVec3::zero(), first(still, IVec3::zero()));
    }
    proof {
        assert forall|k: IVec3|
            PLANET_KEY_BASE <= k.x < PLANET_KEY_BASE + planets && k.y == 0 && k.z
                == 0 implies #[trigger] motion@.contains_key(k) by {
            assert(k == planet_key_at(k.x - PLANET_KEY_BASE));
        }
    }
}

/// Discovery loses nothing and overlooks nothing: a tracked body keeps its
/// state; a cell of the box that stays untracked was seen to be empty; the home
/// rock and every planet are tracked.
pub proof fn law_discovery_overlooks_nothing<
    O,
    N: Fn(IVec3) -> Option<(O, IVec3)>,
    P: Fn(IVec3) -> (O, IVec3),
>(
    before: Map<IVec3, BodyMotion<O>>,
    lo: IVec3,
    hi: IVec3,
    planets: int,
    still: O,
    notice: N,
    displaced: P,
    after: Map<IVec3, BodyMotion<O>>,
    k: IVec3,
)
    requires
        swept(before, lo, hi, planets, still, notice, displaced, after),
        0 <= planets <= i32::MAX - PLANET_KEY_BASE,
    ensures
        before.contains_key(k) ==> after.contains_key(k) && after[k] == before[k],
        lo.x <= k.x <= hi.x && lo.y <= k.y <= hi.y && lo.z <= k.z <= hi.z && !after.contains_key(k)
            ==> notice.ensures((k,), None),
        1_000_000 <= k.x < 1_000_000 + planets && k.y == 0 && k.z == 0 ==> after.contains_key(k),
        k.x == 0 && k.y == 0 && k.z == 0 ==> after.contains_key(k),
{
    if 1_000_000 <= k.x < 1_000_000 + planets && k.y == 0 && k.z == 0 {
        assert(k == planet_key_at(k.x - 1_000_000));
    }
    if k.x == 0 && k.y == 0 && k.z == 0 {
        assert(k == origin());
    }
}

/// A newly tracked body starts at rest and alive: the home rock where it always
/// is, a field cell's body where it was noticed, a planet where its orbit put
/// it. Nothing else is tracked.
pub proof fn law_newly_tracked_bodies_start_where_noticed<
    O,
    N: Fn(IVec3) -> Option<(O, IVec3)>,
    P: Fn(IVec3) -> (O, IVec3),
>(
    before: Map<IVec3, BodyMotion<O>>,
    lo: IVec3,
    hi: IVec3,
    planets: int,
    still: O,
    notice: N,
    displaced: P,
    after: Map<IVec3, BodyMotion<O>>,
    k: IVec3,
)
    requires
        swept(before, lo, hi, planets, still, notice, displaced, after),
        0 <= planets <= i32::MAX - PLANET_KEY_BASE,
        after.contains_key(k),
        !before.contains_key(k),
    ensures
        !after[k].eaten,
        after[k].backfilled,
        after[k].delta.x == 0 && after[k].delta.y == 0 && after[k].delta.z == 0,
        k.x == 0 && k.y == 0 && k.z == 0 ==> after[k].offset == still && after[k].off_vox == k,
        k.x != 0 || k.y != 0 || k.z != 0 ==> (lo.x <= k.x <= hi.x && lo.y <= k.y <= hi.y && lo.z
            <= k.z <= hi.z && notice.ensures((k,), Some((after[k].offset, after[k].off_vox)))) || (
        1_000_000 <= k.x < 1_000_000 + planets && k.y == 0 && k.z == 0 && displaced.ensures(
            (k,),
            (after[k].offset, after[k].off_vox),
        )),
{
    assert(accounted(lo, hi, planets, still, notice, displaced, k, after[k]));
    if k.x == 0 && k.y == 0 && k.z == 0 {
        assert(k == origin());
    }
}

} // verus!
