//! Rays through the voxel grid.
//!
//! A ray reaches this module as the cells it crosses: a first cell, a step of
//! one voxel along each axis, and the axis crossed at each step. The walk finds
//! the first solid cell of each nearby body, and the nearest of those wins.
use crate::blocks::AIR;
use crate::body::{Asteroid, NearBody};
use crate::ivec::{lemma_lattice_view, lemma_view_injective, origin, IVec3, Point};
use crate::state::{answers, body_answers, pure, seen, total, WorldState};
use crate::storage::law_terrain_rides_the_offset;
use crate::world::VoxelWorld;
use vstd::prelude::*;

verus! {

#[derive(Clone, Copy, PartialEq, Eq, Structural, Debug)]
pub enum Axis {
    X,
    Y,
    Z,
}

/// A ray in one body's gen space.
pub struct RayPath {
    /// The cell that the ray starts in.
    pub start: IVec3,
    /// +1 or -1 along each axis.
    pub step: IVec3,
    /// The axis crossed at each step.
    pub axes: Vec<Axis>,
    /// Distance along the ray at the first cell and after each step, as a
    /// number that grows with it.
    pub ranks: Vec<u64>,
}

/// Where a ray struck one body: after how many steps, in which gen voxel, and
/// through which face (outward normal; zero if the ray started inside).
#[derive(Clone, Copy, PartialEq, Eq, Structural, Debug)]
pub struct Strike {
    pub steps: usize,
    pub voxel: IVec3,
    pub normal: IVec3,
}

/// The nearest strike over all bodies. `voxel` is a world voxel.
#[derive(Clone, Copy, PartialEq, Eq, Structural, Debug)]
pub struct RayHit {
    /// Position in the list of nearby bodies.
    pub body: usize,
    pub steps: usize,
    pub voxel: IVec3,
    /// Unit-axis normal of the face that was hit.
    pub normal: IVec3,
    pub rank: u64,
}

/// The part of `step` along one axis.
pub open spec fn along(step: IVec3, a: Axis) -> Point {
    match a {
        Axis::X => Point { x: step.x as int, y: 0, z: 0 },
        Axis::Y => Point { x: 0, y: step.y as int, z: 0 },
        Axis::Z => Point { x: 0, y: 0, z: step.z as int },
    }
}

/// The cell that the ray is in after `k` steps.
pub open spec fn cell_after(start: IVec3, step: IVec3, axes: Seq<Axis>, k: int) -> Point
    decreases k,
{
    if k <= 0 {
        start@
    } else {
        cell_after(start, step, axes, k - 1).plus(along(step, axes[k - 1]))
    }
}

/// Outward normal of the face through which the ray entered that cell.
pub open spec fn entry_normal(step: IVec3, axes: Seq<Axis>, k: int) -> Point {
    if k <= 0 {
        origin()@
    } else {
        along(step, axes[k - 1]).scaled(-1)
    }
}

impl RayPath {
    /// Unit steps, and one rank for every cell.
    pub open spec fn wf(self) -> bool {
        &&& self.step.x == 1 || self.step.x == -1
        &&& self.step.y == 1 || self.step.y == -1
        &&& self.step.z == 1 || self.step.z == -1
        &&& self.ranks.len() == self.axes.len() + 1
    }

    /// The cell that the ray is in after `k` steps.
    pub open spec fn cell(self, k: int) -> Point {
        cell_after(self.start, self.step, self.axes@, k)
    }
}

/// `b` is an answer to what the ray meets after `k` steps: the body's block
/// inside its box, nothing outside.
pub open spec fn meets<H, O, G, F: Fn(Asteroid<G>, IVec3) -> u8>(
    w: WorldState<H, O, G>,
    gen: F,
    nb: NearBody<G>,
    path: RayPath,
    k: int,
    b: u8,
) -> bool {
    if path.cell(k).within(nb.vmin@, nb.vmax@) {
        answers(w, gen, nb.key, nb.a, path.cell(k).lattice(), b)
    } else {
        b == AIR
    }
}

/// `r` is the outcome of a ray against one body: the first cell that holds a
/// block, if there is one.
pub open spec fn struck<H, O, G, F: Fn(Asteroid<G>, IVec3) -> u8>(
    w: WorldState<H, O, G>,
    gen: F,
    nb: NearBody<G>,
    path: RayPath,
    r: Option<Strike>,
) -> bool {
    match r {
        Some(s) => {
            &&& s.steps <= path.axes.len()
            &&& s.voxel@ == path.cell(s.steps as int)
            &&& s.normal@ == entry_normal(path.step, path.axes@, s.steps as int)
            &&& s.voxel@.within(nb.vmin@, nb.vmax@)
            &&& exists|b: u8| b != AIR && #[trigger] meets(w, gen, nb, path, s.steps as int, b)
            &&& forall|k: int|
                0 <= k < s.steps ==> #[trigger] meets(w, gen, nb, path, k, AIR)
        },
        None => forall|k: int|
            0 <= k <= path.axes.len() ==> #[trigger] meets(w, gen, nb, path, k, AIR),
    }
}

/// The world-space hit behind a body's strike, unless it lies off the lattice.
pub open spec fn world_hit<G>(nb: NearBody<G>, i: int, path: RayPath, s: Strike) -> Option<RayHit> {
    let v = s.voxel@.plus(nb.off_vox@);
    if v.representable() {
        Some(
            RayHit {
                body: i as usize,
                steps: s.steps,
                voxel: v.lattice(),
                normal: s.normal,
                rank: path.ranks[s.steps as int],
            },
        )
    } else {
        None
    }
}

/// What a ray finds at one position of the nearby list: nothing where the body
/// was ruled out.
pub open spec fn found_at<H, O, G, F: Fn(Asteroid<G>, IVec3) -> u8>(
    w: WorldState<H, O, G>,
    gen: F,
    paths: Seq<Option<RayPath>>,
    i: int,
    h: Option<RayHit>,
) -> bool {
    match paths[i] {
        Some(path) => exists|r: Option<Strike>| #[trigger]
            struck(w, gen, w.near[i], path, r) && h == match r {
                Some(s) => world_hit(w.near[i], i, path, s),
                None => None,
            },
        None => h is None,
    }
}

/// `best` is the hit of least rank in `hits`, and the first of those.
pub open spec fn nearest(hits: Seq<Option<RayHit>>, best: Option<RayHit>) -> bool {
    match best {
        Some(b) => exists|i: int|
            {
                &&& 0 <= i < hits.len()
                &&& #[trigger] hits[i] == Some(b)
                &&& forall|j: int|
                    0 <= j < hits.len() && (#[trigger] hits[j]) is Some ==> b.rank
                        <= hits[j]->0.rank && (j < i ==> b.rank < hits[j]->0.rank)
            },
        None => forall|j: int| 0 <= j < hits.len() ==> (#[trigger] hits[j]) is None,
    }
}

fn stride(axis: Axis, step: IVec3) -> (d: IVec3)
    ensures
        d@ == along(step, axis),
{
    match axis {
        Axis::X => IVec3::new(step.x, 0, 0),
        Axis::Y => IVec3::new(0, step.y, 0),
        Axis::Z => IVec3::new(0, 0, step.z),
    }
}

fn in_span(n: i128, lo: i32, hi: i32) -> (r: bool)
    ensures
        r == (lo <= n <= hi),
{
    lo as i128 <= n && n <= hi as i128
}

/// The first solid cell of one body along a ray.
pub fn raycast_one<H: Copy, O: Copy, G: Copy, F: Fn(Asteroid<G>, IVec3) -> u8>(
    world: &VoxelWorld<H, O, G>,
    nb: &NearBody<G>,
    path: &RayPath,
    gen: &F,
) -> (r: Option<Strike>)
    requires
        world@.wf(),
        total(*gen),
        path.wf(),
    ensures
        struck(world@, *gen, *nb, *path, r),
{
    let mut x: i128 = path.start.x as i128;
    let mut y: i128 = path.start.y as i128;
    let mut z: i128 = path.start.z as i128;
    let mut normal = IVec3::zero();
    let mut k: usize = 0;
    loop
        invariant
            world@.wf(),
            total(*gen),
            path.wf(),
            k <= path.axes.len(),
            path.cell(k as int) == (Point { x: x as int, y: y as int, z: z as int }),
            -0x8000_0000 - k <= x <= 0x8000_0000 + k,
            -0x8000_0000 - k <= y <= 0x8000_0000 + k,
            -0x8000_0000 - k <= z <= 0x8000_0000 + k,
            normal@ == entry_normal(path.step, path.axes@, k as int),
            forall|j: int|
                0 <= j < k ==> #[trigger] meets(world@, *gen, *nb, *path, j, AIR),
        decreases path.axes.len() - k,
    {
        let inside = in_span(x, nb.vmin.x, nb.vmax.x) && in_span(y, nb.vmin.y, nb.vmax.y)
            && in_span(z, nb.vmin.z, nb.vmax.z);
        if inside {
            let cell = IVec3::new(x as i32, y as i32, z as i32);
            proof {
                lemma_view_injective(cell, path.cell(k as int).lattice());
            }
            let b = world.block_gen(nb.key, nb.a, cell, gen);
            assert(meets(world@, *gen, *nb, *path, k as int, b));
            if b != AIR {
                return Some(Strike { steps: k, voxel: cell, normal });
            }
        }
        assert(meets(world@, *gen, *nb, *path, k as int, AIR));
        if k == path.axes.len() {
            return None;
        }
        let d = stride(path.axes[k], path.step);
        x = x + d.x as i128;
        y = y + d.y as i128;
        z = z + d.z as i128;
        normal = IVec3::new(-d.x, -d.y, -d.z);
        k += 1;
    }
}

/// Cast a ray against every nearby body and keep the nearest hit. `paths` holds
/// the ray in each body's gen space, `None` for bodies that it passes by.
pub fn raycast<H: Copy, O: Copy, G: Copy, F: Fn(Asteroid<G>, IVec3) -> u8>(
    world: &VoxelWorld<H, O, G>,
    paths: &Vec<Option<RayPath>>,
    gen: &F,
) -> (best: Option<RayHit>)
    requires
        world@.wf(),
        total(*gen),
        paths.len() == world@.near.len(),
        forall|i: int| 0 <= i < paths.len() && paths[i] is Some ==> (#[trigger] paths[i])->0.wf(),
    ensures
        exists|hits: Seq<Option<RayHit>>|
            {
                &&& hits.len() == world@.near.len()
                &&& forall|i: int|
                    0 <= i < hits.len() ==> found_at(world@, *gen, paths@, i, #[trigger] hits[i])
                &&& #[trigger] nearest(hits, best)
            },
{
    let near = world.nearby();
    let mut best: Option<RayHit> = None;
    let ghost mut hits: Seq<Option<RayHit>> = Seq::empty();
    let mut i: usize = 0;
    while i < near.len()
        invariant
            i <= near.len(),
            near@ == world@.near,
            world@.wf(),
            total(*gen),
            paths.len() == world@.near.len(),
            forall|i: int|
                0 <= i < paths.len() && paths[i] is Some ==> (#[trigger] paths[i])->0.wf(),
            hits.len() == i,
            forall|j: int|
                0 <= j < i ==> found_at(world@, *gen, paths@, j, #[trigger] hits[j]),
            nearest(hits, best),
        decreases near.len() - i,
    {
        let nb = near[i];
        let mut hit: Option<RayHit> = None;
        if let Some(path) = &paths[i] {
            let r = raycast_one(world, &nb, path, gen);
            if let Some(s) = r {
                if let Some(voxel) = s.voxel.checked_add(nb.off_vox) {
                    proof {
                        lemma_view_injective(voxel, s.voxel@.plus(nb.off_vox@).lattice());
                    }
                    hit =
                    Some(
                        RayHit {
                            body: i,
                            steps: s.steps,
                            voxel,
                            normal: s.normal,
                            rank: path.ranks[s.steps],
                        },
                    );
                }
            }
            assert(struck(world@, *gen, world@.near[i as int], *path, r));
        }
        let ghost earlier = hits;
        let ghost was = best;
        proof {
            hits = hits.push(hit);
            assert(found_at(world@, *gen, paths@, i as int, hit));
            assert forall|j: int| 0 <= j < i + 1 implies found_at(
                world@,
                *gen,
                paths@,
                j,
                #[trigger] hits[j],
            ) by {
                if j < i {
                    assert(hits[j] == earlier[j]);
                }
            }
        }
        if let Some(h) = hit {
            let closer = match best {
                Some(b) => h.rank < b.rank,
                None => true,
            };
            if closer {
                best = Some(h);
            }
        }
        proof {
            lemma_nearest_push(earlier, was, hit, best);
        }
        i += 1;
    }
    best
}

proof fn lemma_nearest_push(
    hits: Seq<Option<RayHit>>,
    was: Option<RayHit>,
    hit: Option<RayHit>,
    best: Option<RayHit>,
)
    requires
        nearest(hits, was),
        best == match hit {
            Some(h) => if was is None || h.rank < was->0.rank {
                Some(h)
            } else {
                was
            },
            None => was,
        },
    ensures
        nearest(hits.push(hit), best),
{
    let all = hits.push(hit);
    if best is Some {
        let b = best->0;
        if best == was {
            let i = choose|i: int|
                {
                    &&& 0 <= i < hits.len()
                    &&& #[trigger] hits[i] == Some(b)
                    &&& forall|j: int|
                        0 <= j < hits.len() && (#[trigger] hits[j]) is Some ==> b.rank
                            <= hits[j]->0.rank && (j < i ==> b.rank < hits[j]->0.rank)
                };
            assert(all[i] == Some(b));
            assert forall|j: int| 0 <= j < all.len() && (#[trigger] all[j]) is Some implies b.rank
                <= all[j]->0.rank && (j < i ==> b.rank < all[j]->0.rank) by {
                if j < hits.len() {
                    assert(all[j] == hits[j]);
                }
            }
        } else {
            assert(all[hits.len() as int] == Some(b));
            assert forall|j: int| 0 <= j < all.len() && (#[trigger] all[j]) is Some implies b.rank
                <= all[j]->0.rank && (j < hits.len() ==> b.rank < all[j]->0.rank) by {
                if j < hits.len() {
                    assert(all[j] == hits[j]);
                    assert(was is Some);
                }
            }
        }
    } else {
        assert forall|j: int| 0 <= j < all.len() implies (#[trigger] all[j]) is None by {
            if j < hits.len() {
                assert(all[j] == hits[j]);
            }
        }
    }
}

/// The reported normal points back along the ray: stepping across the struck
/// face leads to the cell that the ray came from.
pub proof fn law_normal_points_back(path: RayPath, k: int)
    requires
        0 < k <= path.axes.len(),
    ensures
        path.cell(k).plus(entry_normal(path.step, path.axes@, k)) == path.cell(k - 1),
{
}

/// A nearer strike is never passed over: no body offers a hit of lower rank
/// than the one reported.
pub proof fn law_no_nearer_hit(hits: Seq<Option<RayHit>>, best: Option<RayHit>, i: int)
    requires
        nearest(hits, best),
        0 <= i < hits.len(),
        hits[i] is Some,
    ensures
        best is Some,
        best->0.rank <= hits[i]->0.rank,
{
}

/// What a ray hits is a block: at the world voxel of a hit no query finds air,
/// as long as the terrain function always returns the same block for the same
/// voxel.
pub proof fn law_hit_voxel_holds_a_block<H, O, G, F: Fn(Asteroid<G>, IVec3) -> u8>(
    w: WorldState<H, O, G>,
    gen: F,
    paths: Seq<Option<RayPath>>,
    i: int,
    h: RayHit,
    b: u8,
)
    requires
        pure(gen),
        0 <= i < w.near.len(),
        found_at(w, gen, paths, i, Some(h)),
        seen(w, gen, h.voxel, b),
    ensures
        b != AIR,
{
    let path = paths[i]->0;
    let nb = w.near[i];
    let r = choose|r: Option<Strike>| #[trigger]
        struck(w, gen, nb, path, r) && Some(h) == match r {
            Some(s) => world_hit(nb, i, path, s),
            None => None,
        };
    let s = r->0;
    let x = choose|x: u8| x != AIR && #[trigger] meets(w, gen, nb, path, s.steps as int, x);
    lemma_lattice_view(s.voxel@.plus(nb.off_vox@));
    law_terrain_rides_the_offset(nb, s.voxel, h.voxel);
    lemma_view_injective(path.cell(s.steps as int).lattice(), s.voxel);
    assert(body_answers(w, gen, nb, h.voxel, x));
    if b == AIR {
        assert(w.near[i].covers(h.voxel));
        assert(body_answers(w, gen, w.near[i], h.voxel, AIR));
    }
}

/// A ray walks cell by cell: it starts in its first cell, and each step moves it
/// by its step along the axis crossed, and along no other.
pub proof fn law_ray_walks_cell_by_cell(path: RayPath, k: int)
    requires
        0 <= k < path.axes.len(),
    ensures
        path.cell(0) == path.start@,
        path.cell(k + 1).x == path.cell(k).x + if path.axes[k] is X {
            path.step.x as int
        } else {
            0
        },
        path.cell(k + 1).y == path.cell(k).y + if path.axes[k] is Y {
            path.step.y as int
        } else {
            0
        },
        path.cell(k + 1).z == path.cell(k).z + if path.axes[k] is Z {
            path.step.z as int
        } else {
            0
        },
        entry_normal(path.step, path.axes@, 0) == origin()@,
{
}

/// A ray passes through no block: if a body has a block, inside its box, in the
/// cell that the ray is in after `k` steps, the ray strikes that body after no
/// more than `k` steps. What it strikes is a block, in the cell that it is in.
pub proof fn law_ray_passes_through_no_block<H, O, G, F: Fn(Asteroid<G>, IVec3) -> u8>(
    w: WorldState<H, O, G>,
    gen: F,
    nb: NearBody<G>,
    path: RayPath,
    r: Option<Strike>,
    k: int,
    c: IVec3,
    b: u8,
)
    requires
        pure(gen),
        struck(w, gen, nb, path, r),
        0 <= k <= path.axes.len(),
        c.x == path.cell(k).x,
        c.y == path.cell(k).y,
        c.z == path.cell(k).z,
        nb.vmin.x <= c.x <= nb.vmax.x,
        nb.vmin.y <= c.y <= nb.vmax.y,
        nb.vmin.z <= c.z <= nb.vmax.z,
        answers(w, gen, nb.key, nb.a, c, b),
    ensures
        b != AIR ==> r is Some && r->0.steps <= k,
        r is Some && r->0.steps == k ==> b != AIR && r->0.voxel == c,
        r is Some && k < r->0.steps ==> b == AIR,
{
    lemma_view_injective(path.cell(k).lattice(), c);
    match r {
        Some(s) => {
            if k < s.steps {
                assert(meets(w, gen, nb, path, k, AIR));
            } else if k == s.steps {
                let x = choose|x: u8|
                    x != AIR && #[trigger] meets(w, gen, nb, path, s.steps as int, x);
                lemma_view_injective(s.voxel, c);
            }
        },
        None => {
            assert(meets(w, gen, nb, path, k, AIR));
        },
    }
}

/// A strike is where the ray is: in the cell after its steps, inside the body's
/// box, through the face that the last step crossed.
pub proof fn law_strike_is_on_the_ray<H, O, G, F: Fn(Asteroid<G>, IVec3) -> u8>(
    w: WorldState<H, O, G>,
    gen: F,
    nb: NearBody<G>,
    path: RayPath,
    s: Strike,
)
    requires
        struck(w, gen, nb, path, Some(s)),
    ensures
        s.steps <= path.axes.len(),
        s.voxel@ == path.cell(s.steps as int),
        nb.vmin.x <= s.voxel.x <= nb.vmax.x,
        nb.vmin.y <= s.voxel.y <= nb.vmax.y,
        nb.vmin.z <= s.voxel.z <= nb.vmax.z,
        s.steps == 0 ==> s.normal.x == 0 && s.normal.y == 0 && s.normal.z == 0,
        s.steps > 0 ==> {
            let a = path.axes[s.steps - 1];
            &&& s.normal.x == if a is X {
                -path.step.x
            } else {
                0
            }
            &&& s.normal.y == if a is Y {
                -path.step.y
            } else {
                0
            }
            &&& s.normal.z == if a is Z {
                -path.step.z
            } else {
                0
            }
        },
{
}

/// Of all bodies the nearest strike is reported, in world voxels: a body that
/// the ray strikes is never passed over for a farther one, and a tie goes to
/// the one listed first.
pub proof fn law_cast_reports_the_nearest<H, O, G, F: Fn(Asteroid<G>, IVec3) -> u8>(
    w: WorldState<H, O, G>,
    gen: F,
    paths: Seq<Option<RayPath>>,
    hits: Seq<Option<RayHit>>,
    best: Option<RayHit>,
    i: int,
)
    requires
        hits.len() == w.near.len(),
        forall|j: int| 0 <= j < hits.len() ==> found_at(w, gen, paths, j, #[trigger] hits[j]),
        nearest(hits, best),
        0 <= i < hits.len(),
    ensures
        hits[i] is Some ==> best is Some && best->0.rank <= hits[i]->0.rank,
        best is Some ==> exists|j: int|
            0 <= j < hits.len() && #[trigger] hits[j] == best && (i < j && hits[i] is Some
                ==> best->0.rank < hits[i]->0.rank),
        best is None ==> hits[i] is None,
        paths[i] is None ==> hits[i] is None,
        hits[i] matches Some(h) ==> exists|s: Strike|
            {
                &&& #[trigger] struck(w, gen, w.near[i], paths[i]->0, Some(s))
                &&& h.voxel.x == s.voxel.x + w.near[i].off_vox.x
                &&& h.voxel.y == s.voxel.y + w.near[i].off_vox.y
                &&& h.voxel.z == s.voxel.z + w.near[i].off_vox.z
                &&& h.normal == s.normal
                &&& h.steps == s.steps
                &&& h.body == i as usize
                &&& h.rank == paths[i]->0.ranks[s.steps as int]
            },
        hits[i] is None && paths[i] is Some ==> exists|r: Option<Strike>| #[trigger]
            struck(w, gen, w.near[i], paths[i]->0, r) && (r matches Some(s) ==> !s.voxel@.plus(
                w.near[i].off_vox@,
            ).representable()),
{
    assert(found_at(w, gen, paths, i, hits[i]));
    if paths[i] is Some {
        let path = paths[i]->0;
        let r = choose|r: Option<Strike>| #[trigger]
            struck(w, gen, w.near[i], path, r) && hits[i] == match r {
                Some(s) => world_hit(w.near[i], i, path, s),
                None => None,
            };
        assert(struck(w, gen, w.near[i], paths[i]->0, r));
        if let Some(s) = r {
            assert(r == Some(s));
            if s.voxel@.plus(w.near[i].off_vox@).representable() {
                lemma_lattice_view(s.voxel@.plus(w.near[i].off_vox@));
            }
        }
    }
}

} // verus!
