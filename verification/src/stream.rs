//! Chunk streaming: which chunks to materialize next, and which to drop.
use crate::cells::{cell_box, listed_before, lists_box};
use crate::ivec::{IVec3, Point};
use crate::state::WorldState;
use crate::world::VoxelWorld;
use vstd::prelude::*;

verus! {

/// Chunk generation radius around the player, in chunks.
pub const GEN_RADIUS: i32 = 14;

/// Radius beyond which chunks are unloaded, in chunks.
pub const UNLOAD_RADIUS: i32 = 20;

/// Most chunks generated per frame.
pub const GEN_BUDGET: usize = 28;

/// Most chunk remeshes per frame.
pub const REMESH_BUDGET: usize = 12;

/// Generation order: by distance from the player, equal distances in listing
/// order.
pub open spec fn sooner(a: IVec3, b: IVec3) -> bool {
    a@.length_squared() < b@.length_squared() || (a@.length_squared() == b@.length_squared()
        && listed_before(a, b))
}

/// `s` is the generation order up to squared distance `d` (excluded).
pub open spec fn ordered_below(s: Seq<IVec3>, d: int) -> bool {
    &&& forall|i: int, j: int| 0 <= i < j < s.len() ==> sooner(#[trigger] s[i], #[trigger] s[j])
    &&& forall|o: IVec3| #[trigger] s.contains(o) <==> o@.length_squared() < d
}

fn length_squared(o: IVec3) -> (d: i32)
    requires
        o@.within(Point { x: -14, y: -14, z: -14 }, Point { x: 14, y: 14, z: 14 }),
    ensures
        d == o@.length_squared(),
{
    assert(o.x * o.x <= 196 && o.y * o.y <= 196 && o.z * o.z <= 196 && o.x * o.x >= 0 && o.y * o.y
        >= 0 && o.z * o.z >= 0) by (nonlinear_arith)
        requires
            -14 <= o.x <= 14,
            -14 <= o.y <= 14,
            -14 <= o.z <= 14,
    ;
    o.x * o.x + o.y * o.y + o.z * o.z
}

/// A short vector has short coordinates.
proof fn lemma_short(o: IVec3)
    requires
        o@.length_squared() <= 196,
    ensures
        o@.within(Point { x: -14, y: -14, z: -14 }, Point { x: 14, y: 14, z: 14 }),
{
    assert(-14 <= o.x <= 14 && -14 <= o.y <= 14 && -14 <= o.z <= 14) by (nonlinear_arith)
        requires
            o.x * o.x + o.y * o.y + o.z * o.z <= 196,
    ;
}

/// Chunk offsets within the generation radius, nearest first.
pub struct GenOrder {
    offsets: Vec<IVec3>,
}

impl View for GenOrder {
    type V = Seq<IVec3>;

    closed spec fn view(&self) -> Seq<IVec3> {
        self.offsets@
    }
}

impl GenOrder {
    /// All offsets no longer than the generation radius, sorted by length.
    pub fn new() -> (r: Self)
        ensures
            ordered_below(r@, GEN_RADIUS * GEN_RADIUS + 1),
            forall|o: IVec3| #[trigger]
                r@.contains(o) <==> o.x * o.x + o.y * o.y + o.z * o.z <= 14 * 14,
            r@.no_duplicates(),
            forall|i: int, j: int|
                0 <= i < j < r@.len() ==> {
                    let (a, b) = (#[trigger] r@[i], #[trigger] r@[j]);
                    a.x * a.x + a.y * a.y + a.z * a.z <= b.x * b.x + b.y * b.y + b.z * b.z
                },
    {
        let lo = IVec3::new(-GEN_RADIUS, -GEN_RADIUS, -GEN_RADIUS);
        let hi = IVec3::new(GEN_RADIUS, GEN_RADIUS, GEN_RADIUS);
        let cells = cell_box(lo, hi);
        let mut s: Vec<IVec3> = Vec::new();
        let mut d: i32 = 0;
        assert forall|o: IVec3| #[trigger] s@.contains(o) <==> o@.length_squared() < 0 by {
            assert(o.x * o.x >= 0 && o.y * o.y >= 0 && o.z * o.z >= 0) by (nonlinear_arith);
        }
        while d <= GEN_RADIUS * GEN_RADIUS
            invariant
                0 <= d <= 197,
                lo@ == (Point { x: -14, y: -14, z: -14 }),
                hi@ == (Point { x: 14, y: 14, z: 14 }),
                lists_box(cells@, lo, hi),
                ordered_below(s@, d as int),
            decreases 197 - d,
        {
            let mut i: usize = 0;
            while i < cells.len()
                invariant
                    i <= cells.len(),
                    0 <= d <= 196,
                    lo@ == (Point { x: -14, y: -14, z: -14 }),
                    hi@ == (Point { x: 14, y: 14, z: 14 }),
                    lists_box(cells@, lo, hi),
                    forall|i: int, j: int|
                        0 <= i < j < s.len() ==> sooner(#[trigger] s@[i], #[trigger] s@[j]),
                    forall|o: IVec3| #[trigger]
                        s@.contains(o) <==> o@.length_squared() < d || (o@.length_squared() == d
                            && cells@.take(i as int).contains(o)),
                decreases cells.len() - i,
            {
                let o = cells[i];
                assert(cells@.contains(cells@[i as int]));
                let ghost was = s@;
                let here = length_squared(o) == d;
                if here {
                    s.push(o);
                }
                proof {
                    let t = cells@.take(i as int);
                    assert(cells@.take(i + 1) =~= t.push(o));
                    assert forall|p: IVec3| #[trigger]
                        cells@.take(i + 1).contains(p) <==> t.contains(p) || p == o by {
                        if t.contains(p) {
                            assert(cells@.take(i + 1)[t.index_of(p)] == p);
                        }
                        assert(cells@.take(i + 1)[i as int] == o);
                        if cells@.take(i + 1).contains(p) && cells@.take(i + 1).index_of(p) < i {
                            assert(t[cells@.take(i + 1).index_of(p)] == p);
                        }
                    }
                    if here {
                        assert forall|p: IVec3| #[trigger]
                            s@.contains(p) <==> was.contains(p) || p == o by {
                            if was.contains(p) {
                                assert(s@[was.index_of(p)] == p);
                            }
                            assert(s@[was.len() as int] == o);
                            if s@.contains(p) && s@.index_of(p) < was.len() {
                                assert(was[s@.index_of(p)] == p);
                            }
                        }
                        assert forall|a: int, b: int| 0 <= a < b < s@.len() implies sooner(
                            #[trigger] s@[a],
                            #[trigger] s@[b],
                        ) by {
                            if b == was.len() {
                                let p = was[a];
                                assert(was.contains(p));
                                if p@.length_squared() == d {
                                    let k = t.index_of(p);
                                    assert(cells@[k] == p);
                                    assert(listed_before(cells@[k], cells@[i as int]));
                                }
                            }
                        }
                    }
                }
                i += 1;
            }
            assert(cells@.take(cells@.len() as int) =~= cells@);
            assert forall|o: IVec3| #[trigger] s@.contains(o) <==> o@.length_squared() < d + 1 by {
                if o@.length_squared() == d {
                    lemma_short(o);
                    assert(cells@.contains(o));
                }
            }
            d += 1;
        }
        assert forall|i: int, j: int| 0 <= i < s@.len() && 0 <= j < s@.len() && i != j implies s@[i]
            != s@[j] by {
            if i < j {
                assert(sooner(s@[i], s@[j]));
            } else {
                assert(sooner(s@[j], s@[i]));
            }
        }
        GenOrder { offsets: s }
    }

    pub fn offsets(&self) -> (r: &Vec<IVec3>)
        ensures
            r@ == self@,
    {
        &self.offsets
    }
}

/// A body to stream chunks for: the chunk that the player is in and the
/// body's bounding box, both in the body's chunk space.
#[derive(Clone, Copy, PartialEq, Eq, Structural, Debug)]
pub struct StreamBody {
    pub key: IVec3,
    pub center: IVec3,
    pub cmin: IVec3,
    pub cmax: IVec3,
}

/// One step of a streaming pass.
#[derive(Clone, Copy, PartialEq, Eq, Structural, Debug)]
pub enum PlanStep {
    /// Turn to the body at this position of the plan.
    Enter(usize),
    /// Generate this chunk of that body.
    Load(usize, IVec3),
    /// Nothing is left to do, or the budget is spent.
    Done,
}

/// Progress of a streaming pass.
#[verifier::ext_equal]
pub struct PlanState {
    pub bodies: Seq<StreamBody>,
    /// Body that the pass is at, and whether it has been entered.
    pub body: int,
    pub entered: bool,
    /// Position in the generation order to look at next.
    pub next: int,
    pub budget: int,
}

/// Whether the `j`-th chunk of the generation order is to be generated for a
/// body: inside its box and not loaded yet.
pub open spec fn wanted<H, O, G>(
    w: WorldState<H, O, G>,
    order: Seq<IVec3>,
    b: StreamBody,
    j: int,
) -> bool {
    let p = b.center@.plus(order[j]@);
    &&& p.within(b.cmin@, b.cmax@)
    &&& !w.chunks.contains_key((b.key, p.lattice()))
    &&& !w.empty.contains((b.key, p.lattice()))
}

/// The first position from `j` on whose chunk is to be generated.
pub open spec fn first_wanted<H, O, G>(
    w: WorldState<H, O, G>,
    order: Seq<IVec3>,
    b: StreamBody,
    j: int,
) -> Option<int>
    decreases order.len() - j,
{
    if j < 0 || j >= order.len() {
        None
    } else if wanted(w, order, b, j) {
        Some(j)
    } else {
        first_wanted(w, order, b, j + 1)
    }
}

impl PlanState {
    /// The pass at its next body.
    pub open spec fn turned(self) -> PlanState {
        PlanState { body: self.body + 1, entered: false, next: 0, ..self }
    }

    /// Whether the pass is over.
    pub open spec fn over(self) -> bool {
        self.budget == 0 || self.body >= self.bodies.len()
    }

    /// What the pass does next, and its progress after that.
    pub open spec fn step<H, O, G>(self, w: WorldState<H, O, G>, order: Seq<IVec3>) -> (
        PlanStep,
        PlanState,
    ) {
        if self.over() {
            (PlanStep::Done, self)
        } else if !self.entered {
            (PlanStep::Enter(self.body as usize), PlanState { entered: true, ..self })
        } else {
            let b = self.bodies[self.body];
            match first_wanted(w, order, b, self.next) {
                Some(j) => (
                    PlanStep::Load(self.body as usize, b.center@.plus(order[j]@).lattice()),
                    PlanState { next: j + 1, budget: self.budget - 1, ..self },
                ),
                None => if self.turned().over() {
                    (PlanStep::Done, self.turned())
                } else {
                    (
                        PlanStep::Enter((self.body + 1) as usize),
                        PlanState { entered: true, ..self.turned() },
                    )
                },
            }
        }
    }
}

/// A streaming pass over bodies, nearest chunks first, within a shared budget.
pub struct ChunkPlan {
    bodies: Vec<StreamBody>,
    body: usize,
    entered: bool,
    next: usize,
    budget: usize,
}

impl View for ChunkPlan {
    type V = PlanState;

    closed spec fn view(&self) -> PlanState {
        PlanState {
            bodies: self.bodies@,
            body: self.body as int,
            entered: self.entered,
            next: self.next as int,
            budget: self.budget as int,
        }
    }
}

impl ChunkPlan {
    pub fn new(bodies: Vec<StreamBody>, budget: usize) -> (p: Self)
        ensures
            p@ == (PlanState {
                bodies: bodies@,
                body: 0,
                entered: false,
                next: 0,
                budget: budget as int,
            }),
    {
        ChunkPlan { bodies, body: 0, entered: false, next: 0, budget }
    }

    /// What to do next, given what the world holds by now.
    pub fn step<H: Copy, O: Copy, G: Copy>(
        &mut self,
        world: &VoxelWorld<H, O, G>,
        order: &GenOrder,
    ) -> (r: PlanStep)
        ensures
            (r, final(self)@) == old(self)@.step(world@, order@),
            final(self)@.bodies == old(self)@.bodies,
            final(self)@.budget == old(self)@.budget - if r is Load {
                1int
            } else {
                0
            },
            r matches PlanStep::Load(i, cp) ==> {
                let b = old(self)@.bodies[i as int];
                let j = final(self)@.next - 1;
                &&& i == old(self)@.body
                &&& old(self)@.budget > 0
                &&& old(self)@.next <= j < order@.len()
                &&& cp.x == b.center.x + order@[j].x
                &&& cp.y == b.center.y + order@[j].y
                &&& cp.z == b.center.z + order@[j].z
                &&& b.cmin.x <= cp.x <= b.cmax.x
                &&& b.cmin.y <= cp.y <= b.cmax.y
                &&& b.cmin.z <= cp.z <= b.cmax.z
                &&& !world@.chunks.contains_key((b.key, cp))
                &&& !world@.empty.contains((b.key, cp))
            },
            old(self)@.budget > 0 && old(self)@.entered && 0 <= old(self)@.body
                < old(self)@.bodies.len() ==> ({
                let b = old(self)@.bodies[old(self)@.body];
                forall|k: int, cp: IVec3|
                    old(self)@.next <= k < order@.len() && (r is Load ==> k < final(self)@.next - 1)
                        && #[trigger] lies_at(b, order@[k], cp) && b.cmin.x <= cp.x <= b.cmax.x
                        && b.cmin.y <= cp.y <= b.cmax.y && b.cmin.z <= cp.z <= b.cmax.z
                        ==> world@.chunks.contains_key((b.key, cp)) || world@.empty.contains(
                        (b.key, cp),
                    )
            }),
            r is Done <==> old(self)@.budget == 0 || final(self)@.body >= final(self)@.bodies.len(),
            r matches PlanStep::Enter(i) ==> i == final(self)@.body && final(self)@.next
                == if old(self)@.entered {
                0
            } else {
                old(self)@.next
            } && (old(self)@.entered <==> i == old(self)@.body + 1) && final(self)@.entered,
    {
        let ghost before = self@;
        proof {
            if before.budget > 0 && before.entered && 0 <= before.body < before.bodies.len() {
                lemma_passed_chunks_are_loaded(before, world@, order@);
            }
        }
        if self.budget == 0 || self.body >= self.bodies.len() {
            return PlanStep::Done;
        }
        if !self.entered {
            self.entered = true;
            assert(self@ =~= before.step(world@, order@).1);
            return PlanStep::Enter(self.body);
        }
        let b = self.bodies[self.body];
        let offsets = order.offsets();
        let mut j: usize = self.next;
        while j < offsets.len()
            invariant
                before.next <= j,
                offsets@ == order@,
                b == before.bodies[before.body],
                !before.over(),
                before.entered,
                before == old(self)@,
                self@ == before,
                self.body == before.body,
                self.budget == before.budget,
                first_wanted(world@, order@, b, before.next) == first_wanted(
                    world@,
                    order@,
                    b,
                    j as int,
                ),
            decreases offsets.len() - j,
        {
            if let Some(cp) = b.center.checked_add(offsets[j]) {
                proof {
                    crate::ivec::lemma_view_injective(
                        cp,
                        b.center@.plus(order@[j as int]@).lattice(),
                    );
                }
                if cp.within(b.cmin, b.cmax) && !world.is_loaded(b.key, cp) {
                    proof {
                        assert(0 <= before.body < before.bodies.len());
                        lemma_passed_chunks_are_loaded(before, world@, order@);
                    }
                    self.next = j + 1;
                    self.budget = self.budget - 1;
                    assert(wanted(world@, order@, b, j as int));
                    assert(first_wanted(world@, order@, b, before.next) == Some(j as int));
                    assert(self@ =~= before.step(world@, order@).1);
                    assert(PlanStep::Load(self.body, cp) == before.step(world@, order@).0);
                    return PlanStep::Load(self.body, cp);
                }
            }
            j += 1;
        }
        self.body = self.body + 1;
        self.entered = false;
        self.next = 0;
        assert(self@ =~= before.turned());
        if self.body >= self.bodies.len() {
            return PlanStep::Done;
        }
        self.entered = true;
        assert(self@ =~= before.step(world@, order@).1);
        PlanStep::Enter(self.body)
    }
}

/// `cp` is the chunk at offset `o` from the chunk that the player is in.
pub open spec fn lies_at(b: StreamBody, o: IVec3, cp: IVec3) -> bool {
    cp.x == b.center.x + o.x && cp.y == b.center.y + o.y && cp.z == b.center.z + o.z
}

/// A step passes over no chunk of the body's box that is missing.
proof fn lemma_passed_chunks_are_loaded<H, O, G>(
    p: PlanState,
    w: WorldState<H, O, G>,
    order: Seq<IVec3>,
)
    requires
        p.budget > 0,
        p.entered,
        0 <= p.body < p.bodies.len(),
        0 <= p.next,
    ensures
        ({
            let b = p.bodies[p.body];
            let (r, q) = p.step(w, order);
            forall|k: int, cp: IVec3|
                p.next <= k < order.len() && (r is Load ==> k < q.next - 1) && #[trigger] lies_at(
                    b,
                    order[k],
                    cp,
                ) && b.cmin.x <= cp.x <= b.cmax.x && b.cmin.y <= cp.y <= b.cmax.y && b.cmin.z
                    <= cp.z <= b.cmax.z ==> w.chunks.contains_key((b.key, cp)) || w.empty.contains(
                    (b.key, cp),
                )
        }),
{
    let b = p.bodies[p.body];
    let (r, q) = p.step(w, order);
    if p.next <= order.len() {
        lemma_first_wanted(w, order, b, p.next);
    }
    assert forall|k: int, cp: IVec3|
        p.next <= k < order.len() && (r is Load ==> k < q.next - 1) && #[trigger] lies_at(
            b,
            order[k],
            cp,
        ) && b.cmin.x <= cp.x <= b.cmax.x && b.cmin.y <= cp.y <= b.cmax.y && b.cmin.z <= cp.z
            <= b.cmax.z implies w.chunks.contains_key((b.key, cp)) || w.empty.contains(
        (b.key, cp),
    ) by {
        assert(!wanted(w, order, b, k));
        crate::ivec::lemma_view_injective(cp, b.center@.plus(order[k]@).lattice());
    }
}

/// A pass never generates more chunks than its budget, and spends one unit of
/// it per chunk.
pub proof fn law_loading_spends_the_budget<H, O, G>(
    p: PlanState,
    w: WorldState<H, O, G>,
    order: Seq<IVec3>,
)
    requires
        p.budget >= 0,
    ensures
        p.step(w, order).1.budget == p.budget - if p.step(w, order).0 is Load {
            1int
        } else {
            0
        },
        p.step(w, order).1.budget >= 0,
{
}

proof fn lemma_first_wanted<H, O, G>(
    w: WorldState<H, O, G>,
    order: Seq<IVec3>,
    b: StreamBody,
    j: int,
)
    requires
        0 <= j <= order.len(),
    ensures
        match first_wanted(w, order, b, j) {
            Some(k) => j <= k < order.len() && wanted(w, order, b, k) && forall|i: int|
                j <= i < k ==> !#[trigger] wanted(w, order, b, i),
            None => forall|i: int| j <= i < order.len() ==> !#[trigger] wanted(w, order, b, i),
        },
    decreases order.len() - j,
{
    if j < order.len() && !wanted(w, order, b, j) {
        lemma_first_wanted(w, order, b, j + 1);
    }
}

/// Nearest first: among the chunks of a body that the pass has not looked at
/// yet, none that is missing lies nearer to the player than the one it loads.
pub proof fn law_nearest_chunk_loads_first<H, O, G>(
    p: PlanState,
    w: WorldState<H, O, G>,
    order: Seq<IVec3>,
    i: int,
)
    requires
        ordered_below(order, GEN_RADIUS * GEN_RADIUS + 1),
        0 <= p.body < p.bodies.len(),
        p.entered,
        p.step(w, order).0 is Load,
        p.next <= i < order.len(),
        0 <= p.next,
        wanted(w, order, p.bodies[p.body], i),
    ensures
        p.step(w, order).1.next - 1 == i || sooner(order[p.step(w, order).1.next - 1], order[i]),
{
    lemma_first_wanted(w, order, p.bodies[p.body], p.next);
}

/// A chunk that is stored or known to be vacant.
pub open spec fn loaded<H, O, G>(w: WorldState<H, O, G>, key: IVec3, cp: IVec3) -> bool {
    w.chunks.contains_key((key, cp)) || w.empty.contains((key, cp))
}

/// Nothing that the pass has looked at so far is missing.
pub open spec fn served<H, O, G>(p: PlanState, w: WorldState<H, O, G>, order: Seq<IVec3>) -> bool {
    forall|i: int, j: int|
        0 <= i < p.bodies.len() && 0 <= j < order.len() && (i < p.body || (i == p.body && j
            < p.next)) ==> !#[trigger] wanted(w, order, p.bodies[i], j)
}

/// `after` is a world in which the step of a pass has been carried out: what
/// was loaded still is, and the chunk to load is loaded too.
pub open spec fn carried_out<H, O, G>(
    p: PlanState,
    step: PlanStep,
    w: WorldState<H, O, G>,
    after: WorldState<H, O, G>,
) -> bool {
    &&& forall|key: IVec3, cp: IVec3| #[trigger] loaded(w, key, cp) ==> loaded(after, key, cp)
    &&& step matches PlanStep::Load(i, cp) ==> loaded(after, p.bodies[i as int].key, cp)
}

/// A pass leaves nothing behind: it keeps everything that it has looked at
/// loaded, and when it is done with budget to spare, no chunk in range of any
/// of its bodies is missing.
pub proof fn law_pass_leaves_nothing_behind<H, O, G>(
    p: PlanState,
    w: WorldState<H, O, G>,
    order: Seq<IVec3>,
    after: WorldState<H, O, G>,
)
    requires
        0 <= p.body,
        p.bodies.len() <= usize::MAX,
        0 <= p.next <= order.len(),
        served(p, w, order),
        carried_out(p, p.step(w, order).0, w, after),
    ensures
        served(p.step(w, order).1, after, order),
        0 <= p.step(w, order).1.body,
        0 <= p.step(w, order).1.next <= order.len(),
        p.step(w, order).0 is Done && p.budget > 0 ==> forall|i: int, j: int|
            0 <= i < p.bodies.len() && 0 <= j < order.len() ==> !#[trigger] wanted(
                after,
                order,
                p.bodies[i],
                j,
            ),
{
    let q = p.step(w, order).1;
    if 0 <= p.body < p.bodies.len() {
        lemma_first_wanted(w, order, p.bodies[p.body], p.next);
    }
    assert forall|i: int, j: int|
        0 <= i < q.bodies.len() && 0 <= j < order.len() && (i < q.body || (i == q.body && j
            < q.next)) implies !#[trigger] wanted(after, order, q.bodies[i], j) by {
        let b = p.bodies[i];
        let cp = b.center@.plus(order[j]@).lattice();
        if loaded(w, b.key, cp) {
            assert(loaded(after, b.key, cp));
        } else if wanted(w, order, b, j) {
            assert(i == p.body && j == q.next - 1);
            assert(loaded(after, b.key, cp));
        }
    }
}

/// The course of a pass: plans and worlds of its steps in order, from a fresh
/// plan on. What is loaded stays loaded, and every chunk that the pass asks for
/// is loaded by the next step.
pub open spec fn passed<H, O, G>(
    plans: Seq<PlanState>,
    worlds: Seq<WorldState<H, O, G>>,
    order: Seq<IVec3>,
) -> bool {
    &&& plans.len() == worlds.len()
    &&& plans.len() > 0
    &&& plans[0].body == 0
    &&& plans[0].next == 0
    &&& !plans[0].entered
    &&& plans[0].bodies.len() <= usize::MAX
    &&& forall|n: int|
        0 <= n < plans.len() - 1 ==> (#[trigger] plans[n + 1]) == plans[n].step(worlds[n], order).1
    &&& forall|n: int, k: (IVec3, IVec3)|
        0 <= n < worlds.len() - 1 && ((#[trigger] worlds[n]).chunks.contains_key(k)
            || worlds[n].empty.contains(k)) ==> #[trigger] worlds[n + 1].chunks.contains_key(k)
            || worlds[n + 1].empty.contains(k)
    &&& forall|n: int|
        0 <= n < plans.len() - 1 ==> match (#[trigger] plans[n].step(worlds[n], order)).0 {
            PlanStep::Load(i, cp) => worlds[n + 1].chunks.contains_key(
                (plans[n].bodies[i as int].key, cp),
            ) || worlds[n + 1].empty.contains((plans[n].bodies[i as int].key, cp)),
            _ => true,
        }
}

proof fn lemma_course_is_served<H, O, G>(
    plans: Seq<PlanState>,
    worlds: Seq<WorldState<H, O, G>>,
    order: Seq<IVec3>,
    n: int,
)
    requires
        passed(plans, worlds, order),
        0 <= n < plans.len(),
    ensures
        served(plans[n], worlds[n], order),
        plans[n].bodies == plans[0].bodies,
        0 <= plans[n].body,
        0 <= plans[n].next <= order.len(),
    decreases n,
{
    if n > 0 {
        lemma_course_is_served(plans, worlds, order, n - 1);
        let p = plans[n - 1];
        let w = worlds[n - 1];
        assert(plans[n - 1 + 1] == p.step(w, order).1);
        assert forall|key: IVec3, cp: IVec3| #[trigger] loaded(w, key, cp) implies loaded(
            worlds[n],
            key,
            cp,
        ) by {
            assert(worlds[n - 1 + 1].chunks.contains_key((key, cp)) || worlds[n].empty.contains(
                (key, cp),
            ));
        }
        law_pass_leaves_nothing_behind(p, w, order, worlds[n]);
    }
}

/// A pass that ends with budget to spare has seen to everything in range: of
/// every body, every chunk at an offset of the generation order and inside the
/// body's box is stored or known to be vacant.
pub proof fn law_finished_pass_has_loaded_all<H, O, G>(
    plans: Seq<PlanState>,
    worlds: Seq<WorldState<H, O, G>>,
    order: Seq<IVec3>,
    i: int,
    o: IVec3,
    cp: IVec3,
)
    requires
        passed(plans, worlds, order),
        plans.last().step(worlds.last(), order).0 is Done,
        plans.last().budget > 0,
        0 <= i < plans[0].bodies.len(),
        order.contains(o),
        cp.x == plans[0].bodies[i].center.x + o.x,
        cp.y == plans[0].bodies[i].center.y + o.y,
        cp.z == plans[0].bodies[i].center.z + o.z,
        plans[0].bodies[i].cmin.x <= cp.x <= plans[0].bodies[i].cmax.x,
        plans[0].bodies[i].cmin.y <= cp.y <= plans[0].bodies[i].cmax.y,
        plans[0].bodies[i].cmin.z <= cp.z <= plans[0].bodies[i].cmax.z,
    ensures
        worlds.last().chunks.contains_key((plans[0].bodies[i].key, cp))
            || worlds.last().empty.contains((plans[0].bodies[i].key, cp)),
{
    let n = plans.len() - 1;
    let p = plans[n];
    let w = worlds[n];
    let b = p.bodies[i];
    lemma_course_is_served(plans, worlds, order, n);
    law_pass_leaves_nothing_behind(p, w, order, w);
    let j = order.index_of(o);
    assert(!wanted(w, order, b, j));
    crate::ivec::lemma_view_injective(cp, b.center@.plus(order[j]@).lattice());
}

/// Whatever a pass asks for is in range and missing: a chunk of the body's box,
/// at an offset of the generation order, neither stored nor known to be vacant.
/// Every chunk of the box that comes before it in that order, from where the
/// pass had got to, is loaded: the nearest missing chunk comes first.
pub proof fn law_pass_asks_for_the_nearest_missing_chunk<H, O, G>(
    p: PlanState,
    w: WorldState<H, O, G>,
    order: Seq<IVec3>,
    i: usize,
    cp: IVec3,
    k: int,
    at: IVec3,
)
    requires
        0 <= p.body < p.bodies.len() <= usize::MAX,
        0 <= p.next <= order.len(),
        p.step(w, order).0 == PlanStep::Load(i, cp),
    ensures
        ({
            let b = p.bodies[p.body];
            let j = p.step(w, order).1.next - 1;
            &&& i == p.body
            &&& p.next <= j < order.len()
            &&& cp.x == b.center.x + order[j].x
            &&& cp.y == b.center.y + order[j].y
            &&& cp.z == b.center.z + order[j].z
            &&& b.cmin.x <= cp.x <= b.cmax.x
            &&& b.cmin.y <= cp.y <= b.cmax.y
            &&& b.cmin.z <= cp.z <= b.cmax.z
            &&& !w.chunks.contains_key((b.key, cp))
            &&& !w.empty.contains((b.key, cp))
            &&& p.next <= k < j && at.x == b.center.x + order[k].x && at.y == b.center.y
                + order[k].y && at.z == b.center.z + order[k].z && b.cmin.x <= at.x <= b.cmax.x
                && b.cmin.y <= at.y <= b.cmax.y && b.cmin.z <= at.z <= b.cmax.z
                ==> w.chunks.contains_key((b.key, at)) || w.empty.contains((b.key, at))
        }),
{
    let b = p.bodies[p.body];
    lemma_first_wanted(w, order, b, p.next);
    let j = p.step(w, order).1.next - 1;
    assert(wanted(w, order, b, j));
    if p.next <= k < j && lies_at(b, order[k], at) {
        assert(!wanted(w, order, b, k));
        crate::ivec::lemma_view_injective(at, b.center@.plus(order[k]@).lattice());
    }
}

/// A pass comes to its end: a step loads a chunk within the budget, moves on to
/// the next body, or is the last. Bodies are taken in their order, none is left
/// out, and each starts over at the nearest chunk.
pub proof fn law_pass_takes_every_body_in_turn<H, O, G>(
    p: PlanState,
    w: WorldState<H, O, G>,
    order: Seq<IVec3>,
)
    requires
        0 <= p.body < p.bodies.len() <= usize::MAX,
        0 <= p.next <= order.len(),
        p.budget > 0,
    ensures
        ({
            let (r, q) = p.step(w, order);
            &&& q.bodies == p.bodies
            &&& !p.entered ==> r == PlanStep::Enter(p.body as usize) && q.body == p.body && q.next
                == p.next && q.entered
            &&& p.entered && !(r is Load) ==> q.body == p.body + 1 && q.next == 0
            &&& r is Load ==> q.body == p.body && q.entered && q.next > p.next
            &&& r is Done <==> p.entered && q.body == p.bodies.len()
            &&& q.budget == p.budget - if r is Load {
                1int
            } else {
                0
            }
        }),
{
    if p.entered {
        lemma_first_wanted(w, order, p.bodies[p.body], p.next);
    }
}

/// The tick of a sweep that runs every `period` frames: the counter after one
/// more frame, and whether the sweep runs in it.
pub open spec fn ticked(tick: u32, period: u32, phase: u32) -> (u32, bool) {
    let t = tick.wrapping_add(1);
    (t, t % period == phase)
}

/// A sweep comes round once in every period: of any `period` frames in a row
/// that count up, it runs in exactly one.
pub proof fn law_sweeps_come_round(tick: u32, period: u32, phase: u32)
    requires
        0 < period,
        phase < period,
        tick + period <= u32::MAX,
    ensures
        exists|n: int| 0 <= n < period && #[trigger] ticked((tick + n) as u32, period, phase).1,
        forall|n: int, m: int|
            0 <= n < m < period && #[trigger] ticked((tick + n) as u32, period, phase).1
                ==> !#[trigger] ticked((tick + m) as u32, period, phase).1,
        ticked(tick, period, phase).0 == tick + 1,
{
    let t = tick + 1;
    let p = period as int;
    let r = t % p;
    let n = if r <= phase {
        phase - r
    } else {
        phase - r + p
    };
    vstd::arithmetic::div_mod::lemma_fundamental_div_mod(t, p);
    vstd::arithmetic::div_mod::lemma_mod_bound(t, p);
    let q = t / p;
    if r <= phase {
        vstd::arithmetic::div_mod::lemma_fundamental_div_mod_converse(t + n, p, q, phase as int);
    } else {
        assert(t + n == p * (q + 1) + phase) by (nonlinear_arith)
            requires
                t == p * q + r,
                n == phase - r + p,
        ;
        vstd::arithmetic::div_mod::lemma_fundamental_div_mod_converse(
            t + n,
            p,
            q + 1,
            phase as int,
        );
    }
    assert((t + n) % p == phase);
    assert(ticked((tick + n) as u32, period, phase).1);
    assert forall|n: int, m: int|
        0 <= n < m < period && #[trigger] ticked(
            (tick + n) as u32,
            period,
            phase,
        ).1 implies !#[trigger] ticked((tick + m) as u32, period, phase).1 by {
        let (a, b) = (t + n, t + m);
        vstd::arithmetic::div_mod::lemma_fundamental_div_mod(a, p);
        vstd::arithmetic::div_mod::lemma_fundamental_div_mod(b, p);
        if b % p == phase {
            let (x, y) = (a / p, b / p);
            assert(b - a == p * (y - x)) by (nonlinear_arith)
                requires
                    a == p * x + phase,
                    b == p * y + phase,
            ;
            assert(y - x > 0) by (nonlinear_arith)
                requires
                    p * (y - x) > 0,
                    p > 0,
            ;
            assert(p * (y - x) >= p) by (nonlinear_arith)
                requires
                    y - x >= 1,
                    p > 0,
            ;
        }
    }
}

/// Discovery of bodies runs every 31st frame, starting with the first.
pub fn sweep_tick(tick: u32) -> (r: (u32, bool))
    ensures
        r == ticked(tick, 31, 1),
        r.0 == if tick == u32::MAX {
            0
        } else {
            tick + 1
        },
        r.1 == (r.0 % 31 == 1),
{
    let t: u32 = tick.wrapping_add(1);
    (t, t % 31 == 1)
}

/// Unloading runs every 97th frame.
pub fn unload_tick(tick: u32) -> (r: (u32, bool))
    ensures
        r == ticked(tick, 97, 0),
        r.0 == if tick == u32::MAX {
            0
        } else {
            tick + 1
        },
        r.1 == (r.0 % 97 == 0),
{
    let t: u32 = tick.wrapping_add(1);
    (t, t % 97 == 0)
}

} // verus!
