//! Far-field impostors: which distant rocks have a stand-in mesh, which wait
//! for one, and which the hole has taken.
//!
//! `E` is a handle to an entity of the scene.
use crate::cells::{cell_box, lists_box};
use crate::ivec::IVec3;
use crate::state::WorldState;
use crate::voxel_map::VoxelMap;
use crate::world::VoxelWorld;
use vstd::prelude::*;

verus! {

/// Impostor meshes built per frame.
pub const BUILD_BUDGET: usize = 8;

/// Discovery and cleanup run every 29th frame, starting with the first.
pub fn impostor_tick(tick: u32) -> (r: (u32, bool))
    ensures
        r == crate::stream::ticked(tick, 29, 1),
        r.0 == if tick == u32::MAX {
            0
        } else {
            tick + 1
        },
        r.1 == (r.0 % 29 == 1),
{
    let t: u32 = tick.wrapping_add(1);
    (t, t % 29 == 1)
}

/// The content of the impostor table.
#[verifier::ext_equal]
pub struct ImpostorState<E> {
    /// Impostor of each cell; `None` while it waits to be built.
    pub map: Map<IVec3, Option<E>>,
    /// Cells waiting to be built, next one last.
    pub queue: Seq<IVec3>,
    /// Cells whose rock the hole has taken today.
    pub eaten: Set<IVec3>,
    /// Planet impostors, by planet.
    pub planets: Seq<E>,
    /// Planets that the hole has taken today.
    pub eaten_planets: Set<IVec3>,
}

pub struct Impostors<E> {
    map: VoxelMap<Option<E>>,
    queue: Vec<IVec3>,
    eaten: VoxelMap<()>,
    planets: Vec<E>,
    eaten_planets: VoxelMap<()>,
}

impl<E> View for Impostors<E> {
    type V = ImpostorState<E>;

    closed spec fn view(&self) -> ImpostorState<E> {
        ImpostorState {
            map: self.map@,
            queue: self.queue@,
            eaten: self.eaten@.dom(),
            planets: self.planets@,
            eaten_planets: self.eaten_planets@.dom(),
        }
    }
}

/// Whether the hole has taken a body.
pub open spec fn taken<H, O, G>(w: WorldState<H, O, G>, key: IVec3) -> bool {
    w.motion.contains_key(key) && w.motion[key].eaten
}

/// A cell that discovery looks at: no impostor yet, and not taken.
pub open spec fn open_cell<H, O, G, E>(
    s: ImpostorState<E>,
    w: WorldState<H, O, G>,
    c: IVec3,
) -> bool {
    !s.map.contains_key(c) && !s.eaten.contains(c) && !taken(w, c)
}

/// The table with a cell in line to be built.
pub open spec fn enqueued<E>(s: ImpostorState<E>, c: IVec3) -> ImpostorState<E> {
    ImpostorState { map: s.map.insert(c, None), queue: s.queue.push(c), ..s }
}

/// Discovery at one cell turned `s` into `after`: an open cell in which
/// `notice` sees a rock in range is put in line.
pub open spec fn looked_at<H, O, G, E, N: Fn(IVec3) -> bool>(
    s: ImpostorState<E>,
    w: WorldState<H, O, G>,
    notice: N,
    c: IVec3,
    after: ImpostorState<E>,
) -> bool {
    if open_cell(s, w, c) {
        exists|seen: bool| #[trigger]
            notice.ensures((c,), seen) && after == if seen {
                enqueued(s, c)
            } else {
                s
            }
    } else {
        after == s
    }
}

/// Discovery over `cells`, one after the other, turned `s` into `after`.
pub open spec fn discovered<H, O, G, E, N: Fn(IVec3) -> bool>(
    s: ImpostorState<E>,
    w: WorldState<H, O, G>,
    notice: N,
    cells: Seq<IVec3>,
    after: ImpostorState<E>,
) -> bool
    decreases cells.len(),
{
    if cells.len() == 0 {
        after == s
    } else {
        exists|mid: ImpostorState<E>|
            discovered(s, w, notice, cells.drop_last(), mid) && #[trigger] looked_at(
                mid,
                w,
                notice,
                cells.last(),
                after,
            )
    }
}

/// The table after discovery over a box of cells.
pub open spec fn discovered_box<H, O, G, E, N: Fn(IVec3) -> bool>(
    s: ImpostorState<E>,
    w: WorldState<H, O, G>,
    notice: N,
    lo: IVec3,
    hi: IVec3,
    after: ImpostorState<E>,
) -> bool {
    exists|cells: Seq<IVec3>| #[trigger]
        lists_box(cells, lo, hi) && discovered(s, w, notice, cells, after)
}

/// An impostor that leaves the scene.
#[derive(Clone, Copy)]
pub struct Retired<E> {
    pub cell: IVec3,
    pub entity: E,
}

/// Cells in `r`.
pub open spec fn retired_cells<E>(r: Seq<Retired<E>>) -> Set<IVec3> {
    Set::new(|c: IVec3| exists|i: int| 0 <= i < r.len() && (#[trigger] r[i]).cell == c)
}

/// `r` lists built impostors, each once, with their entities.
pub open spec fn lists_built<E>(map: Map<IVec3, Option<E>>, r: Seq<Retired<E>>) -> bool {
    &&& forall|i: int, j: int|
        0 <= i < j < r.len() ==> (#[trigger] r[i]).cell != (#[trigger] r[j]).cell
    &&& forall|i: int|
        0 <= i < r.len() ==> map.contains_key((#[trigger] r[i]).cell) && map[r[i].cell] == Some(
            r[i].entity,
        )
}

/// A cell with a built impostor.
pub open spec fn built<E>(map: Map<IVec3, Option<E>>, c: IVec3) -> bool {
    map.contains_key(c) && map[c] is Some
}

/// Impostors of taken bodies have left the table, and their cells are marked.
pub open spec fn freed<H, O, G, E>(
    s: ImpostorState<E>,
    w: WorldState<H, O, G>,
    gone: Seq<Retired<E>>,
    after: ImpostorState<E>,
) -> bool {
    &&& lists_built(s.map, gone)
    &&& forall|c: IVec3| #[trigger]
        retired_cells(gone).contains(c) <==> built(s.map, c) && taken(w, c)
    &&& after == (ImpostorState {
        map: s.map.remove_keys(retired_cells(gone)),
        eaten: s.eaten.union(retired_cells(gone)),
        ..s
    })
}

/// Impostors that `far` calls far have left the table.
pub open spec fn thinned<E, F: Fn(IVec3) -> bool>(
    s: ImpostorState<E>,
    far: F,
    gone: Seq<Retired<E>>,
    after: ImpostorState<E>,
) -> bool {
    &&& lists_built(s.map, gone)
    &&& forall|c: IVec3| #[trigger]
        built(s.map, c) ==> far.ensures((c,), retired_cells(gone).contains(c))
    &&& after == (ImpostorState { map: s.map.remove_keys(retired_cells(gone)), ..s })
}

/// Order of two queue places: the greater rank first; equal ranks keep their
/// order.
pub open spec fn queued_before(ranks: Seq<u64>, a: int, b: int) -> bool {
    ranks[a] > ranks[b] || (ranks[a] == ranks[b] && a < b)
}

/// `order` runs through all places from 0 to `n`, farthest first.
pub open spec fn farthest_first(ranks: Seq<u64>, order: Seq<int>, n: int) -> bool {
    &&& order.len() == n
    &&& forall|i: int| 0 <= i < n ==> 0 <= #[trigger] order[i] < n
    &&& forall|i: int, j: int|
        0 <= i < j < n ==> queued_before(ranks, #[trigger] order[i], #[trigger] order[j])
}

/// `after` is `queue` sorted so that the farthest cell comes first and the
/// nearest is built next.
pub open spec fn queue_sorted<R: Fn(IVec3) -> u64>(
    queue: Seq<IVec3>,
    rank: R,
    after: Seq<IVec3>,
) -> bool {
    exists|ranks: Seq<u64>, order: Seq<int>|
        {
            &&& ranks.len() == queue.len()
            &&& forall|i: int|
                0 <= i < queue.len() ==> rank.ensures((queue[i],), #[trigger] ranks[i])
            &&& #[trigger] farthest_first(ranks, order, queue.len() as int)
            &&& after == Seq::new(queue.len(), |i: int| queue[order[i]])
        }
}

/// What becomes of a planet's impostor in a frame.
#[derive(Clone, Copy, PartialEq, Eq, Structural, Debug)]
pub enum PlanetFate {
    /// It was taken earlier.
    Gone,
    /// The hole takes it now: it is hidden, in a burst of shards.
    Taken,
    /// Tides stretch it toward the hole, and it may shed matter.
    Torn { shed: bool },
    /// Out of the tides again: it gets its shape back.
    Mended,
    /// Nothing happens to it.
    Whole,
}

impl<E: Copy> Impostors<E> {
    pub fn new() -> (t: Self)
        ensures
            t@ == (ImpostorState::<E> {
                map: Map::empty(),
                queue: Seq::empty(),
                eaten: Set::empty(),
                planets: Seq::empty(),
                eaten_planets: Set::empty(),
            }),
    {
        let t = Impostors {
            map: VoxelMap::new(),
            queue: Vec::new(),
            eaten: VoxelMap::new(),
            planets: Vec::new(),
            eaten_planets: VoxelMap::new(),
        };
        assert(t@.eaten =~= Set::empty());
        assert(t@.eaten_planets =~= Set::empty());
        t
    }

    /// Put the cells of a box that show a rock in range in line to be built.
    pub fn discover<H: Copy, O: Copy, G: Copy, N: Fn(IVec3) -> bool>(
        &mut self,
        world: &VoxelWorld<H, O, G>,
        lo: IVec3,
        hi: IVec3,
        notice: &N,
    )
        requires
            forall|c: IVec3| #[trigger] notice.requires((c,)),
        ensures
            discovered_box(old(self)@, world@, *notice, lo, hi, final(self)@),
    {
        let ghost before = self@;
        let cells = cell_box(lo, hi);
        let mut i: usize = 0;
        assert(cells@.take(0) =~= Seq::empty());
        while i < cells.len()
            invariant
                i <= cells.len(),
                forall|c: IVec3| #[trigger] notice.requires((c,)),
                discovered(before, world@, *notice, cells@.take(i as int), self@),
            decreases cells.len() - i,
        {
            let c = cells[i];
            let ghost mid = self@;
            let ghost t = cells@.take(i + 1);
            assert(t.drop_last() =~= cells@.take(i as int));
            assert(t.last() == c);
            if !self.map.contains(c) && !self.eaten.contains(c) && !world.is_eaten(c) {
                let seen = notice(c);
                if seen {
                    self.map.insert(c, None);
                    self.queue.push(c);
                }
                assert(notice.ensures((c,), seen));
                assert(self@ == if seen {
                    enqueued(mid, c)
                } else {
                    mid
                });
            }
            assert(looked_at(mid, world@, *notice, t.last(), self@));
            i += 1;
        }
        assert(cells@.take(cells@.len() as int) =~= cells@);
        assert(lists_box(cells@, lo, hi));
    }

    /// Free the impostors of bodies that the hole has taken.
    pub fn free_eaten<H: Copy, O: Copy, G: Copy>(&mut self, world: &VoxelWorld<H, O, G>) -> (gone:
        Vec<Retired<E>>)
        ensures
            freed(old(self)@, world@, gone@, final(self)@),
    {
        let ghost before = self@;
        let ks = self.map.keys();
        let mut gone: Vec<Retired<E>> = Vec::new();
        let mut i: usize = 0;
        assert(retired_cells(gone@) =~= Set::empty());
        assert(self@ =~= ImpostorState {
            map: before.map.remove_keys(retired_cells(gone@)),
            eaten: before.eaten.union(retired_cells(gone@)),
            ..before
        });
        while i < ks.len()
            invariant
                i <= ks.len(),
                ks@.no_duplicates(),
                forall|k: IVec3| #[trigger] ks@.contains(k) <==> before.map.contains_key(k),
                lists_built(before.map, gone@),
                forall|c: IVec3| #[trigger]
                    retired_cells(gone@).contains(c) <==> built(before.map, c) && taken(world@, c)
                        && ks@.take(i as int).contains(c),
                self@ == (ImpostorState {
                    map: before.map.remove_keys(retired_cells(gone@)),
                    eaten: before.eaten.union(retired_cells(gone@)),
                    ..before
                }),
            decreases ks.len() - i,
        {
            let c = ks[i];
            assert(ks@.contains(ks@[i as int]));
            let ghost earlier = gone@;
            let ghost was = self@;
            proof {
                lemma_take_push(ks@, i as int);
            }
            let entity: Option<E> = match self.map.get(c) {
                Some(e) => *e,
                None => None,
            };
            if let Some(entity) = entity {
                if world.is_eaten(c) {
                    self.eaten.insert(c, ());
                    self.map.remove(c);
                    let g = Retired { cell: c, entity };
                    gone.push(g);
                    proof {
                        lemma_retired_push(earlier, g);
                        lemma_lists_push(before.map, earlier, g);
                        assert(self@ =~= ImpostorState {
                            map: before.map.remove_keys(retired_cells(gone@)),
                            eaten: before.eaten.union(retired_cells(gone@)),
                            ..before
                        });
                    }
                }
            }
            i += 1;
        }
        assert(ks@.take(ks@.len() as int) =~= ks@);
        gone
    }

    /// Free the impostors that are far behind.
    pub fn free_far<F: Fn(IVec3) -> bool>(&mut self, far: &F) -> (gone: Vec<Retired<E>>)
        requires
            forall|c: IVec3| #[trigger] far.requires((c,)),
        ensures
            thinned(old(self)@, *far, gone@, final(self)@),
    {
        let ghost before = self@;
        let ks = self.map.keys();
        let mut gone: Vec<Retired<E>> = Vec::new();
        let mut i: usize = 0;
        assert(retired_cells(gone@) =~= Set::empty());
        assert(self@ =~= ImpostorState {
            map: before.map.remove_keys(retired_cells(gone@)),
            ..before
        });
        while i < ks.len()
            invariant
                i <= ks.len(),
                forall|c: IVec3| #[trigger] far.requires((c,)),
                ks@.no_duplicates(),
                forall|k: IVec3| #[trigger] ks@.contains(k) <==> before.map.contains_key(k),
                lists_built(before.map, gone@),
                forall|c: IVec3| #[trigger]
                    retired_cells(gone@).contains(c) ==> ks@.take(i as int).contains(c),
                forall|c: IVec3| #[trigger]
                    built(before.map, c) && ks@.take(i as int).contains(c) ==> far.ensures(
                        (c,),
                        retired_cells(gone@).contains(c),
                    ),
                self@ == (ImpostorState {
                    map: before.map.remove_keys(retired_cells(gone@)),
                    ..before
                }),
            decreases ks.len() - i,
        {
            let c = ks[i];
            assert(ks@.contains(ks@[i as int]));
            let ghost earlier = gone@;
            proof {
                lemma_take_push(ks@, i as int);
            }
            let entity: Option<E> = match self.map.get(c) {
                Some(e) => *e,
                None => None,
            };
            if let Some(entity) = entity {
                let is_far = far(c);
                if is_far {
                    self.map.remove(c);
                    let g = Retired { cell: c, entity };
                    gone.push(g);
                    proof {
                        lemma_retired_push(earlier, g);
                        lemma_lists_push(before.map, earlier, g);
                        assert(self@ =~= ImpostorState {
                            map: before.map.remove_keys(retired_cells(gone@)),
                            ..before
                        });
                    }
                }
                assert(far.ensures((c,), retired_cells(gone@).contains(c)));
            }
            i += 1;
        }
        assert(ks@.take(ks@.len() as int) =~= ks@);
        gone
    }

    /// Sort the queue so that the nearest rocks are built first.
    pub fn sort_queue<R: Fn(IVec3) -> u64>(&mut self, rank: &R)
        requires
            forall|c: IVec3| #[trigger] rank.requires((c,)),
        ensures
            queue_sorted(old(self)@.queue, *rank, final(self)@.queue),
            final(self)@ == (ImpostorState { queue: final(self)@.queue, ..old(self)@ }),
    {
        let ghost before = self@;
        let ghost queue = self.queue@;
        let mut ranks: Vec<u64> = Vec::new();
        while ranks.len() < self.queue.len()
            invariant
                ranks.len() <= self.queue.len(),
                self.queue@ == queue,
                self@ == before,
                forall|c: IVec3| #[trigger] rank.requires((c,)),
                forall|i: int|
                    0 <= i < ranks.len() ==> rank.ensures((queue[i],), #[trigger] ranks@[i]),
            decreases self.queue.len() - ranks.len(),
        {
            ranks.push(rank(self.queue[ranks.len()]));
        }
        let order = farthest_order(&ranks);
        let mut sorted: Vec<IVec3> = Vec::new();
        let ghost places = Seq::new(order@.len(), |i: int| order@[i] as int);
        while sorted.len() < order.len()
            invariant
                sorted.len() <= order.len(),
                order.len() == queue.len(),
                self.queue@ == queue,
                self@ == before,
                forall|i: int| 0 <= i < order.len() ==> #[trigger] order@[i] < queue.len(),
                forall|i: int|
                    0 <= i < sorted.len() ==> #[trigger] sorted@[i] == queue[order@[i] as int],
            decreases order.len() - sorted.len(),
        {
            let n = sorted.len();
            assert(order@[n as int] < queue.len());
            sorted.push(self.queue[order[n]]);
        }
        self.queue = sorted;
        proof {
            assert(farthest_first(ranks@, places, queue.len() as int)) by {
                assert forall|i: int, j: int| 0 <= i < j < places.len() implies queued_before(
                    ranks@,
                    #[trigger] places[i],
                    #[trigger] places[j],
                ) by {
                    assert(queued_before(ranks@, order@[i] as int, order@[j] as int));
                }
            }
            assert(self.queue@ =~= Seq::new(queue.len(), |i: int| queue[places[i]]));
            assert(queue_sorted(queue, *rank, self.queue@));
            assert(self@ =~= ImpostorState { queue: self@.queue, ..before });
        }
    }
}

/// The places of `ranks`, greatest rank first, equal ranks in order.
fn farthest_order(ranks: &Vec<u64>) -> (order: Vec<usize>)
    ensures
        order.len() == ranks.len(),
        forall|i: int| 0 <= i < order.len() ==> #[trigger] order@[i] < ranks.len(),
        forall|i: int, j: int|
            0 <= i < j < order.len() ==> queued_before(
                ranks@,
                #[trigger] order@[i] as int,
                #[trigger] order@[j] as int,
            ),
{
    let mut order: Vec<usize> = Vec::new();
    let mut n: usize = 0;
    while n < ranks.len()
        invariant
            n <= ranks.len(),
            order.len() == n,
            forall|i: int| 0 <= i < order.len() ==> #[trigger] order@[i] < n,
            forall|i: int, j: int|
                0 <= i < j < order.len() ==> queued_before(
                    ranks@,
                    #[trigger] order@[i] as int,
                    #[trigger] order@[j] as int,
                ),
        decreases ranks.len() - n,
    {
        // The new place goes behind every place of at least its rank.
        let mut at: usize = n;
        assert forall|i: int| 0 <= i < order.len() implies #[trigger] order@[i] < n by {}
        while at > 0 && ranks[order[at - 1]] < ranks[n]
            invariant
                at <= n,
                n < ranks.len(),
                order.len() == n,
                forall|i: int| 0 <= i < order.len() ==> #[trigger] order@[i] < n,
                forall|i: int|
                    at <= i < order.len() ==> ranks@[(#[trigger] order@[i]) as int] < ranks@[n as int],
            decreases at,
        {
            at = at - 1;
        }
        let ghost was = order@;
        order.insert(at, n);
        proof {
            assert forall|i: int, j: int| 0 <= i < j < order@.len() implies queued_before(
                ranks@,
                #[trigger] order@[i] as int,
                #[trigger] order@[j] as int,
            ) by {
                let p = if i < at {
                    i
                } else {
                    i - 1
                };
                let q = if j < at {
                    j
                } else {
                    j - 1
                };
                if i != at && j != at {
                    assert(queued_before(ranks@, was[p] as int, was[q] as int));
                } else if j == at {
                    assert(was[i] < n);
                    if i < at - 1 {
                        assert(queued_before(ranks@, was[i] as int, was[at - 1] as int));
                    }
                } else {
                    assert(ranks@[was[q] as int] < ranks@[n as int]);
                }
            }
            assert forall|i: int| 0 <= i < order@.len() implies #[trigger] order@[i] < n + 1 by {
                if i < at {
                    assert(was[i] < n);
                } else if i > at {
                    assert(was[i - 1] < n);
                }
            }
        }
        n += 1;
    }
    order
}

proof fn lemma_take_push(ks: Seq<IVec3>, i: int)
    requires
        0 <= i < ks.len(),
        ks.no_duplicates(),
    ensures
        forall|c: IVec3| #[trigger]
            ks.take(i + 1).contains(c) <==> ks.take(i).contains(c) || c == ks[i],
        !ks.take(i).contains(ks[i]),
{
    let t = ks.take(i);
    let u = ks.take(i + 1);
    assert forall|c: IVec3| #[trigger] u.contains(c) <==> t.contains(c) || c == ks[i] by {
        if t.contains(c) {
            assert(u[t.index_of(c)] == c);
        }
        assert(u[i] == ks[i]);
        if u.contains(c) && u.index_of(c) < i {
            assert(t[u.index_of(c)] == c);
        }
    }
    if t.contains(ks[i]) {
        assert(ks[t.index_of(ks[i])] == ks[i]);
    }
}

proof fn lemma_retired_push<E>(r: Seq<Retired<E>>, g: Retired<E>)
    ensures
        retired_cells(r.push(g)) == retired_cells(r).insert(g.cell),
{
    let all = r.push(g);
    assert forall|c: IVec3| #[trigger]
        retired_cells(all).contains(c) <==> retired_cells(r).insert(g.cell).contains(c) by {
        if retired_cells(r).contains(c) {
            let i = choose|i: int| 0 <= i < r.len() && (#[trigger] r[i]).cell == c;
            assert(all[i].cell == c);
        }
        assert(all[r.len() as int] == g);
        if retired_cells(all).contains(c) {
            let i = choose|i: int| 0 <= i < all.len() && (#[trigger] all[i]).cell == c;
            if i < r.len() {
                assert(r[i].cell == c);
            }
        }
    }
    assert(retired_cells(all) =~= retired_cells(r).insert(g.cell));
}

proof fn lemma_lists_push<E>(map: Map<IVec3, Option<E>>, r: Seq<Retired<E>>, g: Retired<E>)
    requires
        lists_built(map, r),
        !retired_cells(r).contains(g.cell),
        map.contains_key(g.cell),
        map[g.cell] == Some(g.entity),
    ensures
        lists_built(map, r.push(g)),
{
    let all = r.push(g);
    assert forall|i: int, j: int| 0 <= i < j < all.len() implies (#[trigger] all[i]).cell != (
    #[trigger] all[j]).cell by {
        if j == r.len() {
            assert(all[i] == r[i]);
            if r[i].cell == g.cell {
                assert(retired_cells(r).contains(g.cell));
            }
        } else {
            assert(all[i] == r[i] && all[j] == r[j]);
        }
    }
    assert forall|i: int| 0 <= i < all.len() implies map.contains_key((#[trigger] all[i]).cell)
        && map[all[i].cell] == Some(all[i].entity) by {
        if i < r.len() {
            assert(all[i] == r[i]);
        }
    }
}

/// One build slot turned `s` into `after` and appended to the cells to build:
/// the next cell in line is taken; if there is no rock in it any more nothing
/// happens, and if the hole has taken the rock it is marked instead.
pub open spec fn build_slot<H, O, G, E, X: Fn(IVec3) -> bool>(
    s: ImpostorState<E>,
    cells: Seq<IVec3>,
    w: WorldState<H, O, G>,
    exists_in: X,
    after: ImpostorState<E>,
    after_cells: Seq<IVec3>,
) -> bool {
    if s.queue.len() == 0 {
        after == s && after_cells == cells
    } else {
        let c = s.queue.last();
        let t = ImpostorState { queue: s.queue.drop_last(), ..s };
        exists|rock: bool| #[trigger]
            exists_in.ensures((c,), rock) && if !rock {
                after == t && after_cells == cells
            } else if taken(w, c) {
                after == (ImpostorState { map: t.map.remove(c), eaten: t.eaten.insert(c), ..t })
                    && after_cells == cells
            } else {
                after == t && after_cells == cells.push(c)
            }
    }
}

/// `n` build slots turned `s` into `after` and chose `cells` to be built.
pub open spec fn build_slots<H, O, G, E, X: Fn(IVec3) -> bool>(
    s: ImpostorState<E>,
    w: WorldState<H, O, G>,
    exists_in: X,
    n: nat,
    after: ImpostorState<E>,
    cells: Seq<IVec3>,
) -> bool
    decreases n,
{
    if n == 0 {
        after == s && cells.len() == 0
    } else {
        exists|mid: ImpostorState<E>, chosen: Seq<IVec3>|
            build_slots(s, w, exists_in, (n - 1) as nat, mid, chosen) && #[trigger] build_slot(
                mid,
                chosen,
                w,
                exists_in,
                after,
                cells,
            )
    }
}

/// A sweep turned `s` into `after`: discovery, then freeing what the hole took,
/// then sorting the queue, then freeing what is far behind.
pub open spec fn swept_field<
    H,
    O,
    G,
    E,
    N: Fn(IVec3) -> bool,
    R: Fn(IVec3) -> u64,
    F: Fn(IVec3) -> bool,
>(
    s: ImpostorState<E>,
    w: WorldState<H, O, G>,
    lo: IVec3,
    hi: IVec3,
    notice: N,
    rank: R,
    far: F,
    after: ImpostorState<E>,
    gone: Seq<Retired<E>>,
) -> bool {
    exists|found: ImpostorState<E>, fed: ImpostorState<E>, eaten: Seq<Retired<E>>, queue: Seq<IVec3>, left: Seq<Retired<E>>|
        {
            &&& discovered_box(s, w, notice, lo, hi, found)
            &&& #[trigger] freed(found, w, eaten, fed)
            &&& #[trigger] queue_sorted(fed.queue, rank, queue)
            &&& #[trigger] thinned(ImpostorState { queue, ..fed }, far, left, after)
            &&& gone == eaten + left
        }
}

impl<E: Copy> Impostors<E> {
    /// Discover the rocks entering range, and retire impostors of rocks that
    /// the hole has taken or that are far behind. The retired impostors are
    /// handed back.
    pub fn sweep<
        H: Copy,
        O: Copy,
        G: Copy,
        N: Fn(IVec3) -> bool,
        R: Fn(IVec3) -> u64,
        F: Fn(IVec3) -> bool,
    >(
        &mut self,
        world: &VoxelWorld<H, O, G>,
        lo: IVec3,
        hi: IVec3,
        notice: &N,
        rank: &R,
        far: &F,
    ) -> (gone: Vec<Retired<E>>)
        requires
            forall|c: IVec3| #[trigger] notice.requires((c,)),
            forall|c: IVec3| #[trigger] rank.requires((c,)),
            forall|c: IVec3| #[trigger] far.requires((c,)),
        ensures
            swept_field(
                old(self)@,
                world@,
                lo,
                hi,
                *notice,
                *rank,
                *far,
                final(self)@,
                gone@,
            ),
    {
        self.discover(world, lo, hi, notice);
        let ghost found = self@;
        let mut gone = self.free_eaten(world);
        let ghost eaten = gone@;
        let ghost fed = self@;
        self.sort_queue(rank);
        let ghost sorted = self@;
        let mut left = self.free_far(far);
        let ghost after = left@;
        gone.append(&mut left);
        proof {
            assert(freed(found, world@, eaten, fed));
            assert(queue_sorted(fed.queue, *rank, sorted.queue));
            assert(sorted == ImpostorState { queue: sorted.queue, ..fed });
            assert(thinned(ImpostorState { queue: sorted.queue, ..fed }, *far, after, self@));
            assert(gone@ == eaten + after);
        }
        gone
    }

    /// The cells to build impostors for in this frame.
    pub fn build_batch<H: Copy, O: Copy, G: Copy, X: Fn(IVec3) -> bool>(
        &mut self,
        world: &VoxelWorld<H, O, G>,
        exists_in: &X,
    ) -> (cells: Vec<IVec3>)
        requires
            forall|c: IVec3| #[trigger] exists_in.requires((c,)),
        ensures
            build_slots(
                old(self)@,
                world@,
                *exists_in,
                BUILD_BUDGET as nat,
                final(self)@,
                cells@,
            ),
            cells.len() <= 8,
            final(self)@.queue == old(self)@.queue.take(
                if old(self)@.queue.len() <= 8 {
                    0
                } else {
                    old(self)@.queue.len() - 8
                },
            ),
    {
        let ghost before = self@;
        let mut cells: Vec<IVec3> = Vec::new();
        let mut n: usize = 0;
        assert(before.queue.take(before.queue.len() as int) =~= before.queue);
        while n < BUILD_BUDGET
            invariant
                n <= BUILD_BUDGET,
                forall|c: IVec3| #[trigger] exists_in.requires((c,)),
                build_slots(before, world@, *exists_in, n as nat, self@, cells@),
                cells.len() <= n,
                self@.queue == before.queue.take(
                    if before.queue.len() <= n {
                        0
                    } else {
                        before.queue.len() - n
                    },
                ),
            decreases BUILD_BUDGET - n,
        {
            let ghost mid = self@;
            let ghost chosen = cells@;
            if let Some(c) = self.queue.pop() {
                let rock = exists_in(c);
                if rock {
                    if world.is_eaten(c) {
                        self.map.remove(c);
                        self.eaten.insert(c, ());
                        assert(self@.eaten =~= mid.eaten.insert(c));
                    } else {
                        cells.push(c);
                    }
                }
                assert(exists_in.ensures((mid.queue.last(),), rock));
            }
            assert(build_slot(mid, chosen, world@, *exists_in, self@, cells@));
            assert(self@.queue =~= before.queue.take(
                if before.queue.len() <= n + 1 {
                    0
                } else {
                    before.queue.len() - (n + 1)
                },
            ));
            n += 1;
        }
        cells
    }

    /// Note a freshly built impostor.
    pub fn built(&mut self, cell: IVec3, e: E)
        ensures
            final(self)@ == (ImpostorState {
                map: old(self)@.map.insert(cell, Some(e)),
                ..old(self)@
            }),
    {
        self.map.insert(cell, Some(e));
    }

    /// Whether the planets still lack impostors.
    pub fn lacks_planets(&self) -> (r: bool)
        ensures
            r == (self@.planets.len() == 0),
    {
        self.planets.len() == 0
    }

    /// Note the next planet's impostor.
    pub fn add_planet(&mut self, e: E)
        ensures
            final(self)@ == (ImpostorState { planets: old(self)@.planets.push(e), ..old(self)@ }),
    {
        self.planets.push(e);
    }

    /// Whether a planet was already taken, by its key.
    pub fn planet_taken(&self, key: IVec3) -> (r: bool)
        ensures
            r == self@.eaten_planets.contains(key),
    {
        self.eaten_planets.contains(key)
    }

    /// Mark a planet as taken the first time it is seen to be. Tells whether
    /// this was that time.
    pub fn take_planet<H: Copy, O: Copy, G: Copy>(
        &mut self,
        world: &VoxelWorld<H, O, G>,
        key: IVec3,
    ) -> (now: bool)
        ensures
            now == (!old(self)@.eaten_planets.contains(key) && taken(world@, key)),
            final(self)@ == if now {
                ImpostorState {
                    eaten_planets: old(self)@.eaten_planets.insert(key),
                    ..old(self)@
                }
            } else {
                old(self)@
            },
    {
        let ghost before = self@;
        if self.eaten_planets.contains(key) || !world.is_eaten(key) {
            return false;
        }
        self.eaten_planets.insert(key, ());
        assert(self@ =~= ImpostorState {
            eaten_planets: before.eaten_planets.insert(key),
            ..before
        });
        true
    }

    /// A frame of a planet's impostor. `tidal` is whether it is deep in the
    /// hole's tides, `shed_due` whether it is time to shed matter there,
    /// `bent` whether it is out of shape.
    pub fn planet_consume<H: Copy, O: Copy, G: Copy>(
        &mut self,
        world: &VoxelWorld<H, O, G>,
        key: IVec3,
        tidal: bool,
        shed_due: bool,
        bent: bool,
    ) -> (fate: PlanetFate)
        ensures
            fate == if old(self)@.eaten_planets.contains(key) {
                PlanetFate::Gone
            } else if taken(world@, key) {
                PlanetFate::Taken
            } else if tidal {
                PlanetFate::Torn { shed: shed_due }
            } else if bent {
                PlanetFate::Mended
            } else {
                PlanetFate::Whole
            },
            final(self)@ == if fate is Taken {
                ImpostorState {
                    eaten_planets: old(self)@.eaten_planets.insert(key),
                    ..old(self)@
                }
            } else {
                old(self)@
            },
    {
        if self.planet_taken(key) {
            PlanetFate::Gone
        } else if self.take_planet(world, key) {
            PlanetFate::Taken
        } else if tidal {
            PlanetFate::Torn { shed: shed_due }
        } else if bent {
            PlanetFate::Mended
        } else {
            PlanetFate::Whole
        }
    }

    /// Day reset: every impostor leaves the scene, and nothing is remembered.
    /// Built impostors of rocks and of planets are handed back.
    pub fn despawn_all(&mut self) -> (r: (Vec<Retired<E>>, Vec<E>))
        ensures
            lists_built(old(self)@.map, r.0@),
            forall|c: IVec3| #[trigger]
                retired_cells(r.0@).contains(c) <==> built(old(self)@.map, c),
            r.1@ == old(self)@.planets,
            forall|c: IVec3| #[trigger]
                old(self)@.map.contains_key(c) && old(self)@.map[c] is Some ==> exists|i: int|
                    0 <= i < r.0.len() && (#[trigger] r.0@[i]).cell == c && Some(r.0@[i].entity)
                        == old(self)@.map[c],
            forall|i: int|
                0 <= i < r.0.len() ==> old(self)@.map.contains_key((#[trigger] r.0@[i]).cell)
                    && old(self)@.map[r.0@[i].cell] == Some(r.0@[i].entity),
            final(self)@ == (ImpostorState::<E> {
                map: Map::empty(),
                queue: Seq::empty(),
                eaten: Set::empty(),
                planets: Seq::empty(),
                eaten_planets: Set::empty(),
            }),
    {
        let ghost before = self@;
        let ks = self.map.keys();
        let mut gone: Vec<Retired<E>> = Vec::new();
        let mut i: usize = 0;
        assert(retired_cells(gone@) =~= Set::empty());
        while i < ks.len()
            invariant
                i <= ks.len(),
                self@ == before,
                ks@.no_duplicates(),
                forall|k: IVec3| #[trigger] ks@.contains(k) <==> before.map.contains_key(k),
                lists_built(before.map, gone@),
                forall|c: IVec3| #[trigger]
                    retired_cells(gone@).contains(c) <==> built(before.map, c) && ks@.take(
                        i as int,
                    ).contains(c),
            decreases ks.len() - i,
        {
            let c = ks[i];
            assert(ks@.contains(ks@[i as int]));
            let ghost earlier = gone@;
            proof {
                lemma_take_push(ks@, i as int);
            }
            let entity: Option<E> = match self.map.get(c) {
                Some(e) => *e,
                None => None,
            };
            if let Some(entity) = entity {
                let g = Retired { cell: c, entity };
                gone.push(g);
                proof {
                    lemma_retired_push(earlier, g);
                    lemma_lists_push(before.map, earlier, g);
                }
            }
            i += 1;
        }
        assert(ks@.take(ks@.len() as int) =~= ks@);
        let mut planets: Vec<E> = Vec::new();
        planets.append(&mut self.planets);
        self.map.clear();
        self.queue.clear();
        self.eaten.clear();
        self.eaten_planets.clear();
        assert(planets@ =~= before.planets);
        proof {
            assert forall|c: IVec3| #[trigger] before.map.contains_key(c) && before.map[c]
                is Some implies exists|i: int|
                0 <= i < gone@.len() && (#[trigger] gone@[i]).cell == c && Some(gone@[i].entity)
                    == before.map[c] by {
                assert(built(before.map, c));
                assert(retired_cells(gone@).contains(c));
                let i = choose|i: int| 0 <= i < gone@.len() && (#[trigger] gone@[i]).cell == c;
                assert(before.map[gone@[i].cell] == Some(gone@[i].entity));
            }
        }
        assert(self@.eaten =~= Set::empty());
        assert(self@.eaten_planets =~= Set::empty());
        (gone, planets)
    }
}

/// A rock that the hole has taken is not put in line again, whatever discovery
/// sees at its place.
pub proof fn law_taken_rocks_are_not_rebuilt<H, O, G, E, N: Fn(IVec3) -> bool>(
    s: ImpostorState<E>,
    w: WorldState<H, O, G>,
    notice: N,
    cells: Seq<IVec3>,
    after: ImpostorState<E>,
    c: IVec3,
)
    requires
        discovered(s, w, notice, cells, after),
        s.eaten.contains(c) || taken(w, c),
        !s.map.contains_key(c),
    ensures
        !after.map.contains_key(c),
        after.eaten == s.eaten,
    decreases cells.len(),
{
    if cells.len() > 0 {
        let mid = choose|mid: ImpostorState<E>|
            discovered(s, w, notice, cells.drop_last(), mid) && #[trigger] looked_at(
                mid,
                w,
                notice,
                cells.last(),
                after,
            );
        law_taken_rocks_are_not_rebuilt(s, w, notice, cells.drop_last(), mid, c);
    }
}

/// Where the `k`-th shard of a dying planet starts, in units of the burst's
/// spread.
pub fn shard_offset(idx: usize, k: usize) -> (v: IVec3)
    requires
        idx * 11 + k <= usize::MAX,
    ensures
        v.x == (idx * 7 + k) % 5 - 2,
        v.y == (idx * 3 + k) % 7 - 3,
        v.z == (idx * 11 + k) % 3 - 1,
{
    IVec3::new(
        ((idx * 7 + k) % 5) as i32 - 2,
        ((idx * 3 + k) % 7) as i32 - 3,
        ((idx * 11 + k) % 3) as i32 - 1,
    )
}

/// Whether an impostor is shown: not once its rock is taken, and not so close
/// that the real chunks stand in its place.
pub fn impostor_shown(taken: bool, close: bool) -> (r: bool)
    ensures
        r == (!taken && !close),
{
    !taken && !close
}

/// Discovery overlooks no rock: every cell of the box that has no impostor, and
/// whose rock the hole has not taken, is put in line if a rock is seen there,
/// and left alone if not; all other cells stay as they were.
pub proof fn law_discovery_lines_up_every_rock<H, O, G, E, N: Fn(IVec3) -> bool>(
    s: ImpostorState<E>,
    w: WorldState<H, O, G>,
    notice: N,
    lo: IVec3,
    hi: IVec3,
    after: ImpostorState<E>,
    c: IVec3,
)
    requires
        discovered_box(s, w, notice, lo, hi, after),
    ensures
        ({
            let open = lo.x <= c.x <= hi.x && lo.y <= c.y <= hi.y && lo.z <= c.z <= hi.z
                && !s.map.contains_key(c) && !s.eaten.contains(c) && !(w.motion.contains_key(c)
                && w.motion[c].eaten);
            &&& open ==> exists|rock: bool| #[trigger]
                notice.ensures((c,), rock) && if rock {
                    after.map.get(c) == Some(None::<E>) && after.queue.contains(c)
                } else {
                    !after.map.contains_key(c)
                }
            &&& !open ==> after.map.get(c) == s.map.get(c)
            &&& s.queue.contains(c) ==> after.queue.contains(c)
            &&& after.queue.contains(c) ==> s.queue.contains(c) || after.map.get(c) == Some(
                None::<E>,
            )
            &&& after.eaten == s.eaten
            &&& after.planets == s.planets
            &&& after.eaten_planets == s.eaten_planets
        }),
{
    let cells = choose|cells: Seq<IVec3>| #[trigger]
        lists_box(cells, lo, hi) && discovered(s, w, notice, cells, after);
    crate::cells::law_listing_holds_the_box(cells, lo, hi, c, 0, 0);
    assert forall|i: int, j: int| 0 <= i < j < cells.len() implies cells[i] != cells[j] by {
        crate::cells::law_listing_holds_the_box(cells, lo, hi, c, i, j);
    }
    assert(cells.no_duplicates());
    lemma_discovered(s, w, notice, cells, after, c);
}

proof fn lemma_discovered<H, O, G, E, N: Fn(IVec3) -> bool>(
    s: ImpostorState<E>,
    w: WorldState<H, O, G>,
    notice: N,
    cells: Seq<IVec3>,
    after: ImpostorState<E>,
    c: IVec3,
)
    requires
        cells.no_duplicates(),
        discovered(s, w, notice, cells, after),
    ensures
        cells.contains(c) && open_cell(s, w, c) ==> exists|rock: bool| #[trigger]
            notice.ensures((c,), rock) && if rock {
                after.map.get(c) == Some(None::<E>) && after.queue.contains(c)
            } else {
                !after.map.contains_key(c)
            },
        !(cells.contains(c) && open_cell(s, w, c)) ==> after.map.get(c) == s.map.get(c),
        s.queue.contains(c) ==> after.queue.contains(c),
        after.queue.contains(c) ==> s.queue.contains(c) || after.map.get(c) == Some(None::<E>),
        after.eaten == s.eaten,
        after.planets == s.planets,
        after.eaten_planets == s.eaten_planets,
    decreases cells.len(),
{
    if cells.len() > 0 {
        let head = cells.drop_last();
        let last = cells.last();
        let mid = choose|mid: ImpostorState<E>|
            discovered(s, w, notice, head, mid) && #[trigger] looked_at(
                mid,
                w,
                notice,
                last,
                after,
            );
        assert(head.no_duplicates());
        lemma_discovered(s, w, notice, head, mid, c);
        assert(cells[cells.len() - 1] == last);
        if head.contains(c) {
            let i = head.index_of(c);
            assert(cells[i] == c);
            assert(cells[i] != cells[cells.len() - 1]);
        }
        if cells.contains(c) && c != last {
            assert(head[cells.index_of(c)] == c);
        }
        if mid.queue.contains(c) {
            let i = mid.queue.index_of(c);
            assert(mid.queue.push(last)[i] == c);
        }
        assert(mid.queue.push(last)[mid.queue.len() as int] == last);
        if mid.queue.push(last).contains(c) && c != last {
            let i = mid.queue.push(last).index_of(c);
            assert(mid.queue[i] == c);
        }
        if c == last && open_cell(s, w, c) {
            assert(mid.map.get(c) == s.map.get(c));
            assert(!mid.map.contains_key(c));
            assert(open_cell(mid, w, c));
            let rock = choose|rock: bool| #[trigger]
                notice.ensures((c,), rock) && after == if rock {
                    enqueued(mid, c)
                } else {
                    mid
                };
            assert(notice.ensures((c,), rock));
        }
        if c == last && !open_cell(s, w, c) {
            assert(mid.map.get(c) == s.map.get(c));
            assert(!open_cell(mid, w, c));
        }
        if c != last && head.contains(c) && open_cell(s, w, c) {
            let rock = choose|rock: bool| #[trigger]
                notice.ensures((c,), rock) && if rock {
                    mid.map.get(c) == Some(None::<E>) && mid.queue.contains(c)
                } else {
                    !mid.map.contains_key(c)
                };
            assert(notice.ensures((c,), rock));
            assert(after.map.get(c) == mid.map.get(c));
        }
    }
}

/// Freeing what the hole took takes exactly that: the built impostors of eaten
/// bodies leave, with their entities, and their cells are remembered; all others
/// stay.
pub proof fn law_freeing_takes_the_eaten<H, O, G, E>(
    s: ImpostorState<E>,
    w: WorldState<H, O, G>,
    gone: Seq<Retired<E>>,
    after: ImpostorState<E>,
    c: IVec3,
)
    requires
        freed(s, w, gone, after),
    ensures
        ({
            let dead = s.map.contains_key(c) && s.map[c] is Some && w.motion.contains_key(c)
                && w.motion[c].eaten;
            &&& dead ==> !after.map.contains_key(c) && exists|i: int|
                0 <= i < gone.len() && (#[trigger] gone[i]).cell == c && s.map[c] == Some(
                    gone[i].entity,
                )
            &&& !dead ==> after.map.get(c) == s.map.get(c) && forall|i: int|
                0 <= i < gone.len() ==> (#[trigger] gone[i]).cell != c
            &&& after.eaten.contains(c) <==> s.eaten.contains(c) || dead
            &&& after.queue == s.queue
            &&& after.planets == s.planets
        }),
{
    assert(retired_cells(gone).contains(c) <==> built(s.map, c) && taken(w, c));
}

/// Thinning takes exactly the impostors that are far: they leave, with their
/// entities; near ones stay, and so does everything that waits.
pub proof fn law_thinning_takes_the_far<E, F: Fn(IVec3) -> bool>(
    s: ImpostorState<E>,
    far: F,
    gone: Seq<Retired<E>>,
    after: ImpostorState<E>,
    c: IVec3,
)
    requires
        thinned(s, far, gone, after),
    ensures
        s.map.contains_key(c) && s.map[c] is Some ==> exists|is_far: bool| #[trigger]
            far.ensures((c,), is_far) && if is_far {
                !after.map.contains_key(c) && exists|i: int|
                    0 <= i < gone.len() && (#[trigger] gone[i]).cell == c && s.map[c] == Some(
                        gone[i].entity,
                    )
            } else {
                after.map.get(c) == s.map.get(c)
            },
        !(s.map.contains_key(c) && s.map[c] is Some) ==> after.map.get(c) == s.map.get(c),
        after.queue == s.queue,
        after.eaten == s.eaten,
        after.planets == s.planets,
{
    if s.map.contains_key(c) && s.map[c] is Some {
        assert(built(s.map, c));
        assert(far.ensures((c,), retired_cells(gone).contains(c)));
    } else if retired_cells(gone).contains(c) {
        let i = choose|i: int| 0 <= i < gone.len() && (#[trigger] gone[i]).cell == c;
        assert(s.map.contains_key(gone[i].cell));
    }
}

/// Sorting keeps everything that waits, and nothing else; of two places in line
/// the later one is no farther, so the nearest rock is built next.
pub proof fn law_sorting_puts_the_nearest_next<R: Fn(IVec3) -> u64>(
    queue: Seq<IVec3>,
    rank: R,
    after: Seq<IVec3>,
    c: IVec3,
    i: int,
    j: int,
    x: u64,
    y: u64,
)
    requires
        queue_sorted(queue, rank, after),
        forall|c: IVec3, x: u64, y: u64| #[trigger]
            rank.ensures((c,), x) && #[trigger] rank.ensures((c,), y) ==> x == y,
    ensures
        after.len() == queue.len(),
        after.contains(c) <==> queue.contains(c),
        0 <= i < j < after.len() && rank.ensures((after[i],), x) && rank.ensures((after[j],), y)
            ==> x >= y,
{
    let (ranks, order) = choose|ranks: Seq<u64>, order: Seq<int>|
        {
            &&& ranks.len() == queue.len()
            &&& forall|i: int|
                0 <= i < queue.len() ==> rank.ensures((queue[i],), #[trigger] ranks[i])
            &&& #[trigger] farthest_first(ranks, order, queue.len() as int)
            &&& after == Seq::new(queue.len(), |i: int| queue[order[i]])
        };
    let n = queue.len() as int;
    if 0 <= i < j < after.len() && rank.ensures((after[i],), x) && rank.ensures((after[j],), y) {
        assert(queued_before(ranks, order[i], order[j]));
        assert(rank.ensures((queue[order[i]],), ranks[order[i]]));
        assert(rank.ensures((queue[order[j]],), ranks[order[j]]));
    }
    if after.contains(c) {
        let k = after.index_of(c);
        assert(queue[order[k]] == c);
        assert(0 <= order[k] < n);
    }
    if queue.contains(c) {
        let k = queue.index_of(c);
        assert(order.no_duplicates()) by {
            assert forall|a: int, b: int| 0 <= a < b < order.len() implies order[a] != order[b] by {
                assert(queued_before(ranks, order[a], order[b]));
            }
        }
        order.unique_seq_to_set();
        let all = vstd::set_lib::set_int_range(0, n);
        vstd::set_lib::lemma_int_range(0, n);
        assert(order.to_set().subset_of(all)) by {
            assert forall|a: int| order.to_set().contains(a) implies all.contains(a) by {
                let m = order.index_of(a);
                assert(0 <= order[m] < n);
            }
        }
        vstd::set_lib::lemma_subset_equality(order.to_set(), all);
        assert(order.to_set().contains(k));
        let m = order.index_of(k);
        assert(after[m] == c);
    }
}

/// One place in the builders' hands: the next rock in line is built, unless it
/// is no longer there, or the hole has taken it, which is then remembered. With
/// nobody in line nothing happens.
pub proof fn law_next_in_line_is_built<H, O, G, E, X: Fn(IVec3) -> bool>(
    s: ImpostorState<E>,
    cells: Seq<IVec3>,
    w: WorldState<H, O, G>,
    exists_in: X,
    after: ImpostorState<E>,
    after_cells: Seq<IVec3>,
    rock: bool,
)
    requires
        build_slot(s, cells, w, exists_in, after, after_cells),
        forall|c: IVec3, x: bool, y: bool| #[trigger]
            exists_in.ensures((c,), x) && #[trigger] exists_in.ensures((c,), y) ==> x == y,
        s.queue.len() > 0 ==> exists_in.ensures((s.queue[s.queue.len() - 1],), rock),
    ensures
        s.queue.len() == 0 ==> after == s && after_cells == cells,
        s.queue.len() > 0 ==> {
            let c = s.queue[s.queue.len() - 1];
            let dead = w.motion.contains_key(c) && w.motion[c].eaten;
            &&& after.queue == s.queue.take(s.queue.len() - 1)
            &&& after_cells == if rock && !dead {
                cells.push(c)
            } else {
                cells
            }
            &&& after.map == if rock && dead {
                s.map.remove(c)
            } else {
                s.map
            }
            &&& after.eaten == if rock && dead {
                s.eaten.insert(c)
            } else {
                s.eaten
            }
        },
{
    if s.queue.len() > 0 {
        assert(s.queue.drop_last() =~= s.queue.take(s.queue.len() - 1));
    }
}

/// A frame works off the end of the line, and no more than its budget: what it
/// does not reach stays in line, and of what it reaches it builds every rock that
/// is there and not taken.
pub proof fn law_builders_work_off_the_line<H, O, G, E, X: Fn(IVec3) -> bool>(
    s: ImpostorState<E>,
    w: WorldState<H, O, G>,
    exists_in: X,
    n: nat,
    after: ImpostorState<E>,
    cells: Seq<IVec3>,
    i: int,
)
    requires
        build_slots(s, w, exists_in, n, after, cells),
        forall|c: IVec3, x: bool, y: bool| #[trigger]
            exists_in.ensures((c,), x) && #[trigger] exists_in.ensures((c,), y) ==> x == y,
    ensures
        after.queue == s.queue.take(
            if s.queue.len() <= n {
                0
            } else {
                s.queue.len() - n
            },
        ),
        cells.len() <= n,
        s.queue.len() - n <= i < s.queue.len() && 0 <= i ==> exists|rock: bool| #[trigger]
            exists_in.ensures((s.queue[i],), rock) && (rock && !(w.motion.contains_key(s.queue[i])
                && w.motion[s.queue[i]].eaten) ==> cells.contains(s.queue[i])),
    decreases n,
{
    if n == 0 {
        assert(s.queue.take(s.queue.len() as int) =~= s.queue);
    } else {
        let (mid, chosen) = choose|mid: ImpostorState<E>, chosen: Seq<IVec3>|
            build_slots(s, w, exists_in, (n - 1) as nat, mid, chosen) && #[trigger] build_slot(
                mid,
                chosen,
                w,
                exists_in,
                after,
                cells,
            );
        law_builders_work_off_the_line(s, w, exists_in, (n - 1) as nat, mid, chosen, i);
        if mid.queue.len() == 0 {
            assert(after.queue =~= s.queue.take(0));
        } else {
            let c = mid.queue.last();
            let rock = choose|rock: bool| #[trigger]
                exists_in.ensures((c,), rock) && if !rock {
                    cells == chosen
                } else if taken(w, c) {
                    cells == chosen
                } else {
                    cells == chosen.push(c)
                };
            assert(after.queue =~= s.queue.take(s.queue.len() - n));
            assert(c == s.queue[s.queue.len() - n]);
            if i == s.queue.len() - n {
                assert(exists_in.ensures((s.queue[i],), rock));
                if rock && !taken(w, c) {
                    assert(cells[chosen.len() as int] == c);
                }
            }
        }
        if s.queue.len() - n < i < s.queue.len() && 0 <= i {
            let rock = choose|rock: bool| #[trigger]
                exists_in.ensures((s.queue[i],), rock) && (rock && !(w.motion.contains_key(
                    s.queue[i],
                ) && w.motion[s.queue[i]].eaten) ==> chosen.contains(s.queue[i]));
            assert(exists_in.ensures((s.queue[i],), rock));
            if chosen.contains(s.queue[i]) {
                assert(cells[chosen.index_of(s.queue[i])] == s.queue[i]);
            }
        }
    }
}

/// A body is taken once it is tracked and eaten, and not before.
pub proof fn law_taken_means_eaten<H, O, G>(w: WorldState<H, O, G>, key: IVec3)
    ensures
        taken(w, key) <==> w.motion.contains_key(key) && w.motion[key].eaten,
{
}

/// A sweep leaves the table in order: of the built impostors those of eaten
/// bodies are gone for the day and those that are far are gone, and all others
/// stay; a rock that comes into range without one is put in line.
pub proof fn law_sweep_keeps_the_table_in_order<
    H,
    O,
    G,
    E,
    N: Fn(IVec3) -> bool,
    R: Fn(IVec3) -> u64,
    F: Fn(IVec3) -> bool,
>(
    s: ImpostorState<E>,
    w: WorldState<H, O, G>,
    lo: IVec3,
    hi: IVec3,
    notice: N,
    rank: R,
    far: F,
    after: ImpostorState<E>,
    gone: Seq<Retired<E>>,
    c: IVec3,
    is_far: bool,
    rock: bool,
)
    requires
        swept_field(s, w, lo, hi, notice, rank, far, after, gone),
        forall|c: IVec3, x: bool, y: bool| #[trigger]
            far.ensures((c,), x) && #[trigger] far.ensures((c,), y) ==> x == y,
        forall|c: IVec3, x: bool, y: bool| #[trigger]
            notice.ensures((c,), x) && #[trigger] notice.ensures((c,), y) ==> x == y,
        far.ensures((c,), is_far),
        notice.ensures((c,), rock),
    ensures
        ({
            let dead = w.motion.contains_key(c) && w.motion[c].eaten;
            let built = s.map.contains_key(c) && s.map[c] is Some;
            let inside = lo.x <= c.x <= hi.x && lo.y <= c.y <= hi.y && lo.z <= c.z <= hi.z;
            &&& built && (dead || is_far) ==> !after.map.contains_key(c)
            &&& built && !dead && !is_far ==> after.map.get(c) == s.map.get(c)
            &&& built && dead ==> after.eaten.contains(c)
            &&& inside && !s.map.contains_key(c) && !s.eaten.contains(c) && !dead && rock
                ==> after.map.get(c) == Some(None::<E>)
            &&& s.map.contains_key(c) && s.map[c] is None ==> after.map.get(c) == s.map.get(c)
            &&& !s.map.contains_key(c) && !(inside && !s.eaten.contains(c) && !dead && rock)
                ==> !after.map.contains_key(c)
            &&& s.eaten.contains(c) ==> after.eaten.contains(c)
            &&& after.planets == s.planets
            &&& after.eaten_planets == s.eaten_planets
        }),
{
    let (found, fed, eaten, queue, left) = choose|
        found: ImpostorState<E>,
        fed: ImpostorState<E>,
        eaten: Seq<Retired<E>>,
        queue: Seq<IVec3>,
        left: Seq<Retired<E>>,
    |
        {
            &&& discovered_box(s, w, notice, lo, hi, found)
            &&& #[trigger] freed(found, w, eaten, fed)
            &&& #[trigger] queue_sorted(fed.queue, rank, queue)
            &&& #[trigger] thinned(ImpostorState { queue, ..fed }, far, left, after)
            &&& gone == eaten + left
        };
    law_discovery_lines_up_every_rock(s, w, notice, lo, hi, found, c);
    law_freeing_takes_the_eaten(found, w, eaten, fed, c);
    law_thinning_takes_the_far(ImpostorState { queue, ..fed }, far, left, after, c);
    assert(found.map.get(c) == s.map.get(c) || found.map.get(c) == Some(None::<E>));
}

} // verus!
