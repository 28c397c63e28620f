//! The list of bodies within interaction range.
//!
//! Candidates are every tracked body that has not been swallowed, the field
//! cells around the player that nothing tracks yet, and the planets that
//! nothing tracks yet. A caller-supplied judge knows where bodies are: it
//! turns a candidate into its description and gen-space box, or turns it away
//! (no such body, or out of range).
use crate::body::{planet_key, planet_key_at, Asteroid, BodyMotion, NearBody, PLANET_KEY_BASE};
use crate::cells::{cell_box, lists_box};
use crate::ivec::{origin, IVec3};
use crate::motion::is_planet_key;
use crate::state::placed_once;
use crate::voxel_map::VoxelMap;
use vstd::prelude::*;

verus! {

/// A body in range: its description and gen-space box.
#[derive(Clone, Copy)]
pub struct Placed<G> {
    pub a: Asteroid<G>,
    pub vmin: IVec3,
    pub vmax: IVec3,
}

/// `s` lists the tracked bodies that have not been eaten, each once.
pub open spec fn lists_live<O>(s: Seq<IVec3>, motion: Map<IVec3, BodyMotion<O>>) -> bool {
    &&& s.no_duplicates()
    &&& forall|k: IVec3| #[trigger]
        s.contains(k) <==> motion.contains_key(k) && !motion[k].eaten
}

/// Keys of the first `n` planets.
pub open spec fn planet_keys(n: nat) -> Seq<IVec3> {
    Seq::new(n, |i: int| planet_key_at(i))
}

/// The keys of `s` that nothing tracks.
pub open spec fn untracked<O>(s: Seq<IVec3>, motion: Map<IVec3, BodyMotion<O>>) -> Seq<IVec3> {
    s.filter(|k: IVec3| !motion.contains_key(k))
}

/// Smooth offset of a tracked body.
pub open spec fn smooth_offset<O>(motion: Map<IVec3, BodyMotion<O>>, k: IVec3) -> Option<O> {
    if motion.contains_key(k) {
        Some(motion[k].offset)
    } else {
        None
    }
}

/// Whole-voxel offset of a body, zero while nothing tracks it.
pub open spec fn voxel_offset<O>(motion: Map<IVec3, BodyMotion<O>>, k: IVec3) -> IVec3 {
    if motion.contains_key(k) {
        motion[k].off_vox
    } else {
        origin()
    }
}

/// Every candidate, in the order they are judged: the live tracked bodies,
/// the cells that nothing tracks, the planets that nothing tracks.
pub open spec fn candidates_of<O>(
    motion: Map<IVec3, BodyMotion<O>>,
    live: Seq<IVec3>,
    cells: Seq<IVec3>,
    planets: nat,
) -> Seq<IVec3> {
    live + untracked(cells, motion) + untracked(planet_keys(planets), motion)
}

/// The list entry of a candidate that was let in.
pub open spec fn entry<O, G>(
    motion: Map<IVec3, BodyMotion<O>>,
    k: IVec3,
    p: Placed<G>,
) -> NearBody<G> {
    NearBody { key: k, a: p.a, off_vox: voxel_offset(motion, k), vmin: p.vmin, vmax: p.vmax }
}

/// The entries of the candidates that were let in, in order.
pub open spec fn entries<O, G>(
    motion: Map<IVec3, BodyMotion<O>>,
    candidates: Seq<IVec3>,
    verdicts: Seq<Option<Placed<G>>>,
) -> Seq<NearBody<G>>
    decreases candidates.len(),
{
    if candidates.len() == 0 {
        Seq::empty()
    } else {
        let rest = entries(motion, candidates.drop_last(), verdicts.drop_last());
        match verdicts.last() {
            Some(p) => rest.push(entry(motion, candidates.last(), p)),
            None => rest,
        }
    }
}

/// The judge's verdict on each candidate.
pub open spec fn judged<O, G, F: Fn(IVec3, Option<O>) -> Option<Placed<G>>>(
    motion: Map<IVec3, BodyMotion<O>>,
    judge: F,
    candidates: Seq<IVec3>,
    verdicts: Seq<Option<Placed<G>>>,
) -> bool {
    &&& verdicts.len() == candidates.len()
    &&& forall|i: int|
        0 <= i < candidates.len() ==> judge.ensures(
            (candidates[i], smooth_offset(motion, candidates[i])),
            #[trigger] verdicts[i],
        )
}

/// `near` is a correct list of the bodies in range: some order of the live
/// tracked bodies, then the untracked cells of the box in listing order, then
/// the untracked planets, each as the judge saw it.
pub open spec fn refreshed<O, G, F: Fn(IVec3, Option<O>) -> Option<Placed<G>>>(
    motion: Map<IVec3, BodyMotion<O>>,
    lo: IVec3,
    hi: IVec3,
    planets: nat,
    judge: F,
    near: Seq<NearBody<G>>,
) -> bool {
    exists|live: Seq<IVec3>, cells: Seq<IVec3>, verdicts: Seq<Option<Placed<G>>>|
        {
            &&& lists_live(live, motion)
            &&& lists_box(cells, lo, hi)
            &&& #[trigger] judged(
                motion,
                judge,
                candidates_of(motion, live, cells, planets),
                verdicts,
            )
            &&& near == entries(motion, candidates_of(motion, live, cells, planets), verdicts)
        }
}

fn live_keys<O: Copy>(motion: &VoxelMap<BodyMotion<O>>) -> (live: Vec<IVec3>)
    ensures
        lists_live(live@, motion@),
{
    let ks = motion.keys();
    let mut live: Vec<IVec3> = Vec::new();
    let mut i: usize = 0;
    while i < ks.len()
        invariant
            i <= ks.len(),
            ks@.no_duplicates(),
            forall|k: IVec3| #[trigger] ks@.contains(k) <==> motion@.contains_key(k),
            live@ == ks@.take(i as int).filter(|k: IVec3| !motion@[k].eaten),
        decreases ks.len() - i,
    {
        let k = ks[i];
        assert(ks@.contains(ks@[i as int]));
        assert(ks@.take(i + 1) =~= ks@.take(i as int).push(k));
        proof {
            ks@.take(i as int).lemma_filter_push(k, |k: IVec3| !motion@[k].eaten);
        }
        if let Some(m) = motion.get(k) {
            if !m.eaten {
                live.push(k);
            }
        }
        i += 1;
    }
    assert(ks@.take(ks@.len() as int) =~= ks@);
    proof {
        let alive = |k: IVec3| !motion@[k].eaten;
        lemma_filter_keeps_distinct(ks@, alive);
        assert forall|k: IVec3| #[trigger]
            live@.contains(k) <==> motion@.contains_key(k) && !motion@[k].eaten by {
            lemma_filter_members(ks@, alive, k);
        }
    }
    live
}

fn skip_tracked<O: Copy>(s: &Vec<IVec3>, motion: &VoxelMap<BodyMotion<O>>) -> (r: Vec<IVec3>)
    ensures
        r@ == untracked(s@, motion@),
{
    let mut r: Vec<IVec3> = Vec::new();
    let mut i: usize = 0;
    while i < s.len()
        invariant
            i <= s.len(),
            r@ == untracked(s@.take(i as int), motion@),
        decreases s.len() - i,
    {
        let k = s[i];
        assert(s@.take(i + 1) =~= s@.take(i as int).push(k));
        proof {
            s@.take(i as int).lemma_filter_push(k, |k: IVec3| !motion@.contains_key(k));
        }
        if !motion.contains(k) {
            r.push(k);
        }
        i += 1;
    }
    assert(s@.take(s@.len() as int) =~= s@);
    r
}

/// The bodies in range: every candidate that the judge lets in.
pub fn nearby_list<O: Copy, G: Copy, F: Fn(IVec3, Option<O>) -> Option<Placed<G>>>(
    motion: &VoxelMap<BodyMotion<O>>,
    lo: IVec3,
    hi: IVec3,
    planets: usize,
    judge: &F,
) -> (near: Vec<NearBody<G>>)
    requires
        PLANET_KEY_BASE + planets <= i32::MAX,
        forall|k: IVec3, o: Option<O>| #[trigger] judge.requires((k, o)),
    ensures
        refreshed(motion@, lo, hi, planets as nat, *judge, near@),
{
    let mut candidates = live_keys(motion);
    let ghost live = candidates@;
    let cells = cell_box(lo, hi);
    let mut free_cells = skip_tracked(&cells, motion);
    let mut keys: Vec<IVec3> = Vec::new();
    let mut n: usize = 0;
    while n < planets
        invariant
            n <= planets,
            PLANET_KEY_BASE + planets <= i32::MAX,
            keys@ == planet_keys(n as nat),
        decreases planets - n,
    {
        keys.push(planet_key(n));
        n += 1;
        assert(keys@ =~= planet_keys(n as nat));
    }
    let mut free_planets = skip_tracked(&keys, motion);
    candidates.append(&mut free_cells);
    candidates.append(&mut free_planets);
    let ghost all = candidates_of(motion@, live, cells@, planets as nat);
    assert(candidates@ == all);

    let mut near: Vec<NearBody<G>> = Vec::new();
    let ghost mut verdicts: Seq<Option<Placed<G>>> = Seq::empty();
    let mut i: usize = 0;
    while i < candidates.len()
        invariant
            i <= candidates.len(),
            forall|k: IVec3, o: Option<O>| #[trigger] judge.requires((k, o)),
            judged(motion@, *judge, candidates@.take(i as int), verdicts),
            near@ == entries(motion@, candidates@.take(i as int), verdicts),
        decreases candidates.len() - i,
    {
        let k = candidates[i];
        let (offset, off_vox): (Option<O>, IVec3) = match motion.get(k) {
            Some(m) => (Some(m.offset), m.off_vox),
            None => (None, IVec3::zero()),
        };
        let verdict = judge(k, offset);
        let ghost earlier = verdicts;
        proof {
            verdicts = verdicts.push(verdict);
            assert(candidates@.take(i + 1).drop_last() =~= candidates@.take(i as int));
            assert(verdicts.drop_last() =~= earlier);
            assert forall|j: int| 0 <= j < i + 1 implies judge.ensures(
                (
                    candidates@.take(i + 1)[j],
                    smooth_offset(motion@, candidates@.take(i + 1)[j]),
                ),
                #[trigger] verdicts[j],
            ) by {
                if j < i {
                    assert(earlier[j] == verdicts[j]);
                    assert(candidates@.take(i as int)[j] == candidates@.take(i + 1)[j]);
                }
            }
        }
        if let Some(p) = verdict {
            near.push(NearBody::new(k, p.a, off_vox, p.vmin, p.vmax));
        }
        i += 1;
    }
    assert(candidates@.take(candidates@.len() as int) =~= all);
    assert(lists_live(live, motion@));
    assert(lists_box(cells@, lo, hi));
    assert(judged(motion@, *judge, all, verdicts));
    near
}

proof fn lemma_filter_members<A>(s: Seq<A>, keep: spec_fn(A) -> bool, x: A)
    ensures
        s.filter(keep).contains(x) <==> s.contains(x) && keep(x),
    decreases s.len(),
{
    reveal(Seq::filter);
    if s.len() > 0 {
        let rest = s.drop_last();
        lemma_filter_members(rest, keep, x);
        if rest.contains(x) {
            assert(s[rest.index_of(x)] == x);
        }
        if s.contains(x) && s.index_of(x) < rest.len() {
            assert(rest[s.index_of(x)] == x);
        }
        assert(s[s.len() - 1] == s.last());
        let kept = rest.filter(keep);
        if kept.contains(x) {
            assert(kept.push(s.last())[kept.index_of(x)] == x);
        }
        if kept.push(s.last()).contains(x) {
            let i = kept.push(s.last()).index_of(x);
            if i < kept.len() {
                assert(kept[i] == x);
            }
        }
        assert(kept.push(s.last())[kept.len() as int] == s.last());
    }
}

proof fn lemma_filter_keeps_distinct<A>(s: Seq<A>, keep: spec_fn(A) -> bool)
    requires
        s.no_duplicates(),
    ensures
        s.filter(keep).no_duplicates(),
    decreases s.len(),
{
    reveal(Seq::filter);
    if s.len() > 0 {
        let rest = s.drop_last();
        lemma_filter_keeps_distinct(rest, keep);
        lemma_filter_members(rest, keep, s.last());
        if rest.contains(s.last()) {
            assert(s[rest.index_of(s.last())] == s[s.len() - 1]);
        }
        let kept = rest.filter(keep);
        assert forall|i: int, j: int|
            0 <= i < j < kept.push(s.last()).len() && keep(s.last()) implies kept.push(
            s.last(),
        )[i] != kept.push(s.last())[j] by {
            if j == kept.len() {
                assert(kept.contains(kept[i]));
            }
        }
    }
}

/// Every entry stems from a candidate.
proof fn lemma_entry_source<O, G>(
    motion: Map<IVec3, BodyMotion<O>>,
    candidates: Seq<IVec3>,
    verdicts: Seq<Option<Placed<G>>>,
    i: int,
)
    requires
        verdicts.len() == candidates.len(),
        0 <= i < entries(motion, candidates, verdicts).len(),
    ensures
        candidates.contains(entries(motion, candidates, verdicts)[i].key),
    decreases candidates.len(),
{
    if candidates.len() > 0 {
        let rest = entries(motion, candidates.drop_last(), verdicts.drop_last());
        if i < rest.len() {
            lemma_entry_source(motion, candidates.drop_last(), verdicts.drop_last(), i);
            let j = candidates.drop_last().index_of(rest[i].key);
            assert(candidates[j] == rest[i].key);
        } else {
            assert(candidates[candidates.len() - 1] == candidates.last());
        }
    }
}

/// A swallowed body is never in range again: whatever the judge says, no entry
/// of the refreshed list bears its key.
pub proof fn law_eaten_bodies_are_gone<O, G, F: Fn(IVec3, Option<O>) -> Option<Placed<G>>>(
    motion: Map<IVec3, BodyMotion<O>>,
    lo: IVec3,
    hi: IVec3,
    planets: nat,
    judge: F,
    near: Seq<NearBody<G>>,
    key: IVec3,
    i: int,
)
    requires
        refreshed(motion, lo, hi, planets, judge, near),
        motion.contains_key(key) && motion[key].eaten,
        0 <= i < near.len(),
    ensures
        near[i].key != key,
{
    let (live, cells, verdicts) = choose|
        live: Seq<IVec3>,
        cells: Seq<IVec3>,
        verdicts: Seq<Option<Placed<G>>>,
    |
        {
            &&& lists_live(live, motion)
            &&& lists_box(cells, lo, hi)
            &&& #[trigger] judged(
                motion,
                judge,
                candidates_of(motion, live, cells, planets),
                verdicts,
            )
            &&& near == entries(motion, candidates_of(motion, live, cells, planets), verdicts)
        };
    let a = untracked(cells, motion);
    let b = untracked(planet_keys(planets), motion);
    lemma_entry_source(motion, live + a + b, verdicts, i);
    if near[i].key == key {
        let free = |k: IVec3| !motion.contains_key(k);
        lemma_filter_members(cells, free, key);
        lemma_filter_members(planet_keys(planets), free, key);
        let j = (live + a + b).index_of(key);
        if j < live.len() {
            assert(live[j] == key);
            assert(live.contains(key));
        } else if j < live.len() + a.len() {
            assert(a[j - live.len()] == key);
            assert(a.contains(key));
        } else {
            assert(b[j - live.len() - a.len()] == key);
            assert(b.contains(key));
        }
    }
}

/// A tracked body stands in the list at its own whole-voxel offset, and an
/// untracked one at offset zero.
pub proof fn law_near_bodies_stand_at_their_offset<
    O,
    G,
    F: Fn(IVec3, Option<O>) -> Option<Placed<G>>,
>(
    motion: Map<IVec3, BodyMotion<O>>,
    lo: IVec3,
    hi: IVec3,
    planets: nat,
    judge: F,
    near: Seq<NearBody<G>>,
    i: int,
)
    requires
        refreshed(motion, lo, hi, planets, judge, near),
        0 <= i < near.len(),
    ensures
        near[i].off_vox == voxel_offset(motion, near[i].key),
{
    let (live, cells, verdicts) = choose|
        live: Seq<IVec3>,
        cells: Seq<IVec3>,
        verdicts: Seq<Option<Placed<G>>>,
    |
        {
            &&& lists_live(live, motion)
            &&& lists_box(cells, lo, hi)
            &&& #[trigger] judged(
                motion,
                judge,
                candidates_of(motion, live, cells, planets),
                verdicts,
            )
            &&& near == entries(motion, candidates_of(motion, live, cells, planets), verdicts)
        };
    lemma_entry_offset(motion, candidates_of(motion, live, cells, planets), verdicts, i);
}

/// However often a body is listed, its entries agree on where it stands.
pub proof fn law_bodies_stand_in_one_place<O, G, F: Fn(IVec3, Option<O>) -> Option<Placed<G>>>(
    motion: Map<IVec3, BodyMotion<O>>,
    lo: IVec3,
    hi: IVec3,
    planets: nat,
    judge: F,
    near: Seq<NearBody<G>>,
)
    requires
        refreshed(motion, lo, hi, planets, judge, near),
    ensures
        placed_once(near),
{
    assert forall|i: int, j: int|
        0 <= i < near.len() && 0 <= j < near.len() && (#[trigger] near[i]).key == (
        #[trigger] near[j]).key implies near[i].off_vox == near[j].off_vox by {
        law_near_bodies_stand_at_their_offset(motion, lo, hi, planets, judge, near, i);
        law_near_bodies_stand_at_their_offset(motion, lo, hi, planets, judge, near, j);
    }
}

proof fn lemma_entry_offset<O, G>(
    motion: Map<IVec3, BodyMotion<O>>,
    candidates: Seq<IVec3>,
    verdicts: Seq<Option<Placed<G>>>,
    i: int,
)
    requires
        0 <= i < entries(motion, candidates, verdicts).len(),
    ensures
        entries(motion, candidates, verdicts)[i].off_vox == voxel_offset(
            motion,
            entries(motion, candidates, verdicts)[i].key,
        ),
    decreases candidates.len(),
{
    if candidates.len() > 0 {
        let rest = entries(motion, candidates.drop_last(), verdicts.drop_last());
        if i < rest.len() {
            lemma_entry_offset(motion, candidates.drop_last(), verdicts.drop_last(), i);
        }
    }
}

/// A body that may be in range: a live tracked one, or one that nothing tracks
/// yet in a cell of the box or among the planets.
pub open spec fn candidate<O>(
    motion: Map<IVec3, BodyMotion<O>>,
    lo: IVec3,
    hi: IVec3,
    planets: nat,
    k: IVec3,
) -> bool {
    if motion.contains_key(k) {
        !motion[k].eaten
    } else {
        k@.within(lo@, hi@) || is_planet_key(k, planets as int)
    }
}

/// The candidates are listed, all of them.
proof fn lemma_candidates<O>(
    motion: Map<IVec3, BodyMotion<O>>,
    live: Seq<IVec3>,
    cells: Seq<IVec3>,
    lo: IVec3,
    hi: IVec3,
    planets: nat,
    k: IVec3,
)
    requires
        lists_live(live, motion),
        lists_box(cells, lo, hi),
    ensures
        candidates_of(motion, live, cells, planets).contains(k) <==> candidate(
            motion,
            lo,
            hi,
            planets,
            k,
        ),
{
    let free = |k: IVec3| !motion.contains_key(k);
    let a = untracked(cells, motion);
    let b = untracked(planet_keys(planets), motion);
    let all = live + a + b;
    lemma_filter_members(cells, free, k);
    lemma_filter_members(planet_keys(planets), free, k);
    assert(planet_keys(planets).contains(k) <==> is_planet_key(k, planets as int)) by {
        if planet_keys(planets).contains(k) {
            let i = planet_keys(planets).index_of(k);
            assert(k == planet_key_at(i));
        }
        if is_planet_key(k, planets as int) {
            let i = choose|i: int| 0 <= i < planets && k == #[trigger] planet_key_at(i);
            assert(planet_keys(planets)[i] == k);
        }
    }
    if all.contains(k) {
        let j = all.index_of(k);
        if j < live.len() {
            assert(live[j] == k);
            assert(live.contains(k));
        } else if j < live.len() + a.len() {
            assert(a[j - live.len()] == k);
            assert(a.contains(k));
        } else {
            assert(b[j - live.len() - a.len()] == k);
            assert(b.contains(k));
        }
    }
    if live.contains(k) {
        assert(all[live.index_of(k)] == k);
    }
    if a.contains(k) {
        assert(all[live.len() + a.index_of(k)] == k);
    }
    if b.contains(k) {
        assert(all[live.len() + a.len() + b.index_of(k)] == k);
    }
}

/// The candidates are listed once each.
proof fn lemma_candidates_once<O>(
    motion: Map<IVec3, BodyMotion<O>>,
    live: Seq<IVec3>,
    cells: Seq<IVec3>,
    lo: IVec3,
    hi: IVec3,
    planets: nat,
)
    requires
        lists_live(live, motion),
        lists_box(cells, lo, hi),
        hi.x < PLANET_KEY_BASE,
        PLANET_KEY_BASE + planets <= i32::MAX,
    ensures
        candidates_of(motion, live, cells, planets).no_duplicates(),
{
    let free = |k: IVec3| !motion.contains_key(k);
    let a = untracked(cells, motion);
    let b = untracked(planet_keys(planets), motion);
    let all = live + a + b;
    assert(cells.no_duplicates()) by {
        assert forall|i: int, j: int| 0 <= i < j < cells.len() implies cells[i] != cells[j] by {
            assert(crate::cells::listed_before(cells[i], cells[j]));
        }
    }
    assert(planet_keys(planets).no_duplicates());
    lemma_filter_keeps_distinct(cells, free);
    lemma_filter_keeps_distinct(planet_keys(planets), free);
    assert forall|i: int, j: int| 0 <= i < j < all.len() implies all[i] != all[j] by {
        let k = all[j];
        lemma_filter_members(cells, free, k);
        lemma_filter_members(planet_keys(planets), free, k);
        lemma_filter_members(cells, free, all[i]);
        if j < live.len() {
            assert(live[i] != live[j]);
        } else if j < live.len() + a.len() {
            assert(a[j - live.len()] == k);
            assert(a.contains(k));
            if i < live.len() {
                assert(live.contains(live[i]));
            } else {
                assert(a[i - live.len()] != a[j - live.len()]);
            }
        } else {
            let n = j - live.len() - a.len();
            assert(b[n] == k);
            assert(b.contains(k));
            if i < live.len() {
                assert(live.contains(live[i]));
            } else if i < live.len() + a.len() {
                assert(a[i - live.len()] == all[i]);
                assert(a.contains(all[i]));
                assert(cells.contains(all[i]));
                assert(all[i]@.within(lo@, hi@));
                let m = planet_keys(planets).index_of(k);
                assert(k == planet_key_at(m));
            } else {
                assert(b[i - live.len() - a.len()] != b[n]);
            }
        }
    }
}

/// The entry of every candidate that was let in is there, and no other.
proof fn lemma_entries<O, G>(
    motion: Map<IVec3, BodyMotion<O>>,
    candidates: Seq<IVec3>,
    verdicts: Seq<Option<Placed<G>>>,
    nb: NearBody<G>,
)
    requires
        verdicts.len() == candidates.len(),
    ensures
        entries(motion, candidates, verdicts).contains(nb) <==> exists|i: int|
            0 <= i < candidates.len() && (#[trigger] verdicts[i]) is Some && nb == entry(
                motion,
                candidates[i],
                verdicts[i]->0,
            ),
    decreases candidates.len(),
{
    if candidates.len() > 0 {
        let c = candidates.drop_last();
        let v = verdicts.drop_last();
        let rest = entries(motion, c, v);
        let all = entries(motion, candidates, verdicts);
        let last = candidates.len() - 1;
        lemma_entries(motion, c, v, nb);
        assert forall|i: int| 0 <= i < last implies #[trigger] v[i] == verdicts[i] && c[i]
            == candidates[i] by {}
        if rest.contains(nb) {
            assert(all[rest.index_of(nb)] == nb);
            let i = choose|i: int|
                0 <= i < c.len() && (#[trigger] v[i]) is Some && nb == entry(motion, c[i], v[i]->0);
            assert(verdicts[i] is Some);
        }
        if verdicts[last] is Some && nb == entry(motion, candidates[last], verdicts[last]->0) {
            assert(all[rest.len() as int] == nb);
        }
        if exists|i: int|
            0 <= i < candidates.len() && (#[trigger] verdicts[i]) is Some && nb == entry(
                motion,
                candidates[i],
                verdicts[i]->0,
            ) {
            let i = choose|i: int|
                0 <= i < candidates.len() && (#[trigger] verdicts[i]) is Some && nb == entry(
                    motion,
                    candidates[i],
                    verdicts[i]->0,
                );
            if i < last {
                assert(v[i] is Some);
            }
        }
        if all.contains(nb) {
            let n = all.index_of(nb);
            if n < rest.len() {
                assert(rest[n] == nb);
            } else {
                assert(verdicts[last] is Some);
            }
        }
    }
}

proof fn lemma_entries_once<O, G>(
    motion: Map<IVec3, BodyMotion<O>>,
    candidates: Seq<IVec3>,
    verdicts: Seq<Option<Placed<G>>>,
    i: int,
    j: int,
)
    requires
        verdicts.len() == candidates.len(),
        candidates.no_duplicates(),
        0 <= i < j < entries(motion, candidates, verdicts).len(),
    ensures
        entries(motion, candidates, verdicts)[i].key != entries(motion, candidates, verdicts)[j].key,
    decreases candidates.len(),
{
    if candidates.len() > 0 {
        let c = candidates.drop_last();
        let v = verdicts.drop_last();
        let rest = entries(motion, c, v);
        if j < rest.len() {
            lemma_entries_once(motion, c, v, i, j);
        } else {
            lemma_entry_source(motion, c, v, i);
            let n = c.index_of(rest[i].key);
            assert(candidates[n] == rest[i].key);
            assert(candidates[n] != candidates[candidates.len() - 1]);
        }
    }
}

/// No body is listed twice, as long as the cells of the box lie below the keys
/// of the planets.
pub proof fn law_each_body_is_listed_once<O, G, F: Fn(IVec3, Option<O>) -> Option<Placed<G>>>(
    motion: Map<IVec3, BodyMotion<O>>,
    lo: IVec3,
    hi: IVec3,
    planets: nat,
    judge: F,
    near: Seq<NearBody<G>>,
    i: int,
    j: int,
)
    requires
        refreshed(motion, lo, hi, planets, judge, near),
        hi.x < PLANET_KEY_BASE,
        PLANET_KEY_BASE + planets <= i32::MAX,
        0 <= i < j < near.len(),
    ensures
        near[i].key != near[j].key,
{
    let (live, cells, verdicts) = choose|
        live: Seq<IVec3>,
        cells: Seq<IVec3>,
        verdicts: Seq<Option<Placed<G>>>,
    |
        {
            &&& lists_live(live, motion)
            &&& lists_box(cells, lo, hi)
            &&& #[trigger] judged(
                motion,
                judge,
                candidates_of(motion, live, cells, planets),
                verdicts,
            )
            &&& near == entries(motion, candidates_of(motion, live, cells, planets), verdicts)
        };
    lemma_candidates_once(motion, live, cells, lo, hi, planets);
    lemma_entries_once(motion, candidates_of(motion, live, cells, planets), verdicts, i, j);
}

/// The list is complete, and holds nothing else: a body is in it exactly if it
/// is a candidate that the judge lets in, at the place and in the box that the
/// judge gives it, as long as the judge always says the same of one body.
pub proof fn law_nearby_list_is_complete<O, G, F: Fn(IVec3, Option<O>) -> Option<Placed<G>>>(
    motion: Map<IVec3, BodyMotion<O>>,
    lo: IVec3,
    hi: IVec3,
    planets: nat,
    judge: F,
    near: Seq<NearBody<G>>,
    k: IVec3,
    p: Placed<G>,
)
    requires
        refreshed(motion, lo, hi, planets, judge, near),
        forall|k: IVec3, o: Option<O>, x: Option<Placed<G>>, y: Option<Placed<G>>| #[trigger]
            judge.ensures((k, o), x) && #[trigger] judge.ensures((k, o), y) ==> x == y,
    ensures
        near.contains(entry(motion, k, p)) <==> candidate(motion, lo, hi, planets, k)
            && judge.ensures((k, smooth_offset(motion, k)), Some(p)),
{
    let (live, cells, verdicts) = choose|
        live: Seq<IVec3>,
        cells: Seq<IVec3>,
        verdicts: Seq<Option<Placed<G>>>,
    |
        {
            &&& lists_live(live, motion)
            &&& lists_box(cells, lo, hi)
            &&& #[trigger] judged(
                motion,
                judge,
                candidates_of(motion, live, cells, planets),
                verdicts,
            )
            &&& near == entries(motion, candidates_of(motion, live, cells, planets), verdicts)
        };
    let all = candidates_of(motion, live, cells, planets);
    let nb = entry(motion, k, p);
    lemma_candidates(motion, live, cells, lo, hi, planets, k);
    lemma_entries(motion, all, verdicts, nb);
    if near.contains(nb) {
        let i = choose|i: int|
            0 <= i < all.len() && (#[trigger] verdicts[i]) is Some && nb == entry(
                motion,
                all[i],
                verdicts[i]->0,
            );
        assert(all[i] == k);
        assert(all.contains(k));
        assert(verdicts[i]->0 == p);
        assert(verdicts[i] == Some(p));
    }
    if all.contains(k) && judge.ensures((k, smooth_offset(motion, k)), Some(p)) {
        let i = all.index_of(k);
        assert(judge.ensures((all[i], smooth_offset(motion, all[i])), verdicts[i]));
        assert(verdicts[i] == Some(p));
    }
}

/// Every body in range is listed, with what the judge said of it: a tracked one
/// that has not been eaten, at its own offset; a cell of the box or a planet
/// that nothing tracks, at rest. Nothing else is listed.
pub proof fn law_every_body_in_range_is_listed<
    O,
    G,
    F: Fn(IVec3, Option<O>) -> Option<Placed<G>>,
>(
    motion: Map<IVec3, BodyMotion<O>>,
    lo: IVec3,
    hi: IVec3,
    planets: nat,
    judge: F,
    near: Seq<NearBody<G>>,
    k: IVec3,
    p: Placed<G>,
)
    requires
        refreshed(motion, lo, hi, planets, judge, near),
        PLANET_KEY_BASE + planets <= i32::MAX,
        forall|k: IVec3, o: Option<O>, x: Option<Placed<G>>, y: Option<Placed<G>>| #[trigger]
            judge.ensures((k, o), x) && #[trigger] judge.ensures((k, o), y) ==> x == y,
    ensures
        motion.contains_key(k) && !motion[k].eaten ==> (near.contains(
            NearBody { key: k, a: p.a, off_vox: motion[k].off_vox, vmin: p.vmin, vmax: p.vmax },
        ) <==> judge.ensures((k, Some(motion[k].offset)), Some(p))),
        !motion.contains_key(k) && ((lo.x <= k.x <= hi.x && lo.y <= k.y <= hi.y && lo.z <= k.z
            <= hi.z) || (1_000_000 <= k.x < 1_000_000 + planets && k.y == 0 && k.z == 0)) ==> (
        near.contains(
            NearBody {
                key: k,
                a: p.a,
                off_vox: IVec3 { x: 0, y: 0, z: 0 },
                vmin: p.vmin,
                vmax: p.vmax,
            },
        ) <==> judge.ensures((k, None), Some(p))),
        motion.contains_key(k) && motion[k].eaten ==> forall|i: int|
            0 <= i < near.len() ==> (#[trigger] near[i]).key != k,
{
    law_nearby_list_is_complete(motion, lo, hi, planets, judge, near, k, p);
    if 1_000_000 <= k.x < 1_000_000 + planets && k.y == 0 && k.z == 0 {
        assert(k == planet_key_at(k.x - 1_000_000));
        assert(is_planet_key(k, planets as int));
    }
    if motion.contains_key(k) && motion[k].eaten {
        assert forall|i: int| 0 <= i < near.len() implies (#[trigger] near[i]).key != k by {
            law_eaten_bodies_are_gone(motion, lo, hi, planets, judge, near, k, i);
        }
    }
}

/// Whoever is listed has a reason to be: it is tracked and alive, or a cell of
/// the box, or a planet; and it stands at its tracked offset, or at rest.
pub proof fn law_listed_bodies_have_a_reason<
    O,
    G,
    F: Fn(IVec3, Option<O>) -> Option<Placed<G>>,
>(
    motion: Map<IVec3, BodyMotion<O>>,
    lo: IVec3,
    hi: IVec3,
    planets: nat,
    judge: F,
    near: Seq<NearBody<G>>,
    i: int,
)
    requires
        refreshed(motion, lo, hi, planets, judge, near),
        PLANET_KEY_BASE + planets <= i32::MAX,
        0 <= i < near.len(),
    ensures
        ({
            let nb = near[i];
            if motion.contains_key(nb.key) {
                !motion[nb.key].eaten && nb.off_vox == motion[nb.key].off_vox && judge.ensures(
                    (nb.key, Some(motion[nb.key].offset)),
                    Some(Placed { a: nb.a, vmin: nb.vmin, vmax: nb.vmax }),
                )
            } else {
                nb.off_vox.x == 0 && nb.off_vox.y == 0 && nb.off_vox.z == 0 && judge.ensures(
                    (nb.key, None),
                    Some(Placed { a: nb.a, vmin: nb.vmin, vmax: nb.vmax }),
                ) && ((lo.x <= nb.key.x <= hi.x && lo.y <= nb.key.y <= hi.y && lo.z <= nb.key.z
                    <= hi.z) || (1_000_000 <= nb.key.x < 1_000_000 + planets && nb.key.y == 0
                    && nb.key.z == 0))
            }
        }),
{
    let (live, cells, verdicts) = choose|
        live: Seq<IVec3>,
        cells: Seq<IVec3>,
        verdicts: Seq<Option<Placed<G>>>,
    |
        {
            &&& lists_live(live, motion)
            &&& lists_box(cells, lo, hi)
            &&& #[trigger] judged(
                motion,
                judge,
                candidates_of(motion, live, cells, planets),
                verdicts,
            )
            &&& near == entries(motion, candidates_of(motion, live, cells, planets), verdicts)
        };
    let all = candidates_of(motion, live, cells, planets);
    let nb = near[i];
    assert(near.contains(nb));
    lemma_entries(motion, all, verdicts, nb);
    let n = choose|n: int|
        0 <= n < all.len() && (#[trigger] verdicts[n]) is Some && nb == entry(
            motion,
            all[n],
            verdicts[n]->0,
        );
    assert(all.contains(all[n]));
    lemma_candidates(motion, live, cells, lo, hi, planets, all[n]);
    assert(verdicts[n] == Some(Placed { a: nb.a, vmin: nb.vmin, vmax: nb.vmax }));
    if !motion.contains_key(nb.key) && is_planet_key(nb.key, planets as int) {
        let m = choose|m: int| 0 <= m < planets && nb.key == #[trigger] planet_key_at(m);
        assert(nb.key.x == 1_000_000 + m);
    }
}

} // verus!
