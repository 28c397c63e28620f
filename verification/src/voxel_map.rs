//! Hash tables keyed by lattice vectors, and by (body, chunk) pairs.
use crate::ivec::{lemma_pack_unpacked, lemma_unpack_packed, packed, span, unpacked, IVec3};
use std::collections::HashMap;
use vstd::prelude::*;

verus! {

broadcast use vstd::std_specs::hash::group_hash_axioms;

/// A hash table from lattice vectors to values.
pub struct VoxelMap<V> {
    table: HashMap<u128, V>,
}

impl<V> View for VoxelMap<V> {
    type V = Map<IVec3, V>;

    closed spec fn view(&self) -> Map<IVec3, V> {
        Map::new(
            |v: IVec3| self.table@.contains_key(packed(v) as u128),
            |v: IVec3| self.table@[packed(v) as u128],
        )
    }
}

impl<V> VoxelMap<V> {
    pub fn new() -> (m: Self)
        ensures
            m@ == Map::<IVec3, V>::empty(),
    {
        let m = VoxelMap { table: HashMap::new() };
        assert(m@ =~= Map::<IVec3, V>::empty());
        m
    }

    pub fn insert(&mut self, k: IVec3, v: V)
        ensures
            final(self)@ == old(self)@.insert(k, v),
    {
        proof {
            lemma_packing();
        }
        self.table.insert(k.pack(), v);
        assert(self@ =~= old(self)@.insert(k, v));
    }

    pub fn remove(&mut self, k: IVec3) -> (r: Option<V>)
        ensures
            final(self)@ == old(self)@.remove(k),
            r == old(self)@.get(k),
    {
        proof {
            lemma_packing();
        }
        let r = self.table.remove(&k.pack());
        assert(self@ =~= old(self)@.remove(k));
        r
    }

    pub fn get(&self, k: IVec3) -> (r: Option<&V>)
        ensures
            match r {
                Some(v) => self@.contains_key(k) && *v == self@[k],
                None => !self@.contains_key(k),
            },
    {
        proof {
            lemma_packing();
        }
        self.table.get(&k.pack())
    }

    pub fn contains(&self, k: IVec3) -> (r: bool)
        ensures
            r == self@.contains_key(k),
    {
        proof {
            lemma_packing();
        }
        self.table.contains_key(&k.pack())
    }

    pub fn clear(&mut self)
        ensures
            final(self)@ == Map::<IVec3, V>::empty(),
    {
        self.table.clear();
        assert(self@ =~= Map::<IVec3, V>::empty());
    }

    /// Every key once, in no particular order.
    pub fn keys(&self) -> (ks: Vec<IVec3>)
        ensures
            ks@.no_duplicates(),
            forall|k: IVec3| #[trigger] ks@.contains(k) <==> self@.contains_key(k),
    {
        let mut raw: Vec<u128> = Vec::new();
        let found = self.table.keys();
        let ghost listed = vstd::std_specs::iter::IteratorSpec::remaining(&found);
        for n in it: found
            invariant
                it.seq() == listed,
                raw@.len() == it.index(),
                forall|i: int| 0 <= i < raw@.len() ==> raw@[i] == *#[trigger] listed[i],
        {
            raw.push(*n);
        }
        proof {
            lemma_packing();
            assert(raw@ =~= listed.unref());
            assert(raw@.to_set() == self.table@.dom());
            assert forall|k: u128| raw@.contains(k) <==> self.table@.contains_key(k) by {
                assert(raw@.to_set().contains(k) <==> raw@.contains(k));
            }
            assert(raw@.no_duplicates());
        }
        let mut ks: Vec<IVec3> = Vec::new();
        let mut i: usize = 0;
        while i < raw.len()
            invariant
                i <= raw@.len(),
                raw@.no_duplicates(),
                forall|a: IVec3| unpacked(#[trigger] packed(a)) == a,
                forall|j: int|
                    0 <= j < ks@.len() ==> raw@.take(i as int).contains(
                        packed(#[trigger] ks@[j]) as u128,
                    ) && packed(ks@[j]) < span() * span() * span(),
                forall|j: int|
                    0 <= j < i && #[trigger] raw@[j] < span() * span() * span() ==> ks@.contains(
                        unpacked(raw@[j] as int),
                    ),
                ks@.no_duplicates(),
            decreases raw.len() - i,
        {
            let k: u128 = raw[i];
            let ghost before = ks@;
            let ghost seen = raw@.take(i as int);
            assert(raw@.take(i + 1) =~= seen.push(k));
            if k < 0x1_0000_0000_0000_0000_0000_0000u128 {
                let v = IVec3::unpack(k);
                proof {
                    lemma_pack_unpacked(k as int);
                    if before.contains(v) {
                        let j = before.index_of(v);
                        assert(seen.contains(packed(before[j]) as u128));
                        let p = seen.index_of(k);
                        assert(raw@[p] == raw@[i as int]);
                        assert(false);
                    }
                }
                ks.push(v);
                assert(ks@[before.len() as int] == v);
            }
            proof {
                assert forall|j: int| 0 <= j < ks@.len() implies raw@.take(i + 1).contains(
                    packed(#[trigger] ks@[j]) as u128,
                ) by {
                    if j < before.len() {
                        let q = packed(before[j]) as u128;
                        assert(seen.contains(q));
                        let p = seen.index_of(q);
                        assert(seen.push(k)[p] == q);
                    } else {
                        assert(seen.push(k)[i as int] == k);
                    }
                }
                assert forall|j: int|
                    0 <= j < i + 1 && #[trigger] raw@[j] < span() * span() * span() implies ks@.contains(
                    unpacked(raw@[j] as int),
                ) by {
                    if j < i {
                        let v = unpacked(raw@[j] as int);
                        assert(before.contains(v));
                        let p = before.index_of(v);
                        assert(ks@[p] == v);
                    }
                }
            }
            i += 1;
        }
        proof {
            assert(raw@.take(i as int) =~= raw@);
            assert forall|k: IVec3| #[trigger] ks@.contains(k) <==> self@.contains_key(k) by {
                if ks@.contains(k) {
                    let j = ks@.index_of(k);
                    assert(raw@.contains(packed(ks@[j]) as u128));
                }
                if self@.contains_key(k) {
                    let q = packed(k) as u128;
                    assert(raw@.contains(q));
                    let p = raw@.index_of(q);
                    assert(raw@[p] < span() * span() * span());
                    assert(ks@.contains(unpacked(raw@[p] as int)));
                }
            }
        }
        ks
    }
}

/// A hash table keyed by a body and one of its chunks.
pub struct PairMap<V> {
    bodies: VoxelMap<VoxelMap<V>>,
}

impl<V> View for PairMap<V> {
    type V = Map<(IVec3, IVec3), V>;

    closed spec fn view(&self) -> Map<(IVec3, IVec3), V> {
        Map::new(
            |k: (IVec3, IVec3)|
                self.bodies@.contains_key(k.0) && self.bodies@[k.0]@.contains_key(k.1),
            |k: (IVec3, IVec3)| self.bodies@[k.0]@[k.1],
        )
    }
}

impl<V> PairMap<V> {
    pub fn new() -> (m: Self)
        ensures
            m@ == Map::<(IVec3, IVec3), V>::empty(),
    {
        let m = PairMap { bodies: VoxelMap::new() };
        assert(m@ =~= Map::<(IVec3, IVec3), V>::empty());
        m
    }

    pub fn insert(&mut self, a: IVec3, b: IVec3, v: V)
        ensures
            final(self)@ == old(self)@.insert((a, b), v),
    {
        let mut inner: VoxelMap<V> = match self.bodies.remove(a) {
            Some(m) => m,
            None => VoxelMap::new(),
        };
        inner.insert(b, v);
        self.bodies.insert(a, inner);
        assert(self@ =~= old(self)@.insert((a, b), v));
    }

    pub fn remove(&mut self, a: IVec3, b: IVec3) -> (r: Option<V>)
        ensures
            final(self)@ == old(self)@.remove((a, b)),
            r == old(self)@.get((a, b)),
    {
        match self.bodies.remove(a) {
            Some(mut inner) => {
                let r = inner.remove(b);
                self.bodies.insert(a, inner);
                assert(self@ =~= old(self)@.remove((a, b)));
                r
            },
            None => {
                assert(self@ =~= old(self)@.remove((a, b)));
                None
            },
        }
    }

    pub fn get(&self, a: IVec3, b: IVec3) -> (r: Option<&V>)
        ensures
            match r {
                Some(v) => self@.contains_key((a, b)) && *v == self@[(a, b)],
                None => !self@.contains_key((a, b)),
            },
    {
        match self.bodies.get(a) {
            Some(inner) => inner.get(b),
            None => None,
        }
    }

    pub fn contains(&self, a: IVec3, b: IVec3) -> (r: bool)
        ensures
            r == self@.contains_key((a, b)),
    {
        self.get(a, b).is_some()
    }

    /// Drops every entry of one body.
    pub fn remove_body(&mut self, a: IVec3)
        ensures
            final(self)@ == old(self)@.remove_keys(
                old(self)@.dom().filter(|k: (IVec3, IVec3)| k.0 == a),
            ),
    {
        self.bodies.remove(a);
        assert(self@ =~= old(self)@.remove_keys(
            old(self)@.dom().filter(|k: (IVec3, IVec3)| k.0 == a),
        ));
    }

    pub fn clear(&mut self)
        ensures
            final(self)@ == Map::<(IVec3, IVec3), V>::empty(),
    {
        self.bodies.clear();
        assert(self@ =~= Map::<(IVec3, IVec3), V>::empty());
    }

    /// Every key once, in no particular order.
    pub fn keys(&self) -> (ks: Vec<(IVec3, IVec3)>)
        ensures
            ks@.no_duplicates(),
            forall|k: (IVec3, IVec3)| #[trigger] ks@.contains(k) <==> self@.contains_key(k),
    {
        let outer = self.bodies.keys();
        let mut ks: Vec<(IVec3, IVec3)> = Vec::new();
        let mut i: usize = 0;
        while i < outer.len()
            invariant
                i <= outer@.len(),
                outer@.no_duplicates(),
                forall|a: IVec3| #[trigger] outer@.contains(a) <==> self.bodies@.contains_key(a),
                ks@.no_duplicates(),
                forall|k: (IVec3, IVec3)| #[trigger]
                    ks@.contains(k) <==> self@.contains_key(k) && outer@.take(i as int).contains(k.0),
            decreases outer.len() - i,
        {
            let a = outer[i];
            assert(outer@.contains(a));
            let ghost done = ks@;
            let ghost passed = outer@.take(i as int);
            assert(outer@.take(i + 1) =~= passed.push(a));
            assert(!passed.contains(a)) by {
                if passed.contains(a) {
                    let p = passed.index_of(a);
                    assert(outer@[p] == outer@[i as int]);
                }
            }
            if let Some(m) = self.bodies.get(a) {
                let inner = m.keys();
                let mut j: usize = 0;
                while j < inner.len()
                    invariant
                        j <= inner@.len(),
                        inner@.no_duplicates(),
                        !passed.contains(a),
                        done.no_duplicates(),
                        forall|k: (IVec3, IVec3)| #[trigger]
                            done.contains(k) ==> passed.contains(k.0),
                        ks@ == done + Seq::new(j as nat, |t: int| (a, inner@[t])),
                    decreases inner.len() - j,
                {
                    ks.push((a, inner[j]));
                    assert(ks@ =~= done + Seq::new((j + 1) as nat, |t: int| (a, inner@[t])));
                    j += 1;
                }
                proof {
                    let tail = Seq::new(inner@.len(), |t: int| (a, inner@[t]));
                    assert(ks@ =~= done + tail);
                    assert(tail.no_duplicates());
                    assert forall|s: int, t: int|
                        0 <= s < ks@.len() && 0 <= t < ks@.len() && s != t implies ks@[s]
                        != ks@[t] by {
                        if s < done.len() && t >= done.len() {
                            assert(done.contains(ks@[s]));
                        }
                        if t < done.len() && s >= done.len() {
                            assert(done.contains(ks@[t]));
                        }
                    }
                    assert forall|k: (IVec3, IVec3)| #[trigger]
                        ks@.contains(k) <==> self@.contains_key(k) && passed.push(a).contains(
                            k.0,
                        ) by {
                        lemma_push_contains(passed, a, k.0);
                        if ks@.contains(k) {
                            let p = ks@.index_of(k);
                            if p < done.len() {
                                assert(done[p] == k);
                                assert(done.contains(k));
                            } else {
                                assert(inner@.contains(inner@[p - done.len()]));
                            }
                        }
                        if self@.contains_key(k) && passed.push(a).contains(k.0) {
                            if k.0 == a {
                                assert(inner@.contains(k.1));
                                let p = inner@.index_of(k.1);
                                assert(ks@[done.len() + p] == k);
                            } else {
                                assert(done.contains(k));
                                let p = done.index_of(k);
                                assert(ks@[p] == k);
                            }
                        }
                    }
                }
            }
            i += 1;
        }
        proof {
            assert(outer@.take(i as int) =~= outer@);
            assert forall|k: (IVec3, IVec3)| #[trigger] ks@.contains(k) <==> self@.contains_key(
                k,
            ) by {
                if self@.contains_key(k) {
                    assert(outer@.contains(k.0));
                }
            }
        }
        ks
    }
}

proof fn lemma_push_contains<A>(s: Seq<A>, a: A, b: A)
    ensures
        s.push(a).contains(b) <==> s.contains(b) || b == a,
{
    if s.contains(b) {
        let p = s.index_of(b);
        assert(s.push(a)[p] == b);
    }
    if b == a {
        assert(s.push(a)[s.len() as int] == b);
    }
    if s.push(a).contains(b) && b != a {
        let p = s.push(a).index_of(b);
        assert(s[p] == b);
    }
}

/// Distinct vectors have distinct keys, all of them below `2^96`.
proof fn lemma_packing()
    ensures
        forall|a: IVec3| unpacked(#[trigger] packed(a)) == a,
        forall|a: IVec3| 0 <= #[trigger] packed(a) < span() * span() * span(),
{
    assert forall|a: IVec3| unpacked(#[trigger] packed(a)) == a && 0 <= packed(a) < span() * span()
        * span() by {
        lemma_unpack_packed(a);
    }
}

} // verus!
