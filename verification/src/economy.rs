//! The incremental economy: wallet, hold, upgrade ladder and depot.
use crate::blocks::{loot_value, loot_worth};
use crate::growth::{grow_by, grown_by, law_growth_is_geometric, law_growth_is_strict};
use crate::text::{decimal, push_decimal};
use vstd::arithmetic::power::pow;
use vstd::prelude::*;
use vstd::string::StringExecFns;

verus! {

pub const BASE_CAPACITY: u32 = 16;

pub const CAPACITY_PER_LEVEL: u32 = 8;

pub const RECALL_COST: u64 = 200;

/// One kind of loot in the hold, and how much of it.
#[derive(Clone, Copy, PartialEq, Eq, Structural, Debug)]
pub struct Stack {
    pub id: u8,
    pub band: i32,
    pub count: u32,
}

/// Order of stacks in the hold: by block id, then by band.
pub open spec fn stacked_before(a: Stack, b: Stack) -> bool {
    a.id < b.id || (a.id == b.id && a.band < b.band)
}

/// Units in a row of stacks.
pub open spec fn total_count(s: Seq<Stack>) -> int
    decreases s.len(),
{
    if s.len() == 0 {
        0
    } else {
        total_count(s.drop_last()) + s.last().count
    }
}

/// Sale value of one stack.
pub open spec fn stack_worth(s: Stack) -> int {
    loot_worth(s.id, s.band as int) * s.count
}

/// Sale value of a row of stacks.
pub open spec fn total_worth(s: Seq<Stack>) -> int
    decreases s.len(),
{
    if s.len() == 0 {
        0
    } else {
        total_worth(s.drop_last()) + stack_worth(s.last())
    }
}

/// The stacks are sorted, one per kind, none of them empty.
pub open spec fn well_stacked(s: Seq<Stack>) -> bool {
    &&& forall|i: int, j: int|
        0 <= i < j < s.len() ==> stacked_before(#[trigger] s[i], #[trigger] s[j])
    &&& forall|i: int| 0 <= i < s.len() ==> (#[trigger] s[i]).count > 0
}

/// Among the stacks is one of exactly `n` units of one kind.
pub open spec fn has_stack(s: Seq<Stack>, id: u8, band: i32, n: u32) -> bool {
    s.contains(Stack { id, band, count: n })
}

/// There are `n` units of one kind, and there was one less before: a stack of
/// one where there was none.
pub open spec fn one_more(before: Seq<Stack>, after: Seq<Stack>, id: u8, band: i32, n: u32) -> bool {
    &&& 1 <= n
    &&& has_stack(after, id, band, n)
    &&& n == 1 ==> forall|m: u32| !#[trigger] has_stack(before, id, band, m)
    &&& n > 1 ==> has_stack(before, id, band, (n - 1) as u32)
}

/// How much of one kind of loot a row of stacks holds.
pub open spec fn count_of(s: Seq<Stack>, id: u8, band: i32) -> int {
    if exists|i: int| 0 <= i < s.len() && (#[trigger] s[i]).id == id && s[i].band == band {
        let i = choose|i: int|
            0 <= i < s.len() && (#[trigger] s[i]).id == id && s[i].band == band;
        s[i].count as int
    } else {
        0
    }
}

/// The hold: everything mined ends up here, dust included.
pub struct Inventory {
    stacks: Vec<Stack>,
    units: u32,
}

impl View for Inventory {
    type V = Seq<Stack>;

    closed spec fn view(&self) -> Seq<Stack> {
        self.stacks@
    }
}

proof fn lemma_count_at(s: Seq<Stack>, i: int)
    requires
        well_stacked(s),
        0 <= i < s.len(),
    ensures
        count_of(s, s[i].id, s[i].band) == s[i].count,
{
    let j = choose|j: int|
        0 <= j < s.len() && (#[trigger] s[j]).id == s[i].id && s[j].band == s[i].band;
    assert(s[i].id == s[i].id && s[i].band == s[i].band);
    if j < i {
        assert(stacked_before(s[j], s[i]));
    } else if i < j {
        assert(stacked_before(s[i], s[j]));
    }
}

proof fn lemma_count_bound(s: Seq<Stack>, i: int)
    requires
        0 <= i < s.len(),
    ensures
        0 <= s[i].count <= total_count(s),
    decreases s.len(),
{
    lemma_count_nonneg(s.drop_last());
    if i < s.len() - 1 {
        lemma_count_bound(s.drop_last(), i);
        assert(s.drop_last()[i] == s[i]);
    }
}

proof fn lemma_count_nonneg(s: Seq<Stack>)
    ensures
        total_count(s) >= 0,
    decreases s.len(),
{
    if s.len() > 0 {
        lemma_count_nonneg(s.drop_last());
    }
}

/// Totals of a row with one entry replaced.
proof fn lemma_total_update(s: Seq<Stack>, i: int, x: Stack)
    requires
        0 <= i < s.len(),
    ensures
        total_count(s.update(i, x)) == total_count(s) - s[i].count + x.count,
        total_worth(s.update(i, x)) == total_worth(s) - stack_worth(s[i]) + stack_worth(x),
    decreases s.len(),
{
    if i == s.len() - 1 {
        assert(s.update(i, x).drop_last() =~= s.drop_last());
    } else {
        lemma_total_update(s.drop_last(), i, x);
        assert(s.update(i, x).drop_last() =~= s.drop_last().update(i, x));
        assert(s.drop_last()[i] == s[i]);
    }
}

/// Totals of a row with one entry slipped in.
proof fn lemma_total_insert(s: Seq<Stack>, i: int, x: Stack)
    requires
        0 <= i <= s.len(),
    ensures
        total_count(s.insert(i, x)) == total_count(s) + x.count,
        total_worth(s.insert(i, x)) == total_worth(s) + stack_worth(x),
    decreases s.len(),
{
    let t = s.insert(i, x);
    if i == s.len() {
        assert(t.drop_last() =~= s);
    } else {
        lemma_total_insert(s.drop_last(), i, x);
        assert(t.drop_last() =~= s.drop_last().insert(i, x));
        assert(t.last() == s.last());
    }
}

impl Inventory {
    /// Units on board.
    pub closed spec fn load(self) -> int {
        self.units as int
    }

    /// Sorted non-empty stacks that add up to the units on board.
    pub open spec fn wf(self) -> bool {
        well_stacked(self@) && self.load() == total_count(self@) && self.load() <= u32::MAX
    }

    /// Sale value of the whole hold.
    pub open spec fn worth(self) -> int {
        total_worth(self@)
    }

    pub fn new() -> (inv: Self)
        ensures
            inv@ == Seq::<Stack>::empty(),
            inv.load() == 0,
            inv.wf(),
    {
        Inventory { stacks: Vec::new(), units: 0 }
    }

    pub fn stacks(&self) -> (r: &Vec<Stack>)
        ensures
            r@ == self@,
    {
        &self.stacks
    }

    pub fn units(&self) -> (r: u32)
        ensures
            r == self.load(),
    {
        self.units
    }

    /// Take one unit of loot on board.
    pub fn add(&mut self, id: u8, band: i32)
        requires
            old(self).wf(),
            old(self).load() < u32::MAX,
        ensures
            final(self).wf(),
            final(self).load() == old(self).load() + 1,
            final(self).worth() == old(self).worth() + loot_worth(id, band as int),
            forall|i: u8, b: i32| #[trigger]
                count_of(final(self)@, i, b) == count_of(old(self)@, i, b) + if i == id && b == band {
                    1int
                } else {
                    0
                },
            forall|s: Stack|
                s.id != id || s.band != band ==> (#[trigger] final(self)@.contains(s)
                    <==> old(self)@.contains(s)),
            exists|n: u32| #[trigger] one_more(old(self)@, final(self)@, id, band, n),
    {
        let ghost before = self@;
        let mut i: usize = 0;
        while i < self.stacks.len() && (self.stacks[i].id < id || (self.stacks[i].id == id
            && self.stacks[i].band < band))
            invariant
                i <= self.stacks.len(),
                self.stacks@ == before,
                well_stacked(before),
                forall|j: int|
                    0 <= j < i ==> stacked_before(
                        #[trigger] before[j],
                        Stack { id, band, count: 0 },
                    ),
            decreases self.stacks.len() - i,
        {
            i += 1;
        }
        if i < self.stacks.len() && self.stacks[i].id == id && self.stacks[i].band == band {
            let s = self.stacks[i];
            proof {
                lemma_count_bound(before, i as int);
            }
            let more = Stack { id, band, count: s.count + 1 };
            self.stacks.set(i, more);
            proof {
                lemma_total_update(before, i as int, more);
                let each = loot_worth(id, band as int);
                assert(each * (s.count + 1) == each * s.count + each) by (nonlinear_arith);
                let after = self.stacks@;
                assert(well_stacked(after)) by {
                    assert forall|a: int, b: int| 0 <= a < b < after.len() implies stacked_before(
                        #[trigger] after[a],
                        #[trigger] after[b],
                    ) by {
                        assert(stacked_before(before[a], before[b]));
                    }
                    assert forall|a: int| 0 <= a < after.len() implies (#[trigger] after[a]).count
                        > 0 by {
                        assert(before[a].count > 0);
                    }
                }
                assert forall|x: u8, b: i32| #[trigger] count_of(after, x, b) == count_of(
                    before,
                    x,
                    b,
                ) + if x == id && b == band {
                    1int
                } else {
                    0
                } by {
                    lemma_counts_match_update(before, after, i as int, x, b);
                }
                assert forall|s: Stack| s.id != id || s.band != band implies (#[trigger]
                after.contains(s) <==> before.contains(s)) by {
                    if after.contains(s) {
                        assert(before[after.index_of(s)] == s);
                    }
                    if before.contains(s) {
                        assert(after[before.index_of(s)] == s);
                    }
                }
                assert(after[i as int] == more);
                assert(before[i as int].count > 0);
                assert(before[i as int] == (Stack { id, band, count: (more.count - 1) as u32 }));
                assert(has_stack(before, id, band, (more.count - 1) as u32));
                assert(has_stack(after, id, band, more.count));
                assert(one_more(before, after, id, band, more.count));
            }
        } else {
            let fresh = Stack { id, band, count: 1 };
            self.stacks.insert(i, fresh);
            proof {
                lemma_total_insert(before, i as int, fresh);
                let after = self.stacks@;
                assert(well_stacked(after)) by {
                    assert forall|a: int, b: int| 0 <= a < b < after.len() implies stacked_before(
                        #[trigger] after[a],
                        #[trigger] after[b],
                    ) by {
                        let p = if a < i {
                            a
                        } else {
                            a - 1
                        };
                        let q = if b < i {
                            b
                        } else {
                            b - 1
                        };
                        if a != i && b != i {
                            assert(stacked_before(before[p], before[q]));
                        } else if b == i {
                            assert(stacked_before(before[a], Stack { id, band, count: 0 }));
                        } else {
                            if q > i {
                                assert(stacked_before(before[i as int], before[q]));
                            }
                        }
                    }
                    assert forall|a: int| 0 <= a < after.len() implies (#[trigger] after[a]).count
                        > 0 by {
                        if a < i {
                            assert(before[a].count > 0);
                        } else if a > i {
                            assert(before[a - 1].count > 0);
                        }
                    }
                }
                assert forall|x: u8, b: i32| #[trigger] count_of(after, x, b) == count_of(
                    before,
                    x,
                    b,
                ) + if x == id && b == band {
                    1int
                } else {
                    0
                } by {
                    lemma_counts_match_insert(before, after, i as int, x, b);
                }
                assert forall|s: Stack| s.id != id || s.band != band implies (#[trigger]
                after.contains(s) <==> before.contains(s)) by {
                    if after.contains(s) {
                        let n = after.index_of(s);
                        assert(before[if n < i {
                            n
                        } else {
                            n - 1
                        }] == s);
                    }
                    if before.contains(s) {
                        let n = before.index_of(s);
                        assert(after[if n < i {
                            n
                        } else {
                            n + 1
                        }] == s);
                    }
                }
                assert(after[i as int] == fresh);
                assert(has_stack(after, id, band, 1));
                assert forall|m: u32| !#[trigger] has_stack(before, id, band, m) by {
                    let s = Stack { id, band, count: m };
                    if before.contains(s) {
                        let n = before.index_of(s);
                        if n < i {
                            assert(stacked_before(before[n], Stack { id, band, count: 0 }));
                        } else if n > i {
                            assert(stacked_before(before[i as int], before[n]));
                        }
                    }
                }
                assert(one_more(before, after, id, band, 1));
            }
        }
        self.units = self.units + 1;
    }

    /// Sale value of the whole hold.
    pub fn total_value(&self) -> (v: u64)
        requires
            self.wf(),
            self.worth() <= u64::MAX,
        ensures
            v == self.worth(),
    {
        let mut sum: u64 = 0;
        let mut i: usize = 0;
        while i < self.stacks.len()
            invariant
                i <= self.stacks.len(),
                self.stacks@ == self@,
                total_worth(self@) <= u64::MAX,
                sum == total_worth(self@.take(i as int)),
            decreases self.stacks.len() - i,
        {
            let s = self.stacks[i];
            let each: u64 = loot_value(s.id, s.band);
            proof {
                assert(self@.take(i + 1).drop_last() =~= self@.take(i as int));
                lemma_worth_prefix(self@, i + 1);
                assert(each * s.count >= 0) by (nonlinear_arith)
                    requires
                        each >= 0,
                        s.count >= 0,
                ;
                lemma_worth_nonneg(self@.take(i as int));
            }
            sum = sum + each * s.count as u64;
            i += 1;
        }
        assert(self@.take(self@.len() as int) =~= self@);
        sum
    }

    /// Empty the hold.
    pub fn clear(&mut self)
        ensures
            final(self)@ == Seq::<Stack>::empty(),
            final(self).load() == 0,
            final(self).wf(),
    {
        self.stacks.clear();
        self.units = 0;
    }

    /// The last `n` stacks in reverse order: the best finds first.
    pub fn top_stacks(&self, n: usize) -> (top: Vec<Stack>)
        ensures
            top.len() == if n <= self@.len() {
                n as int
            } else {
                self@.len() as int
            },
            forall|i: int|
                0 <= i < top.len() ==> #[trigger] top@[i] == self@[self@.len() - 1 - i],
    {
        let mut top: Vec<Stack> = Vec::new();
        while top.len() < n && top.len() < self.stacks.len()
            invariant
                top.len() <= n,
                top.len() <= self.stacks.len(),
                self.stacks@ == self@,
                forall|i: int|
                    0 <= i < top.len() ==> #[trigger] top@[i] == self@[self@.len() - 1 - i],
            decreases self.stacks.len() - top.len(),
        {
            top.push(self.stacks[self.stacks.len() - 1 - top.len()]);
        }
        top
    }
}

proof fn lemma_counts_match_update(before: Seq<Stack>, after: Seq<Stack>, i: int, x: u8, b: i32)
    requires
        well_stacked(before),
        well_stacked(after),
        0 <= i < before.len(),
        before[i].count < u32::MAX,
        after == before.update(
            i,
            Stack { id: before[i].id, band: before[i].band, count: (before[i].count + 1) as u32 },
        ),
    ensures
        count_of(after, x, b) == count_of(before, x, b) + if x == before[i].id && b
            == before[i].band {
            1int
        } else {
            0
        },
{
    if exists|j: int| 0 <= j < before.len() && (#[trigger] before[j]).id == x && before[j].band == b {
        let j = choose|j: int|
            0 <= j < before.len() && (#[trigger] before[j]).id == x && before[j].band == b;
        lemma_count_at(before, j);
        lemma_count_at(after, j);
        if j < i {
            assert(stacked_before(before[j], before[i]));
        } else if i < j {
            assert(stacked_before(before[i], before[j]));
        }
    } else {
        assert forall|j: int| 0 <= j < after.len() implies !((#[trigger] after[j]).id == x
            && after[j].band == b) by {
            assert(!(before[j].id == x && before[j].band == b));
        }
        assert(!(before[i].id == x && before[i].band == b));
    }
}

proof fn lemma_counts_match_insert(before: Seq<Stack>, after: Seq<Stack>, i: int, x: u8, b: i32)
    requires
        well_stacked(before),
        well_stacked(after),
        0 <= i <= before.len(),
        after.len() == before.len() + 1,
        after[i].count == 1,
        after == before.insert(i, after[i]),
    ensures
        count_of(after, x, b) == count_of(before, x, b) + if x == after[i].id && b == after[i].band {
            1int
        } else {
            0
        },
{
    assert forall|j: int| 0 <= j < before.len() implies !((#[trigger] before[j]).id == after[i].id
        && before[j].band == after[i].band) by {
        if j < i {
            assert(after[j] == before[j]);
            assert(stacked_before(after[j], after[i]));
        } else {
            assert(after[j + 1] == before[j]);
            assert(stacked_before(after[i], after[j + 1]));
        }
    }
    if x == after[i].id && b == after[i].band {
        lemma_count_at(after, i);
    } else if exists|j: int|
        0 <= j < before.len() && (#[trigger] before[j]).id == x && before[j].band == b {
        let j = choose|j: int|
            0 <= j < before.len() && (#[trigger] before[j]).id == x && before[j].band == b;
        lemma_count_at(before, j);
        let k = if j < i {
            j
        } else {
            j + 1
        };
        assert(after[k] == before[j]);
        lemma_count_at(after, k);
    } else {
        assert forall|j: int| 0 <= j < after.len() implies !((#[trigger] after[j]).id == x
            && after[j].band == b) by {
            if j < i {
                assert(after[j] == before[j]);
            } else if j > i {
                assert(after[j] == before[j - 1]);
            }
        }
    }
}

proof fn lemma_worth_nonneg(s: Seq<Stack>)
    ensures
        total_worth(s) >= 0,
    decreases s.len(),
{
    if s.len() > 0 {
        lemma_worth_nonneg(s.drop_last());
        lemma_loot_nonneg(s.last().id, s.last().band);
        let each = loot_worth(s.last().id, s.last().band as int);
        assert(each * s.last().count >= 0) by (nonlinear_arith)
            requires
                each >= 0,
                s.last().count >= 0,
        ;
    }
}

proof fn lemma_loot_nonneg(id: u8, band: i32)
    ensures
        loot_worth(id, band as int) >= 0,
{
    vstd::arithmetic::power::lemma_pow_positive(
        2,
        crate::blocks::clamped(band as int, 0, 40) as nat,
    );
    crate::growth::lemma_grown_nonneg(10, 12, 5, band as int);
}

proof fn lemma_worth_prefix(s: Seq<Stack>, k: int)
    requires
        0 <= k <= s.len(),
    ensures
        total_worth(s.take(k)) <= total_worth(s),
    decreases s.len() - k,
{
    if k < s.len() {
        lemma_worth_prefix(s, k + 1);
        assert(s.take(k + 1).drop_last() =~= s.take(k));
        assert(s.take(k + 1).last() == s[k]);
        lemma_loot_nonneg(s[k].id, s[k].band);
        let each = loot_worth(s[k].id, s[k].band as int);
        assert(each * s[k].count >= 0) by (nonlinear_arith)
            requires
                each >= 0,
                s[k].count >= 0,
        ;
    } else {
        assert(s.take(k) =~= s);
    }
}

/// A hold is worth what its stacks are worth: each its count times the value of
/// one unit, an empty hold nothing. Units add up in the same way.
pub proof fn law_hold_adds_up(s: Seq<Stack>, x: Stack)
    ensures
        total_worth(Seq::<Stack>::empty()) == 0,
        total_worth(s.push(x)) == total_worth(s) + loot_worth(x.id, x.band as int) * x.count,
        total_count(Seq::<Stack>::empty()) == 0,
        total_count(s.push(x)) == total_count(s) + x.count,
{
    assert(s.push(x).drop_last() =~= s);
}

/// What is held of a kind is what its stack says, and nothing if it has none.
pub proof fn law_count_is_the_stacks(s: Seq<Stack>, id: u8, band: i32, n: u32)
    requires
        well_stacked(s),
    ensures
        s.contains(Stack { id, band, count: n }) ==> count_of(s, id, band) == n,
        (forall|i: int| 0 <= i < s.len() ==> (#[trigger] s[i]).id != id || s[i].band != band)
            ==> count_of(s, id, band) == 0,
{
    if s.contains(Stack { id, band, count: n }) {
        let i = s.index_of(Stack { id, band, count: n });
        lemma_count_at(s, i);
    }
}

/// A well-stacked hold is sorted by id and band, with one stack per kind and
/// none empty.
pub proof fn law_hold_is_sorted(s: Seq<Stack>, i: int, j: int)
    requires
        well_stacked(s),
        0 <= i < j < s.len(),
    ensures
        s[i].id <= s[j].id,
        s[i].id == s[j].id ==> s[i].band < s[j].band,
        s[i].count > 0,
        s[j].count > 0,
{
    assert(stacked_before(s[i], s[j]));
}

/// Credits on hand.
#[derive(Clone, Copy, PartialEq, Eq, Structural, Debug)]
pub struct Wallet {
    pub money: u64,
}

/// Levels bought so far.
#[derive(Clone, Copy, PartialEq, Eq, Structural, Debug)]
pub struct Upgrades {
    pub damage_lvl: u32,
    pub swings_lvl: u32,
    pub capacity_lvl: u32,
    pub recall: bool,
}

/// A level as a growth exponent: levels past the signed range count down from
/// below zero.
pub open spec fn exponent(lvl: u32) -> int {
    if lvl <= i32::MAX {
        lvl as int
    } else {
        lvl - 0x1_0000_0000
    }
}

/// A level as a growth exponent.
pub fn exponent_of(lvl: u32) -> (e: i32)
    ensures
        e == exponent(lvl),
        lvl <= i32::MAX ==> e == lvl,
        lvl > i32::MAX ==> e == lvl - 0x1_0000_0000,
{
    if lvl <= 0x7fff_ffff {
        lvl as i32
    } else {
        (lvl as i64 - 0x1_0000_0000i64) as i32
    }
}

/// Price of the next damage level: 12 credits, times 1.65 per level.
pub open spec fn damage_price(lvl: u32) -> int {
    grown_by(12, 33, 20, exponent(lvl))
}

/// Price of the next speed level: 20 credits, times 1.7 per level.
pub open spec fn swings_price(lvl: u32) -> int {
    grown_by(20, 17, 10, exponent(lvl))
}

/// Price of the next pack level: 30 credits, times 1.8 per level.
pub open spec fn capacity_price(lvl: u32) -> int {
    grown_by(30, 9, 5, exponent(lvl))
}

/// Units that the hold takes at a pack level.
pub open spec fn capacity_at(lvl: int) -> int {
    BASE_CAPACITY + CAPACITY_PER_LEVEL * lvl
}

impl Upgrades {
    /// Nothing bought yet.
    pub fn new() -> (u: Self)
        ensures
            u == (Upgrades { damage_lvl: 0, swings_lvl: 0, capacity_lvl: 0, recall: false }),
    {
        Upgrades { damage_lvl: 0, swings_lvl: 0, capacity_lvl: 0, recall: false }
    }

    /// Units that the hold takes.
    pub fn capacity(&self) -> (c: u32)
        requires
            capacity_at(self.capacity_lvl as int) <= u32::MAX,
        ensures
            c == capacity_at(self.capacity_lvl as int),
            c == 16 + 8 * self.capacity_lvl,
    {
        BASE_CAPACITY + CAPACITY_PER_LEVEL * self.capacity_lvl
    }

    pub fn damage_cost(&self) -> (c: u64)
        ensures
            c == damage_price(self.damage_lvl),
    {
        grow_by(12, 33, 20, exponent_of(self.damage_lvl))
    }

    pub fn swings_cost(&self) -> (c: u64)
        ensures
            c == swings_price(self.swings_lvl),
    {
        grow_by(20, 17, 10, exponent_of(self.swings_lvl))
    }

    pub fn capacity_cost(&self) -> (c: u64)
        ensures
            c == capacity_price(self.capacity_lvl),
    {
        grow_by(30, 9, 5, exponent_of(self.capacity_lvl))
    }
}

/// Prices are geometric: the price of a level is the whole number nearest to the
/// first one times the rate once for each level bought, and no more than the
/// cap.
pub proof fn law_prices_are_geometric(lvl: u32)
    requires
        lvl <= i32::MAX,
    ensures
        2 * (damage_price(lvl) * pow(20, lvl as nat)) <= 2 * (12 * pow(33, lvl as nat)) + pow(
            20,
            lvl as nat,
        ),
        damage_price(lvl) < u64::MAX ==> 2 * (12 * pow(33, lvl as nat)) + pow(20, lvl as nat) < 2
            * ((damage_price(lvl) + 1) * pow(20, lvl as nat)),
        2 * (swings_price(lvl) * pow(10, lvl as nat)) <= 2 * (20 * pow(17, lvl as nat)) + pow(
            10,
            lvl as nat,
        ),
        swings_price(lvl) < u64::MAX ==> 2 * (20 * pow(17, lvl as nat)) + pow(10, lvl as nat) < 2
            * ((swings_price(lvl) + 1) * pow(10, lvl as nat)),
        2 * (capacity_price(lvl) * pow(5, lvl as nat)) <= 2 * (30 * pow(9, lvl as nat)) + pow(
            5,
            lvl as nat,
        ),
        capacity_price(lvl) < u64::MAX ==> 2 * (30 * pow(9, lvl as nat)) + pow(5, lvl as nat) < 2 * (
        (capacity_price(lvl) + 1) * pow(5, lvl as nat)),
        damage_price(lvl) <= u64::MAX,
        swings_price(lvl) <= u64::MAX,
        capacity_price(lvl) <= u64::MAX,
        capacity_at(lvl as int) == 16 + 8 * lvl,
{
    law_growth_is_geometric(12, 33, 20, lvl as nat);
    law_growth_is_geometric(20, 17, 10, lvl as nat);
    law_growth_is_geometric(30, 9, 5, lvl as nat);
}

/// Every level costs more than the one before, until prices reach their cap.
pub proof fn law_prices_rise(lvl: u32)
    requires
        lvl < i32::MAX,
    ensures
        damage_price((lvl + 1) as u32) < u64::MAX ==> damage_price(lvl) < damage_price(
            (lvl + 1) as u32,
        ),
        swings_price((lvl + 1) as u32) < u64::MAX ==> swings_price(lvl) < swings_price(
            (lvl + 1) as u32,
        ),
        capacity_price((lvl + 1) as u32) < u64::MAX ==> capacity_price(lvl) < capacity_price(
            (lvl + 1) as u32,
        ),
{
    let n = lvl as nat;
    if damage_price((lvl + 1) as u32) < u64::MAX {
        law_growth_is_strict(12, 33, 20, n);
    }
    if swings_price((lvl + 1) as u32) < u64::MAX {
        law_growth_is_strict(20, 17, 10, n);
    }
    if capacity_price((lvl + 1) as u32) < u64::MAX {
        law_growth_is_strict(30, 9, 5, n);
    }
}

/// Keys pressed at the depot this frame.
#[derive(Clone, Copy, PartialEq, Eq, Structural, Debug)]
pub struct ShopKeys {
    pub sell: bool,
    pub damage: bool,
    pub swings: bool,
    pub capacity: bool,
    pub recall: bool,
}

/// What the depot has to say.
#[derive(Clone, Copy, PartialEq, Eq, Structural, Debug)]
pub enum ShopNote {
    NothingToSell,
    Sold { units: u32, value: u64 },
    DamageBought,
    DamageTooDear(u64),
    SwingsBought,
    SwingsTooDear(u64),
    CapacityBought(u32),
    CapacityTooDear(u64),
    RecallBought,
    RecallTooDear,
}

/// A customer's books: credits, the hold's load and worth, and levels.
pub struct Books {
    pub money: int,
    pub load: int,
    pub worth: int,
    pub ups: Upgrades,
}

/// The sell key: an empty hold sells nothing; otherwise the whole hold turns
/// into credits.
pub open spec fn after_selling(b: Books, pressed: bool) -> (Books, Option<ShopNote>) {
    if !pressed {
        (b, None)
    } else if b.load == 0 {
        (b, Some(ShopNote::NothingToSell))
    } else {
        (
            Books { money: b.money + b.worth, load: 0, worth: 0, ..b },
            Some(ShopNote::Sold { units: b.load as u32, value: b.worth as u64 }),
        )
    }
}

/// The damage key: a level for its price, if there is money for it.
pub open spec fn after_damage(b: Books, pressed: bool) -> (Books, Option<ShopNote>) {
    let cost = damage_price(b.ups.damage_lvl);
    if !pressed {
        (b, None)
    } else if b.money >= cost {
        (
            Books {
                money: b.money - cost,
                ups: Upgrades { damage_lvl: (b.ups.damage_lvl + 1) as u32, ..b.ups },
                ..b
            },
            Some(ShopNote::DamageBought),
        )
    } else {
        (b, Some(ShopNote::DamageTooDear(cost as u64)))
    }
}

/// The speed key.
pub open spec fn after_swings(b: Books, pressed: bool) -> (Books, Option<ShopNote>) {
    let cost = swings_price(b.ups.swings_lvl);
    if !pressed {
        (b, None)
    } else if b.money >= cost {
        (
            Books {
                money: b.money - cost,
                ups: Upgrades { swings_lvl: (b.ups.swings_lvl + 1) as u32, ..b.ups },
                ..b
            },
            Some(ShopNote::SwingsBought),
        )
    } else {
        (b, Some(ShopNote::SwingsTooDear(cost as u64)))
    }
}

/// The pack key.
pub open spec fn after_capacity(b: Books, pressed: bool) -> (Books, Option<ShopNote>) {
    let cost = capacity_price(b.ups.capacity_lvl);
    if !pressed {
        (b, None)
    } else if b.money >= cost {
        (
            Books {
                money: b.money - cost,
                ups: Upgrades { capacity_lvl: (b.ups.capacity_lvl + 1) as u32, ..b.ups },
                ..b
            },
            Some(ShopNote::CapacityBought(capacity_at(b.ups.capacity_lvl + 1) as u32)),
        )
    } else {
        (b, Some(ShopNote::CapacityTooDear(cost as u64)))
    }
}

/// The recall key, dead once the device is owned.
pub open spec fn after_recall(b: Books, pressed: bool) -> (Books, Option<ShopNote>) {
    if !pressed || b.ups.recall {
        (b, None)
    } else if b.money >= RECALL_COST {
        (
            Books { money: b.money - RECALL_COST, ups: Upgrades { recall: true, ..b.ups }, ..b },
            Some(ShopNote::RecallBought),
        )
    } else {
        (b, Some(ShopNote::RecallTooDear))
    }
}

/// The later of two notes.
pub open spec fn later(a: Option<ShopNote>, b: Option<ShopNote>) -> Option<ShopNote> {
    if b is Some {
        b
    } else {
        a
    }
}

/// A frame at the depot: every key in turn, selling first. The last note
/// stands.
pub open spec fn traded(b: Books, keys: ShopKeys) -> (Books, Option<ShopNote>) {
    let s = after_selling(b, keys.sell);
    let d = after_damage(s.0, keys.damage);
    let w = after_swings(d.0, keys.swings);
    let c = after_capacity(w.0, keys.capacity);
    let r = after_recall(c.0, keys.recall);
    (r.0, later(later(later(later(s.1, d.1), w.1), c.1), r.1))
}

/// What is sold and bought this frame can be counted: the credits after the
/// sale, and the level and pack size after each purchase that there is money
/// for.
pub open spec fn trade_fits(b: Books, keys: ShopKeys) -> bool {
    let s = after_selling(b, keys.sell).0;
    let d = after_damage(s, keys.damage).0;
    let w = after_swings(d, keys.swings).0;
    &&& keys.sell ==> b.money + b.worth <= u64::MAX
    &&& keys.damage && s.money >= damage_price(s.ups.damage_lvl) ==> s.ups.damage_lvl < u32::MAX
    &&& keys.swings && d.money >= swings_price(d.ups.swings_lvl) ==> d.ups.swings_lvl < u32::MAX
    &&& keys.capacity && w.money >= capacity_price(w.ups.capacity_lvl) ==> capacity_at(
        w.ups.capacity_lvl + 1,
    ) <= u32::MAX
}

/// The books behind wallet, hold and levels.
pub open spec fn books(wallet: Wallet, inventory: Inventory, ups: Upgrades) -> Books {
    Books { money: wallet.money as int, load: inventory.load(), worth: inventory.worth(), ups }
}

/// Take `cost` from the wallet, if it holds that much.
pub fn try_buy(cost: u64, wallet: &mut Wallet) -> (paid: bool)
    ensures
        paid == (old(wallet).money >= cost),
        final(wallet).money == if paid {
            old(wallet).money - cost
        } else {
            old(wallet).money as int
        },
{
    if wallet.money >= cost {
        wallet.money = wallet.money - cost;
        true
    } else {
        false
    }
}

/// A frame at the depot. Out of its range nothing happens.
pub fn shop_system(
    near: bool,
    keys: ShopKeys,
    wallet: &mut Wallet,
    inventory: &mut Inventory,
    upgrades: &mut Upgrades,
) -> (note: Option<ShopNote>)
    requires
        old(inventory).wf(),
        near ==> trade_fits(books(*old(wallet), *old(inventory), *old(upgrades)), keys),
    ensures
        final(inventory).wf(),
        near ==> (books(*final(wallet), *final(inventory), *final(upgrades)), note) == traded(
            books(*old(wallet), *old(inventory), *old(upgrades)),
            keys,
        ),
        !near ==> note is None && *final(wallet) == *old(wallet) && *final(upgrades) == *old(
            upgrades,
        ),
        !near || !keys.sell || old(inventory).load() == 0 ==> *final(inventory) == *old(inventory),
{
    if !near {
        return None;
    }
    let ghost b0 = books(*wallet, *inventory, *upgrades);
    let mut note: Option<ShopNote> = None;
    if keys.sell {
        let value = inventory.total_value();
        let units = inventory.units();
        if units == 0 {
            note = Some(ShopNote::NothingToSell);
        } else {
            wallet.money = wallet.money + value;
            inventory.clear();
            note = Some(ShopNote::Sold { units, value });
        }
    }
    let ghost b1 = books(*wallet, *inventory, *upgrades);
    assert((b1, note) == after_selling(b0, keys.sell));
    if keys.damage {
        let cost = upgrades.damage_cost();
        if try_buy(cost, wallet) {
            upgrades.damage_lvl = upgrades.damage_lvl + 1;
            note = Some(ShopNote::DamageBought);
        } else {
            note = Some(ShopNote::DamageTooDear(cost));
        }
    }
    if keys.swings {
        let cost = upgrades.swings_cost();
        if try_buy(cost, wallet) {
            upgrades.swings_lvl = upgrades.swings_lvl + 1;
            note = Some(ShopNote::SwingsBought);
        } else {
            note = Some(ShopNote::SwingsTooDear(cost));
        }
    }
    if keys.capacity {
        let cost = upgrades.capacity_cost();
        if try_buy(cost, wallet) {
            upgrades.capacity_lvl = upgrades.capacity_lvl + 1;
            note = Some(ShopNote::CapacityBought(upgrades.capacity()));
        } else {
            note = Some(ShopNote::CapacityTooDear(cost));
        }
    }
    if keys.recall && !upgrades.recall {
        if try_buy(RECALL_COST, wallet) {
            upgrades.recall = true;
            note = Some(ShopNote::RecallBought);
        } else {
            note = Some(ShopNote::RecallTooDear);
        }
    }
    note
}

/// What a purchase took, given the level before and after.
pub open spec fn spent(price: int, before: u32, after: u32) -> int {
    if after == before {
        0
    } else {
        price
    }
}

/// The depot's books balance: credits afterwards are credits before, plus the
/// worth of the hold if it was sold, minus the price of everything bought.
pub proof fn law_trade_balances(b: Books, keys: ShopKeys)
    requires
        b.load == 0 ==> b.worth == 0,
        trade_fits(b, keys),
    ensures
        traded(b, keys).0.money + spent(
            damage_price(b.ups.damage_lvl),
            b.ups.damage_lvl,
            traded(b, keys).0.ups.damage_lvl,
        ) + spent(
            swings_price(b.ups.swings_lvl),
            b.ups.swings_lvl,
            traded(b, keys).0.ups.swings_lvl,
        ) + spent(
            capacity_price(b.ups.capacity_lvl),
            b.ups.capacity_lvl,
            traded(b, keys).0.ups.capacity_lvl,
        ) + if traded(b, keys).0.ups.recall && !b.ups.recall {
            RECALL_COST as int
        } else {
            0
        } == b.money + if keys.sell {
            b.worth
        } else {
            0
        },
{
}

/// The depot serves every key, selling first: a hold with anything in it turns
/// into credits; then each level whose key is pressed is bought if what is left
/// by then covers its price, and only then; and the recall device once.
pub proof fn law_depot_serves_each_key(b: Books, keys: ShopKeys)
    requires
        trade_fits(b, keys),
        b.ups.damage_lvl < u32::MAX,
        b.ups.swings_lvl < u32::MAX,
        b.ups.capacity_lvl < u32::MAX,
    ensures
        ({
            let after = traded(b, keys).0;
            let sold = keys.sell && b.load != 0;
            let m0 = b.money + if sold {
                b.worth
            } else {
                0
            };
            let d = keys.damage && m0 >= damage_price(b.ups.damage_lvl);
            let m1 = m0 - if d {
                damage_price(b.ups.damage_lvl)
            } else {
                0
            };
            let w = keys.swings && m1 >= swings_price(b.ups.swings_lvl);
            let m2 = m1 - if w {
                swings_price(b.ups.swings_lvl)
            } else {
                0
            };
            let c = keys.capacity && m2 >= capacity_price(b.ups.capacity_lvl);
            let m3 = m2 - if c {
                capacity_price(b.ups.capacity_lvl)
            } else {
                0
            };
            let r = keys.recall && !b.ups.recall && m3 >= 200;
            &&& after.load == if sold {
                0
            } else {
                b.load
            }
            &&& after.worth == if sold {
                0
            } else {
                b.worth
            }
            &&& d <==> after.ups.damage_lvl == b.ups.damage_lvl + 1
            &&& !d <==> after.ups.damage_lvl == b.ups.damage_lvl
            &&& w <==> after.ups.swings_lvl == b.ups.swings_lvl + 1
            &&& !w <==> after.ups.swings_lvl == b.ups.swings_lvl
            &&& c <==> after.ups.capacity_lvl == b.ups.capacity_lvl + 1
            &&& !c <==> after.ups.capacity_lvl == b.ups.capacity_lvl
            &&& after.ups.recall == (b.ups.recall || r)
            &&& after.money == m3 - if r {
                200int
            } else {
                0
            }
        }),
{
}

/// The depot answers: the last key pressed that has anything to say is the one
/// that is heard, and it says what became of it. Without a key there is silence.
pub proof fn law_depot_answers(b: Books, keys: ShopKeys)
    requires
        trade_fits(b, keys),
        b.ups.damage_lvl < u32::MAX,
        b.ups.swings_lvl < u32::MAX,
        b.ups.capacity_lvl < u32::MAX,
        0 <= b.load <= u32::MAX,
        0 <= b.worth <= u64::MAX,
    ensures
        ({
            let (after, note) = traded(b, keys);
            if keys.recall && !b.ups.recall {
                note == Some(
                    if after.ups.recall {
                        ShopNote::RecallBought
                    } else {
                        ShopNote::RecallTooDear
                    },
                )
            } else if keys.capacity {
                if after.ups.capacity_lvl > b.ups.capacity_lvl {
                    note == Some(
                        ShopNote::CapacityBought((16 + 8 * after.ups.capacity_lvl) as u32),
                    )
                } else {
                    note == Some(
                        ShopNote::CapacityTooDear(capacity_price(b.ups.capacity_lvl) as u64),
                    )
                }
            } else if keys.swings {
                if after.ups.swings_lvl > b.ups.swings_lvl {
                    note == Some(ShopNote::SwingsBought)
                } else {
                    note == Some(ShopNote::SwingsTooDear(swings_price(b.ups.swings_lvl) as u64))
                }
            } else if keys.damage {
                if after.ups.damage_lvl > b.ups.damage_lvl {
                    note == Some(ShopNote::DamageBought)
                } else {
                    note == Some(ShopNote::DamageTooDear(damage_price(b.ups.damage_lvl) as u64))
                }
            } else if keys.sell {
                if b.load == 0 {
                    note == Some(ShopNote::NothingToSell)
                } else {
                    note == Some(ShopNote::Sold { units: b.load as u32, value: b.worth as u64 })
                }
            } else {
                note is None
            }
        }),
{
}

/// Nobody goes into debt at the depot.
pub proof fn law_no_debt(b: Books, keys: ShopKeys)
    requires
        b.money >= 0,
        b.worth >= 0,
    ensures
        traded(b, keys).0.money >= 0,
{
}

/// Levels only ever rise, by one at most, and the recall device is kept.
pub proof fn law_levels_only_rise(b: Books, keys: ShopKeys)
    requires
        trade_fits(b, keys),
    ensures
        b.ups.damage_lvl <= traded(b, keys).0.ups.damage_lvl <= b.ups.damage_lvl + 1,
        b.ups.swings_lvl <= traded(b, keys).0.ups.swings_lvl <= b.ups.swings_lvl + 1,
        b.ups.capacity_lvl <= traded(b, keys).0.ups.capacity_lvl <= b.ups.capacity_lvl + 1,
        b.ups.recall ==> traded(b, keys).0.ups.recall,
{
}

/// The status line for a note. `figure` is the upgraded statistic, where the
/// line shows one.
pub open spec fn note_text(n: ShopNote, figure: Seq<char>) -> Seq<char> {
    match n {
        ShopNote::NothingToSell => "Nothing to sell \u{2014} go dig!"@,
        ShopNote::Sold { units, value } => "Sold "@ + decimal(units as nat) + " items for $"@
            + decimal(value as nat),
        ShopNote::DamageBought => "Pickaxe damage \u{2192} "@ + figure,
        ShopNote::DamageTooDear(cost) => "Need $"@ + decimal(cost as nat)
            + " for damage upgrade"@,
        ShopNote::SwingsBought => "Swing speed \u{2192} "@ + figure + "/s"@,
        ShopNote::SwingsTooDear(cost) => "Need $"@ + decimal(cost as nat) + " for speed upgrade"@,
        ShopNote::CapacityBought(c) => "Pack capacity \u{2192} "@ + decimal(c as nat),
        ShopNote::CapacityTooDear(cost) => "Need $"@ + decimal(cost as nat) + " for pack upgrade"@,
        ShopNote::RecallBought => "Recall device online \u{2014} [T] surface, [G] dive to depth"@,
        ShopNote::RecallTooDear => "Need $"@ + decimal(RECALL_COST as nat)
            + " for the recall device"@,
    }
}

fn priced(cost: u64, what: &str) -> (s: String)
    ensures
        s@ == "Need $"@ + decimal(cost as nat) + what@,
{
    let mut s = "Need $".to_owned();
    push_decimal(&mut s, cost);
    s.append(what);
    s
}

/// The status line for a note.
pub fn note_line(n: ShopNote, figure: &str) -> (s: String)
    ensures
        s@ == note_text(n, figure@),
        n is NothingToSell ==> s@ == "Nothing to sell \u{2014} go dig!"@,
        n matches ShopNote::Sold { units, value } ==> s@ == "Sold "@ + decimal(units as nat)
            + " items for $"@ + decimal(value as nat),
        n is DamageBought ==> s@ == "Pickaxe damage \u{2192} "@ + figure@,
        n is SwingsBought ==> s@ == "Swing speed \u{2192} "@ + figure@ + "/s"@,
        n matches ShopNote::CapacityBought(c) ==> s@ == "Pack capacity \u{2192} "@ + decimal(
            c as nat,
        ),
        n matches ShopNote::DamageTooDear(c) ==> s@ == "Need $"@ + decimal(c as nat)
            + " for damage upgrade"@,
        n matches ShopNote::SwingsTooDear(c) ==> s@ == "Need $"@ + decimal(c as nat)
            + " for speed upgrade"@,
        n matches ShopNote::CapacityTooDear(c) ==> s@ == "Need $"@ + decimal(c as nat)
            + " for pack upgrade"@,
        n is RecallTooDear ==> s@ == "Need $"@ + decimal(200) + " for the recall device"@,
{
    match n {
        ShopNote::NothingToSell => "Nothing to sell \u{2014} go dig!".to_owned(),
        ShopNote::Sold { units, value } => {
            let mut s = "Sold ".to_owned();
            push_decimal(&mut s, units as u64);
            s.append(" items for $");
            push_decimal(&mut s, value);
            s
        },
        ShopNote::DamageBought => {
            let mut s = "Pickaxe damage \u{2192} ".to_owned();
            s.append(figure);
            s
        },
        ShopNote::DamageTooDear(cost) => priced(cost, " for damage upgrade"),
        ShopNote::SwingsBought => {
            let mut s = "Swing speed \u{2192} ".to_owned();
            s.append(figure);
            s.append("/s");
            s
        },
        ShopNote::SwingsTooDear(cost) => priced(cost, " for speed upgrade"),
        ShopNote::CapacityBought(c) => {
            let mut s = "Pack capacity \u{2192} ".to_owned();
            push_decimal(&mut s, c as u64);
            s
        },
        ShopNote::CapacityTooDear(cost) => priced(cost, " for pack upgrade"),
        ShopNote::RecallBought => {
            "Recall device online \u{2014} [T] surface, [G] dive to depth".to_owned()
        },
        ShopNote::RecallTooDear => priced(RECALL_COST, " for the recall device"),
    }
}

/// Jumps that the recall device makes this frame.
#[derive(Clone, Copy, PartialEq, Eq, Structural, Debug)]
pub struct Jumps {
    /// To the spawn point.
    pub surface: bool,
    /// From there on to the farthest site.
    pub dive: bool,
}

/// What the recall keys do: nothing without the device; [G] needs a site worth
/// returning to. The dive comes last, so it wins.
pub fn teleport(recall: bool, t_pressed: bool, g_pressed: bool, been_deep: bool) -> (j: Jumps)
    ensures
        j.surface == (recall && t_pressed),
        j.dive == (recall && g_pressed && been_deep),
{
    Jumps { surface: recall && t_pressed, dive: recall && g_pressed && been_deep }
}

/// Transient status line. `T` is the clock that it is shown by.
pub struct StatusMsg<T> {
    pub text: String,
    pub ttl: T,
}

impl<T> StatusMsg<T> {
    /// Show a line for the full time.
    pub fn set(&mut self, text: String, full: T)
        ensures
            final(self).text == text,
            final(self).ttl == full,
    {
        self.text = text;
        self.ttl = full;
    }
}

/// What becomes of a drop this frame.
#[derive(Clone, Copy, PartialEq, Eq, Structural, Debug)]
pub enum Pickup {
    /// Out of the magnet's range.
    Ignored,
    /// In range, but the pack is full.
    PackFull,
    /// Touched: on board.
    Collected,
    /// Drawn towards the player.
    Pulled,
}

/// A drop as the pickup pass sees it.
#[derive(Clone, Copy, PartialEq, Eq, Structural, Debug)]
pub struct DropSight {
    pub id: u8,
    pub band: i32,
    /// Within the magnet's range.
    pub in_range: bool,
    /// Close enough to touch.
    pub touching: bool,
}

/// What becomes of a drop, given whether the pack is full when its turn comes.
pub open spec fn pickup_of(full: bool, d: DropSight) -> Pickup {
    if !d.in_range {
        Pickup::Ignored
    } else if full {
        Pickup::PackFull
    } else if d.touching {
        Pickup::Collected
    } else {
        Pickup::Pulled
    }
}

/// What becomes of the `i`-th drop: it is judged against the room that the
/// drops before it have left in a pack of `cap` units, `load` of them taken at
/// the start.
pub open spec fn fate(load: int, cap: int, drops: Seq<DropSight>, i: int) -> Pickup
    decreases i, 1int,
{
    pickup_of(load + collected(load, cap, drops, i) >= cap, drops[i])
}

/// Number of drops among the first `n` that are taken on board.
pub open spec fn collected(load: int, cap: int, drops: Seq<DropSight>, n: int) -> int
    decreases n, 0int,
{
    if n <= 0 {
        0
    } else {
        collected(load, cap, drops, n - 1) + if fate(load, cap, drops, n - 1) is Collected {
            1int
        } else {
            0
        }
    }
}

/// How many of the first `n` drops are of one kind and taken on board.
pub open spec fn collected_of(
    load: int,
    cap: int,
    drops: Seq<DropSight>,
    n: int,
    id: u8,
    band: i32,
) -> int
    decreases n,
{
    if n <= 0 {
        0
    } else {
        collected_of(load, cap, drops, n - 1, id, band) + if fate(load, cap, drops, n - 1)
            is Collected && drops[n - 1].id == id && drops[n - 1].band == band {
            1int
        } else {
            0
        }
    }
}

/// What the drops among the first `n` that are taken on board are worth.
pub open spec fn collected_worth(load: int, cap: int, drops: Seq<DropSight>, n: int) -> int
    decreases n,
{
    if n <= 0 {
        0
    } else {
        collected_worth(load, cap, drops, n - 1) + if fate(load, cap, drops, n - 1) is Collected {
            loot_worth(drops[n - 1].id, drops[n - 1].band as int)
        } else {
            0
        }
    }
}

/// The pickup pass of one frame: every drop is judged against the room left
/// when its turn comes, and what is touched goes on board.
pub fn pickup_pass(inventory: &mut Inventory, upgrades: &Upgrades, drops: &Vec<DropSight>) -> (r: Vec<
    Pickup,
>)
    requires
        old(inventory).wf(),
        capacity_at(upgrades.capacity_lvl as int) <= u32::MAX,
    ensures
        final(inventory).wf(),
        r.len() == drops.len(),
        ({
            let load = old(inventory).load();
            let cap = capacity_at(upgrades.capacity_lvl as int);
            let n = drops.len() as int;
            &&& forall|i: int| 0 <= i < n ==> #[trigger] r@[i] == fate(load, cap, drops@, i)
            &&& final(inventory).load() == load + collected(load, cap, drops@, n)
            &&& final(inventory).load() <= if load >= cap {
                load
            } else {
                cap
            }
            &&& final(inventory).worth() == old(inventory).worth() + collected_worth(
                load,
                cap,
                drops@,
                n,
            )
            &&& forall|id: u8, band: i32| #[trigger]
                count_of(final(inventory)@, id, band) == count_of(old(inventory)@, id, band)
                    + collected_of(load, cap, drops@, n, id, band)
        }),
{
    let room: u32 = upgrades.capacity();
    let ghost before = *inventory;
    let ghost load = inventory.load();
    let ghost cap = capacity_at(upgrades.capacity_lvl as int);
    let mut r: Vec<Pickup> = Vec::new();
    let mut i: usize = 0;
    while i < drops.len()
        invariant
            i <= drops.len(),
            r.len() == i,
            inventory.wf(),
            room == cap,
            load == before.load(),
            inventory.load() == load + collected(load, cap, drops@, i as int),
            inventory.load() <= if load >= cap {
                load
            } else {
                cap
            },
            inventory.worth() == before.worth() + collected_worth(load, cap, drops@, i as int),
            forall|j: int| 0 <= j < i ==> #[trigger] r@[j] == fate(load, cap, drops@, j),
            forall|id: u8, band: i32| #[trigger]
                count_of(inventory@, id, band) == count_of(before@, id, band) + collected_of(
                    load,
                    cap,
                    drops@,
                    i as int,
                    id,
                    band,
                ),
        decreases drops.len() - i,
    {
        let d = drops[i];
        let full = inventory.units() >= room;
        assert(fate(load, cap, drops@, i as int) == pickup_of(full, d));
        if !d.in_range {
            r.push(Pickup::Ignored);
        } else if full {
            r.push(Pickup::PackFull);
        } else if d.touching {
            inventory.add(d.id, d.band);
            r.push(Pickup::Collected);
        } else {
            r.push(Pickup::Pulled);
        }
        i += 1;
    }
    r
}

/// The pack never goes over its capacity: drops are taken only while there is
/// room, however many are touched in one frame.
pub proof fn law_capacity_is_never_exceeded(load: int, cap: int, drops: Seq<DropSight>, n: int)
    ensures
        load <= cap ==> load + collected(load, cap, drops, n) <= cap,
        collected(load, cap, drops, n) >= 0,
    decreases n,
{
    if n > 0 {
        law_capacity_is_never_exceeded(load, cap, drops, n - 1);
        assert(fate(load, cap, drops, n - 1) == pickup_of(
            load + collected(load, cap, drops, n - 1) >= cap,
            drops[n - 1],
        ));
    }
}

/// A full pack takes nothing on board.
pub proof fn law_full_pack_takes_nothing(load: int, cap: int, drops: Seq<DropSight>, n: int)
    requires
        load >= cap,
    ensures
        collected(load, cap, drops, n) == 0,
    decreases n,
{
    if n > 0 {
        law_full_pack_takes_nothing(load, cap, drops, n - 1);
        assert(fate(load, cap, drops, n - 1) == pickup_of(
            load + collected(load, cap, drops, n - 1) >= cap,
            drops[n - 1],
        ));
    }
}

/// Every drop meets its fate by range, room and touch: out of the magnet's
/// range it is let be; in range a full pack refuses it; with room left it is
/// taken if it is touched, and drawn closer if not. Room is what the drops taken
/// before it have left.
pub proof fn law_drops_are_judged_in_turn(load: int, cap: int, drops: Seq<DropSight>, i: int)
    requires
        0 <= i < drops.len(),
    ensures
        ({
            let d = drops[i];
            let r = fate(load, cap, drops, i);
            let full = load + collected(load, cap, drops, i) >= cap;
            &&& r is Ignored <==> !d.in_range
            &&& r is PackFull <==> d.in_range && full
            &&& r is Collected <==> d.in_range && !full && d.touching
            &&& r is Pulled <==> d.in_range && !full && !d.touching
            &&& collected(load, cap, drops, i + 1) == collected(load, cap, drops, i)
                + if d.in_range && !full && d.touching {
                1int
            } else {
                0
            }
            &&& collected(load, cap, drops, 0) == 0
        }),
{
    assert(fate(load, cap, drops, i) == pickup_of(
        load + collected(load, cap, drops, i) >= cap,
        drops[i],
    ));
}

/// What is taken on board is what was collected: kind by kind one unit for each
/// drop collected, at its value.
pub proof fn law_collected_drops_are_on_board(
    load: int,
    cap: int,
    drops: Seq<DropSight>,
    i: int,
    id: u8,
    band: i32,
)
    requires
        0 <= i < drops.len(),
    ensures
        ({
            let took = fate(load, cap, drops, i) is Collected;
            &&& collected_of(load, cap, drops, 0, id, band) == 0
            &&& collected_worth(load, cap, drops, 0) == 0
            &&& collected_of(load, cap, drops, i + 1, id, band) == collected_of(
                load,
                cap,
                drops,
                i,
                id,
                band,
            ) + if took && drops[i].id == id && drops[i].band == band {
                1int
            } else {
                0
            }
            &&& collected_worth(load, cap, drops, i + 1) == collected_worth(load, cap, drops, i)
                + if took {
                loot_worth(drops[i].id, drops[i].band as int)
            } else {
                0
            }
        }),
{
}

/// With room for all, everything that is touched comes along.
pub proof fn law_roomy_pack_takes_all_it_touches(load: int, cap: int, drops: Seq<DropSight>, i: int)
    requires
        0 <= i < drops.len(),
        load + drops.len() <= cap,
    ensures
        fate(load, cap, drops, i) is Collected <==> drops[i].in_range && drops[i].touching,
{
    lemma_collected_bound(load, cap, drops, i);
    law_drops_are_judged_in_turn(load, cap, drops, i);
}

proof fn lemma_collected_bound(load: int, cap: int, drops: Seq<DropSight>, n: int)
    requires
        0 <= n,
    ensures
        0 <= collected(load, cap, drops, n) <= n,
    decreases n,
{
    if n > 0 {
        lemma_collected_bound(load, cap, drops, n - 1);
    }
}

} // verus!
