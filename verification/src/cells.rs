//! Boxes of field cells, listed in a fixed order.
use crate::ivec::IVec3;
use vstd::prelude::*;

verus! {

/// Listing order of cells: by z, then y, then x.
pub open spec fn listed_before(a: IVec3, b: IVec3) -> bool {
    a.z < b.z || (a.z == b.z && (a.y < b.y || (a.y == b.y && a.x < b.x)))
}

/// `c` comes before the position (x, y, z) in listing order.
pub open spec fn reached(c: IVec3, x: int, y: int, z: int) -> bool {
    c.z < z || (c.z == z && (c.y < y || (c.y == y && c.x < x)))
}

/// `s` lists the cells of the box from `lo` to `hi` that come before the
/// position (x, y, z), in order.
pub open spec fn lists_up_to(s: Seq<IVec3>, lo: IVec3, hi: IVec3, x: int, y: int, z: int) -> bool {
    &&& forall|i: int, j: int|
        0 <= i < j < s.len() ==> listed_before(#[trigger] s[i], #[trigger] s[j])
    &&& forall|c: IVec3| #[trigger]
        s.contains(c) <==> c@.within(lo@, hi@) && reached(c, x, y, z)
}

/// `s` lists the cells of the box from `lo` to `hi`, both included, each once
/// and in order. At most one sequence does.
pub open spec fn lists_box(s: Seq<IVec3>, lo: IVec3, hi: IVec3) -> bool {
    &&& forall|i: int, j: int|
        0 <= i < j < s.len() ==> listed_before(#[trigger] s[i], #[trigger] s[j])
    &&& forall|c: IVec3| #[trigger] s.contains(c) <==> c@.within(lo@, hi@)
}

/// The cells of the box from `lo` to `hi`, both included. Empty when `lo`
/// exceeds `hi` along some axis.
pub fn cell_box(lo: IVec3, hi: IVec3) -> (s: Vec<IVec3>)
    ensures
        lists_box(s@, lo, hi),
        forall|c: IVec3| #[trigger]
            s@.contains(c) <==> lo.x <= c.x <= hi.x && lo.y <= c.y <= hi.y && lo.z <= c.z <= hi.z,
        forall|i: int, j: int| 0 <= i < j < s@.len() ==> #[trigger] s@[i] != #[trigger] s@[j],
{
    let mut s: Vec<IVec3> = Vec::new();
    let mut z: i64 = lo.z as i64;
    if lo.z > hi.z || lo.y > hi.y || lo.x > hi.x {
        return s;
    }
    while z <= hi.z as i64
        invariant
            lo.x <= hi.x,
            lo.y <= hi.y,
            lo.z <= z <= hi.z + 1,
            lists_up_to(s@, lo, hi, lo.x as int, lo.y as int, z as int),
        decreases hi.z + 1 - z,
    {
        let mut y: i64 = lo.y as i64;
        while y <= hi.y as i64
            invariant
                lo.x <= hi.x,
                lo.y <= y <= hi.y + 1,
                lo.z <= z <= hi.z,
                lists_up_to(s@, lo, hi, lo.x as int, y as int, z as int),
            decreases hi.y + 1 - y,
        {
            let mut x: i64 = lo.x as i64;
            while x <= hi.x as i64
                invariant
                    lo.x <= x <= hi.x + 1,
                    lo.y <= y <= hi.y,
                    lo.z <= z <= hi.z,
                    lists_up_to(s@, lo, hi, x as int, y as int, z as int),
                decreases hi.x + 1 - x,
            {
                let c = IVec3::new(x as i32, y as i32, z as i32);
                let ghost before = s@;
                s.push(c);
                assert forall|d: IVec3| #[trigger]
                    s@.contains(d) <==> d@.within(lo@, hi@) && reached(
                    d,
                    x + 1,
                    y as int,
                    z as int,
                ) by {
                    if before.contains(d) {
                        assert(s@[before.index_of(d)] == d);
                    }
                    assert(s@[before.len() as int] == c);
                    if s@.contains(d) {
                        let i = s@.index_of(d);
                        if i < before.len() {
                            assert(before[i] == d);
                        }
                    }
                    if d@ == c@ {
                        assert(d == c);
                    }
                }
                assert forall|i: int, j: int| 0 <= i < j < s@.len() implies listed_before(
                    #[trigger] s@[i],
                    #[trigger] s@[j],
                ) by {
                    if j == before.len() {
                        assert(before.contains(before[i]));
                    }
                }
                x += 1;
            }
            assert(forall|c: IVec3| #[trigger]
                c@.within(lo@, hi@) ==> (reached(c, x as int, y as int, z as int) <==> reached(
                    c,
                    lo.x as int,
                    y + 1,
                    z as int,
                )));
            y += 1;
        }
        assert(forall|c: IVec3| #[trigger]
            c@.within(lo@, hi@) ==> (reached(c, lo.x as int, y as int, z as int) <==> reached(
                c,
                lo.x as int,
                lo.y as int,
                z + 1,
            )));
        z += 1;
    }
    assert forall|i: int, j: int| 0 <= i < j < s@.len() implies #[trigger] s@[i]
        != #[trigger] s@[j] by {
        assert(listed_before(s@[i], s@[j]));
    }
    s
}

/// A listing of a box holds every cell between its corners, once, and no other;
/// layers of z come one after the other, in them rows of y, in those cells of x.
pub proof fn law_listing_holds_the_box(s: Seq<IVec3>, lo: IVec3, hi: IVec3, c: IVec3, i: int, j: int)
    requires
        lists_box(s, lo, hi),
    ensures
        s.contains(c) <==> lo.x <= c.x <= hi.x && lo.y <= c.y <= hi.y && lo.z <= c.z <= hi.z,
        0 <= i < j < s.len() ==> s[i] != s[j] && s[i].z <= s[j].z && (s[i].z == s[j].z ==> s[i].y
            <= s[j].y) && (s[i].z == s[j].z && s[i].y == s[j].y ==> s[i].x < s[j].x),
{
    if 0 <= i < j < s.len() {
        assert(listed_before(s[i], s[j]));
    }
}

/// A listing is determined by its box.
pub proof fn law_box_listing_is_unique(s: Seq<IVec3>, t: Seq<IVec3>, lo: IVec3, hi: IVec3)
    requires
        lists_box(s, lo, hi),
        lists_box(t, lo, hi),
    ensures
        s == t,
{
    lemma_same_length(s, t, lo, hi);
    assert forall|i: int| 0 <= i < s.len() implies s[i] == t[i] by {
        lemma_same_entry(s, t, lo, hi, i);
    }
    assert(s =~= t);
}

proof fn lemma_same_entry(s: Seq<IVec3>, t: Seq<IVec3>, lo: IVec3, hi: IVec3, i: int)
    requires
        lists_box(s, lo, hi),
        lists_box(t, lo, hi),
        0 <= i < s.len(),
    ensures
        i < t.len(),
        s[i] == t[i],
    decreases i,
{
    if i > 0 {
        lemma_same_entry(s, t, lo, hi, i - 1);
    }
    assert(s.contains(s[i]));
    assert(t.contains(s[i]));
    let j = t.index_of(s[i]);
    assert(t[j] == s[i]);
    if j < i {
        lemma_same_entry(s, t, lo, hi, j);
        assert(listed_before(s[j], s[i]));
    }
    if j > i {
        assert(t.contains(t[i]));
        assert(s.contains(t[i]));
        let k = s.index_of(t[i]);
        assert(s[k] == t[i]);
        assert(listed_before(t[i], t[j]));
        if k < i {
            lemma_same_entry(s, t, lo, hi, k);
            assert(listed_before(t[k], t[i]));
        }
        if k > i {
            assert(listed_before(s[i], s[k]));
        }
    }
}

proof fn lemma_same_length(s: Seq<IVec3>, t: Seq<IVec3>, lo: IVec3, hi: IVec3)
    requires
        lists_box(s, lo, hi),
        lists_box(t, lo, hi),
    ensures
        s.len() == t.len(),
{
    if s.len() > 0 {
        lemma_same_entry(s, t, lo, hi, s.len() - 1);
    }
    if t.len() > 0 {
        lemma_same_entry(t, s, lo, hi, t.len() - 1);
    }
}

} // verus!
