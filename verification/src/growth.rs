//! Geometric growth in whole units: `base * (num / den)^n`, rounded to the
//! nearest integer (halves up) and capped at the largest `u64`.
//!
//! The value is kept exact: an integer part and a fraction written out in base
//! `den`, one digit more after every step.
use vstd::arithmetic::power::{lemma_pow0, lemma_pow1, lemma_pow_adds, lemma_pow_positive, pow};
use vstd::prelude::*;

verus! {

/// The integer nearest to `n / d`, halves rounded up.
pub open spec fn nearest(n: int, d: int) -> int {
    (2 * n + d) / (2 * d)
}

/// `m`, or the largest `u64` if that is smaller.
pub open spec fn capped(m: int) -> int {
    if m <= u64::MAX {
        m
    } else {
        u64::MAX as int
    }
}

/// `base * (num / den)^n`, to the nearest unit and capped.
pub open spec fn grown(base: int, num: int, den: int, n: nat) -> int {
    capped(nearest(base * pow(num, n), pow(den, n)))
}

/// The same for an exponent of either sign.
pub open spec fn grown_by(base: int, num: int, den: int, e: int) -> int {
    if e >= 0 {
        grown(base, num, den, e as nat)
    } else {
        grown(base, den, num, (-e) as nat)
    }
}

/// The number written as integer part `q` and base-`den` digits, times
/// `den^(number of digits)`.
spec fn whole(q: int, digits: Seq<u64>, den: int) -> int
    decreases digits.len(),
{
    if digits.len() == 0 {
        q
    } else {
        whole(q, digits.drop_last(), den) * den + digits.last()
    }
}

spec fn small(digits: Seq<u64>, den: int) -> bool {
    forall|i: int| 0 <= i < digits.len() ==> #[trigger] digits[i] < den
}

/// Multiplies the number by `num` and adds `c` to its last place.
fn mul_add(q: u128, digits: &mut Vec<u64>, num: u64, den: u64, c: u64) -> (r: u128)
    requires
        0 < den <= 1000,
        num <= 1000,
        c <= num,
        q <= u64::MAX,
        small(old(digits)@, den as int),
    ensures
        final(digits).len() == old(digits).len(),
        small(final(digits)@, den as int),
        whole(r as int, final(digits)@, den as int) == whole(
            q as int,
            old(digits)@,
            den as int,
        ) * num + c,
        r <= q * num + num,
    decreases old(digits).len(),
{
    let ghost before = digits@;
    match digits.pop() {
        None => {
            assert(q * num <= u64::MAX * 1000) by (nonlinear_arith)
                requires
                    q <= u64::MAX,
                    num <= 1000,
            ;
            q * num as u128 + c as u128
        },
        Some(last) => {
            assert(last == before.last());
            assert(before[before.len() - 1] < den);
            assert(small(digits@, den as int)) by {
                assert forall|i: int| 0 <= i < digits@.len() implies #[trigger] digits@[i]
                    < den by {
                    assert(before[i] < den);
                }
            }
            assert(last * num + c <= 999 * 1000 + 1000 && last * num + c <= den * num) by (
            nonlinear_arith)
                requires
                    last <= den - 1,
                    den <= 1000,
                    num <= 1000,
                    c <= num,
            ;
            let t: u64 = last * num + c;
            let up: u64 = t / den;
            let digit: u64 = t % den;
            assert(up <= num) by (nonlinear_arith)
                requires
                    up == t / den,
                    t <= den * num,
                    den > 0,
            ;
            let ghost init = digits@;
            let r = mul_add(q, digits, num, den, up);
            let ghost grown = digits@;
            digits.push(digit);
            proof {
                assert(digits@.drop_last() =~= grown);
                assert(before.drop_last() =~= init);
                assert(t == up * den + digit) by (nonlinear_arith)
                    requires
                        up == t / den,
                        digit == t % den,
                        den > 0,
                ;
                let w = whole(q as int, init, den as int);
                assert((w * num + up) * den + digit == (w * den + last) * num + c)
                    by (nonlinear_arith)
                    requires
                        t == up * den + digit,
                        t == last * num + c,
                ;
            }
            r
        },
    }
}

/// Moving the integer part's last base-`den` digit behind the point divides by
/// `den` without changing the digits' value.
proof fn lemma_shift(q: int, digits: Seq<u64>, den: int, d: u64)
    requires
        den > 0,
        q >= 0,
        d == q % den,
    ensures
        whole(q / den, seq![d] + digits, den) == whole(q, digits, den),
    decreases digits.len(),
{
    let all = seq![d] + digits;
    if digits.len() == 0 {
        assert(all =~= seq![d]);
        assert(all.drop_last() =~= Seq::<u64>::empty());
        reveal_with_fuel(whole, 2);
        assert(q / den * den + q % den == q) by (nonlinear_arith)
            requires
                den > 0,
        ;
    } else {
        assert(all.drop_last() =~= seq![d] + digits.drop_last());
        assert(all.last() == digits.last());
        lemma_shift(q, digits.drop_last(), den, d);
    }
}

/// The digits are a fraction below one.
proof fn lemma_fraction(q: int, digits: Seq<u64>, den: int)
    requires
        den > 0,
        small(digits, den),
    ensures
        q * pow(den, digits.len()) <= whole(q, digits, den) < (q + 1) * pow(den, digits.len()),
        whole(q, digits, den) == q * pow(den, digits.len()) + whole(0, digits, den),
    decreases digits.len(),
{
    lemma_pow0(den);
    if digits.len() > 0 {
        let init = digits.drop_last();
        assert(small(init, den)) by {
            assert forall|i: int| 0 <= i < init.len() implies #[trigger] init[i] < den by {
                assert(digits[i] < den);
            }
        }
        lemma_fraction(q, init, den);
        lemma_fraction(0, init, den);
        lemma_pow1(den);
        lemma_pow_adds(den, init.len(), 1);
        let p = pow(den, init.len());
        let w = whole(q, init, den);
        let w0 = whole(0, init, den);
        let last = digits.last();
        assert(digits[digits.len() - 1] < den);
        assert(q * (p * den) <= w * den + last < (q + 1) * (p * den)) by (nonlinear_arith)
            requires
                q * p <= w,
                w + 1 <= (q + 1) * p,
                0 <= last < den,
                den > 0,
        ;
        assert(w * den + last == q * (p * den) + (w0 * den + last)) by (nonlinear_arith)
            requires
                w == q * p + w0,
        ;
    }
}

/// Rounding a number given by integer part and fraction.
proof fn lemma_round(n: int, d: int, q: int, f: int, up: int)
    requires
        d > 0,
        n == q * d + f,
        0 <= f < d,
        up * d <= 2 * f < (up + 1) * d,
    ensures
        nearest(n, d) == q + up,
        up == 0 || up == 1,
{
    assert(up == 0 || up == 1) by (nonlinear_arith)
        requires
            up * d <= 2 * f,
            2 * f < (up + 1) * d,
            0 <= f < d,
            d > 0,
    ;
    assert((2 * n + d) / (2 * d) == q + up) by (nonlinear_arith)
        requires
            n == q * d + f,
            up * d <= 2 * f,
            2 * f < (up + 1) * d,
            0 <= f < d,
            d > 0,
            up == 0 || up == 1,
    ;
}

/// Rounding keeps order.
proof fn lemma_nearest_order(a: int, b: int, c: int, d: int)
    requires
        b > 0,
        d > 0,
        a * d <= c * b,
    ensures
        nearest(a, b) <= nearest(c, d),
{
    let x = nearest(a, b);
    let y = nearest(c, d);
    vstd::arithmetic::div_mod::lemma_fundamental_div_mod(2 * a + b, 2 * b);
    vstd::arithmetic::div_mod::lemma_fundamental_div_mod(2 * c + d, 2 * d);
    vstd::arithmetic::div_mod::lemma_mod_bound(2 * a + b, 2 * b);
    vstd::arithmetic::div_mod::lemma_mod_bound(2 * c + d, 2 * d);
    // x * 2b <= 2a + b and (y + 1) * 2d > 2c + d
    assert(2 * b * x <= 2 * a + b);
    assert(2 * d * y + 2 * d > 2 * c + d);
    assert(x <= y) by (nonlinear_arith)
        requires
            2 * b * x <= 2 * a + b,
            2 * d * y + 2 * d > 2 * c + d,
            a * d <= c * b,
            b > 0,
            d > 0,
    ;
}

/// Each further step multiplies the exact value by `num / den`.
proof fn lemma_steps(base: int, num: int, den: int, k: nat, n: nat)
    requires
        base >= 0,
        num > 0,
        den > 0,
        k <= n,
    ensures
        pow(den, k) > 0,
        pow(den, n) > 0,
        num >= den ==> base * pow(num, k) * pow(den, n) <= base * pow(num, n) * pow(den, k),
        num <= den ==> base * pow(num, n) * pow(den, k) <= base * pow(num, k) * pow(den, n),
{
    lemma_pow_positive(den, k);
    lemma_pow_positive(den, n);
    lemma_pow_positive(num, k);
    let r = (n - k) as nat;
    lemma_pow_adds(den, k, r);
    lemma_pow_adds(num, k, r);
    lemma_pow_positive(num, r);
    lemma_pow_positive(den, r);
    lemma_pow_order(num, den, r);
    let (a, b, c, d) = (pow(num, k), pow(den, k), pow(num, r), pow(den, r));
    if num >= den {
        assert(base * a * (b * d) <= base * (a * c) * b) by (nonlinear_arith)
            requires
                base >= 0,
                a > 0,
                b > 0,
                d <= c,
        ;
    }
    if num <= den {
        assert(base * (a * c) * b <= base * a * (b * d)) by (nonlinear_arith)
            requires
                base >= 0,
                a > 0,
                b > 0,
                c <= d,
        ;
    }
}

proof fn lemma_pow_order(a: int, b: int, r: nat)
    requires
        a > 0,
        b > 0,
    ensures
        a >= b ==> pow(a, r) >= pow(b, r),
        a <= b ==> pow(a, r) <= pow(b, r),
    decreases r,
{
    lemma_pow0(a);
    lemma_pow0(b);
    if r > 0 {
        lemma_pow_order(a, b, (r - 1) as nat);
        lemma_pow1(a);
        lemma_pow1(b);
        lemma_pow_adds(a, 1, (r - 1) as nat);
        lemma_pow_adds(b, 1, (r - 1) as nat);
        lemma_pow_positive(a, (r - 1) as nat);
        lemma_pow_positive(b, (r - 1) as nat);
        let (x, y) = (pow(a, (r - 1) as nat), pow(b, (r - 1) as nat));
        if a >= b {
            assert(a * x >= b * y) by (nonlinear_arith)
                requires
                    a >= b > 0,
                    x >= y > 0,
            ;
        }
        if a <= b {
            assert(a * x <= b * y) by (nonlinear_arith)
                requires
                    b >= a > 0,
                    y >= x > 0,
            ;
        }
    }
}

/// `base * (num / den)^n`, to the nearest unit and capped.
pub fn grow(base: u64, num: u64, den: u64, n: u32) -> (r: u64)
    requires
        0 < num <= 1000,
        0 < den <= 1000,
        num != den,
        base <= 1000,
    ensures
        r == grown(base as int, num as int, den as int, n as nat),
{
    let ghost b = base as int;
    let ghost p = num as int;
    let ghost d = den as int;
    let mut q: u128 = base as u128;
    let mut digits: Vec<u64> = Vec::new();
    let mut k: u32 = 0;
    proof {
        lemma_pow0(p);
        lemma_pow0(d);
    }
    loop
        invariant
            0 < num <= 1000,
            0 < den <= 1000,
            num != den,
            b == base,
            p == num,
            d == den,
            k <= n,
            q <= u64::MAX,
            digits.len() == k,
            small(digits@, d),
            whole(q as int, digits@, d) == b * pow(p, k as nat),
        decreases n - k,
    {
        let mut doubled = digits.clone();
        assert(doubled@ =~= digits@);
        let up: u128 = mul_add(0, &mut doubled, 2, den, 0);
        let ghost exact = b * pow(p, k as nat);
        let ghost unit = pow(d, k as nat);
        proof {
            lemma_fraction(q as int, digits@, d);
            lemma_fraction(0, digits@, d);
            lemma_fraction(up as int, doubled@, d);
            lemma_pow_positive(d, k as nat);
            let f = whole(0, digits@, d);
            assert(0 * unit <= f < (0 + 1) * unit);
            assert(0 <= f < unit);
            lemma_round(exact, unit, q as int, f, up as int);
        }
        assert(nearest(exact, unit) == q + up);
        if k == n {
            let total: u128 = q + up;
            return if total > u64::MAX as u128 {
                u64::MAX
            } else {
                total as u64
            };
        }
        if num < den && q + up == 0 {
            proof {
                lemma_steps(b, p, d, k as nat, n as nat);
                lemma_nearest_order(
                    b * pow(p, n as nat),
                    pow(d, n as nat),
                    exact,
                    unit,
                );
                lemma_pow_positive(p, n as nat);
                assert(b * pow(p, n as nat) >= 0) by (nonlinear_arith)
                    requires
                        b >= 0,
                        pow(p, n as nat) > 0,
                ;
                lemma_nearest_order(0, 1, b * pow(p, n as nat), pow(d, n as nat));
            }
            return 0;
        }
        let ghost last_digits = digits@;
        let raised: u128 = mul_add(q, &mut digits, num, den, 0);
        assert(raised <= u64::MAX * num + num && raised <= u64::MAX * 1000 + 1000)
            by (nonlinear_arith)
            requires
                raised <= q * num + num,
                q <= u64::MAX,
                num <= 1000,
        ;
        let digit: u64 = (raised % den as u128) as u64;
        let ghost low = digits@;
        digits.insert(0, digit);
        q = raised / den as u128;
        proof {
            assert(digits@ =~= seq![digit] + low);
            lemma_shift(raised as int, low, d, digit);
            assert(q as int == raised as int / d);
            lemma_pow1(p);
            lemma_pow_adds(p, 1, k as nat);
            assert(exact * p == b * (p * pow(p, k as nat))) by (nonlinear_arith)
                requires
                    exact == b * pow(p, k as nat),
            ;
            assert(small(digits@, d)) by {
                assert forall|i: int| 0 <= i < digits@.len() implies #[trigger] digits@[i]
                    < d by {
                    if i > 0 {
                        assert(digits@[i] == low[i - 1]);
                    }
                }
            }
        }
        k += 1;
        if q > u64::MAX as u128 {
            proof {
                let now = b * pow(p, k as nat);
                let size = pow(d, k as nat);
                lemma_fraction(q as int, digits@, d);
                lemma_pow_positive(d, k as nat);
                // The value has outgrown the cap, so it was growing.
                if num < den {
                    lemma_no_jump(raised as int, d, p);
                }
                lemma_steps(b, p, d, k as nat, n as nat);
                lemma_nearest_order(now, size, b * pow(p, n as nat), pow(d, n as nat));
                assert(nearest(now, size) >= q) by {
                    lemma_nearest_order(q as int, 1, now, size);
                }
            }
            return u64::MAX;
        }
    }
}

/// A number within the cap does not leave it when multiplied by a fraction
/// below one.
proof fn lemma_no_jump(raised: int, den: int, num: int)
    requires
        0 < num < den,
        raised <= u64::MAX * num + num,
    ensures
        raised / den <= u64::MAX,
{
    assert(raised >= den * (raised / den)) by (nonlinear_arith)
        requires
            den > 0,
    ;
    assert(raised / den <= u64::MAX) by (nonlinear_arith)
        requires
            raised >= den * (raised / den),
            raised <= u64::MAX * num + num,
            num + 1 <= den,
            num > 0,
    ;
}

/// `base * (num / den)^e` for an exponent of either sign.
pub fn grow_by(base: u64, num: u64, den: u64, e: i32) -> (r: u64)
    requires
        0 < num <= 1000,
        0 < den <= 1000,
        num != den,
        base <= 1000,
    ensures
        r == grown_by(base as int, num as int, den as int, e as int),
{
    if e >= 0 {
        grow(base, num, den, e as u32)
    } else {
        grow(base, den, num, (-(e as i64)) as u32)
    }
}

/// Growth is geometric: below the cap the value is the whole number nearest to
/// `base * (num / den)^n`; at the cap that number is no smaller than the cap.
pub proof fn law_growth_is_geometric(base: int, num: int, den: int, n: nat)
    requires
        den > 0,
    ensures
        grown(base, num, den, n) <= u64::MAX,
        2 * (grown(base, num, den, n) * pow(den, n)) <= 2 * (base * pow(num, n)) + pow(den, n),
        grown(base, num, den, n) < u64::MAX ==> 2 * (base * pow(num, n)) + pow(den, n) < 2 * ((
        grown(base, num, den, n) + 1) * pow(den, n)),
        grown_by(base, num, den, n as int) == grown(base, num, den, n),
        n > 0 ==> grown_by(base, num, den, -(n as int)) == grown(base, den, num, n),
{
    lemma_pow_positive(den, n);
    let x = base * pow(num, n);
    let d = pow(den, n);
    let q = nearest(x, d);
    vstd::arithmetic::div_mod::lemma_fundamental_div_mod(2 * x + d, 2 * d);
    vstd::arithmetic::div_mod::lemma_mod_bound(2 * x + d, 2 * d);
    assert(2 * (q * d) <= 2 * x + d < 2 * ((q + 1) * d)) by (nonlinear_arith)
        requires
            2 * x + d == 2 * d * q + (2 * x + d) % (2 * d),
            0 <= (2 * x + d) % (2 * d) < 2 * d,
    ;
    let r = capped(q);
    assert(r * d <= q * d) by (nonlinear_arith)
        requires
            r <= q,
            d > 0,
    ;
}

/// Growth from at least `den / (num - den)` units never stalls: one step more
/// is worth strictly more, until the cap is reached.
pub proof fn law_growth_is_strict(base: int, num: int, den: int, n: nat)
    requires
        0 < den < num,
        base * (num - den) >= den,
        grown(base, num, den, n + 1) < u64::MAX,
    ensures
        grown(base, num, den, n) < grown(base, num, den, n + 1),
{
    assert(base > 0) by (nonlinear_arith)
        requires
            base * (num - den) >= den,
            0 < den < num,
    ;
    lemma_pow1(num);
    lemma_pow1(den);
    lemma_pow_adds(num, 1, n);
    lemma_pow_adds(den, 1, n);
    lemma_pow_positive(num, n);
    lemma_pow_positive(den, n);
    lemma_pow_order(num, den, n);
    let x = base * pow(num, n);
    let d = pow(den, n);
    let y = base * pow(num, n + 1);
    let e = pow(den, n + 1);
    let a = nearest(x, d);
    let b = nearest(y, e);
    vstd::arithmetic::div_mod::lemma_fundamental_div_mod(2 * x + d, 2 * d);
    vstd::arithmetic::div_mod::lemma_mod_bound(2 * x + d, 2 * d);
    assert(e > 0) by (nonlinear_arith)
        requires
            e == den * d,
            den > 0,
            d > 0,
    ;
    vstd::arithmetic::div_mod::lemma_fundamental_div_mod(2 * y + e, 2 * e);
    vstd::arithmetic::div_mod::lemma_mod_bound(2 * y + e, 2 * e);
    assert(y == num * x) by (nonlinear_arith)
        requires
            y == base * (num * pow(num, n)),
            x == base * pow(num, n),
    ;
    assert(x * (num - den) >= den * d) by (nonlinear_arith)
        requires
            base * (num - den) >= den,
            x == base * pow(num, n),
            pow(num, n) >= d,
            d > 0,
            den > 0,
            num > den,
    ;
    assert(2 * d * a <= 2 * x + d);
    assert(2 * e * b + 2 * e > 2 * y + e);
    assert(a < b) by (nonlinear_arith)
        requires
            2 * d * a <= 2 * x + d,
            2 * e * b + 2 * e > 2 * y + e,
            y == num * x,
            e == den * d,
            x * (num - den) >= den * d,
            0 < den < num,
            d > 0,
    ;
}

/// Growth by 12/5 from ten units outpaces doubling: one step more is worth
/// more than twice as much, until the cap is reached.
pub proof fn law_growth_beats_doubling(n: nat)
    requires
        grown(10, 12, 5, n + 1) < u64::MAX,
    ensures
        grown(10, 12, 5, n + 1) > 2 * grown(10, 12, 5, n),
{
    lemma_pow1(12);
    lemma_pow1(5);
    lemma_pow_adds(12, 1, n);
    lemma_pow_adds(5, 1, n);
    lemma_pow_positive(12, n);
    lemma_pow_positive(5, n);
    lemma_pow_order(12, 5, n);
    let x = 10 * pow(12, n);
    let d = pow(5, n);
    let y = 10 * pow(12, n + 1);
    let e = pow(5, n + 1);
    let a = nearest(x, d);
    let b = nearest(y, e);
    vstd::arithmetic::div_mod::lemma_fundamental_div_mod(2 * x + d, 2 * d);
    vstd::arithmetic::div_mod::lemma_mod_bound(2 * x + d, 2 * d);
    vstd::arithmetic::div_mod::lemma_fundamental_div_mod(2 * y + e, 2 * e);
    vstd::arithmetic::div_mod::lemma_mod_bound(2 * y + e, 2 * e);
    assert(2 * d * a <= 2 * x + d);
    assert(2 * e * b + 2 * e > 2 * y + e);
    assert(b > 2 * a) by (nonlinear_arith)
        requires
            2 * d * a <= 2 * x + d,
            2 * e * b + 2 * e > 2 * y + e,
            y == 12 * x,
            e == 5 * d,
            x >= 10 * d,
            d > 0,
    ;
}

/// Growth never goes below zero.
pub proof fn lemma_grown_nonneg(base: int, num: int, den: int, e: int)
    requires
        base >= 0,
        num > 0,
        den > 0,
    ensures
        grown_by(base, num, den, e) >= 0,
{
    let (p, d, n) = if e >= 0 {
        (num, den, e as nat)
    } else {
        (den, num, (-e) as nat)
    };
    lemma_pow_positive(p, n);
    lemma_pow_positive(d, n);
    assert(base * pow(p, n) >= 0) by (nonlinear_arith)
        requires
            base >= 0,
            pow(p, n) > 0,
    ;
    lemma_nearest_order(0, 1, base * pow(p, n), pow(d, n));
}

} // verus!
