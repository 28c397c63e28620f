//! Deterministic hashes: no state, the same everywhere.
//!
//! Most users want a number in [0, 1); they get the top 24 bits of a hash, to
//! be divided by `2^24`.
use crate::ivec::IVec3;
use vstd::prelude::*;

verus! {

/// `2^24`: hashes that stand for a number in [0, 1) lie below this.
pub const UNIT: u64 = 0x100_0000;

/// Two rounds of a 64-bit finalizer.
pub open spec fn mixed(x: u64) -> u64 {
    let y = (x ^ (x >> 30)).wrapping_mul(0xBF58_476D_1CE4_E5B9);
    (y ^ (y >> 27)).wrapping_mul(0x94D0_49BB_1331_11EB)
}

fn mix(x: u64) -> (r: u64)
    ensures
        r == mixed(x),
{
    let y: u64 = (x ^ (x >> 30)).wrapping_mul(0xBF58_476D_1CE4_E5B9);
    (y ^ (y >> 27)).wrapping_mul(0x94D0_49BB_1331_11EB)
}

fn top24(x: u64) -> (r: u64)
    ensures
        r == x >> 40,
        r < UNIT,
{
    assert(x >> 40 < 0x100_0000) by (bit_vector);
    x >> 40
}

/// Three coordinates in one word, 21 bits each.
pub open spec fn packed21(v: IVec3) -> u64 {
    (v.x as u64 & 0x1F_FFFF) | ((v.y as u64 & 0x1F_FFFF) << 21) | ((v.z as u64 & 0x1F_FFFF) << 42)
}

/// Hash of a lattice vector under a salt.
pub open spec fn hash3_of(v: IVec3, salt: u64) -> u64 {
    let x = mixed(packed21(v).wrapping_add(salt).wrapping_add(0x9E37_79B9_7F4A_7C15));
    x ^ (x >> 31)
}

/// Hash of a lattice vector under a salt.
pub fn hash3(v: IVec3, salt: u64) -> (r: u64)
    ensures
        r == hash3_of(v, salt),
        ({
            let p = (v.x as u64 & 0x1F_FFFF) | ((v.y as u64 & 0x1F_FFFF) << 21) | ((v.z as u64
                & 0x1F_FFFF) << 42);
            let a = p.wrapping_add(salt).wrapping_add(0x9E37_79B9_7F4A_7C15);
            let b = (a ^ (a >> 30)).wrapping_mul(0xBF58_476D_1CE4_E5B9);
            let c = (b ^ (b >> 27)).wrapping_mul(0x94D0_49BB_1331_11EB);
            r == c ^ (c >> 31)
        }),
{
    let p: u64 = (v.x as u64 & 0x1F_FFFF) | ((v.y as u64 & 0x1F_FFFF) << 21) | ((v.z as u64
        & 0x1F_FFFF) << 42);
    let x: u64 = mix(p.wrapping_add(salt).wrapping_add(0x9E37_79B9_7F4A_7C15));
    x ^ (x >> 31)
}

/// Unit hash of a lattice vector.
pub fn hash_unit(v: IVec3, salt: u64) -> (r: u64)
    ensures
        r == hash3_of(v, salt) >> 40,
        r < UNIT,
{
    top24(hash3(v, salt))
}

/// A salt mixed with the day's.
pub open spec fn salted_with(salt: u64, day: u64) -> u64 {
    salt ^ day.wrapping_mul(0x9E37_79B9_7F4A_7C15)
}

/// A salt mixed with the day's.
pub fn salted(salt: u64, day: u64) -> (r: u64)
    ensures
        r == salted_with(salt, day),
{
    salt ^ day.wrapping_mul(0x9E37_79B9_7F4A_7C15)
}

/// The day that dawns first changes no salt.
pub proof fn law_first_day_salts_nothing(salt: u64)
    ensures
        salted_with(salt, 0) == salt,
{
    assert(0u64.wrapping_mul(0x9E37_79B9_7F4A_7C15) == 0);
    assert(salt ^ 0 == salt) by (bit_vector);
}

/// The `k`-th unit hash drawn from a seed.
pub open spec fn seed_unit_of(seed: u64, k: u64) -> u64 {
    mixed(seed ^ k.wrapping_mul(0x9E37_79B9_7F4A_7C15)) >> 40
}

/// The `k`-th unit hash drawn from a seed.
pub fn seed_unit(seed: u64, k: u64) -> (r: u64)
    ensures
        r == seed_unit_of(seed, k),
        r < UNIT,
        ({
            let a = seed ^ k.wrapping_mul(0x9E37_79B9_7F4A_7C15);
            let b = (a ^ (a >> 30)).wrapping_mul(0xBF58_476D_1CE4_E5B9);
            r == (b ^ (b >> 27)).wrapping_mul(0x94D0_49BB_1331_11EB) >> 40
        }),
{
    top24(mix(seed ^ k.wrapping_mul(0x9E37_79B9_7F4A_7C15)))
}

/// Unit hash of one word.
pub fn hash1(x: u64) -> (r: u64)
    ensures
        r == mixed(x) >> 40,
        r < UNIT,
{
    top24(mix(x))
}

/// Unit hash of an index under a salt.
pub fn hash01(i: u64, salt: u64) -> (r: u64)
    ensures
        r == mixed(i.wrapping_mul(0x9E37_79B9_7F4A_7C15) ^ salt) >> 40,
        r < UNIT,
{
    top24(mix(i.wrapping_mul(0x9E37_79B9_7F4A_7C15) ^ salt))
}

/// Three coordinates in one word, 20 bits each.
pub open spec fn packed20(x: i32, y: i32, z: i32) -> u64 {
    (x as u64 & 0xFFFFF) | ((y as u64 & 0xFFFFF) << 20) | ((z as u64 & 0xFFFFF) << 40)
}

/// Unit hash of a sky cell.
pub fn sky_hash(x: i32, y: i32, z: i32, salt: u64) -> (r: u64)
    ensures
        r == mixed(packed20(x, y, z) ^ salt.wrapping_mul(0x9E37_79B9_7F4A_7C15)) >> 40,
        r == mixed(
            ((x as u64 & 0xFFFFF) | ((y as u64 & 0xFFFFF) << 20) | ((z as u64 & 0xFFFFF) << 40))
                ^ salt.wrapping_mul(0x9E37_79B9_7F4A_7C15),
        ) >> 40,
        r < UNIT,
{
    let p: u64 = (x as u64 & 0xFFFFF) | ((y as u64 & 0xFFFFF) << 20) | ((z as u64 & 0xFFFFF) << 40);
    hash1(p ^ salt.wrapping_mul(0x9E37_79B9_7F4A_7C15))
}

/// Scatter word of a voxel.
pub open spec fn scatter_word(v: IVec3, salt: i32) -> i32 {
    v.x.wrapping_mul(374_761_393) ^ v.y.wrapping_mul(668_265_263) ^ v.z.wrapping_mul(69_273_666)
        ^ salt.wrapping_mul(97_429)
}

/// Unit scatter of a voxel, for loot and debris.
pub fn scatter(v: IVec3, salt: i32) -> (r: u32)
    ensures
        r == (scatter_word(v, salt) as u32) >> 8,
        r == ((v.x.wrapping_mul(374_761_393) ^ v.y.wrapping_mul(668_265_263) ^ v.z.wrapping_mul(
            69_273_666,
        ) ^ salt.wrapping_mul(97_429)) as u32) >> 8,
        r < UNIT,
{
    let h: i32 = v.x.wrapping_mul(374_761_393) ^ v.y.wrapping_mul(668_265_263) ^ v.z.wrapping_mul(
        69_273_666,
    ) ^ salt.wrapping_mul(97_429);
    let w: u32 = h as u32;
    assert(w >> 8 < 0x100_0000) by (bit_vector);
    w >> 8
}

/// Which of eight places a damage number pops up at.
pub fn pop_jitter(v: IVec3) -> (j: i32)
    ensures
        j == (v.x.wrapping_mul(7) ^ v.y.wrapping_mul(13) ^ v.z.wrapping_mul(17)) & 7,
        0 <= j < 8,
{
    let h: i32 = v.x.wrapping_mul(7) ^ v.y.wrapping_mul(13) ^ v.z.wrapping_mul(17);
    assert(0 <= h & 7 < 8) by (bit_vector);
    h & 7
}

/// Brightness jitter of an impostor's vertex, out of 255.
pub fn vertex_jitter(i: u64, seed: u64) -> (j: u64)
    ensures
        j == i.wrapping_mul(0x9E37_79B9).wrapping_add(seed) % 255,
        j < 255,
{
    i.wrapping_mul(0x9E37_79B9).wrapping_add(seed) % 255
}

/// Packing keeps nearby cells apart: two vectors whose coordinates lie within a
/// million of zero are packed into different words.
pub proof fn law_packing_keeps_cells_apart(u: IVec3, v: IVec3)
    requires
        -0x10_0000 <= u.x < 0x10_0000,
        -0x10_0000 <= u.y < 0x10_0000,
        -0x10_0000 <= u.z < 0x10_0000,
        -0x10_0000 <= v.x < 0x10_0000,
        -0x10_0000 <= v.y < 0x10_0000,
        -0x10_0000 <= v.z < 0x10_0000,
        packed21(u) == packed21(v),
    ensures
        u == v,
{
    let (a, b, c) = (u.x, u.y, u.z);
    let (d, e, f) = (v.x, v.y, v.z);
    assert(a == d && b == e && c == f) by (bit_vector)
        requires
            -0x10_0000 <= a < 0x10_0000,
            -0x10_0000 <= b < 0x10_0000,
            -0x10_0000 <= c < 0x10_0000,
            -0x10_0000 <= d < 0x10_0000,
            -0x10_0000 <= e < 0x10_0000,
            -0x10_0000 <= f < 0x10_0000,
            (a as u64 & 0x1F_FFFF) | ((b as u64 & 0x1F_FFFF) << 21) | ((c as u64 & 0x1F_FFFF) << 42)
                == (d as u64 & 0x1F_FFFF) | ((e as u64 & 0x1F_FFFF) << 21) | ((f as u64 & 0x1F_FFFF)
                << 42),
    ;
}

/// A multiplication by a number that has an inverse loses nothing.
proof fn lemma_invertible(x: u64, y: u64, k: u64, inverse: int, q: int)
    requires
        k * inverse == 1 + 0x1_0000_0000_0000_0000 * q,
        x.wrapping_mul(k) == y.wrapping_mul(k),
    ensures
        x == y,
{
    let m: int = 0x1_0000_0000_0000_0000;
    let (a, b) = (x * k, y * k);
    vstd::arithmetic::div_mod::lemma_fundamental_div_mod(a, m);
    vstd::arithmetic::div_mod::lemma_fundamental_div_mod(b, m);
    let t = a / m - b / m;
    assert(a % m == b % m);
    assert(a - b == m * t) by (nonlinear_arith)
        requires
            a == m * (a / m) + a % m,
            b == m * (b / m) + b % m,
            a % m == b % m,
            t == a / m - b / m,
    ;
    let d = x - y;
    assert(d * k == m * t) by (nonlinear_arith)
        requires
            a - b == m * t,
            a == x * k,
            b == y * k,
            d == x - y,
    ;
    assert(d == m * (t * inverse - d * q)) by (nonlinear_arith)
        requires
            d * k == m * t,
            k * inverse == 1 + m * q,
    ;
    let e = t * inverse - d * q;
    assert(e == 0) by (nonlinear_arith)
        requires
            d == m * e,
            -m < d < m,
            m > 0,
    ;
}

/// Mixing loses nothing: two words that mix to the same are the same.
pub proof fn law_mixing_loses_nothing(x: u64, y: u64)
    requires
        mixed(x) == mixed(y),
    ensures
        x == y,
{
    let (a, b) = (x ^ (x >> 30), y ^ (y >> 30));
    let (c, d) = (
        a.wrapping_mul(0xBF58_476D_1CE4_E5B9),
        b.wrapping_mul(0xBF58_476D_1CE4_E5B9),
    );
    let (e, f) = (c ^ (c >> 27), d ^ (d >> 27));
    lemma_invertible(e, f, 0x94D0_49BB_1331_11EB, 0x3196_42B2_D24D_8EC3, 0x1CD3_36ED_A85F_1453);
    assert(c == d) by (bit_vector)
        requires
            c ^ (c >> 27) == d ^ (d >> 27),
    ;
    lemma_invertible(a, b, 0xBF58_476D_1CE4_E5B9, 0x96DE_1B17_3F11_9089, 0x70C3_BCA7_8F27_F46C);
    assert(x == y) by (bit_vector)
        requires
            x ^ (x >> 30) == y ^ (y >> 30),
    ;
}

/// Cells hash apart: on one day, two cells within a million of home never have
/// the same hash.
pub proof fn law_cells_hash_apart(u: IVec3, v: IVec3, salt: u64)
    requires
        -0x10_0000 <= u.x < 0x10_0000,
        -0x10_0000 <= u.y < 0x10_0000,
        -0x10_0000 <= u.z < 0x10_0000,
        -0x10_0000 <= v.x < 0x10_0000,
        -0x10_0000 <= v.y < 0x10_0000,
        -0x10_0000 <= v.z < 0x10_0000,
        hash3_of(u, salt) == hash3_of(v, salt),
    ensures
        u == v,
{
    let (p, q) = (packed21(u), packed21(v));
    let (a, b) = (
        p.wrapping_add(salt).wrapping_add(0x9E37_79B9_7F4A_7C15),
        q.wrapping_add(salt).wrapping_add(0x9E37_79B9_7F4A_7C15),
    );
    let (x, y) = (mixed(a), mixed(b));
    assert(x == y) by (bit_vector)
        requires
            x ^ (x >> 31) == y ^ (y >> 31),
    ;
    law_mixing_loses_nothing(a, b);
    assert(p.wrapping_add(salt) == q.wrapping_add(salt));
    assert(p == q);
    law_packing_keeps_cells_apart(u, v);
}

/// Days differ: on two days a salt is mixed into two different words.
pub proof fn law_salts_differ_by_day(salt: u64, a: u64, b: u64)
    requires
        salted_with(salt, a) == salted_with(salt, b),
    ensures
        a == b,
{
    let x = a.wrapping_mul(0x9E37_79B9_7F4A_7C15);
    let y = b.wrapping_mul(0x9E37_79B9_7F4A_7C15);
    assert(x == y) by (bit_vector)
        requires
            salt ^ x == salt ^ y,
    ;
    lemma_invertible(a, b, 0x9E37_79B9_7F4A_7C15, 0xF1DE_83E1_9937_733D, 0x957B_BF35_006E_D677);
}

} // verus!
