//! The swarm bench: how many sprites there are, and what their keys do.
use vstd::prelude::*;

verus! {

pub const ENTITY_COUNT_DEFAULT: u32 = 100_000;

pub const ENTITY_COUNT_MIN: u32 = 1;

pub const ENTITY_COUNT_MAX: u32 = 4_000_000;

/// Frames of the running animation.
pub const WARRIOR_FRAMES: u32 = 6;

/// Count, pause flag, and a small generator of scatter.
#[derive(Clone, Copy, PartialEq, Eq, Structural, Debug)]
pub struct SimState {
    pub entity_count: u32,
    pub paused: bool,
    pub rng_state: u64,
}

/// One step of the generator.
pub open spec fn xorshift(x: u64) -> u64 {
    let a = x ^ (x << 13);
    let b = a ^ (a >> 7);
    b ^ (b << 17)
}

impl SimState {
    pub fn new(entity_count: u32) -> (s: Self)
        ensures
            s == (SimState { entity_count, paused: false, rng_state: 0xCAFE_BABE_DEAD_BEEF }),
    {
        SimState { entity_count, paused: false, rng_state: 0xCAFE_BABE_DEAD_BEEF }
    }

    /// The next number.
    pub fn next_u64(&mut self) -> (x: u64)
        ensures
            x == xorshift(old(self).rng_state),
            ({
                let a = old(self).rng_state ^ (old(self).rng_state << 13);
                let b = a ^ (a >> 7);
                x == b ^ (b << 17)
            }),
            *final(self) == (SimState { rng_state: x, ..*old(self) }),
    {
        let mut x: u64 = self.rng_state;
        x = x ^ (x << 13);
        x = x ^ (x >> 7);
        x = x ^ (x << 17);
        self.rng_state = x;
        x
    }

    /// The next number in [0, 1), times `2^24`.
    pub fn rand_unit(&mut self) -> (u: u64)
        ensures
            u == xorshift(old(self).rng_state) >> 40,
            u < 0x100_0000,
            *final(self) == (SimState {
                rng_state: xorshift(old(self).rng_state),
                ..*old(self)
            }),
    {
        let x = self.next_u64();
        assert(x >> 40 < 0x100_0000) by (bit_vector);
        x >> 40
    }
}

/// The generator never gets stuck: from a state other than zero it never
/// reaches zero.
pub proof fn law_generator_never_sticks(x: u64)
    requires
        x != 0,
    ensures
        xorshift(x) != 0,
{
    let a = x ^ (x << 13);
    let b = a ^ (a >> 7);
    assert(a != 0) by (bit_vector)
        requires
            x != 0,
            a == x ^ (x << 13),
    ;
    assert(b != 0) by (bit_vector)
        requires
            a != 0,
            b == a ^ (a >> 7),
    ;
    assert(b ^ (b << 17) != 0) by (bit_vector)
        requires
            b != 0,
    ;
}

/// A count within the bench's limits.
pub open spec fn count_clamped(n: int) -> int {
    if n < ENTITY_COUNT_MIN {
        ENTITY_COUNT_MIN as int
    } else if n > ENTITY_COUNT_MAX {
        ENTITY_COUNT_MAX as int
    } else {
        n
    }
}

/// A count within the bench's limits.
pub fn clamp_count(n: u32) -> (c: u32)
    ensures
        c == count_clamped(n as int),
        1 <= c <= 4_000_000,
        1 <= n <= 4_000_000 ==> c == n,
        n < 1 ==> c == 1,
        n > 4_000_000 ==> c == 4_000_000,
{
    if n < ENTITY_COUNT_MIN {
        ENTITY_COUNT_MIN
    } else if n > ENTITY_COUNT_MAX {
        ENTITY_COUNT_MAX
    } else {
        n
    }
}

/// Keys pressed this frame.
#[derive(Clone, Copy, PartialEq, Eq, Structural, Debug)]
pub struct SimKeys {
    pub pause: bool,
    pub more: bool,
    pub fewer: bool,
    pub reset: bool,
}

/// The count that the keys ask for: doubled or halved within limits. Asking for
/// more wins.
pub open spec fn count_asked(n: u32, keys: SimKeys) -> Option<u32> {
    if keys.more {
        Some(
            if 2 * n <= ENTITY_COUNT_MAX {
                (2 * n) as u32
            } else {
                ENTITY_COUNT_MAX
            },
        )
    } else if keys.fewer {
        Some(
            if n / 2 >= ENTITY_COUNT_MIN {
                n / 2
            } else {
                ENTITY_COUNT_MIN
            },
        )
    } else {
        None
    }
}

/// Handle this frame's keys. Tells whether the swarm has to be spawned anew:
/// only if there is one already.
pub fn handle_input(s: &mut SimState, keys: SimKeys, existing: bool) -> (respawn: bool)
    ensures
        final(s).paused == (old(s).paused != keys.pause),
        final(s).entity_count == match count_asked(old(s).entity_count, keys) {
            Some(n) => n,
            None => old(s).entity_count,
        },
        final(s).rng_state == old(s).rng_state,
        respawn == (existing && (keys.more || keys.fewer || keys.reset)),
        keys.more ==> final(s).entity_count == if 2 * old(s).entity_count <= 4_000_000 {
            2 * old(s).entity_count
        } else {
            4_000_000
        },
        !keys.more && keys.fewer ==> final(s).entity_count == if old(s).entity_count / 2 >= 1 {
            old(s).entity_count / 2
        } else {
            1
        },
        !keys.more && !keys.fewer ==> final(s).entity_count == old(s).entity_count,
{
    if keys.pause {
        s.paused = !s.paused;
    }
    let mut asked: Option<u32> = None;
    if keys.more {
        let doubled: u32 = if s.entity_count <= 0x7fff_ffff {
            s.entity_count * 2
        } else {
            u32::MAX
        };
        asked =
        Some(
            if doubled > ENTITY_COUNT_MAX {
                ENTITY_COUNT_MAX
            } else {
                doubled
            },
        );
    } else if keys.fewer {
        let halved: u32 = s.entity_count / 2;
        asked =
        Some(
            if halved < ENTITY_COUNT_MIN {
                ENTITY_COUNT_MIN
            } else {
                halved
            },
        );
    }
    let respawn = (asked.is_some() || keys.reset) && existing;
    if let Some(n) = asked {
        s.entity_count = n;
    }
    respawn
}

/// The count stays within the bench's limits, whatever is pressed.
pub proof fn law_count_stays_in_limits(n: u32, keys: SimKeys)
    requires
        ENTITY_COUNT_MIN <= n <= ENTITY_COUNT_MAX,
    ensures
        count_asked(n, keys) matches Some(c) ==> ENTITY_COUNT_MIN <= c <= ENTITY_COUNT_MAX,
{
}

/// The animation frame after the clock has advanced by some frames. `None` if
/// it has not advanced.
pub fn next_frame(frame: u32, advanced: u32) -> (r: Option<u32>)
    requires
        frame + advanced <= u32::MAX,
    ensures
        r == if advanced == 0 {
            None
        } else {
            Some(((frame + advanced) % WARRIOR_FRAMES as int) as u32)
        },
{
    if advanced == 0 {
        None
    } else {
        Some((frame + advanced) % WARRIOR_FRAMES)
    }
}

/// State of the generator after `n` steps.
pub open spec fn shifted(x: u64, n: int) -> u64
    decreases n,
{
    if n <= 0 {
        x
    } else {
        xorshift(shifted(x, n - 1))
    }
}

/// The next `n` unit draws, in order. A scattered sprite takes five of them (x,
/// y, velocity along both, mass), an exploding one three (angle, speed, mass).
pub fn draws(s: &mut SimState, n: usize) -> (d: Vec<u64>)
    ensures
        d.len() == n,
        forall|i: int|
            0 <= i < n ==> #[trigger] d@[i] == shifted(old(s).rng_state, i + 1) >> 40 && d@[i]
                < 0x100_0000,
        *final(s) == (SimState { rng_state: shifted(old(s).rng_state, n as int), ..*old(s) }),
{
    let ghost before = *s;
    let mut d: Vec<u64> = Vec::new();
    while d.len() < n
        invariant
            d.len() <= n,
            *s == (SimState { rng_state: shifted(before.rng_state, d.len() as int), ..before }),
            forall|i: int|
                0 <= i < d.len() ==> #[trigger] d@[i] == shifted(before.rng_state, i + 1) >> 40
                    && d@[i] < 0x100_0000,
        decreases n - d.len(),
    {
        let u = s.rand_unit();
        d.push(u);
    }
    d
}

/// The keys double and halve: asking for more doubles the count and asking for
/// fewer halves it, as far as the limits go; where both fit, one undoes the
/// other.
pub proof fn law_doubling_and_halving(n: u32, more: SimKeys, fewer: SimKeys)
    requires
        more.more,
        !fewer.more,
        fewer.fewer,
        1 <= n <= 4_000_000,
    ensures
        count_asked(n, more) is Some,
        count_asked(n, fewer) is Some,
        2 * n <= 4_000_000 ==> count_asked(n, more)->0 == 2 * n && count_asked(
            count_asked(n, more)->0,
            fewer,
        ) == Some(n),
        2 * n > 4_000_000 ==> count_asked(n, more)->0 == 4_000_000,
        n >= 2 ==> 2 * count_asked(n, fewer)->0 <= n <= 2 * count_asked(n, fewer)->0 + 1,
        n == 1 ==> count_asked(n, fewer)->0 == 1,
{
}

/// The generator goes on from where it stands: drawing some numbers and then
/// more is drawing them all at once.
pub proof fn law_draws_go_on(x: u64, m: int, n: int)
    requires
        0 <= m,
        0 <= n,
    ensures
        shifted(shifted(x, m), n) == shifted(x, m + n),
        shifted(x, 0) == x,
        ({
            let y = shifted(x, n);
            let a = y ^ (y << 13);
            let b = a ^ (a >> 7);
            shifted(x, n + 1) == b ^ (b << 17)
        }),
    decreases n,
{
    if n > 0 {
        law_draws_go_on(x, m, n - 1);
    }
}

/// The generator never repeats itself early: two states that lead to the same
/// one are the same.
pub proof fn law_generator_loses_nothing(x: u64, y: u64)
    requires
        xorshift(x) == xorshift(y),
    ensures
        x == y,
{
    let (a, c) = (x ^ (x << 13), y ^ (y << 13));
    let (b, d) = (a ^ (a >> 7), c ^ (c >> 7));
    assert(b == d) by (bit_vector)
        requires
            b ^ (b << 17) == d ^ (d << 17),
    ;
    assert(a == c) by (bit_vector)
        requires
            a ^ (a >> 7) == c ^ (c >> 7),
    ;
    assert(x == y) by (bit_vector)
        requires
            x ^ (x << 13) == y ^ (y << 13),
    ;
}

} // verus!
