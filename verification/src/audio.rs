//! Sound: the queue of effects, the clips behind them, and the container that
//! synthesized samples are wrapped in.
use vstd::prelude::*;

verus! {

/// Samples per second.
pub const RATE: u32 = 44_100;

/// Something to be heard. `P` is a playback speed.
#[derive(Clone, Copy)]
pub enum SfxEvent<P> {
    /// Block destroyed. Crystal rings, rock crunches.
    Break { crystal: bool, pitch: P },
    Pickup { pitch: P },
    Sell,
    Buy,
    Deny,
    Explosion,
    Plant,
    Land,
    WarpUp,
    WarpDown,
    Overheat,
    Vent,
}

/// One of the clips synthesized at startup.
#[derive(Clone, Copy, PartialEq, Eq, Structural, Debug)]
pub enum Clip {
    RockBreak,
    CrystalBreak,
    Pickup,
    Sell,
    Buy,
    Deny,
    Explosion,
    Plant,
    Land,
    WarpUp,
    WarpDown,
    Overheat,
    Vent,
}

/// How an event is played: clip, volume in percent, and playback speed.
#[derive(Clone, Copy)]
pub struct Playback<P> {
    pub clip: Clip,
    pub volume: u32,
    pub speed: P,
}

/// How an event is played. `unit` is the normal speed.
pub open spec fn playback_of<P>(e: SfxEvent<P>, unit: P) -> Playback<P> {
    match e {
        SfxEvent::Break { crystal, pitch } => if crystal {
            Playback { clip: Clip::CrystalBreak, volume: 50, speed: pitch }
        } else {
            Playback { clip: Clip::RockBreak, volume: 42, speed: pitch }
        },
        SfxEvent::Pickup { pitch } => Playback { clip: Clip::Pickup, volume: 32, speed: pitch },
        SfxEvent::Sell => Playback { clip: Clip::Sell, volume: 60, speed: unit },
        SfxEvent::Buy => Playback { clip: Clip::Buy, volume: 50, speed: unit },
        SfxEvent::Deny => Playback { clip: Clip::Deny, volume: 45, speed: unit },
        SfxEvent::Explosion => Playback { clip: Clip::Explosion, volume: 90, speed: unit },
        SfxEvent::Plant => Playback { clip: Clip::Plant, volume: 50, speed: unit },
        SfxEvent::Land => Playback { clip: Clip::Land, volume: 35, speed: unit },
        SfxEvent::WarpUp => Playback { clip: Clip::WarpUp, volume: 50, speed: unit },
        SfxEvent::WarpDown => Playback { clip: Clip::WarpDown, volume: 50, speed: unit },
        SfxEvent::Overheat => Playback { clip: Clip::Overheat, volume: 50, speed: unit },
        SfxEvent::Vent => Playback { clip: Clip::Vent, volume: 50, speed: unit },
    }
}

/// How an event is played.
pub fn playback<P: Copy>(e: SfxEvent<P>, unit: P) -> (p: Playback<P>)
    ensures
        p == playback_of(e, unit),
{
    match e {
        SfxEvent::Break { crystal, pitch } => {
            if crystal {
                Playback { clip: Clip::CrystalBreak, volume: 50, speed: pitch }
            } else {
                Playback { clip: Clip::RockBreak, volume: 42, speed: pitch }
            }
        },
        SfxEvent::Pickup { pitch } => Playback { clip: Clip::Pickup, volume: 32, speed: pitch },
        SfxEvent::Sell => Playback { clip: Clip::Sell, volume: 60, speed: unit },
        SfxEvent::Buy => Playback { clip: Clip::Buy, volume: 50, speed: unit },
        SfxEvent::Deny => Playback { clip: Clip::Deny, volume: 45, speed: unit },
        SfxEvent::Explosion => Playback { clip: Clip::Explosion, volume: 90, speed: unit },
        SfxEvent::Plant => Playback { clip: Clip::Plant, volume: 50, speed: unit },
        SfxEvent::Land => Playback { clip: Clip::Land, volume: 35, speed: unit },
        SfxEvent::WarpUp => Playback { clip: Clip::WarpUp, volume: 50, speed: unit },
        SfxEvent::WarpDown => Playback { clip: Clip::WarpDown, volume: 50, speed: unit },
        SfxEvent::Overheat => Playback { clip: Clip::Overheat, volume: 50, speed: unit },
        SfxEvent::Vent => Playback { clip: Clip::Vent, volume: 50, speed: unit },
    }
}

/// Events waiting to be played, oldest first.
pub struct SfxQueue<P> {
    events: Vec<SfxEvent<P>>,
}

impl<P> View for SfxQueue<P> {
    type V = Seq<SfxEvent<P>>;

    closed spec fn view(&self) -> Seq<SfxEvent<P>> {
        self.events@
    }
}

impl<P: Copy> SfxQueue<P> {
    pub fn new() -> (q: Self)
        ensures
            q@ == Seq::<SfxEvent<P>>::empty(),
    {
        SfxQueue { events: Vec::new() }
    }

    pub fn push(&mut self, e: SfxEvent<P>)
        ensures
            final(self)@ == old(self)@.push(e),
    {
        self.events.push(e);
    }

    /// Empty the queue into a list of what to play, in order.
    pub fn play_queued(&mut self, unit: P) -> (played: Vec<Playback<P>>)
        ensures
            final(self)@ == Seq::<SfxEvent<P>>::empty(),
            played@ == old(self)@.map_values(|e: SfxEvent<P>| playback_of(e, unit)),
    {
        let ghost before = self@;
        let mut played: Vec<Playback<P>> = Vec::new();
        while played.len() < self.events.len()
            invariant
                played.len() <= self.events.len(),
                self.events@ == before,
                forall|i: int|
                    0 <= i < played.len() ==> #[trigger] played@[i] == playback_of(before[i], unit),
            decreases self.events.len() - played.len(),
        {
            let e = self.events[played.len()];
            played.push(playback(e, unit));
        }
        self.events.clear();
        assert(played@ =~= before.map_values(|e: SfxEvent<P>| playback_of(e, unit)));
        played
    }
}

/// What to do about a looping sound.
#[derive(Clone, Copy, PartialEq, Eq, Structural, Debug)]
pub enum LoopAction {
    Start,
    /// It keeps running; its speed may be tuned.
    Keep,
    Stop,
    Idle,
}

/// What to do about a looping sound, given whether it runs and whether it
/// should.
pub fn loop_action(running: bool, wanted: bool) -> (a: LoopAction)
    ensures
        a == if running {
            if wanted {
                LoopAction::Keep
            } else {
                LoopAction::Stop
            }
        } else {
            if wanted {
                LoopAction::Start
            } else {
                LoopAction::Idle
            }
        },
{
    match (running, wanted) {
        (false, true) => LoopAction::Start,
        (true, true) => LoopAction::Keep,
        (true, false) => LoopAction::Stop,
        (false, false) => LoopAction::Idle,
    }
}

/// A 16-bit word, low byte first.
pub open spec fn le16(n: int) -> Seq<u8> {
    seq![(n % 256) as u8, (n / 256 % 256) as u8]
}

/// A 32-bit word, low byte first.
pub open spec fn le32(n: int) -> Seq<u8> {
    seq![
        (n % 256) as u8,
        (n / 256 % 256) as u8,
        (n / 0x1_0000 % 256) as u8,
        (n / 0x100_0000 % 256) as u8,
    ]
}

/// Header of a 16-bit mono file with `n` samples.
pub open spec fn wav_header(n: int) -> Seq<u8> {
    seq![0x52u8, 0x49, 0x46, 0x46] + le32(36 + 2 * n) + seq![
        0x57u8,
        0x41,
        0x56,
        0x45,
        0x66,
        0x6d,
        0x74,
        0x20,
    ] + le32(16) + le16(1) + le16(1) + le32(RATE as int) + le32(RATE * 2) + le16(2) + le16(16)
        + seq![0x64u8, 0x61, 0x74, 0x61] + le32(2 * n)
}

/// A sample as an unsigned word.
pub open spec fn word_of(s: i16) -> int {
    if s >= 0 {
        s as int
    } else {
        s + 0x1_0000
    }
}

/// The samples, one word each.
pub open spec fn wav_data(samples: Seq<i16>) -> Seq<u8>
    decreases samples.len(),
{
    if samples.len() == 0 {
        Seq::empty()
    } else {
        wav_data(samples.drop_last()) + le16(word_of(samples.last()))
    }
}

fn push16(b: &mut Vec<u8>, n: u16)
    ensures
        final(b)@ == old(b)@ + le16(n as int),
{
    let ghost before = b@;
    b.push((n % 256) as u8);
    b.push((n / 256) as u8);
    assert(b@ =~= before + le16(n as int));
}

fn push32(b: &mut Vec<u8>, n: u32)
    ensures
        final(b)@ == old(b)@ + le32(n as int),
{
    let ghost before = b@;
    b.push((n % 256) as u8);
    b.push((n / 256 % 256) as u8);
    b.push((n / 0x1_0000 % 256) as u8);
    b.push((n / 0x100_0000) as u8);
    assert(b@ =~= before + le32(n as int));
}

fn push_tag(b: &mut Vec<u8>, w: u8, x: u8, y: u8, z: u8)
    ensures
        final(b)@ == old(b)@ + seq![w, x, y, z],
{
    let ghost before = b@;
    b.push(w);
    b.push(x);
    b.push(y);
    b.push(z);
    assert(b@ =~= before + seq![w, x, y, z]);
}

/// Wrap samples in a 16-bit mono file.
pub fn wav(samples: &Vec<i16>) -> (b: Vec<u8>)
    requires
        36 + 2 * samples.len() <= u32::MAX,
    ensures
        b@ == wav_header(samples.len() as int) + wav_data(samples@),
{
    let n: u32 = samples.len() as u32;
    let data_len: u32 = n * 2;
    let mut b: Vec<u8> = Vec::new();
    push_tag(&mut b, 0x52, 0x49, 0x46, 0x46);
    push32(&mut b, 36 + data_len);
    push_tag(&mut b, 0x57, 0x41, 0x56, 0x45);
    push_tag(&mut b, 0x66, 0x6d, 0x74, 0x20);
    push32(&mut b, 16);
    push16(&mut b, 1);
    push16(&mut b, 1);
    push32(&mut b, RATE);
    push32(&mut b, RATE * 2);
    push16(&mut b, 2);
    push16(&mut b, 16);
    push_tag(&mut b, 0x64, 0x61, 0x74, 0x61);
    push32(&mut b, data_len);
    assert(b@ =~= wav_header(n as int));
    let mut i: usize = 0;
    assert(samples@.take(0) =~= Seq::empty());
    assert(b@ =~= wav_header(n as int) + wav_data(samples@.take(0)));
    while i < samples.len()
        invariant
            i <= samples.len(),
            b@ == wav_header(n as int) + wav_data(samples@.take(i as int)),
        decreases samples.len() - i,
    {
        let s: i16 = samples[i];
        let w: u16 = if s >= 0 {
            s as u16
        } else {
            (s as i32 + 0x1_0000) as u16
        };
        let ghost t = samples@.take(i + 1);
        assert(t.drop_last() =~= samples@.take(i as int));
        push16(&mut b, w);
        assert(b@ =~= wav_header(n as int) + wav_data(t));
        i += 1;
    }
    assert(samples@.take(samples@.len() as int) =~= samples@);
    b
}

proof fn lemma_data_at(samples: Seq<i16>, i: int)
    requires
        0 <= i < samples.len(),
    ensures
        wav_data(samples).len() == 2 * samples.len(),
        wav_data(samples)[2 * i] == (word_of(samples[i]) % 256) as u8,
        wav_data(samples)[2 * i + 1] == (word_of(samples[i]) / 256 % 256) as u8,
    decreases samples.len(),
{
    lemma_data_len(samples.drop_last());
    if i < samples.len() - 1 {
        lemma_data_at(samples.drop_last(), i);
    }
}

proof fn lemma_data_len(samples: Seq<i16>)
    ensures
        wav_data(samples).len() == 2 * samples.len(),
    decreases samples.len(),
{
    if samples.len() > 0 {
        lemma_data_len(samples.drop_last());
    }
}

/// A file holds its samples and nothing else: 44 bytes of header, then two
/// bytes per sample from which the sample can be read back.
pub proof fn law_samples_can_be_read_back(samples: Seq<i16>, i: int)
    requires
        0 <= i < samples.len(),
    ensures
        ({
            let file = wav_header(samples.len() as int) + wav_data(samples);
            &&& file.len() == 44 + 2 * samples.len()
            &&& word_of(samples[i]) == file[44 + 2 * i] + 256 * file[45 + 2 * i]
        }),
{
    lemma_data_at(samples, i);
    assert(wav_header(samples.len() as int).len() == 44);
}

/// A sample is stored as it is: the two bytes of each, low byte first, are its
/// value, with 65536 added to a negative one.
pub proof fn law_samples_are_stored_as_they_are(samples: Seq<i16>, i: int)
    requires
        0 <= i < samples.len(),
    ensures
        ({
            let file = wav_header(samples.len() as int) + wav_data(samples);
            let word = file[44 + 2 * i] + 256 * file[45 + 2 * i];
            &&& samples[i] >= 0 ==> word == samples[i]
            &&& samples[i] < 0 ==> word == samples[i] + 65_536
        }),
{
    law_samples_can_be_read_back(samples, i);
}

/// `k` steps of a crossfade turned `s` into `after`: step `k` blends sample `k`
/// into the one that lies `n` before the end, `k` further on.
pub open spec fn faded<S, M: Fn(S, S, usize) -> S>(
    s: Seq<S>,
    n: int,
    mix: M,
    k: int,
    after: Seq<S>,
) -> bool
    decreases k,
{
    if k <= 0 {
        after == s
    } else {
        exists|mid: Seq<S>|
            faded(s, n, mix, k - 1, mid) && #[trigger] fade_step(mid, n, mix, k - 1, after)
    }
}

/// One step of a crossfade.
pub open spec fn fade_step<S, M: Fn(S, S, usize) -> S>(
    s: Seq<S>,
    n: int,
    mix: M,
    k: int,
    after: Seq<S>,
) -> bool {
    let at = s.len() - n + k;
    &&& after == s.update(at, after[at])
    &&& mix.ensures((s[at], s[k], k as usize), after[at])
}

/// Steps that a crossfade of `n` samples takes: at most half of the clip.
pub open spec fn fade_steps(len: int, n: int) -> int {
    if n <= len / 2 {
        n
    } else {
        len / 2
    }
}

/// Crossfade the last `n` samples into the first so that a loop has no seam.
pub fn loopify<S: Copy, M: Fn(S, S, usize) -> S>(samples: Vec<S>, n: usize, mix: &M) -> (r: Vec<S>)
    requires
        n <= samples.len() || samples.len() < 2,
        forall|a: S, b: S, k: usize| #[trigger] mix.requires((a, b, k)),
    ensures
        r.len() == samples.len(),
        faded(samples@, n as int, *mix, fade_steps(samples.len() as int, n as int), r@),
        n <= samples.len() / 2 ==> faded(samples@, n as int, *mix, n as int, r@),
        n > samples.len() / 2 ==> faded(
            samples@,
            n as int,
            *mix,
            samples.len() as int / 2,
            r@,
        ),
{
    let mut s = samples;
    let len = s.len();
    let half: usize = len / 2;
    let steps: usize = if n <= half {
        n
    } else {
        half
    };
    let mut k: usize = 0;
    while k < steps
        invariant
            k <= steps,
            s.len() == len,
            len == samples@.len(),
            steps <= len / 2,
            steps <= n,
            n <= len || len < 2,
            forall|a: S, b: S, k: usize| #[trigger] mix.requires((a, b, k)),
            faded(samples@, n as int, *mix, k as int, s@),
        decreases steps - k,
    {
        let ghost mid = s@;
        let at: usize = len - n + k;
        let v = mix(s[at], s[k], k);
        s.set(at, v);
        assert(s@ =~= mid.update(at as int, s@[at as int]));
        assert(fade_step(mid, n as int, *mix, (k + 1) - 1, s@));
        k += 1;
    }
    s
}

/// Every event has its own sound: two events are played from one clip only if
/// they are of one kind, at a volume that can be heard, at the speed they ask
/// for, or at the normal one if they ask for none.
pub proof fn law_events_sound_different<P>(e: SfxEvent<P>, f: SfxEvent<P>, unit: P)
    ensures
        0 < playback_of(e, unit).volume <= 100,
        e matches SfxEvent::Break { crystal, pitch } ==> playback_of(e, unit).speed == pitch
            && playback_of(e, unit).clip == if crystal {
            Clip::CrystalBreak
        } else {
            Clip::RockBreak
        },
        e matches SfxEvent::Pickup { pitch } ==> playback_of(e, unit).speed == pitch,
        !(e is Break) && !(e is Pickup) ==> playback_of(e, unit).speed == unit,
        playback_of(e, unit).clip == playback_of(f, unit).clip ==> {
            &&& e is Break <==> f is Break
            &&& e is Pickup <==> f is Pickup
            &&& e is Sell <==> f is Sell
            &&& e is Buy <==> f is Buy
            &&& e is Deny <==> f is Deny
            &&& e is Explosion <==> f is Explosion
            &&& e is Plant <==> f is Plant
            &&& e is Land <==> f is Land
            &&& e is WarpUp <==> f is WarpUp
            &&& e is WarpDown <==> f is WarpDown
            &&& e is Overheat <==> f is Overheat
            &&& e is Vent <==> f is Vent
            &&& e matches SfxEvent::Break { crystal, pitch } ==> f matches SfxEvent::Break {
                crystal: other,
                pitch: _,
            } && crystal == other
        },
        e is Pickup <==> playback_of(e, unit).clip is Pickup,
        e is Sell <==> playback_of(e, unit).clip is Sell,
        e is Buy <==> playback_of(e, unit).clip is Buy,
        e is Deny <==> playback_of(e, unit).clip is Deny,
        e is Explosion <==> playback_of(e, unit).clip is Explosion,
        e is Plant <==> playback_of(e, unit).clip is Plant,
        e is Land <==> playback_of(e, unit).clip is Land,
        e is WarpUp <==> playback_of(e, unit).clip is WarpUp,
        e is WarpDown <==> playback_of(e, unit).clip is WarpDown,
        e is Overheat <==> playback_of(e, unit).clip is Overheat,
        e is Vent <==> playback_of(e, unit).clip is Vent,
        e matches SfxEvent::Break { crystal, pitch: _ } ==> playback_of(e, unit).volume
            == if crystal {
            50int
        } else {
            42
        },
        e is Pickup ==> playback_of(e, unit).volume == 32,
        e is Sell ==> playback_of(e, unit).volume == 60,
        e is Deny ==> playback_of(e, unit).volume == 45,
        e is Explosion ==> playback_of(e, unit).volume == 90,
        e is Land ==> playback_of(e, unit).volume == 35,
        e is Buy || e is Plant || e is WarpUp || e is WarpDown || e is Overheat || e is Vent
            ==> playback_of(e, unit).volume == 50,
{
}

/// The header tells the truth: the sizes in it are those of the file and of its
/// samples, and it names the rate, one channel and sixteen bits.
pub proof fn law_header_tells_the_truth(samples: Seq<i16>)
    requires
        36 + 2 * samples.len() <= u32::MAX,
    ensures
        ({
            let f = wav_header(samples.len() as int) + wav_data(samples);
            &&& f.len() == 44 + 2 * samples.len()
            &&& f[4] + 256 * f[5] + 0x1_0000 * f[6] + 0x100_0000 * f[7] == f.len() - 8
            &&& f[40] + 256 * f[41] + 0x1_0000 * f[42] + 0x100_0000 * f[43] == 2 * samples.len()
            &&& f[24] + 256 * f[25] + 0x1_0000 * f[26] + 0x100_0000 * f[27] == 44_100
            &&& f[28] + 256 * f[29] + 0x1_0000 * f[30] + 0x100_0000 * f[31] == 88_200
            &&& f[20] == 1 && f[21] == 0
            &&& f[22] == 1 && f[23] == 0
            &&& f[32] == 2 && f[33] == 0
            &&& f[34] == 16 && f[35] == 0
            &&& f[0] == 0x52 && f[1] == 0x49 && f[2] == 0x46 && f[3] == 0x46
            &&& f[8] == 0x57 && f[9] == 0x41 && f[10] == 0x56 && f[11] == 0x45
            &&& f[36] == 0x64 && f[37] == 0x61 && f[38] == 0x74 && f[39] == 0x61
        }),
{
    lemma_data_len(samples);
    let n = samples.len() as int;
    let h = wav_header(n);
    lemma_word_reads_back(36 + 2 * n);
    lemma_word_reads_back(2 * n);
    lemma_header_fields(n);
    let f = h + wav_data(samples);
    assert(f.len() == 44 + 2 * n);
    assert forall|i: int| 0 <= i < 44 implies #[trigger] f[i] == h[i] by {}
}

proof fn lemma_word_reads_back(m: int)
    requires
        0 <= m <= u32::MAX,
    ensures
        le32(m)[0] + 256 * le32(m)[1] + 0x1_0000 * le32(m)[2] + 0x100_0000 * le32(m)[3] == m,
{
    let q = m / 256;
    let r = q / 256;
    let s = r / 256;
    vstd::arithmetic::div_mod::lemma_div_denominator(m, 256, 256);
    vstd::arithmetic::div_mod::lemma_div_denominator(m, 0x1_0000, 256);
    assert(m / 0x1_0000 == r && m / 0x100_0000 == s);
    assert(m == 256 * q + m % 256 && q == 256 * r + q % 256 && r == 256 * s + r % 256);
    assert(0 <= s < 256);
    assert(s % 256 == s);
    assert(le32(m)[0] == m % 256);
    assert(le32(m)[1] == q % 256);
    assert(le32(m)[2] == r % 256);
    assert(le32(m)[3] == s);
}

proof fn lemma_header_fields(n: int)
    ensures
        ({
            let h = wav_header(n);
            let (a, b) = (le32(36 + 2 * n), le32(2 * n));
            &&& h.len() == 44
            &&& h[0] == 0x52 && h[1] == 0x49 && h[2] == 0x46 && h[3] == 0x46
            &&& h[4] == a[0] && h[5] == a[1] && h[6] == a[2] && h[7] == a[3]
            &&& h[8] == 0x57 && h[9] == 0x41 && h[10] == 0x56 && h[11] == 0x45
            &&& h[20] == 1 && h[21] == 0 && h[22] == 1 && h[23] == 0
            &&& h[24] == 0x44 && h[25] == 0xac && h[26] == 0 && h[27] == 0
            &&& h[28] == 0x88 && h[29] == 0x58 && h[30] == 1 && h[31] == 0
            &&& h[32] == 2 && h[33] == 0 && h[34] == 16 && h[35] == 0
            &&& h[36] == 0x64 && h[37] == 0x61 && h[38] == 0x74 && h[39] == 0x61
            &&& h[40] == b[0] && h[41] == b[1] && h[42] == b[2] && h[43] == b[3]
        }),
{
    let (a, b) = (le32(36 + 2 * n), le32(2 * n));
    let riff = seq![0x52u8, 0x49, 0x46, 0x46] + a + seq![
        0x57u8,
        0x41,
        0x56,
        0x45,
        0x66,
        0x6d,
        0x74,
        0x20,
    ];
    let form = le32(16) + le16(1) + le16(1) + le32(RATE as int) + le32(RATE * 2) + le16(2) + le16(
        16,
    );
    let data = seq![0x64u8, 0x61, 0x74, 0x61] + b;
    assert(wav_header(n) =~= riff + form + data);
    assert(riff.len() == 16 && form.len() == 20 && data.len() == 8);
    assert(form =~= seq![
        16u8,
        0,
        0,
        0,
        1,
        0,
        1,
        0,
        0x44,
        0xac,
        0,
        0,
        0x88,
        0x58,
        1,
        0,
        2,
        0,
        16,
        0,
    ]);
}

/// A crossfade touches the tail only: samples before the last `n` stay as they
/// are, and so do those beyond the steps it takes.
pub proof fn law_crossfade_touches_the_tail<S, M: Fn(S, S, usize) -> S>(
    s: Seq<S>,
    n: int,
    mix: M,
    k: int,
    after: Seq<S>,
    i: int,
)
    requires
        faded(s, n, mix, k, after),
        0 <= n <= s.len(),
        k <= n,
        0 <= i < s.len(),
        i < s.len() - n || i >= s.len() - n + k,
    ensures
        after.len() == s.len(),
        after[i] == s[i],
    decreases k,
{
    if k > 0 {
        let mid = choose|mid: Seq<S>|
            faded(s, n, mix, k - 1, mid) && #[trigger] fade_step(mid, n, mix, k - 1, after);
        law_crossfade_touches_the_tail(s, n, mix, k - 1, mid, i);
    }
}

/// A loop has no seam: each sample of the tail is blended with the sample at
/// its place in the head, as long as head and tail do not overlap.
pub proof fn law_crossfade_blends_head_into_tail<S, M: Fn(S, S, usize) -> S>(
    s: Seq<S>,
    n: int,
    mix: M,
    k: int,
    after: Seq<S>,
    j: int,
)
    requires
        faded(s, n, mix, k, after),
        2 * n <= s.len(),
        0 <= j < k <= n <= usize::MAX,
    ensures
        mix.ensures((s[s.len() - n + j], s[j], j as usize), after[s.len() - n + j]),
    decreases k,
{
    let mid = choose|mid: Seq<S>|
        faded(s, n, mix, k - 1, mid) && #[trigger] fade_step(mid, n, mix, k - 1, after);
    law_crossfade_touches_the_tail(s, n, mix, k - 1, mid, 0);
    if j < k - 1 {
        law_crossfade_blends_head_into_tail(s, n, mix, k - 1, mid, j);
    } else {
        law_crossfade_touches_the_tail(s, n, mix, k - 1, mid, s.len() - n + j);
        law_crossfade_touches_the_tail(s, n, mix, k - 1, mid, j);
    }
}

} // verus!
