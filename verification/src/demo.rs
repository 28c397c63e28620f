//! The scripted tour: what it looks at, which keys it holds, and when it takes
//! its pictures.
//!
//! `T` is a point in time. Comparisons of times and distances come from the
//! caller as signs.
use vstd::prelude::*;

verus! {

/// Pictures of the tour.
pub const SHOT_COUNT: usize = 8;

/// Progress of the tour.
#[derive(Clone, Copy)]
pub struct DemoState<T> {
    pub arrived_at: Option<T>,
    pub bombed_at: Option<T>,
    pub heading_home_at: Option<T>,
    pub sold_at: Option<T>,
    pub q_fired: bool,
    pub e_fired: bool,
    pub shots_done: u32,
}

/// Where the tour looks.
#[derive(Clone, Copy, PartialEq, Eq, Structural, Debug)]
pub enum Gaze {
    /// Panning over the sky.
    Sky,
    /// Into the hole.
    Hole,
    /// At the ground, to mine it.
    Ground,
    /// At the neighbouring rock.
    Target,
    /// At the depot.
    Depot,
}

/// Where the tour looks: by the clock at first, then by progress.
pub open spec fn gaze_of(panning: bool, staring: bool, mining: bool, bombed: bool, homeward: bool) -> Gaze {
    if panning {
        Gaze::Sky
    } else if staring {
        Gaze::Hole
    } else if mining {
        Gaze::Ground
    } else if !bombed || !homeward {
        Gaze::Target
    } else {
        Gaze::Depot
    }
}

/// Where the tour looks. `panning`, `staring` and `mining` tell whether the
/// clock is before the end of the respective beat.
pub fn gaze<T>(s: &DemoState<T>, panning: bool, staring: bool, mining: bool) -> (g: Gaze)
    ensures
        g == gaze_of(panning, staring, mining, s.bombed_at is Some, s.heading_home_at is Some),
{
    if panning {
        Gaze::Sky
    } else if staring {
        Gaze::Hole
    } else if mining {
        Gaze::Ground
    } else if s.bombed_at.is_none() || s.heading_home_at.is_none() {
        Gaze::Target
    } else {
        Gaze::Depot
    }
}

/// What clocks, distances and speeds say this frame.
#[derive(Clone, Copy, PartialEq, Eq, Structural, Debug)]
pub struct DemoSigns {
    /// The clock is in the beat in which the home rock is mined.
    pub mining_beat: bool,
    /// The clock is in the beat of the outbound flight.
    pub flight_beat: bool,
    /// The flight has only just begun.
    pub lifting: bool,
    /// The target is still some way off.
    pub target_far: bool,
    /// On final approach, and too fast.
    pub target_rush: bool,
    /// Nearly at rest.
    pub stopped: bool,
    /// Within the hover after arrival.
    pub hovering: bool,
    /// Within the retreat after the charge.
    pub retreating: bool,
    /// Within the wait for the boom after that.
    pub waiting: bool,
    /// The depot is still some way off.
    pub depot_far: bool,
    /// Close to the depot, and too fast.
    pub depot_rush: bool,
    /// The charge key has been held long enough.
    pub q_stale: bool,
    /// The trade key has been held long enough.
    pub e_stale: bool,
}

/// Keys held this frame, and taps of the charge and trade keys.
#[derive(Clone, Copy, PartialEq, Eq, Structural, Debug)]
pub struct DemoKeys {
    pub laser: bool,
    pub forward: bool,
    pub back: bool,
    pub up: bool,
    pub brake: bool,
    pub tap_q: bool,
    pub tap_e: bool,
    pub release_q: bool,
    pub release_e: bool,
}

/// No key at all.
pub open spec fn no_keys() -> DemoKeys {
    DemoKeys {
        laser: false,
        forward: false,
        back: false,
        up: false,
        brake: false,
        tap_q: false,
        tap_e: false,
        release_q: false,
        release_e: false,
    }
}

/// The beat of the tour this frame, before keys are let go.
pub open spec fn beat<T>(s: DemoState<T>, now: T, e: DemoSigns) -> (DemoState<T>, DemoKeys) {
    if e.mining_beat {
        (s, DemoKeys { laser: true, ..no_keys() })
    } else if e.flight_beat && s.arrived_at is None {
        if e.target_far {
            (
                s,
                DemoKeys { up: e.lifting, forward: true, brake: e.target_rush, ..no_keys() },
            )
        } else {
            (
                if e.stopped {
                    DemoState { arrived_at: Some(now), ..s }
                } else {
                    s
                },
                DemoKeys { up: e.lifting, brake: true, ..no_keys() },
            )
        }
    } else if s.arrived_at is Some {
        if s.bombed_at is None {
            if e.hovering {
                (s, DemoKeys { laser: true, brake: true, ..no_keys() })
            } else if !s.q_fired {
                (
                    DemoState { q_fired: true, bombed_at: Some(now), ..s },
                    DemoKeys { tap_q: true, ..no_keys() },
                )
            } else {
                (s, no_keys())
            }
        } else if e.retreating {
            (s, DemoKeys { back: true, ..no_keys() })
        } else if e.waiting {
            (s, DemoKeys { brake: true, ..no_keys() })
        } else if s.heading_home_at is None {
            (DemoState { heading_home_at: Some(now), ..s }, no_keys())
        } else if e.depot_far {
            (s, DemoKeys { forward: true, brake: e.depot_rush, ..no_keys() })
        } else if !s.e_fired {
            (
                DemoState { e_fired: true, sold_at: Some(now), ..s },
                DemoKeys { tap_e: true, ..no_keys() },
            )
        } else {
            (s, no_keys())
        }
    } else {
        (s, no_keys())
    }
}

/// One frame of the tour: the beat, then stale keys are let go.
pub open spec fn toured<T>(s: DemoState<T>, now: T, e: DemoSigns) -> (DemoState<T>, DemoKeys) {
    let (t, k) = beat(s, now, e);
    (
        t,
        DemoKeys {
            release_q: !t.q_fired || (t.bombed_at is Some && e.q_stale),
            release_e: t.e_fired && t.sold_at is Some && e.e_stale,
            ..k
        },
    )
}

impl<T: Copy> DemoState<T> {
    pub fn new() -> (s: Self)
        ensures
            s == (DemoState::<T> {
                arrived_at: None,
                bombed_at: None,
                heading_home_at: None,
                sold_at: None,
                q_fired: false,
                e_fired: false,
                shots_done: 0,
            }),
    {
        DemoState {
            arrived_at: None,
            bombed_at: None,
            heading_home_at: None,
            sold_at: None,
            q_fired: false,
            e_fired: false,
            shots_done: 0,
        }
    }

    /// One frame of the tour.
    pub fn run_demo(&mut self, now: T, e: DemoSigns) -> (k: DemoKeys)
        ensures
            (*final(self), k) == toured(*old(self), now, e),
            ({
                let s = *old(self);
                let flying = !e.mining_beat && e.flight_beat && s.arrived_at is None;
                let there = !e.mining_beat && !flying && s.arrived_at is Some;
                let armed = there && s.bombed_at is None;
                let thrown = there && s.bombed_at is Some && !e.retreating && !e.waiting;
                let home = thrown && s.heading_home_at is Some;
                &&& k.laser == (e.mining_beat || (armed && e.hovering))
                &&& k.forward == ((flying && e.target_far) || (home && e.depot_far))
                &&& k.back == (there && s.bombed_at is Some && e.retreating)
                &&& k.up == (flying && e.lifting)
                &&& k.brake == ((flying && (!e.target_far || e.target_rush)) || (armed
                    && e.hovering) || (there && s.bombed_at is Some && !e.retreating && e.waiting)
                    || (home && e.depot_far && e.depot_rush))
                &&& k.tap_q == (armed && !e.hovering && !s.q_fired)
                &&& k.tap_e == (home && !e.depot_far && !s.e_fired)
                &&& final(self).arrived_at == if flying && !e.target_far && e.stopped {
                    Some(now)
                } else {
                    s.arrived_at
                }
                &&& final(self).bombed_at == if k.tap_q {
                    Some(now)
                } else {
                    s.bombed_at
                }
                &&& final(self).heading_home_at == if thrown && s.heading_home_at is None {
                    Some(now)
                } else {
                    s.heading_home_at
                }
                &&& final(self).sold_at == if k.tap_e {
                    Some(now)
                } else {
                    s.sold_at
                }
                &&& final(self).q_fired == (s.q_fired || k.tap_q)
                &&& final(self).e_fired == (s.e_fired || k.tap_e)
                &&& final(self).shots_done == s.shots_done
                &&& k.release_q == (!final(self).q_fired || (final(self).bombed_at is Some
                    && e.q_stale))
                &&& k.release_e == (final(self).e_fired && final(self).sold_at is Some
                    && e.e_stale)
            }),
    {
        let mut k = DemoKeys {
            laser: false,
            forward: false,
            back: false,
            up: false,
            brake: false,
            tap_q: false,
            tap_e: false,
            release_q: false,
            release_e: false,
        };
        if e.mining_beat {
            k.laser = true;
        } else if e.flight_beat && self.arrived_at.is_none() {
            k.up = e.lifting;
            if e.target_far {
                k.forward = true;
                k.brake = e.target_rush;
            } else {
                k.brake = true;
                if e.stopped {
                    self.arrived_at = Some(now);
                }
            }
        } else if self.arrived_at.is_some() {
            if self.bombed_at.is_none() {
                if e.hovering {
                    k.laser = true;
                    k.brake = true;
                } else if !self.q_fired {
                    self.q_fired = true;
                    k.tap_q = true;
                    self.bombed_at = Some(now);
                }
            } else if e.retreating {
                k.back = true;
            } else if e.waiting {
                k.brake = true;
            } else if self.heading_home_at.is_none() {
                self.heading_home_at = Some(now);
            } else if e.depot_far {
                k.forward = true;
                k.brake = e.depot_rush;
            } else if !self.e_fired {
                self.e_fired = true;
                self.sold_at = Some(now);
                k.tap_e = true;
            }
        }
        k.release_q = !self.q_fired || (self.bombed_at.is_some() && e.q_stale);
        k.release_e = self.e_fired && self.sold_at.is_some() && e.e_stale;
        k
    }

    /// The picture to take this frame, if its moment has come: pictures are
    /// taken in order, one per frame at most.
    pub fn next_shot(&mut self, due: &Vec<bool>) -> (shot: Option<usize>)
        ensures
            shot == if old(self).shots_done < due.len() && due@[old(self).shots_done as int] {
                Some(old(self).shots_done as usize)
            } else {
                None
            },
            *final(self) == if shot is Some && old(self).shots_done < u32::MAX {
                DemoState { shots_done: (old(self).shots_done + 1) as u32, ..*old(self) }
            } else {
                *old(self)
            },
    {
        let n = self.shots_done as usize;
        if n < due.len() && due[n] {
            if self.shots_done < u32::MAX {
                self.shots_done = self.shots_done + 1;
            }
            Some(n)
        } else {
            None
        }
    }
}

/// The tour never goes back: what has been reached stays reached.
pub proof fn law_tour_only_advances<T>(s: DemoState<T>, now: T, e: DemoSigns)
    ensures
        s.arrived_at is Some ==> toured(s, now, e).0.arrived_at == s.arrived_at,
        s.bombed_at is Some ==> toured(s, now, e).0.bombed_at == s.bombed_at,
        s.heading_home_at is Some ==> toured(s, now, e).0.heading_home_at == s.heading_home_at,
        s.sold_at is Some && s.e_fired ==> toured(s, now, e).0.sold_at == s.sold_at,
        s.q_fired ==> toured(s, now, e).0.q_fired,
        s.e_fired ==> toured(s, now, e).0.e_fired,
{
}

/// The charge is thrown once and the hold is sold once.
pub proof fn law_tour_taps_once<T>(s: DemoState<T>, now: T, e: DemoSigns)
    ensures
        toured(s, now, e).1.tap_q ==> !s.q_fired && toured(s, now, e).0.q_fired,
        toured(s, now, e).1.tap_e ==> !s.e_fired && toured(s, now, e).0.e_fired,
{
}

/// Every beat of the tour holds its own keys and no others: the laser to mine
/// and while hovering, thrust towards the target and then the depot, the retreat
/// backwards, and one tap each for the charge and for the trade.
pub proof fn law_every_beat_holds_its_keys<T>(s: DemoState<T>, now: T, e: DemoSigns)
    ensures
        ({
            let (t, k) = toured(s, now, e);
            let flying = !e.mining_beat && e.flight_beat && s.arrived_at is None;
            let there = !e.mining_beat && !flying && s.arrived_at is Some;
            let done = s.bombed_at is Some;
            &&& k.laser <==> e.mining_beat || (there && !done && e.hovering)
            &&& k.forward <==> (flying && e.target_far) || (there && done && !e.retreating
                && !e.waiting && s.heading_home_at is Some && e.depot_far)
            &&& k.back <==> there && done && e.retreating
            &&& k.up <==> flying && e.lifting
            &&& k.tap_q <==> there && !done && !e.hovering && !s.q_fired
            &&& k.tap_e <==> there && done && !e.retreating && !e.waiting && s.heading_home_at
                is Some && !e.depot_far && !s.e_fired
            &&& k.brake <==> (flying && (!e.target_far || e.target_rush)) || (there && !done
                && e.hovering) || (there && done && !e.retreating && e.waiting) || (there && done
                && !e.retreating && !e.waiting && s.heading_home_at is Some && e.depot_far
                && e.depot_rush)
            &&& s.arrived_at is None ==> (t.arrived_at == Some(now) <==> (flying && !e.target_far
                && e.stopped) || (s.arrived_at == Some(now)))
            &&& t.heading_home_at is Some <==> s.heading_home_at is Some || (there && done
                && !e.retreating && !e.waiting)
            &&& t.arrived_at is Some <==> s.arrived_at is Some || (flying && !e.target_far
                && e.stopped)
            &&& t.bombed_at is Some <==> done || k.tap_q
        }),
{
}

/// The tour looks where it is at: by the clock at the sky, into the hole and at
/// the ground; then at the target until the charge is thrown and the way home
/// begins, and from then on at the depot.
pub proof fn law_tour_looks_where_it_is_at(
    panning: bool,
    staring: bool,
    mining: bool,
    bombed: bool,
    homeward: bool,
)
    ensures
        ({
            let g = gaze_of(panning, staring, mining, bombed, homeward);
            &&& g is Sky <==> panning
            &&& g is Hole <==> !panning && staring
            &&& g is Ground <==> !panning && !staring && mining
            &&& g is Depot <==> !panning && !staring && !mining && bombed && homeward
            &&& g is Target <==> !panning && !staring && !mining && !(bombed && homeward)
        }),
{
}

} // verus!
