//! The day: the clock, the dive into the hole, and the dawn after it.
use crate::text::{decimal, push_decimal, signed_decimal, push_signed};
use vstd::prelude::*;
use vstd::string::StringExecFns;

verus! {

#[derive(Clone, Copy, PartialEq, Eq, Structural, Debug)]
pub enum DayPhase {
    /// Normal play; the clock runs.
    Active,
    /// The dive: control surrendered.
    Falling,
    /// White fade after the reset.
    Dawn,
}

/// The discrete part of the day.
#[derive(Clone, Copy, PartialEq, Eq, Structural, Debug)]
pub struct DayState {
    pub day: u32,
    pub phase: DayPhase,
    /// Set when the dive ends; consumed by the reset.
    pub pending_reset: bool,
    /// Deadline warnings given so far.
    pub warn_stage: u8,
}

/// What the clocks and distances say this frame.
#[derive(Clone, Copy, PartialEq, Eq, Structural, Debug)]
pub struct DaySigns {
    /// Deadline warnings due: 1 from half of the day on, 2 from three quarters,
    /// 3 from 92 percent.
    pub due_stage: u8,
    /// The day's time is up.
    pub deadline: bool,
    /// The player is inside the capture radius.
    pub caught: bool,
    /// The dive has hit.
    pub impact: bool,
    /// The fade is over.
    pub faded: bool,
}

/// What happens in a frame of the day.
#[derive(Clone, Copy, PartialEq, Eq, Structural, Debug)]
pub struct DayEvents {
    /// A deadline warning, by stage.
    pub warning: Option<u8>,
    /// The dive begins.
    pub fall: bool,
    /// The dive ends: a new day.
    pub consumed: bool,
    /// The fade ends: play begins.
    pub dawn: bool,
}

/// The first day opens in the tail of a dawn.
pub open spec fn first_day() -> DayState {
    DayState { day: 1, phase: DayPhase::Dawn, pending_reset: false, warn_stage: 0 }
}

/// One frame of the day.
pub open spec fn day_after(s: DayState, e: DaySigns) -> (DayState, DayEvents) {
    let quiet = DayEvents { warning: None, fall: false, consumed: false, dawn: false };
    match s.phase {
        DayPhase::Active => {
            let warned = e.due_stage > s.warn_stage;
            let falls = e.deadline || e.caught;
            (
                DayState {
                    warn_stage: if warned {
                        e.due_stage
                    } else {
                        s.warn_stage
                    },
                    phase: if falls {
                        DayPhase::Falling
                    } else {
                        DayPhase::Active
                    },
                    ..s
                },
                DayEvents {
                    warning: if warned {
                        Some(e.due_stage)
                    } else {
                        None
                    },
                    fall: falls,
                    ..quiet
                },
            )
        },
        DayPhase::Falling => if e.impact {
            (
                DayState {
                    day: (s.day + 1) as u32,
                    phase: DayPhase::Dawn,
                    pending_reset: true,
                    warn_stage: 0,
                },
                DayEvents { consumed: true, ..quiet },
            )
        } else {
            (s, quiet)
        },
        DayPhase::Dawn => if e.faded {
            (DayState { phase: DayPhase::Active, ..s }, DayEvents { dawn: true, ..quiet })
        } else {
            (s, quiet)
        },
    }
}

impl DayState {
    /// The first day.
    pub fn new() -> (s: Self)
        ensures
            s == first_day(),
            s.day == 1,
            s.phase is Dawn,
            !s.pending_reset,
            s.warn_stage == 0,
    {
        DayState { day: 1, phase: DayPhase::Dawn, pending_reset: false, warn_stage: 0 }
    }

    /// One frame of the day.
    pub fn day_cycle(&mut self, e: DaySigns) -> (ev: DayEvents)
        requires
            old(self).phase is Falling && e.impact ==> old(self).day < u32::MAX,
        ensures
            (*final(self), ev) == day_after(*old(self), e),
            old(self).phase is Active ==> {
                &&& ev.fall == (e.deadline || e.caught)
                &&& final(self).phase is Falling <==> e.deadline || e.caught
                &&& final(self).phase is Active <==> !e.deadline && !e.caught
                &&& ev.warning == if e.due_stage > old(self).warn_stage {
                    Some(e.due_stage)
                } else {
                    None
                }
                &&& final(self).warn_stage >= old(self).warn_stage
                &&& final(self).warn_stage >= e.due_stage
                &&& final(self).warn_stage == old(self).warn_stage || final(self).warn_stage
                    == e.due_stage
                &&& final(self).day == old(self).day
                &&& final(self).pending_reset == old(self).pending_reset
                &&& !ev.consumed && !ev.dawn
            },
            old(self).phase is Falling ==> {
                &&& ev.consumed == e.impact
                &&& final(self).phase is Dawn <==> e.impact
                &&& e.impact ==> final(self).day == old(self).day + 1
                    && final(self).pending_reset && final(self).warn_stage == 0
                &&& !e.impact ==> *final(self) == *old(self)
                &&& ev.warning is None && !ev.fall && !ev.dawn
            },
            old(self).phase is Dawn ==> {
                &&& ev.dawn == e.faded
                &&& final(self).phase is Active <==> e.faded
                &&& !e.faded ==> final(self).phase is Dawn
                &&& final(self).day == old(self).day
                &&& final(self).pending_reset == old(self).pending_reset
                &&& final(self).warn_stage == old(self).warn_stage
                &&& ev.warning is None && !ev.fall && !ev.consumed
            },
    {
        let mut ev = DayEvents { warning: None, fall: false, consumed: false, dawn: false };
        match self.phase {
            DayPhase::Active => {
                if e.due_stage > self.warn_stage {
                    self.warn_stage = e.due_stage;
                    ev.warning = Some(e.due_stage);
                }
                if e.deadline || e.caught {
                    self.phase = DayPhase::Falling;
                    ev.fall = true;
                }
            },
            DayPhase::Falling => {
                if e.impact {
                    self.phase = DayPhase::Dawn;
                    self.day = self.day + 1;
                    self.pending_reset = true;
                    self.warn_stage = 0;
                    ev.consumed = true;
                }
            },
            DayPhase::Dawn => {
                if e.faded {
                    self.phase = DayPhase::Active;
                    ev.dawn = true;
                }
            },
        }
        ev
    }

    /// Consume a pending reset. Hands back the seed of the new day's field.
    pub fn take_reset(&mut self) -> (salt: Option<u64>)
        requires
            old(self).pending_reset ==> old(self).day > 0,
        ensures
            salt == if old(self).pending_reset {
                Some((old(self).day - 1) as u64)
            } else {
                None
            },
            *final(self) == (DayState { pending_reset: false, ..*old(self) }),
    {
        if !self.pending_reset {
            return None;
        }
        self.pending_reset = false;
        Some((self.day - 1) as u64)
    }
}

/// Deadline warnings due, from whether the day has reached half, three quarters
/// and 92 percent.
pub fn stage_due(half: bool, late: bool, imminent: bool) -> (stage: u8)
    ensures
        stage == if imminent {
            3int
        } else if late {
            2
        } else if half {
            1
        } else {
            0
        },
{
    if imminent {
        3
    } else if late {
        2
    } else if half {
        1
    } else {
        0
    }
}

/// The day only turns over by a dive: a frame changes its number exactly when
/// the dive hits, and then a reset is due and play stands still until dawn.
pub proof fn law_day_turns_on_impact(s: DayState, e: DaySigns)
    requires
        s.day < u32::MAX,
    ensures
        day_after(s, e).0.day != s.day <==> s.phase is Falling && e.impact,
        day_after(s, e).1.consumed <==> s.phase is Falling && e.impact,
        day_after(s, e).1.consumed ==> day_after(s, e).0.pending_reset && day_after(
            s,
            e,
        ).0.phase is Dawn && day_after(s, e).0.day == s.day + 1,
{
}

/// The day ends in a dive whenever its time is up or the player is caught, and
/// for no other reason: no warning given before, no stage of the day and no
/// pending business puts it off.
pub proof fn law_dive_begins_on_deadline_or_capture(s: DayState, e: DaySigns)
    ensures
        day_after(s, e).1.fall <==> s.phase is Active && (e.deadline || e.caught),
        s.phase is Active ==> (day_after(s, e).0.phase is Falling <==> e.deadline || e.caught),
        s.phase is Active ==> (day_after(s, e).0.phase is Active <==> !e.deadline && !e.caught),
        s.phase is Falling ==> (day_after(s, e).0.phase is Dawn <==> e.impact),
        s.phase is Falling ==> (day_after(s, e).0.phase is Falling <==> !e.impact),
{
}

/// Play begins when the fade is over, and a pending reset, the day's number
/// and the warnings outlast it.
pub proof fn law_fade_opens_the_day(s: DayState, e: DaySigns)
    ensures
        day_after(s, e).1.dawn <==> s.phase is Dawn && e.faded,
        s.phase is Dawn ==> (day_after(s, e).0.phase is Active <==> e.faded),
        s.phase is Dawn ==> (day_after(s, e).0.phase is Dawn <==> !e.faded),
        s.phase is Dawn ==> day_after(s, e).0.pending_reset == s.pending_reset
            && day_after(s, e).0.day == s.day && day_after(s, e).0.warn_stage == s.warn_stage,
        s.phase is Active ==> day_after(s, e).0.pending_reset == s.pending_reset
            && day_after(s, e).0.day == s.day,
{
}

/// Every warning that falls due is given, in the frame in which it does; a new
/// day has all of its warnings ahead.
pub proof fn law_due_warning_is_given(s: DayState, e: DaySigns)
    ensures
        s.phase is Active && e.due_stage > s.warn_stage ==> day_after(s, e).1.warning == Some(
            e.due_stage,
        ) && day_after(s, e).0.warn_stage == e.due_stage,
        s.phase is Active && e.due_stage <= s.warn_stage ==> day_after(s, e).1.warning is None
            && day_after(s, e).0.warn_stage == s.warn_stage,
        !(s.phase is Active) ==> day_after(s, e).1.warning is None,
        s.phase is Falling && e.impact ==> day_after(s, e).0.warn_stage == 0,
{
}

/// Phases follow one another in a fixed circle: play, dive, dawn.
pub proof fn law_phases_follow_in_order(s: DayState, e: DaySigns)
    ensures
        s.phase is Active ==> !(day_after(s, e).0.phase is Dawn),
        s.phase is Falling ==> !(day_after(s, e).0.phase is Active),
        s.phase is Dawn ==> !(day_after(s, e).0.phase is Falling),
{
}

/// The deadline is never a surprise: within a day each warning is given at most
/// once, and the stages only rise.
pub proof fn law_warnings_only_rise(s: DayState, e: DaySigns)
    requires
        s.phase is Active,
    ensures
        day_after(s, e).0.warn_stage >= s.warn_stage,
        day_after(s, e).0.warn_stage >= e.due_stage,
        day_after(s, e).1.warning matches Some(w) ==> w > s.warn_stage && w == e.due_stage,
        e.due_stage <= s.warn_stage ==> day_after(s, e).1.warning is None,
{
}

/// Whether the pull acts on the player: only in play, and a strong one lifts
/// a grounded player off first.
pub fn pull_on_player(phase: DayPhase, grounded: bool, strong: bool) -> (r: (bool, bool))
    ensures
        r.0 == (phase is Active && grounded && strong),
        r.1 == (phase is Active && (!grounded || strong)),
{
    if phase != DayPhase::Active {
        return (false, false);
    }
    let ripped = grounded && strong;
    (ripped, !grounded || ripped)
}

/// Two digits, with a leading zero if needed.
pub open spec fn two_digits(n: int) -> Seq<char> {
    if 0 <= n < 10 {
        "0"@ + decimal(n as nat)
    } else {
        signed_decimal(n)
    }
}

/// The status line of a deadline warning.
pub open spec fn warning_text(stage: u8, mins: int, secs: int) -> Seq<char> {
    if stage >= 3 {
        "EVENT HORIZON IMMINENT \u{2014} GET CLEAR OR GET CONSUMED"@
    } else if stage == 2 {
        "The singularity accelerates \u{2014} "@ + signed_decimal(mins) + ":"@ + two_digits(secs)
            + " left"@
    } else {
        "Half the day gone \u{2014} "@ + signed_decimal(mins) + ":"@ + two_digits(secs)
            + " until collapse"@
    }
}

fn push_clock(s: &mut String, mins: i32, secs: i32)
    requires
        0 <= secs,
    ensures
        final(s)@ == old(s)@ + signed_decimal(mins as int) + ":"@ + two_digits(secs as int),
{
    push_signed(s, mins as i64);
    s.append(":");
    let ghost head = s@;
    if secs < 10 {
        s.append("0");
        push_decimal(s, secs as u64);
        assert(s@ =~= head + two_digits(secs as int));
    } else {
        push_signed(s, secs as i64);
    }
}

/// The status line of a deadline warning.
pub fn warning_line(stage: u8, mins: i32, secs: i32) -> (s: String)
    requires
        0 <= secs,
    ensures
        s@ == warning_text(stage, mins as int, secs as int),
{
    if stage >= 3 {
        return "EVENT HORIZON IMMINENT \u{2014} GET CLEAR OR GET CONSUMED".to_owned();
    }
    if stage == 2 {
        let mut s = "The singularity accelerates \u{2014} ".to_owned();
        push_clock(&mut s, mins, secs);
        s.append(" left");
        s
    } else {
        let mut s = "Half the day gone \u{2014} ".to_owned();
        push_clock(&mut s, mins, secs);
        s.append(" until collapse");
        s
    }
}

/// The status line of a new day.
pub fn dawn_line(day: u32) -> (s: String)
    ensures
        s@ == "DAY "@ + decimal(day as nat)
            + " \u{2014} the field is reborn. Upgrades retained."@,
{
    let mut s = "DAY ".to_owned();
    push_decimal(&mut s, day as u64);
    s.append(" \u{2014} the field is reborn. Upgrades retained.");
    s
}

/// The status line when the horizon takes the player.
pub fn caught_line() -> (s: String)
    ensures
        s@ == "CAUGHT \u{2014} the horizon takes you"@,
{
    "CAUGHT \u{2014} the horizon takes you".to_owned()
}

/// A clock shows two digits of seconds, and every stage has a warning of its
/// own.
pub proof fn law_warnings_tell_the_time(mins: int, secs: int)
    requires
        0 <= secs < 60,
    ensures
        two_digits(secs).len() == 2,
        warning_text(1, mins, secs) == "Half the day gone \u{2014} "@ + signed_decimal(mins) + ":"@
            + two_digits(secs) + " until collapse"@,
        warning_text(2, mins, secs) == "The singularity accelerates \u{2014} "@ + signed_decimal(
            mins,
        ) + ":"@ + two_digits(secs) + " left"@,
        forall|stage: u8|
            stage >= 3 ==> #[trigger] warning_text(stage, mins, secs)
                == "EVENT HORIZON IMMINENT \u{2014} GET CLEAR OR GET CONSUMED"@,
{
    reveal_with_fuel(decimal, 3);
    reveal_strlit("0");
}

} // verus!
