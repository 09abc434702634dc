use vstd::prelude::*;

use crate::button::ButtonInfo;

verus! {

/// Durations of a blinking button, in milliseconds.
///
/// Both phases are scheduled with `hidden`: a button stays visible for `hidden` and
/// hidden for `hidden`. `displayed` is carried for callers that want to tell the two
/// phases apart, and is not read by [`button_blink`].
#[derive(Clone, Copy, Debug, PartialEq, Eq, Structural)]
pub struct Blinking {
    pub displayed: u64,
    pub hidden: u64,
}

/// The phase a blinking button is in, with the elapsed time (in milliseconds since
/// start) at which it ends.
#[derive(Clone, Copy, Debug, PartialEq, Eq, Structural)]
pub enum BlinkState {
    Visible(u64),
    Hidden(u64),
}

pub open spec fn sat_add(a: u64, b: u64) -> u64 {
    if a + b > u64::MAX {
        u64::MAX
    } else {
        (a + b) as u64
    }
}

/// The phase after looking at the clock at `elapsed`: a phase whose end has come gives
/// way to the other one, which ends `hidden` after the end of the phase before it, so
/// the schedule does not drift when the clock is looked at late.
pub open spec fn blink_next(state: BlinkState, hidden: u64, elapsed: u64) -> BlinkState {
    match state {
        BlinkState::Visible(v) => if v <= elapsed {
            BlinkState::Hidden(sat_add(v, hidden))
        } else {
            state
        },
        BlinkState::Hidden(h) => if h <= elapsed {
            BlinkState::Visible(sat_add(h, hidden))
        } else {
            state
        },
    }
}

/// Advances one button's blink phase to `elapsed` and shows or hides it to match when
/// the phase changes.
pub fn button_blink(elapsed: u64, def: &Blinking, state: &mut BlinkState, info: &mut ButtonInfo)
    ensures
        *final(state) == blink_next(*old(state), def.hidden, elapsed),
        final(info).visible == if *final(state) == *old(state) {
            old(info).visible
        } else {
            *final(state) is Visible
        },
        final(info).text@ == old(info).text@,
        final(info).position == old(info).position,
{
    match *state {
        BlinkState::Visible(v) => {
            if v <= elapsed {
                *state = BlinkState::Hidden(add_saturating(v, def.hidden));
                info.visible = false;
            }
        },
        BlinkState::Hidden(h) => {
            if h <= elapsed {
                *state = BlinkState::Visible(add_saturating(h, def.hidden));
                info.visible = true;
            }
        },
    }
}

fn add_saturating(a: u64, b: u64) -> (r: u64)
    ensures
        r == sat_add(a, b),
{
    if a > u64::MAX - b {
        u64::MAX
    } else {
        a + b
    }
}

/// A button visible until `t` is hidden once the clock reaches `t`, stays hidden until
/// `t + hidden`, and is visible again once the clock reaches `t + hidden`; before `t`
/// nothing changes.
pub proof fn lemma_blink_cycle(t: u64, hidden: u64, e0: u64, e1: u64, e2: u64, e3: u64)
    requires
        e0 < t,
        t <= e1,
        e2 < sat_add(t, hidden),
        sat_add(t, hidden) <= e3,
    ensures
        blink_next(BlinkState::Visible(t), hidden, e0) == BlinkState::Visible(t),
        blink_next(BlinkState::Visible(t), hidden, e1) == BlinkState::Hidden(sat_add(t, hidden)),
        blink_next(BlinkState::Hidden(sat_add(t, hidden)), hidden, e2) == BlinkState::Hidden(
            sat_add(t, hidden),
        ),
        blink_next(BlinkState::Hidden(sat_add(t, hidden)), hidden, e3) == BlinkState::Visible(
            sat_add(sat_add(t, hidden), hidden),
        ),
{
}

} // verus!
