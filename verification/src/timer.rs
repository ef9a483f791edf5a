//! The clipboard exposure countdown. The front end writes the secret to the
//! clipboard, then drives this timer once per tick: it sleeps on `Quiet`,
//! prints the remaining whole seconds and sleeps on `Announce`, and clears
//! the clipboard and stops on `Wipe`. The shared cancellation flag is read
//! before every tick and passed in, so an interrupt ends the exposure
//! within one tick. A zero timeout opts out: the timer is born finished and
//! never asks for a wipe, leaving the secret on the clipboard.

use vstd::prelude::*;

verus! {

/// Ticks per second of the countdown's fixed rate.
pub const TICKS_PER_SECOND: u64 = 10;

/// What the front end does for one tick of the countdown.
#[derive(Clone, Copy, Debug, PartialEq, Eq, Structural)]
pub enum TimerTick {
    /// Overwrite the status line with the remaining whole seconds, then
    /// sleep one tick.
    Announce(u64),
    /// Sleep one tick.
    Quiet,
    /// Clear the clipboard (best effort), print the wiped line, and stop.
    Wipe,
}

/// A clipboard exposure session: a deadline tick count, whether the session
/// is over, and whether its single wipe has been requested.
pub struct ExposureTimer {
    pub ticks: u64,
    pub finished: bool,
    pub wiped: bool,
}

impl ExposureTimer {
    pub open spec fn wf(self) -> bool {
        &&& self.wiped ==> self.finished
        &&& self.ticks <= 255 * TICKS_PER_SECOND
    }

    /// Starts an exposure of `timeout` seconds. Zero seconds is the
    /// explicit opt-out: the session is already finished and no wipe will
    /// ever be requested.
    pub fn new(timeout: u8) -> (r: ExposureTimer)
        ensures
            r.ticks == timeout as u64 * TICKS_PER_SECOND,
            r.finished == (timeout == 0),
            !r.wiped,
            r.wf(),
    {
        ExposureTimer { ticks: timeout as u64 * TICKS_PER_SECOND, finished: timeout == 0, wiped: false }
    }

    /// One tick of the countdown. The wipe is requested exactly at the
    /// first tick where the cancellation flag is set or the deadline has
    /// been reached, and the session is then finished, so no further tick
    /// — and no second wipe — is possible.
    pub fn step(&mut self, cancelled: bool) -> (r: TimerTick)
        requires
            !old(self).finished,
            old(self).wf(),
        ensures
            final(self).wf(),
            (cancelled || old(self).ticks == 0) ==> {
                &&& r == TimerTick::Wipe
                &&& final(self).finished
                &&& final(self).wiped
            },
            !(cancelled || old(self).ticks == 0) ==> {
                &&& final(self).ticks == old(self).ticks - 1
                &&& !final(self).finished
                &&& !final(self).wiped
                &&& r == (if old(self).ticks % TICKS_PER_SECOND == 0 {
                    TimerTick::Announce(old(self).ticks / TICKS_PER_SECOND)
                } else {
                    TimerTick::Quiet
                })
            },
    {
        if cancelled || self.ticks == 0 {
            self.finished = true;
            self.wiped = true;
            TimerTick::Wipe
        } else {
            let r = if self.ticks % TICKS_PER_SECOND == 0 {
                TimerTick::Announce(self.ticks / TICKS_PER_SECOND)
            } else {
                TimerTick::Quiet
            };
            self.ticks = self.ticks - 1;
            r
        }
    }
}

/// How many `Wipe` ticks a full countdown run requests, when the timer
/// starts with `ticks` ticks and the cancellation flag reads
/// `cancels[0]`, `cancels[1]`, ... before the successive ticks.
pub open spec fn run_wipe_count(ticks: nat, cancels: Seq<bool>) -> nat
    decreases cancels.len(),
{
    if cancels.len() == 0 {
        0
    } else if cancels[0] || ticks == 0 {
        1
    } else {
        run_wipe_count((ticks - 1) as nat, cancels.drop_first())
    }
}

/// The tick at which the run requests its wipe: the first tick whose
/// cancellation reading is set, or the deadline, whichever comes first.
pub open spec fn run_wipe_step(ticks: nat, cancels: Seq<bool>) -> nat
    decreases cancels.len(),
{
    if cancels.len() == 0 {
        0
    } else if cancels[0] || ticks == 0 {
        0
    } else {
        1 + run_wipe_step((ticks - 1) as nat, cancels.drop_first())
    }
}

/// The first index at which the cancellation readings are set, or their
/// length when they never are.
pub open spec fn first_cancel(cancels: Seq<bool>) -> nat
    decreases cancels.len(),
{
    if cancels.len() == 0 {
        0
    } else if cancels[0] {
        0
    } else {
        1 + first_cancel(cancels.drop_first())
    }
}

/// Law: a countdown with a positive timeout wipes the clipboard exactly
/// once, and it does so at the first tick where cancellation was observed,
/// or after the full tick count when it never was — so cancellation ends
/// the exposure within one tick. (A zero timeout never runs a countdown:
/// the timer is born finished and no wipe is ever requested.)
pub proof fn lemma_run_wipes_exactly_once(ticks: nat, cancels: Seq<bool>)
    requires
        cancels.len() > ticks,
    ensures
        run_wipe_count(ticks, cancels) == 1,
        run_wipe_step(ticks, cancels) == if first_cancel(cancels) < ticks {
            first_cancel(cancels)
        } else {
            ticks
        },
    decreases cancels.len(),
{
    if !(cancels[0] || ticks == 0) {
        lemma_run_wipes_exactly_once((ticks - 1) as nat, cancels.drop_first());
    }
}

} // verus!
