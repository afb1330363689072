//! The screens that hold the game until they are done: a message box, the
//! between-days screen, and the end of a run. Each is `WaitFIRE` and then the
//! palette's sixteen-step fade, or a countdown with no key in it at all.

use vstd::prelude::*;

verus! {

/// How many frames a fade out takes.
pub const FADE_STEPS: u32 = 16;

/// What takes a message box down.
#[derive(Clone, Copy, Debug, PartialEq, Eq, Structural)]
pub enum Until {
    /// Fire, and then the fade: the box stays until somebody presses it.
    Fire,
    /// The end of whatever the box covers; fire does nothing to it.
    Loaded,
}

/// A screen that waits for fire, one frame on, as a value: `None` once it
/// has gone, or how many frames of its fade are left, `0` while it waits.
pub open spec fn waited(out: u32, fire: bool) -> Option<u32> {
    if out > 0 {
        if out == 1 {
            None
        } else {
            Some((out - 1) as u32)
        }
    } else if fire {
        Some(FADE_STEPS)
    } else {
        Some(0)
    }
}

/// `WaitFIRE` and the fade after it, one frame on: a screen that is fading
/// fades on, whatever is pressed, and is gone when the fade is done; one that
/// is waiting starts its fade when fire is pressed, and otherwise waits.
pub fn wait_for_fire(out: u32, fire: bool) -> (r: Option<u32>)
    ensures
        r == waited(out, fire),
{
    if out > 0 {
        let left = out - 1;
        if left == 0 {
            None
        } else {
            Some(left)
        }
    } else if fire {
        Some(FADE_STEPS)
    } else {
        Some(0)
    }
}

/// A box that covers a load, one frame on: it counts down and is gone at
/// zero, and fire does nothing to it.
pub open spec fn counted(out: u32) -> Option<u32> {
    if out <= 1 {
        None
    } else {
        Some((out - 1) as u32)
    }
}

/// A message box, one frame on, by what takes it down.
pub fn message_tick(until: Until, out: u32, fire: bool) -> (r: Option<u32>)
    ensures
        r == match until {
            Until::Fire => waited(out, fire),
            Until::Loaded => counted(out),
        },
{
    match until {
        Until::Fire => wait_for_fire(out, fire),
        Until::Loaded => {
            let left = if out > 0 { out - 1 } else { 0 };
            if left == 0 {
                None
            } else {
                Some(left)
            }
        },
    }
}

/// The end of a run, one frame on: how long its message has been up, and
/// whether fire takes it down. Fire is not read on the frame the run ended,
/// so the press that ended it cannot also clear the message it put up.
pub fn run_over_tick(up_for: u32, fire: bool) -> (r: (u32, bool))
    requires
        up_for < u32::MAX,
    ensures
        r == (if up_for + 1 > 1 && fire {
            (0u32, true)
        } else {
            ((up_for + 1) as u32, false)
        }),
{
    let now = up_for + 1;
    if now > 1 && fire {
        (0, true)
    } else {
        (now, false)
    }
}

/// A waiting screen after `k` frames with fire pressed on none of them.
pub open spec fn left_alone(out: u32, k: nat) -> Option<u32>
    decreases k,
{
    if k == 0 {
        Some(out)
    } else {
        match left_alone(out, (k - 1) as nat) {
            Some(o) => waited(o, false),
            None => None,
        }
    }
}

/// A fade of `out` frames, `k` frames on.
proof fn lemma_fading(out: u32, k: nat)
    requires
        0 < out <= FADE_STEPS,
    ensures
        left_alone(out, k) == if k < out {
            Some((out - k) as u32)
        } else {
            None::<u32>
        },
    decreases k,
{
    if k > 0 {
        lemma_fading(out, (k - 1) as nat);
    }
}

/// **A waiting screen waits, and then goes out over sixteen frames**:
/// left alone it is still up any number of frames later; once fire starts
/// its fade, it is up for fifteen more frames and gone on the sixteenth,
/// whatever is pressed while it fades.
pub proof fn it_waits_then_fades(k: nat, out: u32, fire: bool)
    ensures
        left_alone(0, k) == Some(0u32),
        waited(0, true) == Some(FADE_STEPS),
        k < FADE_STEPS ==> left_alone(FADE_STEPS, k) is Some,
        k >= FADE_STEPS ==> left_alone(FADE_STEPS, k) is None,
        out > 0 ==> waited(out, fire) == waited(out, false),
    decreases k,
{
    if k > 0 {
        it_waits_then_fades((k - 1) as nat, out, fire);
    }
    lemma_fading(FADE_STEPS, k);
}

} // verus!
