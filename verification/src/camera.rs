//! The third-person camera toggle: each press of the bound key switches
//! between the first-person camera (mode 0) and the third-person one
//! (mode 1).
use vstd::prelude::*;

verus! {

/// The camera mode last set, and whether the key was held on the last frame.
#[derive(Clone, Copy, PartialEq, Eq, Structural, Debug)]
pub struct CameraToggle {
    pub mode: i32,
    pub last_pressed: bool,
}

/// The other camera mode: 1 after 0, 0 after anything else.
pub open spec fn flipped(mode: i32) -> i32 {
    if mode == 0 {
        1
    } else {
        0
    }
}

/// The toggle after a frame on which the key is (`pressed`) or is not held:
/// the mode flips on the frame the key goes down.
pub open spec fn toggle_step(t: CameraToggle, pressed: bool) -> CameraToggle {
    CameraToggle {
        mode: if pressed && !t.last_pressed { flipped(t.mode) } else { t.mode },
        last_pressed: pressed,
    }
}

impl CameraToggle {
    /// First-person camera, key up.
    pub fn new() -> (res: CameraToggle)
        ensures
            res == (CameraToggle { mode: 0, last_pressed: false }),
    {
        CameraToggle { mode: 0, last_pressed: false }
    }

    /// One frame with the key held (`pressed`) or not. On the frame the key
    /// goes down the mode flips and the new mode is returned, to be set in
    /// the game; on any other frame nothing is returned.
    pub fn step(&mut self, pressed: bool) -> (res: Option<i32>)
        ensures
            *final(self) == toggle_step(*old(self), pressed),
            res == (if pressed && !old(self).last_pressed { Some(final(self).mode) } else { None }),
    {
        let mut res = None;
        if pressed && !self.last_pressed {
            self.mode = if self.mode == 0 { 1 } else { 0 };
            res = Some(self.mode);
        }
        self.last_pressed = pressed;
        res
    }
}

/// The toggle after `frames` more frames with the key held.
pub open spec fn held_for(t: CameraToggle, frames: nat) -> CameraToggle
    decreases frames,
{
    if frames == 0 {
        t
    } else {
        toggle_step(held_for(t, (frames - 1) as nat), true)
    }
}

/// Holding the key down flips the camera once, however long it is held.
pub proof fn lemma_hold_flips_once(t: CameraToggle, frames: nat)
    requires
        !t.last_pressed,
    ensures
        held_for(toggle_step(t, true), frames).mode == flipped(t.mode),
        held_for(toggle_step(t, true), frames).last_pressed,
    decreases frames,
{
    if frames > 0 {
        lemma_hold_flips_once(t, (frames - 1) as nat);
    }
}

/// Two presses, each followed by a release, give back the camera mode that
/// was set, for either mode.
pub proof fn lemma_two_presses_restore(t: CameraToggle)
    requires
        t.mode == 0 || t.mode == 1,
        !t.last_pressed,
    ensures
        toggle_step(toggle_step(toggle_step(toggle_step(t, true), false), true), false) == t,
{
}

} // verus!
