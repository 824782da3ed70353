//! The values shared between the parts of the program from one frame to the
//! next.
use vstd::prelude::*;

verus! {

/// The player currently aimed at.
#[derive(Clone, Copy, PartialEq, Eq, Structural, Debug)]
pub struct Target {
    pub target_index: i32,
    pub should_headshot: bool,
}

impl Default for Target {
    /// Entity 0, no headshot.
    fn default() -> (res: Target)
        ensures
            res == (Target { target_index: 0, should_headshot: false }),
    {
        Target { target_index: 0, should_headshot: false }
    }
}

/// The shared values: the current target, which bound keys are held, and
/// which key bindings wait for a key.
#[derive(Clone, Copy, PartialEq, Eq, Structural, Debug)]
pub struct Globals {
    pub target: Option<Target>,
    pub aimbot_key_down: bool,
    pub thirdperson_pressed: bool,
    pub aimbot_key_editing: bool,
    pub thirdperson_key_editing: bool,
}

/// No target, no key held, no binding waiting.
pub open spec fn initial_globals() -> Globals {
    Globals {
        target: None,
        aimbot_key_down: false,
        thirdperson_pressed: false,
        aimbot_key_editing: false,
        thirdperson_key_editing: false,
    }
}

impl Default for Globals {
    /// No target, no key held, no binding waiting.
    fn default() -> (res: Globals)
        ensures
            res == initial_globals(),
    {
        Globals {
            target: None,
            aimbot_key_down: false,
            thirdperson_pressed: false,
            aimbot_key_editing: false,
            thirdperson_key_editing: false,
        }
    }
}

} // verus!
