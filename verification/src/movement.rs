//! The decisions of one game tick on the player's command: the jump button
//! while hopping, when the aim fires, and what the tick hook returns.
use vstd::prelude::*;

verus! {

/// The command button bit of the attack button.
pub const IN_ATTACK: i32 = 1;

/// The command button bit of the jump button.
pub const IN_JUMP: i32 = 2;

/// The command's buttons after one tick of hopping, and whether jump is
/// remembered as held: while hopping is on, the jump button is released in
/// the air when it was held on the last tick, and whether it is held now is
/// remembered; while it is off, nothing changes.
pub open spec fn spec_bunnyhop(enabled: bool, on_ground: bool, buttons: i32, was_jumping: bool) -> (i32, bool) {
    if !enabled {
        (buttons, was_jumping)
    } else {
        (
            if !on_ground && was_jumping { buttons & !IN_JUMP } else { buttons },
            buttons & IN_JUMP != 0,
        )
    }
}

/// One tick of hopping: the new buttons and what is remembered.
pub fn bunnyhop_step(enabled: bool, on_ground: bool, buttons: i32, was_jumping: bool) -> (res: (i32, bool))
    ensures
        res == spec_bunnyhop(enabled, on_ground, buttons, was_jumping),
{
    if !enabled {
        return (buttons, was_jumping);
    }
    let is_jumping = buttons & IN_JUMP != 0;
    let out = if !on_ground && was_jumping { buttons & !IN_JUMP } else { buttons };
    (out, is_jumping)
}

/// Whether the aim turns the view, and the command's buttons: with an aim
/// angle and no head shot left to a spreading weapon, it aims when a shot is
/// wanted (the aim key held, or without a key the attack button pressed) and
/// the player can attack; with the aim key in use the attack button is then
/// pressed too.
pub open spec fn spec_fire(
    use_key: bool,
    key_down: bool,
    buttons: i32,
    can_attack: bool,
    has_angle: bool,
    headshot_spread: bool,
) -> (bool, i32) {
    let wants = (use_key && key_down) || (!use_key && buttons & IN_ATTACK != 0);
    if !has_angle || headshot_spread || !(wants && can_attack) {
        (false, buttons)
    } else {
        (true, if use_key { buttons | IN_ATTACK } else { buttons })
    }
}

/// The aim's decision for one tick. `has_angle` says that a target was
/// found, `headshot_spread` that it is to be hit in the head with a weapon
/// that spreads.
pub fn fire_decision(
    use_key: bool,
    key_down: bool,
    buttons: i32,
    can_attack: bool,
    has_angle: bool,
    headshot_spread: bool,
) -> (res: (bool, i32))
    ensures
        res == spec_fire(use_key, key_down, buttons, can_attack, has_angle, headshot_spread),
{
    if !has_angle || headshot_spread {
        return (false, buttons);
    }
    let wants = (use_key && key_down) || (!use_key && buttons & IN_ATTACK != 0);
    if wants && can_attack {
        (true, if use_key { buttons | IN_ATTACK } else { buttons })
    } else {
        (false, buttons)
    }
}

/// What the tick hook returns, `rc` being what the game's own tick returned:
/// 0 in a game with a live local player and silent aim on (so the game does
/// not turn the view itself), `rc` otherwise.
pub fn create_move_result(in_game: bool, local_alive: bool, silent_aim: bool, rc: i64) -> (res: i64)
    ensures
        res == (if in_game && local_alive && silent_aim { 0 } else { rc }),
{
    if in_game && local_alive && silent_aim {
        0
    } else {
        rc
    }
}


/// Hopping never touches a button but jump, and never presses jump. While it
/// is off nothing changes; while it is on, what is remembered is whether
/// jump is pressed now, jump is left as it is on the ground and when it was
/// not held on the last tick, and in the air after a tick with jump held it
/// is released.
pub proof fn lemma_hop_law(enabled: bool, on_ground: bool, buttons: i32, was_jumping: bool)
    ensures
        ({
            let r = spec_bunnyhop(enabled, on_ground, buttons, was_jumping);
            &&& !enabled ==> r.0 == buttons && r.1 == was_jumping
            &&& enabled ==> r.1 == (buttons & 2 != 0)
            &&& enabled && on_ground ==> r.0 == buttons
            &&& enabled && !was_jumping ==> r.0 == buttons
            &&& enabled && !on_ground && was_jumping ==> (r.0 & 2 == 0 && r.0 | 2 == buttons | 2)
            &&& r.0 & !2i32 == buttons & !2i32
        }),
{
    assert((buttons & !2i32) & 2 == 0) by (bit_vector);
    assert((buttons & !2i32) | 2 == buttons | 2) by (bit_vector);
    assert((buttons & !2i32) & !2i32 == buttons & !2i32) by (bit_vector);
}

/// The aim presses no button but attack, and presses attack only when the
/// aim key is in use and it aims; without a target angle, or with a head
/// shot left to a spreading weapon, or when the player cannot attack, it
/// neither aims nor changes a button; with the key in use it aims exactly
/// when the key is held, without it exactly when attack is pressed.
pub proof fn lemma_fire_law(
    use_key: bool,
    key_down: bool,
    buttons: i32,
    can_attack: bool,
    has_angle: bool,
    headshot_spread: bool,
)
    ensures
        ({
            let r = spec_fire(use_key, key_down, buttons, can_attack, has_angle, headshot_spread);
            &&& r.1 & !1i32 == buttons & !1i32
            &&& (!r.0 || !use_key) ==> r.1 == buttons
            &&& r.0 && use_key ==> r.1 == buttons | 1
            &&& (!has_angle || headshot_spread || !can_attack) ==> !r.0 && r.1 == buttons
            &&& has_angle && !headshot_spread && can_attack ==> r.0 == (if use_key { key_down } else { buttons & 1 != 0 })
        }),
{
    assert((buttons | 1) & !1i32 == buttons & !1i32) by (bit_vector);
}

} // verus!
