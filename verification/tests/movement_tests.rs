use tf_rs::movement::{bunnyhop_step, create_move_result, fire_decision, IN_ATTACK, IN_JUMP};

#[test]
fn hop_releases_jump_in_the_air() {
    assert_eq!(bunnyhop_step(false, false, IN_JUMP, true), (IN_JUMP, true));
    assert_eq!(bunnyhop_step(true, true, IN_JUMP | 8, false), (IN_JUMP | 8, true));
    assert_eq!(bunnyhop_step(true, false, IN_JUMP | 8, true), (8, true));
    assert_eq!(bunnyhop_step(true, false, IN_JUMP, false), (IN_JUMP, true));
    assert_eq!(bunnyhop_step(true, false, 0, true), (0, false));
}

#[test]
fn aim_fires_when_wanted() {
    assert_eq!(fire_decision(true, true, 0, true, true, false), (true, IN_ATTACK));
    assert_eq!(fire_decision(true, false, 0, true, true, false), (false, 0));
    assert_eq!(fire_decision(false, false, IN_ATTACK, true, true, false), (true, IN_ATTACK));
    assert_eq!(fire_decision(false, false, 0, true, true, false), (false, 0));
    assert_eq!(fire_decision(true, true, 0, false, true, false), (false, 0));
    assert_eq!(fire_decision(true, true, 0, true, false, false), (false, 0));
    assert_eq!(fire_decision(true, true, 0, true, true, true), (false, 0));
}

#[test]
fn tick_result_under_silent_aim() {
    assert_eq!(create_move_result(true, true, true, 7), 0);
    assert_eq!(create_move_result(true, true, false, 7), 7);
    assert_eq!(create_move_result(false, true, true, 7), 7);
    assert_eq!(create_move_result(true, false, true, 7), 7);
}
