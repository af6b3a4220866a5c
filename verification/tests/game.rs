use aim_trainer::game::{fire_input, game_loop_step, toggle_fullscreen, GameState, InputMessage, ScreenMode};

#[test]
fn escape_pauses_and_resumes() {
    assert_eq!(game_loop_step(false, GameState::Playing, false, true), (false, Some(GameState::Paused)));
    assert_eq!(game_loop_step(false, GameState::Paused, false, true), (false, Some(GameState::Playing)));
    assert_eq!(game_loop_step(true, GameState::Paused, true, false), (false, None));
    assert_eq!(game_loop_step(false, GameState::Playing, true, false), (true, None));
}

#[test]
fn fire_inputs() {
    assert_eq!(fire_input(true, true), Some(InputMessage::FireWeapon));
    assert_eq!(fire_input(false, true), Some(InputMessage::FireWeaponHeld));
    assert_eq!(fire_input(false, false), None);
}

#[test]
fn fullscreen_toggles() {
    assert_eq!(toggle_fullscreen(false), (true, ScreenMode::BorderlessFullscreen));
    assert_eq!(toggle_fullscreen(true), (false, ScreenMode::Windowed));
}
