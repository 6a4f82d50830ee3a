use musimanager::app::keys::{
    browser_command, player_command, state_after_typing, state_after_unhandled, AppState, BrowserCommand, Key,
    PlayerCommand, TypingOutcome,
};
use musimanager::app::typing::TypingInput;

#[test]
fn browser_keys_map_to_commands() {
    assert_eq!(browser_command(Key::Char('y')), Some(BrowserCommand::ToggleYank));
    assert_eq!(browser_command(Key::Char('V')), Some(BrowserCommand::PasteAfter));
    assert_eq!(browser_command(Key::Right), Some(BrowserCommand::EnterSelected));
    assert_eq!(browser_command(Key::Left), Some(BrowserCommand::Back));
    assert_eq!(browser_command(Key::Char('q')), None);
}

#[test]
fn player_keys_map_to_commands() {
    assert_eq!(player_command(Key::Char('p')), Some(PlayerCommand::TogglePause));
    assert_eq!(player_command(Key::Char('j')), Some(PlayerCommand::SeekBack));
    assert_eq!(player_command(Key::Char('l')), Some(PlayerCommand::NextSong));
    assert_eq!(player_command(Key::Up), None);
}

#[test]
fn unhandled_keys_quit_or_wait_for_debug() {
    assert_eq!(state_after_unhandled(AppState::Browser, Key::Char('q')), AppState::Quit);
    assert_eq!(state_after_unhandled(AppState::Browser, Key::Char('d')), AppState::DbgInput);
    assert_eq!(state_after_unhandled(AppState::Browser, Key::Char('x')), AppState::Browser);
}

#[test]
fn typing_ends_on_enter_or_escape() {
    assert_eq!(state_after_typing(TypingOutcome::Submitted), AppState::Browser);
    assert_eq!(state_after_typing(TypingOutcome::Cancelled), AppState::Browser);
    assert_eq!(state_after_typing(TypingOutcome::Edited), AppState::Typing);
}

#[test]
fn cursor_moves_stay_within_the_text() {
    let mut t = TypingInput::from_content("ab");
    t.move_right();
    assert_eq!(t.cursor(), 2);
    t.home();
    t.move_left();
    assert_eq!(t.cursor(), 0);
    t.backspace();
    assert_eq!(t.text(), "ab");
    t.insert_char('x');
    assert_eq!(t.text(), "xab");
    t.end();
    assert_eq!(t.cursor(), 3);
}
