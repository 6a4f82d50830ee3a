use musimanager::app::keys::{handle_typing_key, Key, KeyPress, TypingOutcome};
use musimanager::app::typing::TypingInput;

fn press(code: Key) -> KeyPress {
    KeyPress { code, plain: true }
}

#[test]
fn typing_inserts_at_cursor_and_backspace_undoes_it() {
    let mut t = TypingInput::from_content("helo");
    assert_eq!(t.cursor(), 4);
    assert_eq!(handle_typing_key(&mut t, press(Key::Left)), TypingOutcome::Edited);
    assert_eq!(handle_typing_key(&mut t, press(Key::Char('l'))), TypingOutcome::Edited);
    assert_eq!(t.text(), "hello");
    assert_eq!(t.cursor(), 4);
    assert_eq!(handle_typing_key(&mut t, press(Key::Backspace)), TypingOutcome::Edited);
    assert_eq!(t.text(), "helo");
    assert_eq!(t.cursor(), 3);
}

#[test]
fn typing_enter_and_escape_end_typing() {
    let mut t = TypingInput::new();
    assert_eq!(handle_typing_key(&mut t, press(Key::Enter)), TypingOutcome::Submitted);
    assert_eq!(handle_typing_key(&mut t, press(Key::Esc)), TypingOutcome::Cancelled);
    assert_eq!(
        handle_typing_key(&mut t, KeyPress { code: Key::Left, plain: false }),
        TypingOutcome::Unhandled
    );
}
