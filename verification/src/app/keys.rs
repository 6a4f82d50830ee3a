use vstd::prelude::*;

use crate::app::typing::{erased, typed, TypingInput};

verus! {

/// What the application is doing.
#[derive(Clone, Copy, Debug, PartialEq, Eq, Structural)]
pub enum AppState {
    Browser,
    Help,
    Quit,
    Typing,
    DbgInput,
}

/// A key, as far as the application tells keys apart.
#[derive(Clone, Copy, Debug, PartialEq, Eq, Structural)]
pub enum Key {
    Char(char),
    Backspace,
    Left,
    Right,
    Up,
    Down,
    Home,
    End,
    Enter,
    Esc,
    Other,
}

/// A key press: the key, and whether it came without modifiers.
#[derive(Clone, Copy, Debug, PartialEq, Eq, Structural)]
pub struct KeyPress {
    pub code: Key,
    pub plain: bool,
}

/// What a key press while typing comes to.
#[derive(Clone, Copy, Debug, PartialEq, Eq, Structural)]
pub enum TypingOutcome {
    /// The text or the cursor was edited (or could not move further).
    Edited,
    /// Typing was given up: back to browsing, and the typing screen closes.
    Cancelled,
    /// The text was entered: it is handed on, then back to browsing.
    Submitted,
    /// The key means nothing while typing.
    Unhandled,
}

/// What typing makes of a key press, for the text and cursor before it.
pub open spec fn typing_step(s: Seq<char>, k: usize, key: KeyPress) -> (TypingOutcome, (Seq<char>, usize)) {
    match key.code {
        Key::Esc => (TypingOutcome::Cancelled, (s, k)),
        Key::Char(c) => (TypingOutcome::Edited, typed(s, k, c)),
        Key::Backspace => (TypingOutcome::Edited, erased(s, k)),
        Key::Left => if key.plain {
            (TypingOutcome::Edited, (s, if k > 0 { (k - 1) as usize } else { k }))
        } else {
            (TypingOutcome::Unhandled, (s, k))
        },
        Key::Right => if key.plain {
            (TypingOutcome::Edited, (s, if k < s.len() { (k + 1) as usize } else { k }))
        } else {
            (TypingOutcome::Unhandled, (s, k))
        },
        Key::Home => (TypingOutcome::Edited, (s, 0usize)),
        Key::End => (TypingOutcome::Edited, (s, s.len() as usize)),
        Key::Enter => (TypingOutcome::Submitted, (s, k)),
        _ => (TypingOutcome::Unhandled, (s, k)),
    }
}

/// Applies a key press to the text being typed.
pub fn handle_typing_key(input: &mut TypingInput, key: KeyPress) -> (r: TypingOutcome)
    requires
        old(input).wf(),
        old(input)@.0.len() < usize::MAX,
    ensures
        final(input).wf(),
        (r, final(input)@) == typing_step(old(input)@.0, old(input)@.1, key),
{
    match key.code {
        Key::Esc => TypingOutcome::Cancelled,
        Key::Char(c) => {
            input.insert_char(c);
            TypingOutcome::Edited
        },
        Key::Backspace => {
            input.backspace();
            TypingOutcome::Edited
        },
        Key::Left => {
            if key.plain {
                input.move_left();
                TypingOutcome::Edited
            } else {
                TypingOutcome::Unhandled
            }
        },
        Key::Right => {
            if key.plain {
                input.move_right();
                TypingOutcome::Edited
            } else {
                TypingOutcome::Unhandled
            }
        },
        Key::Home => {
            input.home();
            TypingOutcome::Edited
        },
        Key::End => {
            input.end();
            TypingOutcome::Edited
        },
        Key::Enter => TypingOutcome::Submitted,
        _ => TypingOutcome::Unhandled,
    }
}

/// The state after typing ends one way or the other.
pub fn state_after_typing(outcome: TypingOutcome) -> (r: AppState)
    ensures
        r == match outcome {
            TypingOutcome::Cancelled | TypingOutcome::Submitted => AppState::Browser,
            _ => AppState::Typing,
        },
{
    match outcome {
        TypingOutcome::Cancelled | TypingOutcome::Submitted => AppState::Browser,
        _ => AppState::Typing,
    }
}

/// What the browser does with a key.
#[derive(Clone, Copy, Debug, PartialEq, Eq, Structural)]
pub enum BrowserCommand {
    OpenMenuForCurrent,
    OpenEditForCurrent,
    /// Toggles the yank of the selected entry, then moves down.
    ToggleYank,
    /// Forgets the yanked entries.
    ClearYank,
    Cut,
    Copy,
    /// Pastes at the selected entry.
    PasteAt,
    /// Pastes after the selected entry.
    PasteAfter,
    Redo,
    Undo,
    /// Drops the yank if there is one; otherwise the key is not the browser's.
    Escape,
    SelectionUp,
    SelectionDown,
    EnterSelected,
    Back,
}

pub open spec fn browser_command_of(key: Key) -> Option<BrowserCommand> {
    match key {
        Key::Char('G') => Some(BrowserCommand::OpenMenuForCurrent),
        Key::Char('E') => Some(BrowserCommand::OpenEditForCurrent),
        Key::Char('y') => Some(BrowserCommand::ToggleYank),
        Key::Char('Y') => Some(BrowserCommand::ClearYank),
        Key::Char('X') => Some(BrowserCommand::Cut),
        Key::Char('C') => Some(BrowserCommand::Copy),
        Key::Char('v') => Some(BrowserCommand::PasteAt),
        Key::Char('V') => Some(BrowserCommand::PasteAfter),
        Key::Char('Z') => Some(BrowserCommand::Redo),
        Key::Char('z') => Some(BrowserCommand::Undo),
        Key::Esc => Some(BrowserCommand::Escape),
        Key::Up => Some(BrowserCommand::SelectionUp),
        Key::Down => Some(BrowserCommand::SelectionDown),
        Key::Right => Some(BrowserCommand::EnterSelected),
        Key::Left => Some(BrowserCommand::Back),
        _ => None,
    }
}

/// The browser's command for a key, none where the key is not the browser's.
/// The global-menu key 'g' is not handled yet and is left out.
pub fn browser_command(key: Key) -> (r: Option<BrowserCommand>)
    requires
        key != Key::Char('g'),
    ensures
        r == browser_command_of(key),
{
    match key {
        Key::Char(c) => {
            if c == 'G' {
                Some(BrowserCommand::OpenMenuForCurrent)
            } else if c == 'E' {
                Some(BrowserCommand::OpenEditForCurrent)
            } else if c == 'y' {
                Some(BrowserCommand::ToggleYank)
            } else if c == 'Y' {
                Some(BrowserCommand::ClearYank)
            } else if c == 'X' {
                Some(BrowserCommand::Cut)
            } else if c == 'C' {
                Some(BrowserCommand::Copy)
            } else if c == 'v' {
                Some(BrowserCommand::PasteAt)
            } else if c == 'V' {
                Some(BrowserCommand::PasteAfter)
            } else if c == 'Z' {
                Some(BrowserCommand::Redo)
            } else if c == 'z' {
                Some(BrowserCommand::Undo)
            } else {
                None
            }
        },
        Key::Esc => Some(BrowserCommand::Escape),
        Key::Up => Some(BrowserCommand::SelectionUp),
        Key::Down => Some(BrowserCommand::SelectionDown),
        Key::Right => Some(BrowserCommand::EnterSelected),
        Key::Left => Some(BrowserCommand::Back),
        _ => None,
    }
}

/// What the player does with a key.
#[derive(Clone, Copy, Debug, PartialEq, Eq, Structural)]
pub enum PlayerCommand {
    TogglePause,
    /// Seeks ten seconds ahead.
    SeekForward,
    /// Seeks ten seconds back.
    SeekBack,
    NextSong,
    PrevSong,
}

pub open spec fn player_command_of(key: Key) -> Option<PlayerCommand> {
    match key {
        Key::Char('p') => Some(PlayerCommand::TogglePause),
        Key::Char('k') => Some(PlayerCommand::SeekForward),
        Key::Char('j') => Some(PlayerCommand::SeekBack),
        Key::Char('l') => Some(PlayerCommand::NextSong),
        Key::Char('h') => Some(PlayerCommand::PrevSong),
        _ => None,
    }
}

/// The player's command for a key, none where the key is not the player's.
pub fn player_command(key: Key) -> (r: Option<PlayerCommand>)
    ensures
        r == player_command_of(key),
{
    match key {
        Key::Char(c) => {
            if c == 'p' {
                Some(PlayerCommand::TogglePause)
            } else if c == 'k' {
                Some(PlayerCommand::SeekForward)
            } else if c == 'j' {
                Some(PlayerCommand::SeekBack)
            } else if c == 'l' {
                Some(PlayerCommand::NextSong)
            } else if c == 'h' {
                Some(PlayerCommand::PrevSong)
            } else {
                None
            }
        },
        _ => None,
    }
}

/// Each browser command has its one key: 'z' undoes and the shifted 'Z'
/// redoes, 'y' toggles a yank and 'Y' clears it, 'X' cuts, 'C' copies,
/// 'v' pastes at and 'V' after the selection, 'G' and 'E' open the menu and
/// the editor, Esc escapes and the arrows move and enter; no other key is
/// the browser's.
pub proof fn lemma_browser_keys(key: Key)
    ensures
        browser_command_of(key) == Some(BrowserCommand::Undo) <==> key == Key::Char('z'),
        browser_command_of(key) == Some(BrowserCommand::Redo) <==> key == Key::Char('Z'),
        browser_command_of(key) == Some(BrowserCommand::ToggleYank) <==> key == Key::Char('y'),
        browser_command_of(key) == Some(BrowserCommand::ClearYank) <==> key == Key::Char('Y'),
        browser_command_of(key) == Some(BrowserCommand::Cut) <==> key == Key::Char('X'),
        browser_command_of(key) == Some(BrowserCommand::Copy) <==> key == Key::Char('C'),
        browser_command_of(key) == Some(BrowserCommand::PasteAt) <==> key == Key::Char('v'),
        browser_command_of(key) == Some(BrowserCommand::PasteAfter) <==> key == Key::Char('V'),
        browser_command_of(key) == Some(BrowserCommand::OpenMenuForCurrent) <==> key == Key::Char('G'),
        browser_command_of(key) == Some(BrowserCommand::OpenEditForCurrent) <==> key == Key::Char('E'),
        browser_command_of(key) == Some(BrowserCommand::Escape) <==> key == Key::Esc,
        browser_command_of(key) == Some(BrowserCommand::SelectionUp) <==> key == Key::Up,
        browser_command_of(key) == Some(BrowserCommand::SelectionDown) <==> key == Key::Down,
        browser_command_of(key) == Some(BrowserCommand::EnterSelected) <==> key == Key::Right,
        browser_command_of(key) == Some(BrowserCommand::Back) <==> key == Key::Left,
        browser_command_of(key) is None <==> match key {
            Key::Char(c) => !(c == 'z' || c == 'Z' || c == 'y' || c == 'Y' || c == 'X' || c == 'C' || c == 'v' || c == 'V'
                || c == 'G' || c == 'E'),
            Key::Esc | Key::Up | Key::Down | Key::Right | Key::Left => false,
            _ => true,
        },
{
}

/// Each player command has its one key: 'p' pauses, 'k' seeks ahead and 'j'
/// back, 'l' goes to the next song and 'h' to the one before; no other key
/// is the player's.
pub proof fn lemma_player_keys(key: Key)
    ensures
        player_command_of(key) == Some(PlayerCommand::TogglePause) <==> key == Key::Char('p'),
        player_command_of(key) == Some(PlayerCommand::SeekForward) <==> key == Key::Char('k'),
        player_command_of(key) == Some(PlayerCommand::SeekBack) <==> key == Key::Char('j'),
        player_command_of(key) == Some(PlayerCommand::NextSong) <==> key == Key::Char('l'),
        player_command_of(key) == Some(PlayerCommand::PrevSong) <==> key == Key::Char('h'),
        player_command_of(key) is None <==> !(key == Key::Char('p') || key == Key::Char('k') || key == Key::Char('j')
            || key == Key::Char('l') || key == Key::Char('h')),
{
}

/// The state after a key that nothing else handled: 'q' quits, 'd' waits
/// for a debug key, anything else changes nothing.
pub fn state_after_unhandled(state: AppState, key: Key) -> (r: AppState)
    ensures
        r == match key {
            Key::Char('q') => AppState::Quit,
            Key::Char('d') => AppState::DbgInput,
            _ => state,
        },
{
    match key {
        Key::Char(c) => {
            if c == 'q' {
                AppState::Quit
            } else if c == 'd' {
                AppState::DbgInput
            } else {
                state
            }
        },
        _ => state,
    }
}

} // verus!
