use crossterm::event::{Event as TermEvent, KeyCode, KeyEvent, KeyEventKind, KeyModifiers};
use tui_input::backend::crossterm::to_input_request;
use tui_input::InputRequest;
use vstd::prelude::*;

verus! {

#[verifier::external_type_specification]
pub struct ExInputRequest(InputRequest);

/// The key of a key event, as the state machine sees it.
#[derive(PartialEq, Eq, Structural, Clone, Copy, Debug)]
pub enum Key {
    Char(char),
    Enter,
    Esc,
    Backspace,
    Delete,
    Left,
    Right,
    Home,
    End,
    Tab,
    Other,
}

/// Whether a key event is a press, a repeat or a release.
#[derive(PartialEq, Eq, Structural, Clone, Copy, Debug)]
pub enum KeyKind {
    Press,
    Repeat,
    Release,
}

/// Modifier bits of a key event, with crossterm's values.
pub const SHIFT: u8 = 0b0000_0001;
pub const CONTROL: u8 = 0b0000_0010;
pub const ALT: u8 = 0b0000_0100;
pub const SUPER: u8 = 0b0000_1000;
pub const HYPER: u8 = 0b0001_0000;
pub const META: u8 = 0b0010_0000;

/// A key event: the key, the set of modifier bits held and the event kind.
#[derive(PartialEq, Eq, Structural, Clone, Copy, Debug)]
pub struct KeyInput {
    pub code: Key,
    pub modifiers: u8,
    pub kind: KeyKind,
}

/// The line-editing request a key event stands for: only presses count, and
/// the modifier set must match exactly.
pub open spec fn request_table(k: KeyInput) -> Option<InputRequest> {
    let m = k.modifiers;
    if k.kind != KeyKind::Press {
        None
    } else {
        match k.code {
            Key::Backspace => if m == 0 {
                Some(InputRequest::DeletePrevChar)
            } else if m == META {
                Some(InputRequest::DeletePrevWord)
            } else {
                None
            },
            Key::Delete => if m == 0 {
                Some(InputRequest::DeleteNextChar)
            } else if m == CONTROL {
                Some(InputRequest::DeleteNextWord)
            } else {
                None
            },
            Key::Left => if m == 0 {
                Some(InputRequest::GoToPrevChar)
            } else if m == CONTROL {
                Some(InputRequest::GoToPrevWord)
            } else {
                None
            },
            Key::Right => if m == 0 {
                Some(InputRequest::GoToNextChar)
            } else if m == CONTROL {
                Some(InputRequest::GoToNextWord)
            } else {
                None
            },
            Key::Home => if m == 0 {
                Some(InputRequest::GoToStart)
            } else {
                None
            },
            Key::End => if m == 0 {
                Some(InputRequest::GoToEnd)
            } else {
                None
            },
            Key::Char(c) => if m == CONTROL {
                match c {
                    'h' => Some(InputRequest::DeletePrevChar),
                    'b' => Some(InputRequest::GoToPrevChar),
                    'f' => Some(InputRequest::GoToNextChar),
                    'u' => Some(InputRequest::DeleteLine),
                    'w' => Some(InputRequest::DeletePrevWord),
                    'k' => Some(InputRequest::DeleteTillEnd),
                    'a' => Some(InputRequest::GoToStart),
                    'e' => Some(InputRequest::GoToEnd),
                    _ => None,
                }
            } else if m == META {
                match c {
                    'b' => Some(InputRequest::GoToPrevWord),
                    'f' => Some(InputRequest::GoToNextWord),
                    'd' => Some(InputRequest::DeletePrevWord),
                    _ => None,
                }
            } else if m == 0 || m == SHIFT {
                Some(InputRequest::InsertChar(c))
            } else {
                None
            },
            _ => None,
        }
    }
}

/// Relies on tui-input's `backend::crossterm::to_input_request`, which maps a
/// crossterm key event to an editing request by the table above. `Other`
/// stands for a key that the table does not name.
#[verifier::external_body]
pub(crate) fn input_request_of(k: KeyInput) -> (r: Option<InputRequest>)
    ensures
        r == request_table(k),
{
    let code = match k.code {
        Key::Char(c) => KeyCode::Char(c), Key::Enter => KeyCode::Enter, Key::Esc => KeyCode::Esc,
        Key::Backspace => KeyCode::Backspace, Key::Delete => KeyCode::Delete,
        Key::Left => KeyCode::Left, Key::Right => KeyCode::Right, Key::Home => KeyCode::Home,
        Key::End => KeyCode::End, Key::Tab => KeyCode::Tab, Key::Other => KeyCode::Null,
    };
    let kind = match k.kind {
        KeyKind::Press => KeyEventKind::Press, KeyKind::Repeat => KeyEventKind::Repeat,
        KeyKind::Release => KeyEventKind::Release,
    };
    let mods = KeyModifiers::from_bits_retain(k.modifiers);
    to_input_request(&TermEvent::Key(KeyEvent::new_with_kind(code, mods, kind)))
}

} // verus!
