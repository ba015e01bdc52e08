//! Which message a key or a mouse event stands for.
use vstd::prelude::*;
use crate::model::Message;

verus! {

/// A key, as far as the session tells keys apart.
#[derive(PartialEq, Eq, Structural, Clone, Copy, Debug)]
pub enum Key {
    Char(char),
    Esc,
    Enter,
    Up,
    Down,
    PageUp,
    PageDown,
    Home,
    End,
    Other,
}

/// A key press: the key, and whether Control was held.
#[derive(PartialEq, Eq, Structural, Clone, Copy, Debug)]
pub struct KeyInput {
    pub key: Key,
    pub ctrl: bool,
}

/// What a key press is for.
pub enum KeyAction {
    /// A message for the session.
    Send(Message),
    /// An edit of the search field's text.
    EditSearch,
}

/// The kinds of mouse event the session reacts to.
#[derive(PartialEq, Eq, Structural, Clone, Copy, Debug)]
pub enum MouseKind {
    ScrollDown,
    ScrollUp,
    Down,
    Other,
}

/// The message a key press stands for, while searching or not; `None` for keys with no use.
pub open spec fn key_action(key: KeyInput, search_active: bool) -> Option<KeyAction> {
    if search_active {
        match key.key {
            Key::Char(c) => if c == 'u' && key.ctrl {
                Some(KeyAction::Send(Message::ClearSearch))
            } else if c == ' ' {
                Some(KeyAction::Send(Message::ToggleSelectItemAndSelectNext))
            } else {
                Some(KeyAction::EditSearch)
            },
            Key::Esc => Some(KeyAction::Send(Message::HideSearch)),
            Key::Up => Some(KeyAction::Send(Message::SelectPrevious)),
            Key::Down => Some(KeyAction::Send(Message::SelectNext)),
            Key::PageDown => Some(KeyAction::Send(Message::SelectNextPage)),
            Key::PageUp => Some(KeyAction::Send(Message::SelectPreviousPage)),
            Key::Home => Some(KeyAction::Send(Message::GoToTop)),
            Key::Enter => None,
            _ => Some(KeyAction::EditSearch),
        }
    } else {
        match key.key {
            Key::Char(c) => if c == ' ' {
                Some(KeyAction::Send(Message::ToggleSelectItemAndSelectNext))
            } else if c == '/' {
                Some(KeyAction::Send(Message::ShowSearch))
            } else if c == 'j' {
                Some(KeyAction::Send(Message::SelectNext))
            } else if c == 'k' {
                Some(KeyAction::Send(Message::SelectPrevious))
            } else if c == 'q' {
                Some(KeyAction::Send(Message::Quit))
            } else if c == 'w' {
                Some(KeyAction::Send(Message::WriteAndQuit))
            } else {
                None
            },
            Key::Up => Some(KeyAction::Send(Message::SelectPrevious)),
            Key::Down => Some(KeyAction::Send(Message::SelectNext)),
            Key::Esc => Some(KeyAction::Send(Message::HideSearch)),
            Key::PageDown => Some(KeyAction::Send(Message::SelectNextPage)),
            Key::PageUp => Some(KeyAction::Send(Message::SelectPreviousPage)),
            Key::Home => Some(KeyAction::Send(Message::GoToTop)),
            Key::End => Some(KeyAction::Send(Message::GoToBottom)),
            _ => None,
        }
    }
}

/// Maps a key press to what it is for (see `key_action`).
pub fn handle_key(key: KeyInput, search_active: bool) -> (r: Option<KeyAction>)
    ensures
        r == key_action(key, search_active),
{
    if search_active {
        match key.key {
            Key::Char(c) => if c == 'u' && key.ctrl {
                Some(KeyAction::Send(Message::ClearSearch))
            } else if c == ' ' {
                Some(KeyAction::Send(Message::ToggleSelectItemAndSelectNext))
            } else {
                Some(KeyAction::EditSearch)
            },
            Key::Esc => Some(KeyAction::Send(Message::HideSearch)),
            Key::Up => Some(KeyAction::Send(Message::SelectPrevious)),
            Key::Down => Some(KeyAction::Send(Message::SelectNext)),
            Key::PageDown => Some(KeyAction::Send(Message::SelectNextPage)),
            Key::PageUp => Some(KeyAction::Send(Message::SelectPreviousPage)),
            Key::Home => Some(KeyAction::Send(Message::GoToTop)),
            Key::Enter => None,
            _ => Some(KeyAction::EditSearch),
        }
    } else {
        match key.key {
            Key::Char(' ') => Some(KeyAction::Send(Message::ToggleSelectItemAndSelectNext)),
            Key::Char('/') => Some(KeyAction::Send(Message::ShowSearch)),
            Key::Char('j') => Some(KeyAction::Send(Message::SelectNext)),
            Key::Char('k') => Some(KeyAction::Send(Message::SelectPrevious)),
            Key::Char('q') => Some(KeyAction::Send(Message::Quit)),
            Key::Char('w') => Some(KeyAction::Send(Message::WriteAndQuit)),
            Key::Up => Some(KeyAction::Send(Message::SelectPrevious)),
            Key::Down => Some(KeyAction::Send(Message::SelectNext)),
            Key::Esc => Some(KeyAction::Send(Message::HideSearch)),
            Key::PageDown => Some(KeyAction::Send(Message::SelectNextPage)),
            Key::PageUp => Some(KeyAction::Send(Message::SelectPreviousPage)),
            Key::Home => Some(KeyAction::Send(Message::GoToTop)),
            Key::End => Some(KeyAction::Send(Message::GoToBottom)),
            _ => None,
        }
    }
}

/// The message a mouse event stands for: wheel moves scroll, a press selects the row.
pub fn handle_mouse(kind: MouseKind, row: u16) -> (r: Option<Message>)
    ensures
        r == match kind {
            MouseKind::ScrollDown => Some(Message::ScrollDown),
            MouseKind::ScrollUp => Some(Message::ScrollUp),
            MouseKind::Down => Some(Message::SelectRow(row)),
            MouseKind::Other => None::<Message>,
        },
{
    match kind {
        MouseKind::ScrollDown => Some(Message::ScrollDown),
        MouseKind::ScrollUp => Some(Message::ScrollUp),
        MouseKind::Down => Some(Message::SelectRow(row)),
        MouseKind::Other => None,
    }
}

} // verus!
