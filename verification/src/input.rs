//! Keys, buttons and the wheel, and what a key means to the viewer.

use vstd::prelude::*;

use crate::document::Scalar;
use crate::text::chars_of;

verus! {

/// A place in the window.
#[derive(Debug, Clone, Copy, PartialEq, Eq, Structural)]
pub struct Point {
    pub x: Scalar,
    pub y: Scalar,
}

/// Whether a key or a button goes down or up.
#[derive(Debug, Clone, Copy, PartialEq, Eq, Structural)]
pub enum ElementState {
    Pressed,
    Released,
}

/// A button of the pointer.
#[derive(Debug, Clone, Copy, PartialEq, Eq, Structural)]
pub enum MouseButton {
    Left,
    Other,
}

/// A key that writes nothing.
#[derive(Debug, Clone, Copy, PartialEq, Eq, Structural)]
pub enum NamedKey {
    Control,
    Shift,
    ArrowUp,
    ArrowDown,
    ArrowLeft,
    ArrowRight,
    PageUp,
    PageDown,
    Space,
    Home,
    End,
    Other,
}

/// A key: what it writes, or its name.
pub enum Key {
    Character(String),
    Named(NamedKey),
    Other,
}

/// A key that goes down or up, with the modifiers that are held meanwhile.
pub struct KeyEvent {
    pub logical_key: Key,
    pub state: ElementState,
    pub ctrl: bool,
    pub shift: bool,
}

/// What a key asks for.
#[derive(Debug, Clone, Copy, PartialEq, Eq, Structural)]
pub enum KeyAction {
    Nothing,
    ZoomIn,
    ZoomOut,
    FitPage,
    ActualSize,
    TurnRight,
    TurnLeft,
    OpenDialog,
    Quit,
    ScrollUp,
    ScrollDown,
    ScrollWindow,
    PreviousFile,
    NextFile,
    PreviousPage,
    NextPage,
    FirstPage,
    LastPage,
}

/// What a key that writes this text asks for.
pub open spec fn character_meaning(text: Seq<char>) -> KeyAction {
    if text.len() != 1 {
        KeyAction::Nothing
    } else if text[0] == '+' || text[0] == '=' {
        KeyAction::ZoomIn
    } else if text[0] == '-' {
        KeyAction::ZoomOut
    } else if text[0] == '0' {
        KeyAction::FitPage
    } else if text[0] == '1' {
        KeyAction::ActualSize
    } else if text[0] == 'r' || text[0] == 'R' {
        KeyAction::TurnRight
    } else if text[0] == 'l' || text[0] == 'L' {
        KeyAction::TurnLeft
    } else if text[0] == 'o' {
        KeyAction::OpenDialog
    } else if text[0] == 'q' {
        KeyAction::Quit
    } else {
        KeyAction::Nothing
    }
}

/// What a named key asks for: the arrows to the left and to the right, PageUp and
/// PageDown lead from file to file where the key is to browse the files, and else
/// from page to page.
pub open spec fn named_meaning(name: NamedKey, file_nav: bool) -> KeyAction {
    match name {
        NamedKey::ArrowUp => KeyAction::ScrollUp,
        NamedKey::ArrowDown => KeyAction::ScrollDown,
        NamedKey::ArrowLeft => if file_nav {
            KeyAction::PreviousFile
        } else {
            KeyAction::PreviousPage
        },
        NamedKey::ArrowRight => if file_nav {
            KeyAction::NextFile
        } else {
            KeyAction::NextPage
        },
        NamedKey::PageUp => if file_nav {
            KeyAction::PreviousFile
        } else {
            KeyAction::PreviousPage
        },
        NamedKey::PageDown => if file_nav {
            KeyAction::NextFile
        } else {
            KeyAction::NextPage
        },
        NamedKey::Space => KeyAction::ScrollWindow,
        NamedKey::Home => KeyAction::FirstPage,
        NamedKey::End => KeyAction::LastPage,
        _ => KeyAction::Nothing,
    }
}

/// What a key asks for.
pub open spec fn spec_meaning(key: Key, file_nav: bool) -> KeyAction {
    match key {
        Key::Character(text) => character_meaning(text@),
        Key::Named(name) => named_meaning(name, file_nav),
        Key::Other => KeyAction::Nothing,
    }
}

/// What a key asks for, where `file_nav` says whether it is to browse the files.
pub fn meaning(key: &Key, file_nav: bool) -> (r: KeyAction)
    ensures
        r == spec_meaning(*key, file_nav),
{
    match key {
        Key::Character(text) => {
            let chars = chars_of(text.as_str());
            if chars.len() != 1 {
                return KeyAction::Nothing;
            }
            let c = chars[0];
            if c == '+' || c == '=' {
                KeyAction::ZoomIn
            } else if c == '-' {
                KeyAction::ZoomOut
            } else if c == '0' {
                KeyAction::FitPage
            } else if c == '1' {
                KeyAction::ActualSize
            } else if c == 'r' || c == 'R' {
                KeyAction::TurnRight
            } else if c == 'l' || c == 'L' {
                KeyAction::TurnLeft
            } else if c == 'o' {
                KeyAction::OpenDialog
            } else if c == 'q' {
                KeyAction::Quit
            } else {
                KeyAction::Nothing
            }
        },
        Key::Named(name) => match name {
            NamedKey::ArrowUp => KeyAction::ScrollUp,
            NamedKey::ArrowDown => KeyAction::ScrollDown,
            NamedKey::ArrowLeft => if file_nav {
                KeyAction::PreviousFile
            } else {
                KeyAction::PreviousPage
            },
            NamedKey::ArrowRight => if file_nav {
                KeyAction::NextFile
            } else {
                KeyAction::NextPage
            },
            NamedKey::PageUp => if file_nav {
                KeyAction::PreviousFile
            } else {
                KeyAction::PreviousPage
            },
            NamedKey::PageDown => if file_nav {
                KeyAction::NextFile
            } else {
                KeyAction::NextPage
            },
            NamedKey::Space => KeyAction::ScrollWindow,
            NamedKey::Home => KeyAction::FirstPage,
            NamedKey::End => KeyAction::LastPage,
            _ => KeyAction::Nothing,
        },
        Key::Other => KeyAction::Nothing,
    }
}

} // verus!
