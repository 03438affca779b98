use vstd::prelude::*;
use crate::text::{is_uppercase, unicode_uppercase};

verus! {

/// The escape byte that starts terminal control sequences.
pub const ESCAPE: u8 = 0x1B;

/// A key of the keyboard.
#[derive(Debug, Clone, Copy, PartialEq, Eq, Structural)]
pub enum Key {
    Char(char),
    Function(u16),
    Insert,
    Delete,
    Home,
    End,
    Up,
    Down,
    Left,
    Right,
    Keypad5,
    Backspace,
    PrintScreen,
    ScrollLock,
    Pause,
    Enter,
    PageUp,
    PageDown,
    Escape,
}

/// An input event of the terminal.
#[derive(Debug, Clone, Copy, PartialEq, Eq, Structural)]
pub enum Event {
    CursorPosition { row: u32, column: u32 },
    WindowSize { rows: u32, columns: u32 },
    KeyPress { ctrl: bool, alt: bool, shift: bool, key: Key },
    Mouse { ctrl: bool, alt: bool, shift: bool, release: bool, button: u8, row: u32, column: u32 },
    Unsupported,
}

/// The key that a typed character stands for.
pub open spec fn key_of_char(ch: char) -> Key {
    if ch == '\r' || ch == '\n' {
        Key::Enter
    } else if ch == '\x1B' {
        Key::Escape
    } else if ch == '\x7F' {
        Key::Backspace
    } else {
        Key::Char(ch)
    }
}

impl Key {
    /// Carriage return and line feed are Enter, ESC is Escape, DEL is
    /// Backspace; every other character is itself.
    pub fn from_char(ch: char) -> (k: Self)
        ensures
            k == key_of_char(ch),
    {
        if ch == '\r' || ch == '\n' {
            Key::Enter
        } else if ch == '\x1B' {
            Key::Escape
        } else if ch == '\x7F' {
            Key::Backspace
        } else {
            Key::Char(ch)
        }
    }
}

impl Event {
    /// A press of `key` without modifiers.
    pub fn key(key: Key) -> (e: Self)
        ensures
            e == (Event::KeyPress { ctrl: false, alt: false, shift: false, key }),
    {
        Event::KeyPress { ctrl: false, alt: false, shift: false, key }
    }

    /// A press of `key` with Alt.
    pub fn alt_key(key: Key) -> (e: Self)
        ensures
            e == (Event::KeyPress { ctrl: false, alt: true, shift: false, key }),
    {
        Event::KeyPress { ctrl: false, alt: true, shift: false, key }
    }

    /// The key press of a typed character; Shift is set for upper case.
    pub fn from_char(ch: char) -> (e: Self)
        ensures
            e == (Event::KeyPress { ctrl: false, alt: false, shift: unicode_uppercase(ch), key: key_of_char(ch) }),
    {
        Event::KeyPress { ctrl: false, alt: false, shift: is_uppercase(ch), key: Key::from_char(ch) }
    }

    /// The key press of a character typed with Alt; Shift is set for upper
    /// case.
    pub fn from_char_alt(ch: char) -> (e: Self)
        ensures
            e == (Event::KeyPress { ctrl: false, alt: true, shift: unicode_uppercase(ch), key: key_of_char(ch) }),
    {
        Event::KeyPress { ctrl: false, alt: true, shift: is_uppercase(ch), key: Key::from_char(ch) }
    }

    /// Escape pressed alone.
    pub fn escape_event() -> (e: Self)
        ensures
            e == (Event::KeyPress { ctrl: false, alt: false, shift: false, key: Key::Escape }),
    {
        Event::KeyPress { ctrl: false, alt: false, shift: false, key: Key::Escape }
    }
}

/// A sequence read from the terminal, before it is turned into an event.
#[derive(Debug, Clone, Copy, PartialEq, Eq, Structural)]
pub enum InputSequence {
    Char(char),
    Alt(char),
    Modifier { modifier: u32, char: char },
    KeyCode { key_code: u32, modifier: u32 },
    CursorPos { row: u32, column: u32 },
    WindowSize { rows: u32, columns: u32 },
    SingleShift3(char),
}

} // verus!
