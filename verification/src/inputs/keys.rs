//! Key events as the terminal front end reports them.
use vstd::prelude::*;

verus! {

/// A key, as a terminal reports it.
#[derive(Clone, Copy, Debug, PartialEq, Eq, Structural)]
pub enum KeyCode {
    Backspace,
    Enter,
    Left,
    Right,
    Up,
    Down,
    Home,
    End,
    PageUp,
    PageDown,
    Tab,
    BackTab,
    Delete,
    Insert,
    F(u8),
    Char(char),
    Null,
    Esc,
    CapsLock,
    ScrollLock,
    NumLock,
    PrintScreen,
    Pause,
    Menu,
    KeypadBegin,
    /// A media key.
    Media,
    /// A modifier key pressed on its own.
    Modifier,
}

/// The modifier keys held with a key.
#[derive(Clone, Copy, Debug, Default, PartialEq, Eq, Structural)]
pub struct KeyModifiers {
    pub shift: bool,
    pub control: bool,
    pub alt: bool,
    pub super_key: bool,
    pub hyper: bool,
    pub meta: bool,
}

impl KeyModifiers {
    pub open spec fn spec_none() -> KeyModifiers {
        KeyModifiers {
            shift: false,
            control: false,
            alt: false,
            super_key: false,
            hyper: false,
            meta: false,
        }
    }

    /// No modifier.
    pub fn none() -> (r: KeyModifiers)
        ensures
            r == Self::spec_none(),
    {
        KeyModifiers {
            shift: false,
            control: false,
            alt: false,
            super_key: false,
            hyper: false,
            meta: false,
        }
    }

    /// Control alone.
    pub fn control() -> (r: KeyModifiers)
        ensures
            r == (KeyModifiers { control: true, ..Self::spec_none() }),
    {
        KeyModifiers { control: true, ..Self::none() }
    }

    /// Alt alone.
    pub fn alt() -> (r: KeyModifiers)
        ensures
            r == (KeyModifiers { alt: true, ..Self::spec_none() }),
    {
        KeyModifiers { alt: true, ..Self::none() }
    }

    /// Shift alone.
    pub fn shift() -> (r: KeyModifiers)
        ensures
            r == (KeyModifiers { shift: true, ..Self::spec_none() }),
    {
        KeyModifiers { shift: true, ..Self::none() }
    }

    /// Every modifier held in either.
    pub fn union(self, other: KeyModifiers) -> (r: KeyModifiers)
        ensures
            r == (KeyModifiers {
                shift: self.shift || other.shift,
                control: self.control || other.control,
                alt: self.alt || other.alt,
                super_key: self.super_key || other.super_key,
                hyper: self.hyper || other.hyper,
                meta: self.meta || other.meta,
            }),
    {
        KeyModifiers {
            shift: self.shift || other.shift,
            control: self.control || other.control,
            alt: self.alt || other.alt,
            super_key: self.super_key || other.super_key,
            hyper: self.hyper || other.hyper,
            meta: self.meta || other.meta,
        }
    }
}

/// A key press: the key and the modifiers held with it.
#[derive(Clone, Copy, Debug, PartialEq, Eq, Structural)]
pub struct KeyEvent {
    pub code: KeyCode,
    pub modifiers: KeyModifiers,
}

impl KeyEvent {
    pub fn new(code: KeyCode, modifiers: KeyModifiers) -> (r: KeyEvent)
        ensures
            r == (KeyEvent { code, modifiers }),
    {
        KeyEvent { code, modifiers }
    }
}

} // verus!
