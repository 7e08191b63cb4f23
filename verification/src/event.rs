use vstd::prelude::*;

verus! {

/// The key of a keyboard event. Keys that no handler reacts to are all `Other`.
#[derive(Copy, Clone, PartialEq, Eq, Structural, Debug)]
pub enum KeyCode {
    Backspace,
    Enter,
    Left,
    Right,
    Up,
    Down,
    Esc,
    Char(char),
    Other,
}

/// Whether the key went down, is held, or went up.
#[derive(Copy, Clone, PartialEq, Eq, Structural, Debug)]
pub enum KeyEventKind {
    Press,
    Repeat,
    Release,
}

/// The modifier keys held during a key event, one bit each.
#[derive(Copy, Clone, PartialEq, Eq, Structural, Debug)]
pub struct KeyModifiers {
    pub bits: u8,
}

impl KeyModifiers {
    /// No modifier key is held.
    pub const NONE: u8 = 0b0000_0000;

    /// Shift is held.
    pub const SHIFT: u8 = 0b0000_0001;

    /// Control is held.
    pub const CONTROL: u8 = 0b0000_0010;

    /// Alt is held.
    pub const ALT: u8 = 0b0000_0100;

    /// The modifiers whose bits are set in `bits`.
    pub fn from_bits(bits: u8) -> (m: Self)
        ensures
            m.bits == bits,
    {
        KeyModifiers { bits }
    }

    /// No modifier key is held.
    pub fn none() -> (m: Self)
        ensures
            m.bits == Self::NONE,
    {
        KeyModifiers { bits: Self::NONE }
    }

    /// Control is held, and no other modifier key.
    pub fn control() -> (m: Self)
        ensures
            m.bits == Self::CONTROL,
    {
        KeyModifiers { bits: Self::CONTROL }
    }
}

/// One keyboard event as the terminal delivers it.
#[derive(Copy, Clone, PartialEq, Eq, Structural, Debug)]
pub struct KeyEvent {
    pub code: KeyCode,
    pub modifiers: KeyModifiers,
    pub kind: KeyEventKind,
}

impl KeyEvent {
    /// A press of `code` with `modifiers` held.
    pub fn new(code: KeyCode, modifiers: KeyModifiers) -> (key: Self)
        ensures
            key == (KeyEvent { code, modifiers, kind: KeyEventKind::Press }),
    {
        KeyEvent { code, modifiers, kind: KeyEventKind::Press }
    }
}

} // verus!
