//! Keyboard and mouse events, and screen rectangles, as plain values.
use vstd::prelude::*;

verus! {

/// A key on the keyboard.
#[derive(Debug, Clone, Copy, PartialEq, Eq, Structural)]
pub enum KeyCode {
    Backspace,
    Enter,
    Left,
    Right,
    Up,
    Down,
    Home,
    End,
    PageUp,
    PageDown,
    Tab,
    BackTab,
    Delete,
    Insert,
    F(u8),
    Char(char),
    Null,
    Esc,
}

/// A set of modifier keys, one bit each.
#[derive(Debug, Clone, Copy, PartialEq, Eq, Structural)]
pub struct KeyModifiers {
    pub bits: u8,
}

impl KeyModifiers {
    pub fn empty() -> (r: Self)
        ensures
            r.bits == 0,
    {
        KeyModifiers { bits: 0 }
    }

    pub fn shift() -> (r: Self)
        ensures
            r.bits == 1,
    {
        KeyModifiers { bits: 1 }
    }

    pub fn control() -> (r: Self)
        ensures
            r.bits == 2,
    {
        KeyModifiers { bits: 2 }
    }

    pub fn alt() -> (r: Self)
        ensures
            r.bits == 4,
    {
        KeyModifiers { bits: 4 }
    }

    pub fn super_key() -> (r: Self)
        ensures
            r.bits == 8,
    {
        KeyModifiers { bits: 8 }
    }

    pub fn hyper() -> (r: Self)
        ensures
            r.bits == 16,
    {
        KeyModifiers { bits: 16 }
    }

    pub fn meta() -> (r: Self)
        ensures
            r.bits == 32,
    {
        KeyModifiers { bits: 32 }
    }

    /// Every modifier of `other` is in this set.
    pub fn contains(&self, other: KeyModifiers) -> (r: bool)
        ensures
            r == (self.bits & other.bits == other.bits),
    {
        self.bits & other.bits == other.bits
    }

    /// Adds the modifiers of `other` to this set.
    pub fn insert(&mut self, other: KeyModifiers)
        ensures
            final(self).bits == old(self).bits | other.bits,
    {
        self.bits = self.bits | other.bits;
    }
}

/// A key press.
#[derive(Debug, Clone, Copy, PartialEq, Eq, Structural)]
pub struct KeyEvent {
    pub code: KeyCode,
    pub modifiers: KeyModifiers,
}

impl KeyEvent {
    /// Control-C, which ends the program whatever is open.
    pub fn is_interrupt(&self) -> (r: bool)
        ensures
            r == (self.modifiers.bits & 2 == 2 && self.code == KeyCode::Char('c')),
    {
        self.modifiers.contains(KeyModifiers::control()) && self.code == KeyCode::Char('c')
    }
}

#[derive(Debug, Clone, Copy, PartialEq, Eq, Structural)]
pub enum MouseButton {
    Left,
    Right,
    Middle,
}

#[derive(Debug, Clone, Copy, PartialEq, Eq, Structural)]
pub enum MouseEventKind {
    Down(MouseButton),
    Up(MouseButton),
    Drag(MouseButton),
    Moved,
    ScrollDown,
    ScrollUp,
}

/// A mouse event at a cell of the screen.
#[derive(Debug, Clone, Copy, PartialEq, Eq, Structural)]
pub struct MouseEvent {
    pub kind: MouseEventKind,
    pub column: u16,
    pub row: u16,
    pub modifiers: KeyModifiers,
}

/// A rectangle of screen cells.
#[derive(Debug, Clone, Copy, PartialEq, Eq, Structural)]
pub struct Rect {
    pub x: u16,
    pub y: u16,
    pub width: u16,
    pub height: u16,
}

impl Rect {
    /// The empty rectangle at the origin.
    pub open spec fn default_spec() -> Rect {
        Rect { x: 0, y: 0, width: 0, height: 0 }
    }
}

impl Default for Rect {
    fn default() -> (r: Self)
        ensures
            r == Rect::default_spec(),
    {
        Rect { x: 0, y: 0, width: 0, height: 0 }
    }
}

} // verus!
