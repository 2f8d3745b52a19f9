//! Platform-neutral input events. Each shell turns its native key and mouse events into
//! these.
use vstd::prelude::*;

verus! {

/// A keyboard key.
#[derive(Clone, Copy, PartialEq, Eq, Structural, Debug)]
pub enum KeyCode {
    Char(char),
    Enter,
    Esc,
    Backspace,
    Tab,
    Up,
    Down,
    Left,
    Right,
    PageUp,
    PageDown,
}

/// The modifiers held with a key: a set of three.
#[derive(Clone, Copy, PartialEq, Eq, Structural, Debug)]
pub enum KeyModifiers {
    NONE,
    SHIFT,
    CONTROL,
    ALT,
    ShiftControl,
    ShiftAlt,
    ControlAlt,
    ShiftControlAlt,
}

impl KeyModifiers {
    /// Shift is held.
    pub open spec fn shift(self) -> bool {
        self is SHIFT || self is ShiftControl || self is ShiftAlt || self is ShiftControlAlt
    }

    /// Control is held.
    pub open spec fn control(self) -> bool {
        self is CONTROL || self is ShiftControl || self is ControlAlt || self is ShiftControlAlt
    }

    /// Alt is held.
    pub open spec fn alt(self) -> bool {
        self is ALT || self is ShiftAlt || self is ControlAlt || self is ShiftControlAlt
    }

    /// All of `other` is held.
    pub open spec fn includes(self, other: Self) -> bool {
        &&& other.shift() ==> self.shift()
        &&& other.control() ==> self.control()
        &&& other.alt() ==> self.alt()
    }

    fn held(self) -> (r: (bool, bool, bool))
        ensures
            r == (self.shift(), self.control(), self.alt()),
    {
        match self {
            KeyModifiers::NONE => (false, false, false),
            KeyModifiers::SHIFT => (true, false, false),
            KeyModifiers::CONTROL => (false, true, false),
            KeyModifiers::ALT => (false, false, true),
            KeyModifiers::ShiftControl => (true, true, false),
            KeyModifiers::ShiftAlt => (true, false, true),
            KeyModifiers::ControlAlt => (false, true, true),
            KeyModifiers::ShiftControlAlt => (true, true, true),
        }
    }

    /// The set of the modifiers that are held.
    pub fn of(shift: bool, control: bool, alt: bool) -> (r: Self)
        ensures
            (r.shift(), r.control(), r.alt()) == (shift, control, alt),
    {
        match (shift, control, alt) {
            (false, false, false) => KeyModifiers::NONE,
            (true, false, false) => KeyModifiers::SHIFT,
            (false, true, false) => KeyModifiers::CONTROL,
            (false, false, true) => KeyModifiers::ALT,
            (true, true, false) => KeyModifiers::ShiftControl,
            (true, false, true) => KeyModifiers::ShiftAlt,
            (false, true, true) => KeyModifiers::ControlAlt,
            (true, true, true) => KeyModifiers::ShiftControlAlt,
        }
    }

    /// Whether all of `other` is held.
    pub fn contains(self, other: Self) -> (r: bool)
        ensures
            r == self.includes(other),
    {
        let (s, c, a) = self.held();
        let (os, oc, oa) = other.held();
        (!os || s) && (!oc || c) && (!oa || a)
    }

    /// What either holds.
    pub fn with(self, other: Self) -> (r: Self)
        ensures
            r.shift() == (self.shift() || other.shift()),
            r.control() == (self.control() || other.control()),
            r.alt() == (self.alt() || other.alt()),
    {
        let (s, c, a) = self.held();
        let (os, oc, oa) = other.held();
        Self::of(s || os, c || oc, a || oa)
    }
}

/// A key press.
#[derive(Clone, Copy, PartialEq, Eq, Structural, Debug)]
pub struct KeyEvent {
    pub code: KeyCode,
    pub modifiers: KeyModifiers,
}

impl KeyEvent {
    pub fn new(code: KeyCode, modifiers: KeyModifiers) -> (r: Self)
        ensures
            r == (KeyEvent { code, modifiers }),
    {
        KeyEvent { code, modifiers }
    }
}

#[derive(Clone, Copy, PartialEq, Eq, Structural, Debug)]
pub enum MouseButton {
    Left,
    Right,
    Middle,
}

/// The mouse interactions that the reader handles.
#[derive(Clone, Copy, PartialEq, Eq, Structural, Debug)]
pub enum MouseEventKind {
    Down(MouseButton),
    ScrollUp,
    ScrollDown,
}

#[derive(Clone, Copy, PartialEq, Eq, Structural, Debug)]
pub struct MouseEvent {
    pub kind: MouseEventKind,
    pub column: u16,
    pub row: u16,
    pub modifiers: KeyModifiers,
}

} // verus!
