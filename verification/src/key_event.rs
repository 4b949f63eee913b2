//! The closed vocabulary of key identities, and key events built from them.

use vstd::prelude::*;

verus! {

/// One key identity: a character key, a modifier, a function key, a named
/// navigation or special key, or a media key. `Null` is the transient
/// "unrecognized" sentinel of the tokenizer; it is filtered out before any
/// keystroke is persisted.
#[derive(Debug, Clone, Copy, PartialEq, Eq, Hash, Structural)]
pub enum KeyCode {
    Backspace,
    Enter,
    Left,
    Right,
    Up,
    Down,
    Home,
    End,
    PageUp,
    PageDown,
    Tab,
    BackTab,
    Delete,
    Insert,
    F(u8),
    Char(char),
    Null,
    Esc,
    CapsLock,
    ScrollLock,
    NumLock,
    PrintScreen,
    Pause,
    Menu,
    KeypadBegin,
    Media(MediaKeyCode),
    Modifier(ModifierKeyCode),
}

#[derive(Debug, Clone, Copy, PartialEq, Eq, Hash, Structural)]
pub enum MediaKeyCode {
    Play,
    Pause,
    PlayPause,
    Reverse,
    Stop,
    FastForward,
    Rewind,
    TrackNext,
    TrackPrevious,
    Record,
    LowerVolume,
    RaiseVolume,
    MuteVolume,
}

/// The fixed 14-member modifier enumeration.
#[derive(Debug, Clone, Copy, PartialEq, Eq, Hash, Structural)]
pub enum ModifierKeyCode {
    LeftShift,
    LeftControl,
    LeftAlt,
    LeftSuper,
    LeftHyper,
    LeftMeta,
    RightShift,
    RightControl,
    RightAlt,
    RightSuper,
    RightHyper,
    RightMeta,
    IsoLevel3Shift,
    IsoLevel5Shift,
}

/// A set of held modifier classes, one bit per class.
#[derive(Debug, Clone, Copy, PartialEq, Eq, Hash, Structural)]
pub struct KeyModifiers {
    pub bits: u8,
}

pub const MODIFIER_SHIFT: u8 = 0b0000_0001;
pub const MODIFIER_CONTROL: u8 = 0b0000_0010;
pub const MODIFIER_ALT: u8 = 0b0000_0100;
pub const MODIFIER_SUPER: u8 = 0b0000_1000;
pub const MODIFIER_HYPER: u8 = 0b0001_0000;
pub const MODIFIER_META: u8 = 0b0010_0000;

impl KeyModifiers {
    /// The empty modifier set.
    pub fn empty() -> (r: KeyModifiers)
        ensures
            r.bits == 0,
    {
        KeyModifiers { bits: 0 }
    }
}

/// A key press: the key identity together with the held modifier set.
#[derive(Debug, Clone, Copy, PartialEq, Eq, Hash, Structural)]
pub struct KeyEvent {
    pub code: KeyCode,
    pub modifiers: KeyModifiers,
}

impl KeyEvent {
    pub fn new(code: KeyCode, modifiers: KeyModifiers) -> (r: KeyEvent)
        ensures
            r.code == code,
            r.modifiers == modifiers,
    {
        KeyEvent { code, modifiers }
    }
}

/// Whether a key token is a modifier token.
pub open spec fn is_modifier(k: KeyCode) -> bool {
    k is Modifier
}

/// The fixed global precedence order of the 14 modifiers, as a rank:
/// a modifier of smaller rank is emitted before one of larger rank.
pub open spec fn modifier_rank(m: ModifierKeyCode) -> int {
    match m {
        ModifierKeyCode::IsoLevel3Shift => 0,
        ModifierKeyCode::IsoLevel5Shift => 1,
        ModifierKeyCode::LeftHyper => 2,
        ModifierKeyCode::RightHyper => 3,
        ModifierKeyCode::LeftSuper => 4,
        ModifierKeyCode::RightSuper => 5,
        ModifierKeyCode::LeftMeta => 6,
        ModifierKeyCode::RightMeta => 7,
        ModifierKeyCode::LeftControl => 8,
        ModifierKeyCode::RightControl => 9,
        ModifierKeyCode::LeftAlt => 10,
        ModifierKeyCode::RightAlt => 11,
        ModifierKeyCode::LeftShift => 12,
        ModifierKeyCode::RightShift => 13,
    }
}

/// The modifier of a given precedence rank; inverse of [`modifier_rank`].
pub open spec fn modifier_of_rank(r: int) -> ModifierKeyCode {
    if r == 0 {
        ModifierKeyCode::IsoLevel3Shift
    } else if r == 1 {
        ModifierKeyCode::IsoLevel5Shift
    } else if r == 2 {
        ModifierKeyCode::LeftHyper
    } else if r == 3 {
        ModifierKeyCode::RightHyper
    } else if r == 4 {
        ModifierKeyCode::LeftSuper
    } else if r == 5 {
        ModifierKeyCode::RightSuper
    } else if r == 6 {
        ModifierKeyCode::LeftMeta
    } else if r == 7 {
        ModifierKeyCode::RightMeta
    } else if r == 8 {
        ModifierKeyCode::LeftControl
    } else if r == 9 {
        ModifierKeyCode::RightControl
    } else if r == 10 {
        ModifierKeyCode::LeftAlt
    } else if r == 11 {
        ModifierKeyCode::RightAlt
    } else if r == 12 {
        ModifierKeyCode::LeftShift
    } else {
        ModifierKeyCode::RightShift
    }
}

/// Executable counterpart of [`modifier_of_rank`], for walking the
/// precedence list.
pub fn modifier_at_rank(r: usize) -> (m: ModifierKeyCode)
    requires
        r < 14,
    ensures
        m == modifier_of_rank(r as int),
        modifier_rank(m) == r as int,
{
    if r == 0 {
        ModifierKeyCode::IsoLevel3Shift
    } else if r == 1 {
        ModifierKeyCode::IsoLevel5Shift
    } else if r == 2 {
        ModifierKeyCode::LeftHyper
    } else if r == 3 {
        ModifierKeyCode::RightHyper
    } else if r == 4 {
        ModifierKeyCode::LeftSuper
    } else if r == 5 {
        ModifierKeyCode::RightSuper
    } else if r == 6 {
        ModifierKeyCode::LeftMeta
    } else if r == 7 {
        ModifierKeyCode::RightMeta
    } else if r == 8 {
        ModifierKeyCode::LeftControl
    } else if r == 9 {
        ModifierKeyCode::RightControl
    } else if r == 10 {
        ModifierKeyCode::LeftAlt
    } else if r == 11 {
        ModifierKeyCode::RightAlt
    } else if r == 12 {
        ModifierKeyCode::LeftShift
    } else {
        ModifierKeyCode::RightShift
    }
}

/// Translate a shifted character key to its unshifted counterpart on a US
/// layout; every other key code passes through unchanged.
pub fn supplant_key_code(key_code: KeyCode) -> (r: KeyCode)
    ensures
        r == supplanted(key_code),
{
    match key_code {
        KeyCode::Char('"') => KeyCode::Char('\''),
        KeyCode::Char('<') => KeyCode::Char(','),
        KeyCode::Char('>') => KeyCode::Char('.'),
        KeyCode::Char('?') => KeyCode::Char('/'),
        KeyCode::Char(':') => KeyCode::Char(';'),
        KeyCode::Char('_') => KeyCode::Char('-'),
        KeyCode::Char('+') => KeyCode::Char('='),
        KeyCode::Char('{') => KeyCode::Char('['),
        KeyCode::Char('}') => KeyCode::Char(']'),
        KeyCode::Char('|') => KeyCode::Char('\\'),
        KeyCode::Char('~') => KeyCode::Char('`'),
        KeyCode::Char('!') => KeyCode::Char('1'),
        KeyCode::Char('@') => KeyCode::Char('2'),
        KeyCode::Char('#') => KeyCode::Char('3'),
        KeyCode::Char('$') => KeyCode::Char('4'),
        KeyCode::Char('%') => KeyCode::Char('5'),
        KeyCode::Char('^') => KeyCode::Char('6'),
        KeyCode::Char('&') => KeyCode::Char('7'),
        KeyCode::Char('*') => KeyCode::Char('8'),
        KeyCode::Char('(') => KeyCode::Char('9'),
        KeyCode::Char(')') => KeyCode::Char('0'),
        _ => key_code,
    }
}

/// The unshifted counterpart of a shifted character key on a US layout.
pub open spec fn supplanted(key_code: KeyCode) -> KeyCode {
    match key_code {
        KeyCode::Char('"') => KeyCode::Char('\''),
        KeyCode::Char('<') => KeyCode::Char(','),
        KeyCode::Char('>') => KeyCode::Char('.'),
        KeyCode::Char('?') => KeyCode::Char('/'),
        KeyCode::Char(':') => KeyCode::Char(';'),
        KeyCode::Char('_') => KeyCode::Char('-'),
        KeyCode::Char('+') => KeyCode::Char('='),
        KeyCode::Char('{') => KeyCode::Char('['),
        KeyCode::Char('}') => KeyCode::Char(']'),
        KeyCode::Char('|') => KeyCode::Char('\\'),
        KeyCode::Char('~') => KeyCode::Char('`'),
        KeyCode::Char('!') => KeyCode::Char('1'),
        KeyCode::Char('@') => KeyCode::Char('2'),
        KeyCode::Char('#') => KeyCode::Char('3'),
        KeyCode::Char('$') => KeyCode::Char('4'),
        KeyCode::Char('%') => KeyCode::Char('5'),
        KeyCode::Char('^') => KeyCode::Char('6'),
        KeyCode::Char('&') => KeyCode::Char('7'),
        KeyCode::Char('*') => KeyCode::Char('8'),
        KeyCode::Char('(') => KeyCode::Char('9'),
        KeyCode::Char(')') => KeyCode::Char('0'),
        _ => key_code,
    }
}

} // verus!
