//! Short display labels for key tokens, as shown on the rendered keyboard.

use vstd::prelude::*;

use crate::key_event::{KeyCode, MediaKeyCode, ModifierKeyCode};
use crate::text::{upper_of, uppercase_char};

verus! {

/// Whether a key token respects the vocabulary's data bounds: function keys
/// range over F1 through F12.
pub open spec fn key_code_valid(k: KeyCode) -> bool {
    match k {
        KeyCode::F(n) => 1 <= n <= 12,
        _ => true,
    }
}

/// The display label of a key token: function keys as `F1`..`F12`, the
/// space character as an open box, other character keys uppercased, and a
/// fixed short label for every remaining key.
pub open spec fn format_of(k: KeyCode) -> Seq<char> {
    match k {
        KeyCode::F(n) => seq!['F'] + (if n == 10 {
            seq!['1', '0']
        } else if n == 11 {
            seq!['1', '1']
        } else if n == 12 {
            seq!['1', '2']
        } else {
            seq![(('0' as u8) + (n as u8)) as char]
        }),
        KeyCode::Char(' ') => seq!['\u{2423}'],
        KeyCode::Char(c) => upper_of(c),
        KeyCode::Esc => seq!['E', 'S', 'C'],
        KeyCode::Backspace => seq!['\u{232b}'],
        KeyCode::Tab => seq!['\u{21e5}'],
        KeyCode::CapsLock => seq!['C', 'A', 'P', 'S'],
        KeyCode::Enter => seq!['\u{23ce}'],
        KeyCode::Left => seq!['\u{2190}'],
        KeyCode::Right => seq!['\u{2192}'],
        KeyCode::Up => seq!['\u{2191}'],
        KeyCode::Down => seq!['\u{2193}'],
        KeyCode::Home => seq!['H', 'o', 'm', 'e'],
        KeyCode::End => seq!['E', 'n', 'd'],
        KeyCode::PageUp => seq!['P', 'g', 'U', 'p'],
        KeyCode::PageDown => seq!['P', 'g', 'D', 'n'],
        KeyCode::BackTab => seq!['\u{21e4}'],
        KeyCode::Delete => seq!['D', 'e', 'l'],
        KeyCode::Insert => seq!['I', 'n', 's'],
        KeyCode::Null => seq!['N', 'u', 'l', 'l'],
        KeyCode::ScrollLock => seq!['S', 'c', 'r', 'L'],
        KeyCode::NumLock => seq!['N', 'u', 'm', 'L', 'k'],
        KeyCode::PrintScreen => seq!['P', 'r', 'n', 't'],
        KeyCode::Pause => seq!['P', 'a', 'u', 's'],
        KeyCode::Menu => seq!['M', 'e', 'n', 'u'],
        KeyCode::KeypadBegin => seq!['K', 'P', '5'],
        KeyCode::Media(m) => match m {
            MediaKeyCode::Play => seq!['\u{25b6}', '\u{fe0f}'],
            MediaKeyCode::Pause => seq!['\u{23f8}'],
            MediaKeyCode::PlayPause => seq!['\u{23ef}'],
            MediaKeyCode::Reverse => seq!['\u{23ea}'],
            MediaKeyCode::Stop => seq!['\u{23f9}'],
            MediaKeyCode::FastForward => seq!['\u{23e9}'],
            MediaKeyCode::Rewind => seq!['\u{23ee}'],
            MediaKeyCode::TrackNext => seq!['\u{23ed}'],
            MediaKeyCode::TrackPrevious => seq!['\u{23ee}'],
            MediaKeyCode::Record => seq!['\u{23fa}'],
            MediaKeyCode::LowerVolume => seq!['\u{1f509}'],
            MediaKeyCode::RaiseVolume => seq!['\u{1f50a}'],
            MediaKeyCode::MuteVolume => seq!['\u{1f507}'],
        },
        KeyCode::Modifier(m) => match m {
            ModifierKeyCode::LeftShift => seq!['S', 'H', 'I', 'F', 'T'],
            ModifierKeyCode::RightShift => seq!['S', 'H', 'I', 'F', 'T'],
            ModifierKeyCode::LeftControl => seq!['C', 'T', 'R', 'L'],
            ModifierKeyCode::RightControl => seq!['C', 'T', 'R', 'L'],
            ModifierKeyCode::LeftSuper => seq!['\u{2318}', 'L'],
            ModifierKeyCode::RightSuper => seq!['\u{2318}', 'R'],
            ModifierKeyCode::LeftHyper => seq!['H', 'y', 'p'],
            ModifierKeyCode::RightHyper => seq!['H', 'y', 'p'],
            ModifierKeyCode::LeftMeta => seq!['M', 'e', 't', 'a'],
            ModifierKeyCode::RightMeta => seq!['M', 'e', 't', 'a'],
            ModifierKeyCode::LeftAlt => seq!['A', 'L', 'T'],
            ModifierKeyCode::RightAlt => seq!['A', 'L', 'T'],
            ModifierKeyCode::IsoLevel3Shift => seq!['I', 's', 'o', '3'],
            ModifierKeyCode::IsoLevel5Shift => seq!['I', 's', 'o', '5'],
        },
    }
}

/// Format a key token for display on a key cap.
pub fn format_keycode(key_code: KeyCode) -> (r: String)
    requires
        key_code_valid(key_code),
    ensures
        r@ == format_of(key_code),
{
    proof {
        reveal_strlit("F1");
        reveal_strlit("F2");
        reveal_strlit("F3");
        reveal_strlit("F4");
        reveal_strlit("F5");
        reveal_strlit("F6");
        reveal_strlit("F7");
        reveal_strlit("F8");
        reveal_strlit("F9");
        reveal_strlit("F10");
        reveal_strlit("F11");
        reveal_strlit("F12");
    }
    match key_code {
        KeyCode::F(n) => {
            let r: &str = if n == 1 {
                "F1"
            } else if n == 2 {
                "F2"
            } else if n == 3 {
                "F3"
            } else if n == 4 {
                "F4"
            } else if n == 5 {
                "F5"
            } else if n == 6 {
                "F6"
            } else if n == 7 {
                "F7"
            } else if n == 8 {
                "F8"
            } else if n == 9 {
                "F9"
            } else if n == 10 {
                "F10"
            } else if n == 11 {
                "F11"
            } else {
                "F12"
            };
            proof {
                assert(r@ =~= format_of(key_code));
            }
            r.to_owned()
        },
        KeyCode::Char(c) => {
            if c == ' ' {
                let r = "\u{2423}".to_owned();
                proof {
                    reveal_strlit("\u{2423}");
                    assert(r@ =~= format_of(key_code));
                }
                r
            } else {
                uppercase_char(c)
            }
        },
        _ => {
            let r: &str = match key_code {
                KeyCode::Esc => "ESC",
                KeyCode::Backspace => "\u{232b}",
                KeyCode::Tab => "\u{21e5}",
                KeyCode::CapsLock => "CAPS",
                KeyCode::Enter => "\u{23ce}",
                KeyCode::Left => "\u{2190}",
                KeyCode::Right => "\u{2192}",
                KeyCode::Up => "\u{2191}",
                KeyCode::Down => "\u{2193}",
                KeyCode::Home => "Home",
                KeyCode::End => "End",
                KeyCode::PageUp => "PgUp",
                KeyCode::PageDown => "PgDn",
                KeyCode::BackTab => "\u{21e4}",
                KeyCode::Delete => "Del",
                KeyCode::Insert => "Ins",
                KeyCode::Null => "Null",
                KeyCode::ScrollLock => "ScrL",
                KeyCode::NumLock => "NumLk",
                KeyCode::PrintScreen => "Prnt",
                KeyCode::Pause => "Paus",
                KeyCode::Menu => "Menu",
                KeyCode::KeypadBegin => "KP5",
                KeyCode::Media(m) => match m {
                    MediaKeyCode::Play => "\u{25b6}\u{fe0f}",
                    MediaKeyCode::Pause => "\u{23f8}",
                    MediaKeyCode::PlayPause => "\u{23ef}",
                    MediaKeyCode::Reverse => "\u{23ea}",
                    MediaKeyCode::Stop => "\u{23f9}",
                    MediaKeyCode::FastForward => "\u{23e9}",
                    MediaKeyCode::Rewind => "\u{23ee}",
                    MediaKeyCode::TrackNext => "\u{23ed}",
                    MediaKeyCode::TrackPrevious => "\u{23ee}",
                    MediaKeyCode::Record => "\u{23fa}",
                    MediaKeyCode::LowerVolume => "\u{1f509}",
                    MediaKeyCode::RaiseVolume => "\u{1f50a}",
                    MediaKeyCode::MuteVolume => "\u{1f507}",
                },
                KeyCode::Modifier(m) => match m {
                    ModifierKeyCode::LeftShift => "SHIFT",
                    ModifierKeyCode::RightShift => "SHIFT",
                    ModifierKeyCode::LeftControl => "CTRL",
                    ModifierKeyCode::RightControl => "CTRL",
                    ModifierKeyCode::LeftSuper => "\u{2318}L",
                    ModifierKeyCode::RightSuper => "\u{2318}R",
                    ModifierKeyCode::LeftHyper => "Hyp",
                    ModifierKeyCode::RightHyper => "Hyp",
                    ModifierKeyCode::LeftMeta => "Meta",
                    ModifierKeyCode::RightMeta => "Meta",
                    ModifierKeyCode::LeftAlt => "ALT",
                    ModifierKeyCode::RightAlt => "ALT",
                    ModifierKeyCode::IsoLevel3Shift => "Iso3",
                    ModifierKeyCode::IsoLevel5Shift => "Iso5",
                },
                _ => "",
            };
            proof {
                reveal_strlit("ESC");
                reveal_strlit("\u{232b}");
                reveal_strlit("\u{21e5}");
                reveal_strlit("CAPS");
                reveal_strlit("\u{23ce}");
                reveal_strlit("\u{2190}");
                reveal_strlit("\u{2192}");
                reveal_strlit("\u{2191}");
                reveal_strlit("\u{2193}");
                reveal_strlit("Home");
                reveal_strlit("End");
                reveal_strlit("PgUp");
                reveal_strlit("PgDn");
                reveal_strlit("\u{21e4}");
                reveal_strlit("Del");
                reveal_strlit("Ins");
                reveal_strlit("Null");
                reveal_strlit("ScrL");
                reveal_strlit("NumLk");
                reveal_strlit("Prnt");
                reveal_strlit("Paus");
                reveal_strlit("Menu");
                reveal_strlit("KP5");
                reveal_strlit("\u{25b6}\u{fe0f}");
                reveal_strlit("\u{23f8}");
                reveal_strlit("\u{23ef}");
                reveal_strlit("\u{23ea}");
                reveal_strlit("\u{23f9}");
                reveal_strlit("\u{23e9}");
                reveal_strlit("\u{23ee}");
                reveal_strlit("\u{23ed}");
                reveal_strlit("\u{23fa}");
                reveal_strlit("\u{1f509}");
                reveal_strlit("\u{1f50a}");
                reveal_strlit("\u{1f507}");
                reveal_strlit("SHIFT");
                reveal_strlit("CTRL");
                reveal_strlit("\u{2318}L");
                reveal_strlit("\u{2318}R");
                reveal_strlit("Hyp");
                reveal_strlit("Meta");
                reveal_strlit("ALT");
                reveal_strlit("Iso3");
                reveal_strlit("Iso5");
                assert(r@ =~= format_of(key_code));
            }
            r.to_owned()
        },
    }
}

} // verus!
