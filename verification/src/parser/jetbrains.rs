//! Parser for keymap exports in the XML `<keymap>` dialect: actions with
//! `keyboard-shortcut` children, keystrokes written as space-separated
//! lowercase key words, and a name-based action categorization.

use vstd::prelude::*;

use crate::key_event::{KeyCode, ModifierKeyCode};
use crate::parser::xml::{
    attribute_models_of, lookup_attr, parse_xml, spec_children, tag_model, xml_document,
    ContentModel, TagModel, XmlTag,
};
use crate::shortcut::{canonical, keystrokes_of, Action, ActionModel, Shortcut};
use crate::text::{ascii_lower, find_non_ws, has_substring, matches_at, non_ws_from, str_contains,
    str_eq, str_eq_ascii_lowered, str_matches_at};

verus! {

/// Whether a character can stand in a keystroke word: an ASCII letter or
/// digit, or an underscore.
pub open spec fn is_key_word_char(c: char) -> bool {
    ('a' <= c && c <= 'z') || ('A' <= c && c <= 'Z') || ('0' <= c && c <= '9') || c == '_'
}

/// The first index at or after `from` that cannot stand in a keystroke
/// word, or `s.len()`.
pub open spec fn key_word_end_from(s: Seq<char>, from: int) -> int
    decreases s.len() - from,
{
    if from < 0 || from >= s.len() {
        s.len() as int
    } else if !is_key_word_char(s[from]) {
        from
    } else {
        key_word_end_from(s, from + 1)
    }
}

pub proof fn lemma_key_word_end_from(s: Seq<char>, from: int)
    requires
        0 <= from <= s.len(),
    ensures
        from <= key_word_end_from(s, from) <= s.len(),
    decreases s.len() - from,
{
    if from < s.len() && is_key_word_char(s[from]) {
        lemma_key_word_end_from(s, from + 1);
    }
}

/// Executable counterpart of [`key_word_end_from`].
fn find_key_word_end(s: &str, from: usize) -> (r: usize)
    requires
        from <= s@.len(),
    ensures
        r == key_word_end_from(s@, from as int),
        from <= r <= s@.len(),
{
    let n: usize = s.unicode_len();
    let mut i: usize = from;
    while i < n
        invariant
            from <= i <= n,
            n == s@.len(),
            key_word_end_from(s@, from as int) == key_word_end_from(s@, i as int),
        decreases n - i,
    {
        let c = s.get_char(i);
        if !(('a' <= c && c <= 'z') || ('A' <= c && c <= 'Z') || ('0' <= c && c <= '9') || c
            == '_') {
            return i;
        }
        i += 1;
    }
    n
}

/// The key named by one keystroke word, compared after ASCII-lowercasing:
/// a single character maps to its character key, the named key words map to
/// their keys, and an unknown word is a structural failure.
pub open spec fn key_of_word(t: Seq<char>) -> Option<KeyCode> {
    let l = ascii_lower(t);
    if l.len() == 1 {
        Some(KeyCode::Char(l[0]))
    } else if l == seq!['c', 't', 'r', 'l'] || l == seq!['c', 'o', 'n', 't', 'r', 'o', 'l'] {
        Some(KeyCode::Modifier(ModifierKeyCode::LeftControl))
    } else if l == seq!['s', 'h', 'i', 'f', 't'] {
        Some(KeyCode::Modifier(ModifierKeyCode::LeftShift))
    } else if l == seq!['a', 'l', 't'] {
        Some(KeyCode::Modifier(ModifierKeyCode::LeftAlt))
    } else if l == seq!['t', 'a', 'b'] {
        Some(KeyCode::Tab)
    } else if l == seq!['e', 'n', 't', 'e', 'r'] {
        Some(KeyCode::Enter)
    } else if l == seq!['b', 'a', 'c', 'k', '_', 's', 'p', 'a', 'c', 'e'] {
        Some(KeyCode::Backspace)
    } else if l == seq!['d', 'e', 'l', 'e', 't', 'e'] {
        Some(KeyCode::Delete)
    } else if l == seq!['i', 'n', 's', 'e', 'r', 't'] {
        Some(KeyCode::Insert)
    } else if l == seq!['h', 'o', 'm', 'e'] {
        Some(KeyCode::Home)
    } else if l == seq!['e', 'n', 'd'] {
        Some(KeyCode::End)
    } else if l == seq!['p', 'a', 'g', 'e', '_', 'u', 'p'] {
        Some(KeyCode::PageUp)
    } else if l == seq!['p', 'a', 'g', 'e', '_', 'd', 'o', 'w', 'n'] {
        Some(KeyCode::PageDown)
    } else if l == seq!['l', 'e', 'f', 't'] {
        Some(KeyCode::Left)
    } else if l == seq!['r', 'i', 'g', 'h', 't'] {
        Some(KeyCode::Right)
    } else if l == seq!['u', 'p'] {
        Some(KeyCode::Up)
    } else if l == seq!['d', 'o', 'w', 'n'] {
        Some(KeyCode::Down)
    } else if l == seq!['c', 'o', 'n', 't', 'e', 'x', 't', '_', 'm', 'e', 'n', 'u'] {
        Some(KeyCode::Menu)
    } else if l == seq!['b', 'a', 'c', 'k', '_', 'q', 'u', 'o', 't', 'e'] {
        Some(KeyCode::Char('`'))
    } else if l == seq!['c', 'l', 'o', 's', 'e', '_', 'b', 'r', 'a', 'c', 'k', 'e', 't'] {
        Some(KeyCode::Char(']'))
    } else if l == seq!['o', 'p', 'e', 'n', '_', 'b', 'r', 'a', 'c', 'k', 'e', 't'] {
        Some(KeyCode::Char('['))
    } else if l == seq!['s', 'p', 'a', 'c', 'e'] {
        Some(KeyCode::Char(' '))
    } else if l == seq!['m', 'i', 'n', 'u', 's'] || l == seq![
        's',
        'u',
        'b',
        't',
        'r',
        'a',
        'c',
        't',
    ] {
        Some(KeyCode::Char('-'))
    } else if l == seq!['d', 'i', 'v', 'i', 'd', 'e'] {
        Some(KeyCode::Char('/'))
    } else if l == seq!['m', 'u', 'l', 't', 'i', 'p', 'l', 'y'] {
        Some(KeyCode::Char('*'))
    } else if l == seq!['s', 'l', 'a', 's', 'h'] {
        Some(KeyCode::Char('/'))
    } else if l == seq!['b', 'a', 'c', 'k', '_', 's', 'l', 'a', 's', 'h'] {
        Some(KeyCode::Char('\\'))
    } else if l == seq!['p', 'l', 'u', 's'] || l == seq!['a', 'd', 'd'] {
        Some(KeyCode::Char('+'))
    } else if l == seq!['e', 'q', 'u', 'a', 'l', 's'] {
        Some(KeyCode::Char('='))
    } else if l == seq!['c', 'o', 'm', 'm', 'a'] {
        Some(KeyCode::Char(','))
    } else if l == seq!['p', 'e', 'r', 'i', 'o', 'd'] {
        Some(KeyCode::Char('.'))
    } else if l == seq!['s', 'e', 'm', 'i', 'c', 'o', 'l', 'o', 'n'] {
        Some(KeyCode::Char(';'))
    } else if l == seq!['c', 'a', 'n', 'c', 'e', 'l'] {
        Some(KeyCode::Esc)
    } else if l.len() == 7 && l.subrange(0, 6) == seq!['n', 'u', 'm', 'p', 'a', 'd'] && '0'
        <= l[6] && l[6] <= '9' {
        Some(KeyCode::Esc)
    } else if l == seq!['f', '1'] {
        Some(KeyCode::F(1))
    } else if l == seq!['f', '2'] {
        Some(KeyCode::F(2))
    } else if l == seq!['f', '3'] {
        Some(KeyCode::F(3))
    } else if l == seq!['f', '4'] {
        Some(KeyCode::F(4))
    } else if l == seq!['f', '5'] {
        Some(KeyCode::F(5))
    } else if l == seq!['f', '6'] {
        Some(KeyCode::F(6))
    } else if l == seq!['f', '7'] {
        Some(KeyCode::F(7))
    } else if l == seq!['f', '8'] {
        Some(KeyCode::F(8))
    } else if l == seq!['f', '9'] {
        Some(KeyCode::F(9))
    } else if l == seq!['f', '1', '0'] {
        Some(KeyCode::F(10))
    } else if l == seq!['f', '1', '1'] {
        Some(KeyCode::F(11))
    } else if l == seq!['f', '1', '2'] {
        Some(KeyCode::F(12))
    } else if l == seq!['q', 'u', 'o', 't', 'e'] {
        Some(KeyCode::Char('"'))
    } else if l == seq!['p', 'a', 'u', 's', 'e'] {
        Some(KeyCode::Pause)
    } else if l == seq!['e', 's', 'c', 'a', 'p', 'e'] || l == seq!['e', 's', 'c'] {
        Some(KeyCode::Esc)
    } else if l == seq!['b', 'a', 'c', 'k', '_', 't', 'a', 'b'] {
        Some(KeyCode::BackTab)
    } else if l == seq!['s', 'c', 'r', 'o', 'l', 'l', '_', 'l', 'o', 'c', 'k'] {
        Some(KeyCode::ScrollLock)
    } else if l == seq!['n', 'u', 'm', '_', 'l', 'o', 'c', 'k'] {
        Some(KeyCode::NumLock)
    } else if l == seq!['p', 'r', 'i', 'n', 't', '_', 's', 'c', 'r', 'e', 'e', 'n'] {
        Some(KeyCode::PrintScreen)
    } else if l == seq!['m', 'e', 'n', 'u'] {
        Some(KeyCode::Menu)
    } else {
        None
    }
}

/// One keystroke word at `i`: a non-empty run of word characters, mapped to
/// its key. `None` when no word stands there or the word is unknown.
pub open spec fn key_word_at(s: Seq<char>, i: int) -> Option<(KeyCode, int)> {
    let j = key_word_end_from(s, i);
    if j == i {
        None
    } else {
        match key_of_word(s.subrange(i, j)) {
            Some(k) => Some((k, j)),
            None => None,
        }
    }
}

/// The keys of all keystroke words from `i` on, each preceded by optional
/// whitespace; `None` when some word is unknown. Collection stops where no
/// word follows; a trailing remainder is ignored.
pub open spec fn key_words_from(s: Seq<char>, i: int) -> Option<Seq<KeyCode>>
    decreases s.len() - i,
{
    if 0 <= i <= s.len() {
        let w = non_ws_from(s, i);
        proof {
            crate::text::lemma_non_ws_from(s, i);
            lemma_key_word_end_from(s, w);
        }
        match key_word_at(s, w) {
            None => {
                if key_word_end_from(s, w) == w {
                    Some(Seq::empty())
                } else {
                    None
                }
            },
            Some((k, j)) => match key_words_from(s, j) {
                Some(rest) => Some(seq![k] + rest),
                None => None,
            },
        }
    } else {
        Some(Seq::empty())
    }
}

/// The keys of a whole keystroke text.
pub open spec fn key_words_of(s: Seq<char>) -> Option<Seq<KeyCode>> {
    key_words_from(s, 0)
}

/// Parse one keystroke word starting at `from`: its key and the position
/// after the word. `None` when no word stands at `from` or it is unknown.
pub fn parse_keycode(s: &str, from: usize) -> (r: Option<(KeyCode, usize)>)
    requires
        from <= s@.len(),
    ensures
        match r {
            Some((k, j)) => key_word_at(s@, from as int) == Some((k, j as int)) && from < j
                <= s@.len(),
            None => key_word_at(s@, from as int) is None,
        },
{
    proof {
        lemma_key_word_end_from(s@, from as int);
    }
    let j = find_key_word_end(s, from);
    if j == from {
        return None;
    }
    let word = s.substring_char(from, j);
    match key_code_of_word(word) {
        Some(k) => Some((k, j)),
        None => None,
    }
}

/// Map one keystroke word to its key, if it is known.
fn key_code_of_word(word: &str) -> (r: Option<KeyCode>)
    ensures
        r == key_of_word(word@),
{
    proof {
        reveal_strlit("ctrl");
        assert("ctrl"@ =~= seq!['c', 't', 'r', 'l']);
        reveal_strlit("control");
        assert("control"@ =~= seq!['c', 'o', 'n', 't', 'r', 'o', 'l']);
        reveal_strlit("shift");
        assert("shift"@ =~= seq!['s', 'h', 'i', 'f', 't']);
        reveal_strlit("alt");
        assert("alt"@ =~= seq!['a', 'l', 't']);
        reveal_strlit("tab");
        assert("tab"@ =~= seq!['t', 'a', 'b']);
        reveal_strlit("enter");
        assert("enter"@ =~= seq!['e', 'n', 't', 'e', 'r']);
        reveal_strlit("back_space");
        assert("back_space"@ =~= seq!['b', 'a', 'c', 'k', '_', 's', 'p', 'a', 'c', 'e']);
        reveal_strlit("delete");
        assert("delete"@ =~= seq!['d', 'e', 'l', 'e', 't', 'e']);
        reveal_strlit("insert");
        assert("insert"@ =~= seq!['i', 'n', 's', 'e', 'r', 't']);
        reveal_strlit("home");
        assert("home"@ =~= seq!['h', 'o', 'm', 'e']);
        reveal_strlit("end");
        assert("end"@ =~= seq!['e', 'n', 'd']);
        reveal_strlit("page_up");
        assert("page_up"@ =~= seq!['p', 'a', 'g', 'e', '_', 'u', 'p']);
        reveal_strlit("page_down");
        assert("page_down"@ =~= seq!['p', 'a', 'g', 'e', '_', 'd', 'o', 'w', 'n']);
        reveal_strlit("left");
        assert("left"@ =~= seq!['l', 'e', 'f', 't']);
        reveal_strlit("right");
        assert("right"@ =~= seq!['r', 'i', 'g', 'h', 't']);
        reveal_strlit("up");
        assert("up"@ =~= seq!['u', 'p']);
        reveal_strlit("down");
        assert("down"@ =~= seq!['d', 'o', 'w', 'n']);
        reveal_strlit("context_menu");
        assert("context_menu"@ =~= seq!['c', 'o', 'n', 't', 'e', 'x', 't', '_', 'm', 'e', 'n', 'u']);
        reveal_strlit("back_quote");
        assert("back_quote"@ =~= seq!['b', 'a', 'c', 'k', '_', 'q', 'u', 'o', 't', 'e']);
        reveal_strlit("close_bracket");
        assert("close_bracket"@ =~= seq!['c', 'l', 'o', 's', 'e', '_', 'b', 'r', 'a', 'c', 'k', 'e', 't']);
        reveal_strlit("open_bracket");
        assert("open_bracket"@ =~= seq!['o', 'p', 'e', 'n', '_', 'b', 'r', 'a', 'c', 'k', 'e', 't']);
        reveal_strlit("space");
        assert("space"@ =~= seq!['s', 'p', 'a', 'c', 'e']);
        reveal_strlit("minus");
        assert("minus"@ =~= seq!['m', 'i', 'n', 'u', 's']);
        reveal_strlit("subtract");
        assert("subtract"@ =~= seq!['s', 'u', 'b', 't', 'r', 'a', 'c', 't']);
        reveal_strlit("divide");
        assert("divide"@ =~= seq!['d', 'i', 'v', 'i', 'd', 'e']);
        reveal_strlit("multiply");
        assert("multiply"@ =~= seq!['m', 'u', 'l', 't', 'i', 'p', 'l', 'y']);
        reveal_strlit("slash");
        assert("slash"@ =~= seq!['s', 'l', 'a', 's', 'h']);
        reveal_strlit("back_slash");
        assert("back_slash"@ =~= seq!['b', 'a', 'c', 'k', '_', 's', 'l', 'a', 's', 'h']);
        reveal_strlit("plus");
        assert("plus"@ =~= seq!['p', 'l', 'u', 's']);
        reveal_strlit("add");
        assert("add"@ =~= seq!['a', 'd', 'd']);
        reveal_strlit("equals");
        assert("equals"@ =~= seq!['e', 'q', 'u', 'a', 'l', 's']);
        reveal_strlit("comma");
        assert("comma"@ =~= seq!['c', 'o', 'm', 'm', 'a']);
        reveal_strlit("period");
        assert("period"@ =~= seq!['p', 'e', 'r', 'i', 'o', 'd']);
        reveal_strlit("semicolon");
        assert("semicolon"@ =~= seq!['s', 'e', 'm', 'i', 'c', 'o', 'l', 'o', 'n']);
        reveal_strlit("cancel");
        assert("cancel"@ =~= seq!['c', 'a', 'n', 'c', 'e', 'l']);
        reveal_strlit("numpad");
        assert("numpad"@ =~= seq!['n', 'u', 'm', 'p', 'a', 'd']);
        reveal_strlit("f1");
        assert("f1"@ =~= seq!['f', '1']);
        reveal_strlit("f2");
        assert("f2"@ =~= seq!['f', '2']);
        reveal_strlit("f3");
        assert("f3"@ =~= seq!['f', '3']);
        reveal_strlit("f4");
        assert("f4"@ =~= seq!['f', '4']);
        reveal_strlit("f5");
        assert("f5"@ =~= seq!['f', '5']);
        reveal_strlit("f6");
        assert("f6"@ =~= seq!['f', '6']);
        reveal_strlit("f7");
        assert("f7"@ =~= seq!['f', '7']);
        reveal_strlit("f8");
        assert("f8"@ =~= seq!['f', '8']);
        reveal_strlit("f9");
        assert("f9"@ =~= seq!['f', '9']);
        reveal_strlit("f10");
        assert("f10"@ =~= seq!['f', '1', '0']);
        reveal_strlit("f11");
        assert("f11"@ =~= seq!['f', '1', '1']);
        reveal_strlit("f12");
        assert("f12"@ =~= seq!['f', '1', '2']);
        reveal_strlit("quote");
        assert("quote"@ =~= seq!['q', 'u', 'o', 't', 'e']);
        reveal_strlit("pause");
        assert("pause"@ =~= seq!['p', 'a', 'u', 's', 'e']);
        reveal_strlit("escape");
        assert("escape"@ =~= seq!['e', 's', 'c', 'a', 'p', 'e']);
        reveal_strlit("esc");
        assert("esc"@ =~= seq!['e', 's', 'c']);
        reveal_strlit("back_tab");
        assert("back_tab"@ =~= seq!['b', 'a', 'c', 'k', '_', 't', 'a', 'b']);
        reveal_strlit("scroll_lock");
        assert("scroll_lock"@ =~= seq!['s', 'c', 'r', 'o', 'l', 'l', '_', 'l', 'o', 'c', 'k']);
        reveal_strlit("num_lock");
        assert("num_lock"@ =~= seq!['n', 'u', 'm', '_', 'l', 'o', 'c', 'k']);
        reveal_strlit("print_screen");
        assert("print_screen"@ =~= seq!['p', 'r', 'i', 'n', 't', '_', 's', 'c', 'r', 'e', 'e', 'n']);
        reveal_strlit("menu");
        assert("menu"@ =~= seq!['m', 'e', 'n', 'u']);
    }
    let ghost l = ascii_lower(word@);
    if word.unicode_len() == 1 {
        proof {
            assert(l.len() == 1);
        }
        Some(KeyCode::Char(crate::text::to_ascii_lower_char(word.get_char(0))))
    } else if str_eq_ascii_lowered(word, "ctrl") || str_eq_ascii_lowered(word, "control") {
        Some(KeyCode::Modifier(ModifierKeyCode::LeftControl))
    } else if str_eq_ascii_lowered(word, "shift") {
        Some(KeyCode::Modifier(ModifierKeyCode::LeftShift))
    } else if str_eq_ascii_lowered(word, "alt") {
        Some(KeyCode::Modifier(ModifierKeyCode::LeftAlt))
    } else if str_eq_ascii_lowered(word, "tab") {
        Some(KeyCode::Tab)
    } else if str_eq_ascii_lowered(word, "enter") {
        Some(KeyCode::Enter)
    } else if str_eq_ascii_lowered(word, "back_space") {
        Some(KeyCode::Backspace)
    } else if str_eq_ascii_lowered(word, "delete") {
        Some(KeyCode::Delete)
    } else if str_eq_ascii_lowered(word, "insert") {
        Some(KeyCode::Insert)
    } else if str_eq_ascii_lowered(word, "home") {
        Some(KeyCode::Home)
    } else if str_eq_ascii_lowered(word, "end") {
        Some(KeyCode::End)
    } else if str_eq_ascii_lowered(word, "page_up") {
        Some(KeyCode::PageUp)
    } else if str_eq_ascii_lowered(word, "page_down") {
        Some(KeyCode::PageDown)
    } else if str_eq_ascii_lowered(word, "left") {
        Some(KeyCode::Left)
    } else if str_eq_ascii_lowered(word, "right") {
        Some(KeyCode::Right)
    } else if str_eq_ascii_lowered(word, "up") {
        Some(KeyCode::Up)
    } else if str_eq_ascii_lowered(word, "down") {
        Some(KeyCode::Down)
    } else if str_eq_ascii_lowered(word, "context_menu") {
        Some(KeyCode::Menu)
    } else if str_eq_ascii_lowered(word, "back_quote") {
        Some(KeyCode::Char('`'))
    } else if str_eq_ascii_lowered(word, "close_bracket") {
        Some(KeyCode::Char(']'))
    } else if str_eq_ascii_lowered(word, "open_bracket") {
        Some(KeyCode::Char('['))
    } else if str_eq_ascii_lowered(word, "space") {
        Some(KeyCode::Char(' '))
    } else if str_eq_ascii_lowered(word, "minus") || str_eq_ascii_lowered(word, "subtract") {
        Some(KeyCode::Char('-'))
    } else if str_eq_ascii_lowered(word, "divide") {
        Some(KeyCode::Char('/'))
    } else if str_eq_ascii_lowered(word, "multiply") {
        Some(KeyCode::Char('*'))
    } else if str_eq_ascii_lowered(word, "slash") {
        Some(KeyCode::Char('/'))
    } else if str_eq_ascii_lowered(word, "back_slash") {
        Some(KeyCode::Char('\\'))
    } else if str_eq_ascii_lowered(word, "plus") || str_eq_ascii_lowered(word, "add") {
        Some(KeyCode::Char('+'))
    } else if str_eq_ascii_lowered(word, "equals") {
        Some(KeyCode::Char('='))
    } else if str_eq_ascii_lowered(word, "comma") {
        Some(KeyCode::Char(','))
    } else if str_eq_ascii_lowered(word, "period") {
        Some(KeyCode::Char('.'))
    } else if str_eq_ascii_lowered(word, "semicolon") {
        Some(KeyCode::Char(';'))
    } else if str_eq_ascii_lowered(word, "cancel") {
        Some(KeyCode::Esc)
    } else if is_numpad_word(word) {
        Some(KeyCode::Esc)
    } else if str_eq_ascii_lowered(word, "f1") {
        Some(KeyCode::F(1))
    } else if str_eq_ascii_lowered(word, "f2") {
        Some(KeyCode::F(2))
    } else if str_eq_ascii_lowered(word, "f3") {
        Some(KeyCode::F(3))
    } else if str_eq_ascii_lowered(word, "f4") {
        Some(KeyCode::F(4))
    } else if str_eq_ascii_lowered(word, "f5") {
        Some(KeyCode::F(5))
    } else if str_eq_ascii_lowered(word, "f6") {
        Some(KeyCode::F(6))
    } else if str_eq_ascii_lowered(word, "f7") {
        Some(KeyCode::F(7))
    } else if str_eq_ascii_lowered(word, "f8") {
        Some(KeyCode::F(8))
    } else if str_eq_ascii_lowered(word, "f9") {
        Some(KeyCode::F(9))
    } else if str_eq_ascii_lowered(word, "f10") {
        Some(KeyCode::F(10))
    } else if str_eq_ascii_lowered(word, "f11") {
        Some(KeyCode::F(11))
    } else if str_eq_ascii_lowered(word, "f12") {
        Some(KeyCode::F(12))
    } else if str_eq_ascii_lowered(word, "quote") {
        Some(KeyCode::Char('"'))
    } else if str_eq_ascii_lowered(word, "pause") {
        Some(KeyCode::Pause)
    } else if str_eq_ascii_lowered(word, "escape") || str_eq_ascii_lowered(word, "esc") {
        Some(KeyCode::Esc)
    } else if str_eq_ascii_lowered(word, "back_tab") {
        Some(KeyCode::BackTab)
    } else if str_eq_ascii_lowered(word, "scroll_lock") {
        Some(KeyCode::ScrollLock)
    } else if str_eq_ascii_lowered(word, "num_lock") {
        Some(KeyCode::NumLock)
    } else if str_eq_ascii_lowered(word, "print_screen") {
        Some(KeyCode::PrintScreen)
    } else if str_eq_ascii_lowered(word, "menu") {
        Some(KeyCode::Menu)
    } else {
        None
    }
}

/// Whether the word is `numpad0` through `numpad9`, after lowercasing.
fn is_numpad_word(word: &str) -> (r: bool)
    ensures
        r == (ascii_lower(word@).len() == 7 && ascii_lower(word@).subrange(0, 6) == seq![
            'n',
            'u',
            'm',
            'p',
            'a',
            'd',
        ] && '0' <= ascii_lower(word@)[6] && ascii_lower(word@)[6] <= '9'),
{
    let ghost l = ascii_lower(word@);
    proof {
        assert(l.len() == word@.len());
    }
    if word.unicode_len() != 7 {
        return false;
    }
    let w0 = crate::text::to_ascii_lower_char(word.get_char(0));
    let w1 = crate::text::to_ascii_lower_char(word.get_char(1));
    let w2 = crate::text::to_ascii_lower_char(word.get_char(2));
    let w3 = crate::text::to_ascii_lower_char(word.get_char(3));
    let w4 = crate::text::to_ascii_lower_char(word.get_char(4));
    let w5 = crate::text::to_ascii_lower_char(word.get_char(5));
    let w6 = crate::text::to_ascii_lower_char(word.get_char(6));
    let r = w0 == 'n' && w1 == 'u' && w2 == 'm' && w3 == 'p' && w4 == 'a' && w5 == 'd' && '0'
        <= w6 && w6 <= '9';
    proof {
        let pat = seq!['n', 'u', 'm', 'p', 'a', 'd'];
        assert(l[0] == w0 && l[1] == w1 && l[2] == w2 && l[3] == w3 && l[4] == w4 && l[5] == w5
            && l[6] == w6);
        if r {
            assert(l.subrange(0, 6) =~= pat);
        } else {
            if l.subrange(0, 6) == pat {
                assert(l.subrange(0, 6)[0] == l[0]);
                assert(l.subrange(0, 6)[1] == l[1]);
                assert(l.subrange(0, 6)[2] == l[2]);
                assert(l.subrange(0, 6)[3] == l[3]);
                assert(l.subrange(0, 6)[4] == l[4]);
                assert(l.subrange(0, 6)[5] == l[5]);
            }
        }
    }
    r
}

/// Parse a whole keystroke text: the keys of its space-separated words, or
/// `None` when some word is unknown.
pub fn parse_keycodes(input: &str) -> (r: Option<Vec<KeyCode>>)
    ensures
        match r {
            Some(keys) => key_words_of(input@) == Some(keys@),
            None => key_words_of(input@) is None,
        },
{
    let n = input.unicode_len();
    let mut out: Vec<KeyCode> = Vec::new();
    let mut i: usize = 0;
    loop
        invariant
            i <= n,
            n == input@.len(),
            key_words_of(input@) == match key_words_from(input@, i as int) {
                Some(rest) => Some(out@ + rest),
                None => None::<Seq<KeyCode>>,
            },
        decreases n - i,
    {
        let ghost old_out = out@;
        let w = find_non_ws(input, i);
        match parse_keycode(input, w) {
            None => {
                proof {
                    lemma_key_word_end_from(input@, w as int);
                }
                if find_key_word_end(input, w) == w {
                    proof {
                        assert(key_words_from(input@, i as int) == Some(Seq::<KeyCode>::empty()));
                        assert(old_out + Seq::<KeyCode>::empty() =~= out@);
                    }
                    return Some(out);
                } else {
                    return None;
                }
            },
            Some((k, j)) => {
                out.push(k);
                proof {
                    if key_words_from(input@, j as int) is Some {
                        let rest = key_words_from(input@, j as int)->Some_0;
                        assert(old_out + (seq![k] + rest) =~= out@ + rest);
                    }
                }
                i = j;
            },
        }
    }
}

/// A keymap in the XML dialect: its version, its name, its optional parent,
/// and its actions in document order.
#[derive(Debug)]
pub struct KeyMap {
    pub version: String,
    pub name: String,
    pub parent: Option<String>,
    pub actions: Vec<Action>,
}

/// The mathematical image of a [`KeyMap`].
pub struct JbKeyMapModel {
    pub version: Seq<char>,
    pub name: Seq<char>,
    pub parent: Option<Seq<char>>,
    pub actions: Seq<ActionModel>,
}

impl View for KeyMap {
    type V = JbKeyMapModel;

    open spec fn view(&self) -> JbKeyMapModel {
        JbKeyMapModel {
            version: self.version@,
            name: self.name@,
            parent: match self.parent {
                Some(ref p) => Some(p@),
                None => None,
            },
            actions: crate::keymap::action_models_of(self.actions@),
        }
    }
}

/// The keystroke of one `keyboard-shortcut` node: its `first-keystroke`
/// attribute parsed and canonicalized; an absent attribute yields the empty
/// keystroke, an unknown key word fails.
pub open spec fn shortcut_of_node(t: TagModel) -> Option<Seq<KeyCode>> {
    match lookup_attr(t.attributes, first_keystroke_attr()) {
        None => Some(canonical(Seq::empty())),
        Some(v) => match key_words_of(v) {
            None => None,
            Some(ks) => Some(canonical(ks)),
        },
    }
}

/// The `first-keystroke` attribute name, as characters.
pub open spec fn first_keystroke_attr() -> Seq<char> {
    seq!['f', 'i', 'r', 's', 't', '-', 'k', 'e', 'y', 's', 't', 'r', 'o', 'k', 'e']
}

/// Parse one `keyboard-shortcut` node into a shortcut.
pub fn as_shortcut(node: &XmlTag) -> (r: Option<Shortcut>)
    ensures
        match r {
            Some(sc) => shortcut_of_node(tag_model(*node)) == Some(sc@),
            None => shortcut_of_node(tag_model(*node)) is None,
        },
{
    proof {
        reveal_strlit("first-keystroke");
        assert("first-keystroke"@ =~= first_keystroke_attr());
    }
    match node.attribute("first-keystroke") {
        None => Some(Shortcut::new(Vec::new())),
        Some(v) => match parse_keycodes(v) {
            None => None,
            Some(keys) => Some(Shortcut::new(keys)),
        },
    }
}

/// The child models of a tag model.
pub open spec fn model_children(t: TagModel) -> Seq<TagModel> {
    match t.content {
        Some(ContentModel::Tags(ts)) => ts,
        _ => Seq::empty(),
    }
}

/// The keystrokes of the `keyboard-shortcut` children, in order; `None`
/// when any of them fails.
pub open spec fn shortcuts_of_children(ts: Seq<TagModel>) -> Option<Seq<Seq<KeyCode>>>
    decreases ts.len(),
{
    if ts.len() == 0 {
        Some(Seq::empty())
    } else {
        let rest = shortcuts_of_children(ts.drop_first());
        if ts[0].name == "keyboard-shortcut"@ {
            match shortcut_of_node(ts[0]) {
                None => None,
                Some(ks) => match rest {
                    None => None,
                    Some(rs) => Some(seq![ks] + rs),
                },
            }
        } else {
            rest
        }
    }
}

/// The action one `action` node denotes: its `id` attribute as the display
/// name and the keystrokes of its `keyboard-shortcut` children. `None` when
/// the `id` is missing or a keystroke fails.
pub open spec fn action_of_node(t: TagModel) -> Option<ActionModel> {
    match lookup_attr(t.attributes, "id"@) {
        None => None,
        Some(id) => match shortcuts_of_children(model_children(t)) {
            None => None,
            Some(kss) => Some(
                ActionModel { name: id, category: Seq::empty(), shortcuts: kss },
            ),
        },
    }
}

/// The actions of the `action` children, in order; `None` when any fails.
pub open spec fn actions_of_children(ts: Seq<TagModel>) -> Option<Seq<ActionModel>>
    decreases ts.len(),
{
    if ts.len() == 0 {
        Some(Seq::empty())
    } else {
        let rest = actions_of_children(ts.drop_first());
        if ts[0].name == "action"@ {
            match action_of_node(ts[0]) {
                None => None,
                Some(a) => match rest {
                    None => None,
                    Some(rs) => Some(seq![a] + rs),
                },
            }
        } else {
            rest
        }
    }
}

/// The keymap a root tag denotes: its `version` and `name` attributes (both
/// required), its optional `parent`, and its `action` children.
pub open spec fn keymap_of_root(t: TagModel) -> Option<JbKeyMapModel> {
    match lookup_attr(t.attributes, "version"@) {
        None => None,
        Some(version) => match lookup_attr(t.attributes, "name"@) {
            None => None,
            Some(name) => match actions_of_children(model_children(t)) {
                None => None,
                Some(actions) => Some(
                    JbKeyMapModel {
                        version,
                        name,
                        parent: lookup_attr(t.attributes, "parent"@),
                        actions,
                    },
                ),
            },
        },
    }
}

/// The keymap a whole document denotes, when it parses.
pub open spec fn jetbrains_keymap_of(s: Seq<char>) -> Option<JbKeyMapModel> {
    match xml_document(s) {
        None => None,
        Some(root) => keymap_of_root(root),
    }
}

/// Parse one `action` node into an action, uncategorized.
pub fn as_action(node: &XmlTag) -> (r: Option<Action>)
    ensures
        match r {
            Some(a) => action_of_node(tag_model(*node)) == Some(a@),
            None => action_of_node(tag_model(*node)) is None,
        },
{
    let id = match node.attribute("id") {
        None => {
            return None;
        },
        Some(id) => id,
    };
    let children = node.children();
    proof {
        crate::parser::xml::lemma_tag_seq_models(spec_children(node));
        assert(crate::parser::xml::tag_models_of(children@) == model_children(tag_model(*node)));
    }
    let ghost models = model_children(tag_model(*node));
    let n = children.len();
    let mut shortcuts: Vec<Shortcut> = Vec::new();
    let mut i: usize = 0;
    proof {
        assert(models.skip(0) =~= models);
    }
    while i < n
        invariant
            i <= n,
            n == children@.len(),
            crate::parser::xml::tag_models_of(children@) == models,
            models == model_children(tag_model(*node)),
            lookup_attr(attribute_models_of(node.attributes@), "id"@) == Some(id@),
            shortcuts_of_children(models) == match shortcuts_of_children(models.skip(i as int)) {
                Some(rest) => Some(keystrokes_of(shortcuts@) + rest),
                None => None::<Seq<Seq<KeyCode>>>,
            },
        decreases n - i,
    {
        let ghost rest_models = models.skip(i as int);
        proof {
            assert(rest_models[0] == models[i as int]);
            assert(rest_models.drop_first() =~= models.skip(i + 1));
            assert(models[i as int] == tag_model(children@[i as int]));
        }
        let ghost old_shortcuts = shortcuts@;
        let child = &children[i];
        if str_eq(child.name(), "keyboard-shortcut") {
            match as_shortcut(child) {
                None => {
                    proof {
                        assert(rest_models[0].name == "keyboard-shortcut"@);
                        assert(shortcut_of_node(rest_models[0]) is None);
                        assert(shortcuts_of_children(rest_models) is None);
                    }
                    return None;
                },
                Some(sc) => {
                    let ghost ks = sc@;
                    shortcuts.push(sc);
                    proof {
                        if shortcuts_of_children(models.skip(i + 1)) is Some {
                            let rs = shortcuts_of_children(models.skip(i + 1))->Some_0;
                            assert(keystrokes_of(old_shortcuts) + (seq![ks] + rs)
                                =~= keystrokes_of(shortcuts@) + rs);
                        }
                    }
                },
            }
        }
        i += 1;
    }
    proof {
        assert(models.skip(n as int) =~= Seq::<TagModel>::empty());
        assert(keystrokes_of(shortcuts@) + Seq::<Seq<KeyCode>>::empty() =~= keystrokes_of(
            shortcuts@,
        ));
    }
    let a = Action::new(id, shortcuts);
    proof {
        assert(a@.category =~= Seq::<char>::empty());
    }
    Some(a)
}

/// Parse the root tag into a keymap.
pub fn as_keymap(root: &XmlTag) -> (r: Option<KeyMap>)
    ensures
        match r {
            Some(km) => keymap_of_root(tag_model(*root)) == Some(km@),
            None => keymap_of_root(tag_model(*root)) is None,
        },
{
    let version = match root.attribute("version") {
        None => {
            return None;
        },
        Some(v) => v.to_owned(),
    };
    let name = match root.attribute("name") {
        None => {
            return None;
        },
        Some(v) => v.to_owned(),
    };
    let parent = match root.attribute("parent") {
        None => None,
        Some(v) => Some(v.to_owned()),
    };
    let children = root.children();
    proof {
        crate::parser::xml::lemma_tag_seq_models(spec_children(root));
        assert(crate::parser::xml::tag_models_of(children@) == model_children(tag_model(*root)));
    }
    let ghost models = model_children(tag_model(*root));
    let n = children.len();
    let mut actions: Vec<Action> = Vec::new();
    let mut i: usize = 0;
    proof {
        assert(models.skip(0) =~= models);
    }
    while i < n
        invariant
            i <= n,
            n == children@.len(),
            crate::parser::xml::tag_models_of(children@) == models,
            models == model_children(tag_model(*root)),
            lookup_attr(attribute_models_of(root.attributes@), "version"@) == Some(version@),
            lookup_attr(attribute_models_of(root.attributes@), "name"@) == Some(name@),
            actions_of_children(models) == match actions_of_children(models.skip(i as int)) {
                Some(rest) => Some(crate::keymap::action_models_of(actions@) + rest),
                None => None::<Seq<ActionModel>>,
            },
        decreases n - i,
    {
        let ghost rest_models = models.skip(i as int);
        proof {
            assert(rest_models[0] == models[i as int]);
            assert(rest_models.drop_first() =~= models.skip(i + 1));
            assert(models[i as int] == tag_model(children@[i as int]));
        }
        let ghost old_actions = actions@;
        let child = &children[i];
        if str_eq(child.name(), "action") {
            match as_action(child) {
                None => {
                    proof {
                        assert(rest_models[0].name == "action"@);
                        assert(action_of_node(rest_models[0]) is None);
                        assert(actions_of_children(rest_models) is None);
                    }
                    return None;
                },
                Some(a) => {
                    let ghost am = a@;
                    actions.push(a);
                    proof {
                        if actions_of_children(models.skip(i + 1)) is Some {
                            let rs = actions_of_children(models.skip(i + 1))->Some_0;
                            assert(crate::keymap::action_models_of(old_actions) + (seq![am] + rs)
                                =~= crate::keymap::action_models_of(actions@) + rs);
                        }
                    }
                },
            }
        }
        i += 1;
    }
    proof {
        assert(models.skip(n as int) =~= Seq::<TagModel>::empty());
        assert(crate::keymap::action_models_of(actions@) + Seq::<ActionModel>::empty()
            =~= crate::keymap::action_models_of(actions@));
    }
    Some(KeyMap { version, name, parent, actions })
}

/// Ingest one keymap-export XML document. `None` is the structural parse
/// failure: ill-formed XML, a missing required attribute, or an unknown
/// keystroke word.
pub fn parse_jetbrains_keymap(input: &str) -> (r: Option<KeyMap>)
    ensures
        match r {
            Some(km) => jetbrains_keymap_of(input@) == Some(km@),
            None => jetbrains_keymap_of(input@) is None,
        },
{
    match parse_xml(input) {
        None => None,
        Some(root) => as_keymap(&root),
    }
}

/// The category label an action name falls under, by its prefixes and
/// distinctive substrings.
pub open spec fn categorize_of(n: Seq<char>) -> Seq<char> {
    if has_substring(n, "Bookmark"@) {
        "bookmarks"@
    } else if matches_at(n, 0, "Goto"@) || matches_at(n, 0, "JumpTo"@) || n == "Back"@ || n
        == "PreviousTab"@ || n == "NextTab"@ {
        "navigate"@
    } else if has_substring(n, "Hierarchy"@) {
        "hierarchy"@
    } else if matches_at(n, 0, "Introduce"@) || matches_at(n, 0, "Refactorings."@) || n
        == "ChangeSignature"@ || n == "Inline"@ || n == "ImplementMethods"@ || n
        == "ExtractMethod"@ || n == "Move"@ || n == "RenameElement"@ {
        "refactor"@
    } else if has_substring(n, "EditorTab"@) || has_substring(n, "Split"@) || n
        == "MoveEditorToOppositeTabGroup"@ {
        "editor tab"@
    } else if matches_at(n, 0, "Editor"@) {
        "editor"@
    } else if matches_at(n, 0, "Edit"@) || matches_at(n, 0, "CommentBy"@) || matches_at(
        n,
        0,
        "$"@,
    ) || n == "ShowIntentionActions"@ {
        "edit"@
    } else if matches_at(n, 0, "Find"@) || matches_at(n, 0, "Replace"@) || matches_at(
        n,
        0,
        "SearchEverywhere."@,
    ) || n == "NextOccurence"@ || n == "IncrementalSearch"@ || n == "ShowUsages"@ || n
        == "HighlightUsagesInFile"@ || n == "PreviousOccurence"@ {
        "find"@
    } else if matches_at(n, 0, "Activate"@) || has_substring(n, "ToolWindow"@) || n
        == "HideActiveWindow"@ || n == "AutoIndentLines"@ || n == "HideAllWindows"@ {
        "tool window"@
    } else if matches_at(n, 0, "Build"@) || matches_at(n, 0, "Compile"@) {
        "build"@
    } else if matches_at(n, 0, "Close"@) {
        "close"@
    } else if matches_at(n, 0, "Collapse"@) || matches_at(n, 0, "Expand"@) {
        "tree actions"@
    } else if matches_at(n, 0, "Breakpoint"@) {
        "breakpoints"@
    } else if matches_at(n, 0, "Debugger."@) || matches_at(n, 0, "XDebugger."@) || matches_at(
        n,
        0,
        "Step"@,
    ) || matches_at(n, 0, "ForceStep"@) || n == "RunToCursor"@ || matches_at(n, 0, "Run"@)
        || matches_at(n, 0, "Rerun"@) || n == "Stop"@ || n == "Pause"@ || n == "Debug"@ || n
        == "Resume"@ || n == "SmartStepInto"@ || n == "ChooseDebugConfiguration"@ || n
        == "ChooseRunConfiguration"@ || n == "XDebugger.AttachToProcess"@ || n
        == "EvaluateExpression"@ {
        "debug/run"@
    } else if n == "ParameterInfo"@ || n == "ToggleInlineHintsAction"@ || n
        == "ToggleInlayHintsGloballyAction"@ || n == "ExpressionTypeInfo"@ || n
        == "EditorContextInfo"@ || n == "ShowErrorDescription"@ {
        "code introspection"@
    } else if matches_at(n, 0, "MoveElement"@) || matches_at(n, 0, "MoveLine"@) || matches_at(
        n,
        0,
        "MoveStatement"@,
    ) || n == "ReformatCode"@ || n == "OptimizeImports"@ {
        "code formatting"@
    } else if has_substring(n, "Completion"@) {
        "code completion"@
    } else if matches_at(n, 0, "Terminal."@) {
        "terminal"@
    } else if matches_at(n, 0, "Diff."@) || n == "NextDiff"@ || n == "PreviousDiff"@ {
        "diff"@
    } else if n == "OpenFile"@ {
        "file"@
    } else if matches_at(n, 0, "FileChooser."@) {
        "file chooser"@
    } else if matches_at(n, 0, "Vcs."@) || matches_at(n, 0, "Git."@) {
        "vcs"@
    } else {
        "other"@
    }
}

/// Resolve an action's category from its name.
pub fn categorize_action(action: &Action) -> (r: &'static str)
    ensures
        r@ == categorize_of(action@.name),
{
    let n = action.name();
    if str_contains(n, "Bookmark") {
        "bookmarks"
    } else if str_matches_at(n, 0, "Goto") || str_matches_at(n, 0, "JumpTo") || str_eq(n, "Back")
        || str_eq(n, "PreviousTab") || str_eq(n, "NextTab") {
        "navigate"
    } else if str_contains(n, "Hierarchy") {
        "hierarchy"
    } else if str_matches_at(n, 0, "Introduce") || str_matches_at(n, 0, "Refactorings.")
        || str_eq(n, "ChangeSignature") || str_eq(n, "Inline") || str_eq(n, "ImplementMethods")
        || str_eq(n, "ExtractMethod") || str_eq(n, "Move") || str_eq(n, "RenameElement") {
        "refactor"
    } else if str_contains(n, "EditorTab") || str_contains(n, "Split") || str_eq(
        n,
        "MoveEditorToOppositeTabGroup",
    ) {
        "editor tab"
    } else if str_matches_at(n, 0, "Editor") {
        "editor"
    } else if str_matches_at(n, 0, "Edit") || str_matches_at(n, 0, "CommentBy") || str_matches_at(
        n,
        0,
        "$",
    ) || str_eq(n, "ShowIntentionActions") {
        "edit"
    } else if str_matches_at(n, 0, "Find") || str_matches_at(n, 0, "Replace") || str_matches_at(
        n,
        0,
        "SearchEverywhere.",
    ) || str_eq(n, "NextOccurence") || str_eq(n, "IncrementalSearch") || str_eq(n, "ShowUsages")
        || str_eq(n, "HighlightUsagesInFile") || str_eq(n, "PreviousOccurence") {
        "find"
    } else if str_matches_at(n, 0, "Activate") || str_contains(n, "ToolWindow") || str_eq(
        n,
        "HideActiveWindow",
    ) || str_eq(n, "AutoIndentLines") || str_eq(n, "HideAllWindows") {
        "tool window"
    } else if str_matches_at(n, 0, "Build") || str_matches_at(n, 0, "Compile") {
        "build"
    } else if str_matches_at(n, 0, "Close") {
        "close"
    } else if str_matches_at(n, 0, "Collapse") || str_matches_at(n, 0, "Expand") {
        "tree actions"
    } else if str_matches_at(n, 0, "Breakpoint") {
        "breakpoints"
    } else if str_matches_at(n, 0, "Debugger.") || str_matches_at(n, 0, "XDebugger.")
        || str_matches_at(n, 0, "Step") || str_matches_at(n, 0, "ForceStep") || str_eq(
        n,
        "RunToCursor",
    ) || str_matches_at(n, 0, "Run") || str_matches_at(n, 0, "Rerun") || str_eq(n, "Stop")
        || str_eq(n, "Pause") || str_eq(n, "Debug") || str_eq(n, "Resume") || str_eq(
        n,
        "SmartStepInto",
    ) || str_eq(n, "ChooseDebugConfiguration") || str_eq(n, "ChooseRunConfiguration") || str_eq(
        n,
        "XDebugger.AttachToProcess",
    ) || str_eq(n, "EvaluateExpression") {
        "debug/run"
    } else if str_eq(n, "ParameterInfo") || str_eq(n, "ToggleInlineHintsAction") || str_eq(
        n,
        "ToggleInlayHintsGloballyAction",
    ) || str_eq(n, "ExpressionTypeInfo") || str_eq(n, "EditorContextInfo") || str_eq(
        n,
        "ShowErrorDescription",
    ) {
        "code introspection"
    } else if str_matches_at(n, 0, "MoveElement") || str_matches_at(n, 0, "MoveLine")
        || str_matches_at(n, 0, "MoveStatement") || str_eq(n, "ReformatCode") || str_eq(
        n,
        "OptimizeImports",
    ) {
        "code formatting"
    } else if str_contains(n, "Completion") {
        "code completion"
    } else if str_matches_at(n, 0, "Terminal.") {
        "terminal"
    } else if str_matches_at(n, 0, "Diff.") || str_eq(n, "NextDiff") || str_eq(n, "PreviousDiff") {
        "diff"
    } else if str_eq(n, "OpenFile") {
        "file"
    } else if str_matches_at(n, 0, "FileChooser.") {
        "file chooser"
    } else if str_matches_at(n, 0, "Vcs.") || str_matches_at(n, 0, "Git.") {
        "vcs"
    } else {
        "other"
    }
}

/// The bound actions of a keymap, each under its resolved category label,
/// in document order.
pub open spec fn valid_actions_of(actions: Seq<ActionModel>) -> Seq<(Seq<char>, ActionModel)>
    decreases actions.len(),
{
    if actions.len() == 0 {
        Seq::empty()
    } else {
        let rest = valid_actions_of(actions.drop_last());
        if actions.last().shortcuts.len() > 0 {
            rest + seq![(categorize_of(actions.last().name), actions.last())]
        } else {
            rest
        }
    }
}

/// The models of a list of categorized actions.
pub open spec fn categorized_models_of(v: Seq<(&'static str, Action)>) -> Seq<
    (Seq<char>, ActionModel),
> {
    Seq::new(v.len(), |i: int| (v[i].0@, v[i].1@))
}

impl KeyMap {
    /// The bound actions, each with its resolved category label.
    pub fn valid_actions(&self) -> (r: Vec<(&'static str, Action)>)
        ensures
            categorized_models_of(r@) == valid_actions_of(self@.actions),
    {
        let n = self.actions.len();
        let mut out: Vec<(&'static str, Action)> = Vec::new();
        let mut i: usize = 0;
        proof {
            assert(crate::keymap::action_models_of(self.actions@).take(0)
                =~= Seq::<ActionModel>::empty());
            assert(categorized_models_of(out@) =~= valid_actions_of(
                crate::keymap::action_models_of(self.actions@).take(0),
            ));
        }
        while i < n
            invariant
                i <= n,
                n == self.actions@.len(),
                categorized_models_of(out@) == valid_actions_of(
                    crate::keymap::action_models_of(self.actions@).take(i as int),
                ),
            decreases n - i,
        {
            let ghost models = crate::keymap::action_models_of(self.actions@);
            let ghost old_out = out@;
            proof {
                assert(models.take(i + 1).drop_last() =~= models.take(i as int));
                assert(models.take(i + 1).last() == models[i as int]);
                assert(models[i as int] == self.actions@[i as int]@);
            }
            let action = &self.actions[i];
            if action.is_bound() {
                let label = categorize_action(action);
                out.push((label, action.clone()));
                proof {
                    assert(categorized_models_of(out@) =~= categorized_models_of(old_out) + seq![
                        (categorize_of(models[i as int].name), models[i as int]),
                    ]);
                }
            }
            i += 1;
        }
        proof {
            assert(crate::keymap::action_models_of(self.actions@).take(n as int)
                =~= crate::keymap::action_models_of(self.actions@));
        }
        out
    }
}

/// A source a keymap document can be ingested from.
pub trait JetbrainsKeymapSource {
    /// The keymap the source denotes, if its document parses.
    spec fn spec_keymap(&self) -> Option<JbKeyMapModel>;

    /// Ingest the source's document.
    fn parse_jetbrains_keymap(&self) -> (r: KeyMap)
        requires
            self.spec_keymap() is Some,
        ensures
            Some(r@) == self.spec_keymap(),
    ;
}

impl JetbrainsKeymapSource for &str {
    open spec fn spec_keymap(&self) -> Option<JbKeyMapModel> {
        jetbrains_keymap_of(self@)
    }

    fn parse_jetbrains_keymap(&self) -> (r: KeyMap) {
        match parse_jetbrains_keymap(self) {
            Some(km) => km,
            None => {
                // unreachable: the precondition promises a parseable document
                proof {
                    assert(false);
                }
                KeyMap { version: String::new(), name: String::new(), parent: None, actions: Vec::new() }
            },
        }
    }
}

} // verus!
