//! Parser for the KDE global-shortcuts export format.
//!
//! The document grammar is line-oriented: blank lines, section headers
//! `[name]`, friendly names `_k_friendly_name=text`, and shortcut records
//! `id=shortcut_field,default_field,label`. The grammar must be followed
//! exactly; an unparseable remainder fails the whole document. Unknown
//! vocabulary inside a well-formed record degrades gracefully instead.

use vstd::prelude::*;

use crate::key_event::{KeyCode, MediaKeyCode, ModifierKeyCode};
use crate::keymap::{
    action_models_of, distinct_keys, entries_complete, entries_of, KeyMap, KeyMapModel,
};
use crate::shortcut::{canonical, canonical_modifiers_upto, keystrokes_of, non_empty_seqs, Action, ActionModel, Shortcut};
use crate::text::{
    find_char, find_from, find_non_space, find_token_break, lemma_find_from, lemma_non_space_from,
    lemma_token_break_from, lower_char_of, lowercase_char, matches_at, non_space_from,
    str_eq, str_matches_at, substring, token_break_from,
};

verus! {

/// One parsed line of the document.
#[derive(Debug, PartialEq, Eq)]
pub enum LineRecord {
    SectionHeader(String),
    SectionFriendlyName(String),
    Shortcut { id: String, shortcut: String, default_shortcut: String, label: String },
}

/// The mathematical image of a [`LineRecord`].
pub enum RecordModel {
    Header(Seq<char>),
    Friendly(Seq<char>),
    Entry { id: Seq<char>, shortcut: Seq<char>, default_shortcut: Seq<char>, label: Seq<char> },
}

impl View for LineRecord {
    type V = RecordModel;

    open spec fn view(&self) -> RecordModel {
        match self {
            LineRecord::SectionHeader(name) => RecordModel::Header(name@),
            LineRecord::SectionFriendlyName(name) => RecordModel::Friendly(name@),
            LineRecord::Shortcut { id, shortcut, default_shortcut, label } => RecordModel::Entry {
                id: id@,
                shortcut: shortcut@,
                default_shortcut: default_shortcut@,
                label: label@,
            },
        }
    }
}

/// The record models of a list of line records.
pub open spec fn record_models_of(v: Seq<LineRecord>) -> Seq<RecordModel> {
    Seq::new(v.len(), |i: int| v[i]@)
}

/// The friendly-name key literal, as characters.
pub open spec fn friendly_prefix() -> Seq<char> {
    seq!['_', 'k', '_', 'f', 'r', 'i', 'e', 'n', 'd', 'l', 'y', '_', 'n', 'a', 'm', 'e', '=']
}

// --- the line grammar, as spec functions over the document's characters ---

/// A section header at `i`: `[`, the name up to the next `]`, then `]`.
/// Yields the name and the position after the closing bracket.
pub open spec fn header_at(s: Seq<char>, i: int) -> Option<(Seq<char>, int)> {
    if 0 <= i < s.len() && s[i] == '[' {
        let j = find_from(s, i + 1, ']');
        if j < s.len() {
            Some((s.subrange(i + 1, j), j + 1))
        } else {
            None
        }
    } else {
        None
    }
}

/// A friendly name at `i`: the key literal, then text up to the line end,
/// which is not consumed.
pub open spec fn friendly_at(s: Seq<char>, i: int) -> Option<(Seq<char>, int)> {
    if matches_at(s, i, friendly_prefix()) {
        let start = i + friendly_prefix().len();
        let j = find_from(s, start, '\n');
        Some((s.subrange(start, j), j))
    } else {
        None
    }
}

/// A shortcut record at `i`: `id=shortcut_field,default_field,label`, the
/// label running to the line end, which is not consumed. The `=` and both
/// `,` are sought anywhere in the remaining input.
pub open spec fn entry_at(s: Seq<char>, i: int) -> Option<(RecordModel, int)> {
    if 0 <= i <= s.len() {
        let e = find_from(s, i, '=');
        if e >= s.len() {
            None
        } else {
            let c1 = find_from(s, e + 1, ',');
            if c1 >= s.len() {
                None
            } else {
                let c2 = find_from(s, c1 + 1, ',');
                if c2 >= s.len() {
                    None
                } else {
                    let le = find_from(s, c2 + 1, '\n');
                    Some(
                        (
                            RecordModel::Entry {
                                id: s.subrange(i, e),
                                shortcut: s.subrange(e + 1, c1),
                                default_shortcut: s.subrange(c1 + 1, c2),
                                label: s.subrange(c2 + 1, le),
                            },
                            le,
                        ),
                    )
                }
            }
        }
    } else {
        None
    }
}

/// One record at `i`: a header, else a friendly name, else a shortcut
/// record, in that order of preference.
pub open spec fn record_at(s: Seq<char>, i: int) -> Option<(RecordModel, int)> {
    match header_at(s, i) {
        Some((name, j)) => Some((RecordModel::Header(name), j)),
        None => match friendly_at(s, i) {
            Some((name, j)) => Some((RecordModel::Friendly(name), j)),
            None => entry_at(s, i),
        },
    }
}

/// The position after every blank line (spaces then a newline) from `i` on.
pub open spec fn after_blank_lines(s: Seq<char>, i: int) -> int
    decreases s.len() - i,
{
    if 0 <= i <= s.len() {
        let sp = non_space_from(s, i);
        if sp < s.len() && s[sp] == '\n' {
            proof {
                lemma_non_space_from(s, i);
            }
            after_blank_lines(s, sp + 1)
        } else {
            i
        }
    } else {
        i
    }
}

/// A parsed record advances the position: past the end of what it consumed,
/// and never past the end of the document.
pub proof fn lemma_record_at_bounds(s: Seq<char>, i: int)
    requires
        0 <= i <= s.len(),
    ensures
        match record_at(s, i) {
            Some((r, k)) => i < k <= s.len(),
            None => true,
        },
{
    if 0 <= i < s.len() && s[i] == '[' {
        lemma_find_from(s, i + 1, ']');
    }
    if matches_at(s, i, friendly_prefix()) {
        lemma_find_from(s, i + friendly_prefix().len(), '\n');
    }
    lemma_find_from(s, i, '=');
    let e = find_from(s, i, '=');
    if e < s.len() {
        lemma_find_from(s, e + 1, ',');
        let c1 = find_from(s, e + 1, ',');
        if c1 < s.len() {
            lemma_find_from(s, c1 + 1, ',');
            let c2 = find_from(s, c1 + 1, ',');
            if c2 < s.len() {
                lemma_find_from(s, c2 + 1, '\n');
            }
        }
    }
}

pub proof fn lemma_after_blank_lines_bounds(s: Seq<char>, i: int)
    requires
        0 <= i <= s.len(),
    ensures
        i <= after_blank_lines(s, i) <= s.len(),
    decreases s.len() - i,
{
    let sp = non_space_from(s, i);
    lemma_non_space_from(s, i);
    if sp < s.len() && s[sp] == '\n' {
        lemma_after_blank_lines_bounds(s, sp + 1);
    }
}

/// The whole document from `i` on: blank lines are skipped before each
/// record; the document ends cleanly only at the end of input. Any position
/// where neither the end nor a record follows fails the whole parse.
pub open spec fn document_from(s: Seq<char>, i: int) -> Option<Seq<RecordModel>>
    decreases s.len() - i,
{
    if 0 <= i <= s.len() {
        let j = after_blank_lines(s, i);
        if j == s.len() {
            Some(Seq::empty())
        } else {
            proof {
                lemma_after_blank_lines_bounds(s, i);
                lemma_record_at_bounds(s, j);
            }
            match record_at(s, j) {
                Some((r, k)) => match document_from(s, k) {
                    Some(rest) => Some(seq![r] + rest),
                    None => None,
                },
                None => None,
            }
        }
    } else {
        None
    }
}

// --- executable line parsers ---

/// Parse a section header starting at `from`; yields the section name and
/// the position after the closing bracket.
pub fn parse_section_header(s: &str, from: usize) -> (r: Option<(String, usize)>)
    requires
        from <= s@.len(),
    ensures
        match r {
            Some((name, k)) => header_at(s@, from as int) == Some((name@, k as int)) && from < k
                <= s@.len(),
            None => header_at(s@, from as int) is None,
        },
{
    let n = s.unicode_len();
    if from < n && s.get_char(from) == '[' {
        let j = find_char(s, from + 1, ']');
        if j < n {
            let name = substring(s, from + 1, j);
            Some((name, j + 1))
        } else {
            None
        }
    } else {
        None
    }
}

/// Parse a friendly name starting at `from`; yields the name and the
/// position of the line end (the newline is not consumed).
pub fn parse_section_friendly_name(s: &str, from: usize) -> (r: Option<(String, usize)>)
    requires
        from <= s@.len(),
    ensures
        match r {
            Some((name, k)) => friendly_at(s@, from as int) == Some((name@, k as int)) && from < k
                <= s@.len(),
            None => friendly_at(s@, from as int) is None,
        },
{
    proof {
        reveal_strlit("_k_friendly_name=");
        assert("_k_friendly_name="@ =~= friendly_prefix());
    }
    let n = s.unicode_len();
    if str_matches_at(s, from, "_k_friendly_name=") {
        let plen = "_k_friendly_name=".unicode_len();
        proof {
            lemma_find_from(s@, from + plen, '\n');
        }
        let j = find_char(s, from + plen, '\n');
        let name = substring(s, from + plen, j);
        Some((name, j))
    } else {
        None
    }
}

/// Parse a shortcut record starting at `from`; yields the record and the
/// position of the line end (the newline is not consumed).
pub fn parse_shortcut_record(s: &str, from: usize) -> (r: Option<(LineRecord, usize)>)
    requires
        from <= s@.len(),
    ensures
        match r {
            Some((rec, k)) => entry_at(s@, from as int) == Some((rec@, k as int)) && from < k
                <= s@.len(),
            None => entry_at(s@, from as int) is None,
        },
{
    let n = s.unicode_len();
    let e = find_char(s, from, '=');
    if e >= n {
        return None;
    }
    let c1 = find_char(s, e + 1, ',');
    if c1 >= n {
        return None;
    }
    let c2 = find_char(s, c1 + 1, ',');
    if c2 >= n {
        return None;
    }
    let le = find_char(s, c2 + 1, '\n');
    let rec = LineRecord::Shortcut {
        id: substring(s, from, e),
        shortcut: substring(s, e + 1, c1),
        default_shortcut: substring(s, c1 + 1, c2),
        label: substring(s, c2 + 1, le),
    };
    Some((rec, le))
}

/// Parse one record starting at `from`: a header, else a friendly name,
/// else a shortcut record.
pub fn parse_record(s: &str, from: usize) -> (r: Option<(LineRecord, usize)>)
    requires
        from <= s@.len(),
    ensures
        match r {
            Some((rec, k)) => record_at(s@, from as int) == Some((rec@, k as int)) && from < k
                <= s@.len(),
            None => record_at(s@, from as int) is None,
        },
{
    match parse_section_header(s, from) {
        Some((name, k)) => Some((LineRecord::SectionHeader(name), k)),
        None => match parse_section_friendly_name(s, from) {
            Some((name, k)) => Some((LineRecord::SectionFriendlyName(name), k)),
            None => parse_shortcut_record(s, from),
        },
    }
}

/// Skip every blank line (spaces then a newline) from `from` on.
pub fn skip_blank_lines(s: &str, from: usize) -> (r: usize)
    requires
        from <= s@.len(),
    ensures
        r == after_blank_lines(s@, from as int),
        from <= r <= s@.len(),
{
    let n = s.unicode_len();
    let mut i: usize = from;
    loop
        invariant
            from <= i <= n,
            n == s@.len(),
            after_blank_lines(s@, from as int) == after_blank_lines(s@, i as int),
        decreases n - i,
    {
        let sp = find_non_space(s, i);
        if sp < n && s.get_char(sp) == '\n' {
            i = sp + 1;
        } else {
            return i;
        }
    }
}

/// Parse the whole document into its ordered line records. `None` is the
/// structural parse failure: some position holds neither a record nor the
/// end of the document.
pub fn parse_document(s: &str) -> (r: Option<Vec<LineRecord>>)
    ensures
        match r {
            Some(records) => document_from(s@, 0) == Some(record_models_of(records@)),
            None => document_from(s@, 0) is None,
        },
{
    let n = s.unicode_len();
    let mut records: Vec<LineRecord> = Vec::new();
    let mut i: usize = 0;
    loop
        invariant
            i <= n,
            n == s@.len(),
            document_from(s@, 0) == match document_from(s@, i as int) {
                Some(rest) => Some(record_models_of(records@) + rest),
                None => None::<Seq<RecordModel>>,
            },
        decreases n - i,
    {
        let j = skip_blank_lines(s, i);
        if j == n {
            proof {
                assert(record_models_of(records@) + Seq::<RecordModel>::empty()
                    =~= record_models_of(records@));
            }
            return Some(records);
        }
        match parse_record(s, j) {
            None => {
                return None;
            },
            Some((rec, k)) => {
                let ghost old_records = records@;
                records.push(rec);
                proof {
                    assert(record_models_of(records@) =~= record_models_of(old_records).push(
                        rec@,
                    ));
                    if document_from(s@, k as int) is Some {
                        let rest = document_from(s@, k as int)->Some_0;
                        assert(record_models_of(old_records) + (seq![rec@] + rest)
                            =~= record_models_of(records@) + rest);
                    }
                }
                i = k;
            },
        }
    }
}

// --- the keystroke tokenizer, as spec functions over one field's characters ---

/// The four-backslash escape standing for a literal backslash.
pub open spec fn backslash_escape() -> Seq<char> {
    seq!['\\', '\\', '\\', '\\']
}

/// The literal naming an empty binding.
pub open spec fn none_literal() -> Seq<char> {
    seq!['n', 'o', 'n', 'e']
}

/// The two-character tab escape separating alternative bindings.
pub open spec fn tab_escape() -> Seq<char> {
    seq!['\\', 't']
}

/// The key token named by one token text: a single character maps to its
/// lowercase character key; the named modifier, function, navigation,
/// special and media words map to their keys; anything else is the
/// unrecognized sentinel `Null`.
pub open spec fn keycode_of_token(t: Seq<char>) -> KeyCode {
    if t.len() == 1 {
        KeyCode::Char(lower_char_of(t[0]))
    } else if t == seq!['C', 't', 'r', 'l'] {
        KeyCode::Modifier(ModifierKeyCode::LeftControl)
    } else if t == seq!['A', 'l', 't'] {
        KeyCode::Modifier(ModifierKeyCode::LeftAlt)
    } else if t == seq!['S', 'h', 'i', 'f', 't'] {
        KeyCode::Modifier(ModifierKeyCode::LeftShift)
    } else if t == seq!['S', 'u', 'p', 'e', 'r'] {
        KeyCode::Modifier(ModifierKeyCode::LeftSuper)
    } else if t == seq!['H', 'y', 'p', 'e', 'r'] {
        KeyCode::Modifier(ModifierKeyCode::LeftHyper)
    } else if t == seq!['M', 'e', 't', 'a'] {
        KeyCode::Modifier(ModifierKeyCode::LeftMeta)
    } else if t == seq!['F', '1'] {
        KeyCode::F(1)
    } else if t == seq!['F', '2'] {
        KeyCode::F(2)
    } else if t == seq!['F', '3'] {
        KeyCode::F(3)
    } else if t == seq!['F', '4'] {
        KeyCode::F(4)
    } else if t == seq!['F', '5'] {
        KeyCode::F(5)
    } else if t == seq!['F', '6'] {
        KeyCode::F(6)
    } else if t == seq!['F', '7'] {
        KeyCode::F(7)
    } else if t == seq!['F', '8'] {
        KeyCode::F(8)
    } else if t == seq!['F', '9'] {
        KeyCode::F(9)
    } else if t == seq!['F', '1', '0'] {
        KeyCode::F(10)
    } else if t == seq!['F', '1', '1'] {
        KeyCode::F(11)
    } else if t == seq!['F', '1', '2'] {
        KeyCode::F(12)
    } else if t == seq!['U', 'p'] {
        KeyCode::Up
    } else if t == seq!['D', 'o', 'w', 'n'] {
        KeyCode::Down
    } else if t == seq!['L', 'e', 'f', 't'] {
        KeyCode::Left
    } else if t == seq!['R', 'i', 'g', 'h', 't'] {
        KeyCode::Right
    } else if t == seq!['P', 'g', 'U', 'p'] {
        KeyCode::PageUp
    } else if t == seq!['P', 'g', 'D', 'o', 'w', 'n'] {
        KeyCode::PageDown
    } else if t == seq!['T', 'a', 'b'] {
        KeyCode::Tab
    } else if t == seq!['B', 'a', 'c', 'k', 't', 'a', 'b'] {
        KeyCode::BackTab
    } else if t == seq!['E', 's', 'c'] {
        KeyCode::Esc
    } else if t == seq!['D', 'e', 'l'] {
        KeyCode::Delete
    } else if t == seq!['S', 'p', 'a', 'c', 'e'] {
        KeyCode::Char(' ')
    } else if t == seq!['M', 'e', 'd', 'i', 'a', ' ', 'P', 'l', 'a', 'y'] {
        KeyCode::Media(MediaKeyCode::Play)
    } else if t == seq!['M', 'e', 'd', 'i', 'a', ' ', 'P', 'a', 'u', 's', 'e'] {
        KeyCode::Media(MediaKeyCode::Pause)
    } else if t == seq!['M', 'e', 'd', 'i', 'a', ' ', 'S', 't', 'o', 'p'] {
        KeyCode::Media(MediaKeyCode::Stop)
    } else if t == seq!['M', 'e', 'd', 'i', 'a', ' ', 'N', 'e', 'x', 't'] {
        KeyCode::Media(MediaKeyCode::TrackNext)
    } else if t == seq!['M', 'e', 'd', 'i', 'a', ' ', 'P', 'r', 'e', 'v', 'i', 'o', 'u', 's'] {
        KeyCode::Media(MediaKeyCode::TrackPrevious)
    } else if t == seq!['V', 'o', 'l', 'u', 'm', 'e', ' ', 'U', 'p'] {
        KeyCode::Media(MediaKeyCode::RaiseVolume)
    } else if t == seq!['V', 'o', 'l', 'u', 'm', 'e', ' ', 'D', 'o', 'w', 'n'] {
        KeyCode::Media(MediaKeyCode::LowerVolume)
    } else if t == seq!['V', 'o', 'l', 'u', 'm', 'e', ' ', 'M', 'u', 't', 'e'] {
        KeyCode::Media(MediaKeyCode::MuteVolume)
    } else if t == seq!['P', 'r', 'i', 'n', 't'] {
        KeyCode::PrintScreen
    } else if t == seq!['N', 'u', 'm'] {
        KeyCode::NumLock
    } else {
        KeyCode::Null
    }
}

/// One token at `i`: the backslash escape, the empty-binding literal, or a
/// maximal run of characters up to a token terminator, mapped to its key.
/// Yields the token's key and the position after it.
pub open spec fn token_at(f: Seq<char>, i: int) -> (KeyCode, int) {
    if matches_at(f, i, backslash_escape()) {
        (KeyCode::Char('\\'), i + 4)
    } else if matches_at(f, i, none_literal()) {
        (KeyCode::Null, i + 4)
    } else {
        let j = token_break_from(f, i);
        (keycode_of_token(f.subrange(i, j)), j)
    }
}

pub proof fn lemma_token_at_bounds(f: Seq<char>, i: int)
    requires
        0 <= i <= f.len(),
    ensures
        i <= token_at(f, i).1 <= f.len(),
{
    lemma_token_break_from(f, i);
}

/// One binding at `i`: tokens separated by `+`. Yields the raw token list
/// (unrecognized sentinels included) and the position after the binding.
pub open spec fn binding_at(f: Seq<char>, i: int) -> (Seq<KeyCode>, int)
    decreases f.len() - i,
{
    if 0 <= i <= f.len() {
        let (k, j) = token_at(f, i);
        proof {
            lemma_token_at_bounds(f, i);
        }
        if j < f.len() && f[j] == '+' {
            let (rest, end) = binding_at(f, j + 1);
            (seq![k] + rest, end)
        } else {
            (seq![k], j)
        }
    } else {
        (Seq::empty(), i)
    }
}

pub proof fn lemma_binding_at_bounds(f: Seq<char>, i: int)
    requires
        0 <= i <= f.len(),
    ensures
        i <= binding_at(f, i).1 <= f.len(),
    decreases f.len() - i,
{
    lemma_token_at_bounds(f, i);
    let (k, j) = token_at(f, i);
    if j < f.len() && f[j] == '+' {
        lemma_binding_at_bounds(f, j + 1);
    }
}

/// The tokens of `ks` that are not the unrecognized sentinel.
pub open spec fn drop_null(ks: Seq<KeyCode>) -> Seq<KeyCode>
    decreases ks.len(),
{
    if ks.len() == 0 {
        Seq::empty()
    } else if ks.last() == KeyCode::Null {
        drop_null(ks.drop_last())
    } else {
        drop_null(ks.drop_last()).push(ks.last())
    }
}

/// The canonical keystroke of one binding's raw token list: unrecognized
/// tokens dropped, the rest canonicalized.
pub open spec fn binding_keystroke(toks: Seq<KeyCode>) -> Seq<KeyCode> {
    canonical(drop_null(toks))
}

/// The keystrokes of a whole field at `i`: bindings separated by the tab
/// escape, each canonicalized, the empty ones discarded. Text after a
/// binding that is not a separator is ignored.
pub open spec fn field_at(f: Seq<char>, i: int) -> Seq<Seq<KeyCode>>
    decreases f.len() - i,
{
    if 0 <= i <= f.len() {
        let (toks, j) = binding_at(f, i);
        proof {
            lemma_binding_at_bounds(f, i);
        }
        let ks = binding_keystroke(toks);
        let cur = if ks.len() == 0 {
            Seq::<Seq<KeyCode>>::empty()
        } else {
            seq![ks]
        };
        if matches_at(f, j, tab_escape()) {
            cur + field_at(f, j + 2)
        } else {
            cur
        }
    } else {
        Seq::empty()
    }
}

/// The keystrokes of one shortcut field, in source order.
pub open spec fn tokenize_field(f: Seq<char>) -> Seq<Seq<KeyCode>> {
    field_at(f, 0)
}

// --- executable tokenizer ---

/// Map one token text to its key.
fn key_code_of(tok: &str) -> (k: KeyCode)
    ensures
        k == keycode_of_token(tok@),
{
    proof {
        reveal_strlit("Ctrl");
        assert("Ctrl"@ =~= seq!['C', 't', 'r', 'l']);
        reveal_strlit("Alt");
        assert("Alt"@ =~= seq!['A', 'l', 't']);
        reveal_strlit("Shift");
        assert("Shift"@ =~= seq!['S', 'h', 'i', 'f', 't']);
        reveal_strlit("Super");
        assert("Super"@ =~= seq!['S', 'u', 'p', 'e', 'r']);
        reveal_strlit("Hyper");
        assert("Hyper"@ =~= seq!['H', 'y', 'p', 'e', 'r']);
        reveal_strlit("Meta");
        assert("Meta"@ =~= seq!['M', 'e', 't', 'a']);
        reveal_strlit("F1");
        assert("F1"@ =~= seq!['F', '1']);
        reveal_strlit("F2");
        assert("F2"@ =~= seq!['F', '2']);
        reveal_strlit("F3");
        assert("F3"@ =~= seq!['F', '3']);
        reveal_strlit("F4");
        assert("F4"@ =~= seq!['F', '4']);
        reveal_strlit("F5");
        assert("F5"@ =~= seq!['F', '5']);
        reveal_strlit("F6");
        assert("F6"@ =~= seq!['F', '6']);
        reveal_strlit("F7");
        assert("F7"@ =~= seq!['F', '7']);
        reveal_strlit("F8");
        assert("F8"@ =~= seq!['F', '8']);
        reveal_strlit("F9");
        assert("F9"@ =~= seq!['F', '9']);
        reveal_strlit("F10");
        assert("F10"@ =~= seq!['F', '1', '0']);
        reveal_strlit("F11");
        assert("F11"@ =~= seq!['F', '1', '1']);
        reveal_strlit("F12");
        assert("F12"@ =~= seq!['F', '1', '2']);
        reveal_strlit("Up");
        assert("Up"@ =~= seq!['U', 'p']);
        reveal_strlit("Down");
        assert("Down"@ =~= seq!['D', 'o', 'w', 'n']);
        reveal_strlit("Left");
        assert("Left"@ =~= seq!['L', 'e', 'f', 't']);
        reveal_strlit("Right");
        assert("Right"@ =~= seq!['R', 'i', 'g', 'h', 't']);
        reveal_strlit("PgUp");
        assert("PgUp"@ =~= seq!['P', 'g', 'U', 'p']);
        reveal_strlit("PgDown");
        assert("PgDown"@ =~= seq!['P', 'g', 'D', 'o', 'w', 'n']);
        reveal_strlit("Tab");
        assert("Tab"@ =~= seq!['T', 'a', 'b']);
        reveal_strlit("Backtab");
        assert("Backtab"@ =~= seq!['B', 'a', 'c', 'k', 't', 'a', 'b']);
        reveal_strlit("Esc");
        assert("Esc"@ =~= seq!['E', 's', 'c']);
        reveal_strlit("Del");
        assert("Del"@ =~= seq!['D', 'e', 'l']);
        reveal_strlit("Space");
        assert("Space"@ =~= seq!['S', 'p', 'a', 'c', 'e']);
        reveal_strlit("Media Play");
        assert("Media Play"@ =~= seq!['M', 'e', 'd', 'i', 'a', ' ', 'P', 'l', 'a', 'y']);
        reveal_strlit("Media Pause");
        assert("Media Pause"@ =~= seq!['M', 'e', 'd', 'i', 'a', ' ', 'P', 'a', 'u', 's', 'e']);
        reveal_strlit("Media Stop");
        assert("Media Stop"@ =~= seq!['M', 'e', 'd', 'i', 'a', ' ', 'S', 't', 'o', 'p']);
        reveal_strlit("Media Next");
        assert("Media Next"@ =~= seq!['M', 'e', 'd', 'i', 'a', ' ', 'N', 'e', 'x', 't']);
        reveal_strlit("Media Previous");
        assert("Media Previous"@ =~= seq!['M', 'e', 'd', 'i', 'a', ' ', 'P', 'r', 'e', 'v', 'i', 'o', 'u', 's']);
        reveal_strlit("Volume Up");
        assert("Volume Up"@ =~= seq!['V', 'o', 'l', 'u', 'm', 'e', ' ', 'U', 'p']);
        reveal_strlit("Volume Down");
        assert("Volume Down"@ =~= seq!['V', 'o', 'l', 'u', 'm', 'e', ' ', 'D', 'o', 'w', 'n']);
        reveal_strlit("Volume Mute");
        assert("Volume Mute"@ =~= seq!['V', 'o', 'l', 'u', 'm', 'e', ' ', 'M', 'u', 't', 'e']);
        reveal_strlit("Print");
        assert("Print"@ =~= seq!['P', 'r', 'i', 'n', 't']);
        reveal_strlit("Num");
        assert("Num"@ =~= seq!['N', 'u', 'm']);
    }
    if tok.unicode_len() == 1 {
        KeyCode::Char(lowercase_char(tok.get_char(0)))
    } else if str_eq(tok, "Ctrl") {
        KeyCode::Modifier(ModifierKeyCode::LeftControl)
    } else if str_eq(tok, "Alt") {
        KeyCode::Modifier(ModifierKeyCode::LeftAlt)
    } else if str_eq(tok, "Shift") {
        KeyCode::Modifier(ModifierKeyCode::LeftShift)
    } else if str_eq(tok, "Super") {
        KeyCode::Modifier(ModifierKeyCode::LeftSuper)
    } else if str_eq(tok, "Hyper") {
        KeyCode::Modifier(ModifierKeyCode::LeftHyper)
    } else if str_eq(tok, "Meta") {
        KeyCode::Modifier(ModifierKeyCode::LeftMeta)
    } else if str_eq(tok, "F1") {
        KeyCode::F(1)
    } else if str_eq(tok, "F2") {
        KeyCode::F(2)
    } else if str_eq(tok, "F3") {
        KeyCode::F(3)
    } else if str_eq(tok, "F4") {
        KeyCode::F(4)
    } else if str_eq(tok, "F5") {
        KeyCode::F(5)
    } else if str_eq(tok, "F6") {
        KeyCode::F(6)
    } else if str_eq(tok, "F7") {
        KeyCode::F(7)
    } else if str_eq(tok, "F8") {
        KeyCode::F(8)
    } else if str_eq(tok, "F9") {
        KeyCode::F(9)
    } else if str_eq(tok, "F10") {
        KeyCode::F(10)
    } else if str_eq(tok, "F11") {
        KeyCode::F(11)
    } else if str_eq(tok, "F12") {
        KeyCode::F(12)
    } else if str_eq(tok, "Up") {
        KeyCode::Up
    } else if str_eq(tok, "Down") {
        KeyCode::Down
    } else if str_eq(tok, "Left") {
        KeyCode::Left
    } else if str_eq(tok, "Right") {
        KeyCode::Right
    } else if str_eq(tok, "PgUp") {
        KeyCode::PageUp
    } else if str_eq(tok, "PgDown") {
        KeyCode::PageDown
    } else if str_eq(tok, "Tab") {
        KeyCode::Tab
    } else if str_eq(tok, "Backtab") {
        KeyCode::BackTab
    } else if str_eq(tok, "Esc") {
        KeyCode::Esc
    } else if str_eq(tok, "Del") {
        KeyCode::Delete
    } else if str_eq(tok, "Space") {
        KeyCode::Char(' ')
    } else if str_eq(tok, "Media Play") {
        KeyCode::Media(MediaKeyCode::Play)
    } else if str_eq(tok, "Media Pause") {
        KeyCode::Media(MediaKeyCode::Pause)
    } else if str_eq(tok, "Media Stop") {
        KeyCode::Media(MediaKeyCode::Stop)
    } else if str_eq(tok, "Media Next") {
        KeyCode::Media(MediaKeyCode::TrackNext)
    } else if str_eq(tok, "Media Previous") {
        KeyCode::Media(MediaKeyCode::TrackPrevious)
    } else if str_eq(tok, "Volume Up") {
        KeyCode::Media(MediaKeyCode::RaiseVolume)
    } else if str_eq(tok, "Volume Down") {
        KeyCode::Media(MediaKeyCode::LowerVolume)
    } else if str_eq(tok, "Volume Mute") {
        KeyCode::Media(MediaKeyCode::MuteVolume)
    } else if str_eq(tok, "Print") {
        KeyCode::PrintScreen
    } else if str_eq(tok, "Num") {
        KeyCode::NumLock
    } else {
        KeyCode::Null
    }
}

/// Parse one key token starting at `from`; yields its key and the position
/// after the token.
pub fn parse_key_code(s: &str, from: usize) -> (r: (KeyCode, usize))
    requires
        from <= s@.len(),
    ensures
        r.0 == token_at(s@, from as int).0,
        r.1 as int == token_at(s@, from as int).1,
        from <= r.1 <= s@.len(),
{
    let n = s.unicode_len();
    proof {
        reveal_strlit("\\\\\\\\");
        assert("\\\\\\\\"@ =~= backslash_escape());
        reveal_strlit("none");
        assert("none"@ =~= none_literal());
        lemma_token_break_from(s@, from as int);
    }
    if str_matches_at(s, from, "\\\\\\\\") {
        (KeyCode::Char('\\'), from + 4)
    } else if str_matches_at(s, from, "none") {
        (KeyCode::Null, from + 4)
    } else {
        let j = find_token_break(s, from);
        let k = key_code_of(s.substring_char(from, j));
        (k, j)
    }
}

/// The tokens of `v` that are not the unrecognized sentinel.
fn drop_null_tokens(v: &Vec<KeyCode>) -> (r: Vec<KeyCode>)
    ensures
        r@ == drop_null(v@),
{
    let n = v.len();
    let mut out: Vec<KeyCode> = Vec::new();
    let mut i: usize = 0;
    while i < n
        invariant
            i <= n,
            n == v@.len(),
            out@ == drop_null(v@.take(i as int)),
        decreases n - i,
    {
        let k = v[i];
        let k_is_null = match k {
            KeyCode::Null => true,
            _ => false,
        };
        if !k_is_null {
            out.push(k);
        }
        proof {
            assert(v@.take(i + 1).drop_last() =~= v@.take(i as int));
            assert(v@.take(i + 1).last() == v@[i as int]);
        }
        i += 1;
    }
    proof {
        assert(v@.take(n as int) =~= v@);
    }
    out
}

/// Parse one binding starting at `from`: tokens separated by `+`,
/// unrecognized tokens dropped, the rest canonicalized into a shortcut.
/// Yields the shortcut (possibly empty) and the position after the binding.
pub fn parse_keystroke(s: &str, from: usize) -> (r: (Shortcut, usize))
    requires
        from <= s@.len(),
    ensures
        r.0@ == binding_keystroke(binding_at(s@, from as int).0),
        r.1 as int == binding_at(s@, from as int).1,
        from <= r.1 <= s@.len(),
{
    let n = s.unicode_len();
    let mut toks: Vec<KeyCode> = Vec::new();
    let mut i: usize = from;
    loop
        invariant
            from <= i <= n,
            n == s@.len(),
            binding_at(s@, from as int).0 == toks@ + binding_at(s@, i as int).0,
            binding_at(s@, from as int).1 == binding_at(s@, i as int).1,
        decreases n - i,
    {
        let ghost old_toks = toks@;
        let (k, j) = parse_key_code(s, i);
        toks.push(k);
        if j < n && s.get_char(j) == '+' {
            proof {
                let rest = binding_at(s@, j + 1).0;
                assert(binding_at(s@, i as int).0 == seq![k] + rest);
                assert(old_toks + (seq![k] + rest) =~= toks@ + rest);
            }
            i = j + 1;
        } else {
            proof {
                assert(binding_at(s@, i as int).0 == seq![k]);
                assert(binding_at(s@, i as int).1 == j as int);
                assert(old_toks + seq![k] =~= toks@);
            }
            let filtered = drop_null_tokens(&toks);
            let sc = Shortcut::new(filtered);
            return (sc, j);
        }
    }
}

/// Parse a whole shortcut field: bindings separated by the tab escape, each
/// canonicalized, the empty ones discarded.
pub fn parse_shortcuts(s: &str) -> (r: Vec<Shortcut>)
    ensures
        keystrokes_of(r@) == tokenize_field(s@),
        forall|q: int| 0 <= q < r@.len() ==> (#[trigger] r@[q])@.len() > 0,
{
    let n = s.unicode_len();
    proof {
        reveal_strlit("\\t");
        assert("\\t"@ =~= tab_escape());
    }
    let mut out: Vec<Shortcut> = Vec::new();
    let mut i: usize = 0;
    loop
        invariant
            i <= n,
            n == s@.len(),
            tokenize_field(s@) == keystrokes_of(out@) + field_at(s@, i as int),
            forall|q: int| 0 <= q < out@.len() ==> (#[trigger] out@[q])@.len() > 0,
        decreases n - i,
    {
        proof {
            reveal_strlit("\\t");
            assert("\\t"@ =~= tab_escape());
        }
        let ghost old_out = out@;
        let (sc, j) = parse_keystroke(s, i);
        let ghost ks = binding_keystroke(binding_at(s@, i as int).0);
        let ghost cur = if ks.len() == 0 {
            Seq::<Seq<KeyCode>>::empty()
        } else {
            seq![ks]
        };
        if sc.keystroke().len() > 0 {
            out.push(sc);
            proof {
                assert(keystrokes_of(out@) =~= keystrokes_of(old_out) + cur);
            }
        } else {
            proof {
                assert(keystrokes_of(out@) =~= keystrokes_of(old_out) + cur);
            }
        }
        if str_matches_at(s, j, "\\t") {
            proof {
                assert(field_at(s@, i as int) == cur + field_at(s@, j + 2));
                assert(keystrokes_of(old_out) + (cur + field_at(s@, j + 2)) =~= keystrokes_of(
                    out@,
                ) + field_at(s@, j + 2));
            }
            i = j + 2;
        } else {
            proof {
                assert(field_at(s@, i as int) == cur);
                assert(keystrokes_of(old_out) + cur =~= keystrokes_of(out@));
                assert(tokenize_field(s@) =~= keystrokes_of(out@));
            }
            return out;
        }
    }
}

// --- the action assembler and categorizer ---

/// The index of the entry named `cat`, or the number of entries when no
/// entry has that name.
pub open spec fn index_of_key(
    entries: Seq<(Seq<char>, Seq<ActionModel>)>,
    cat: Seq<char>,
) -> int
    decreases entries.len(),
{
    if entries.len() == 0 {
        0
    } else if entries[0].0 == cat {
        0
    } else {
        1 + index_of_key(entries.drop_first(), cat)
    }
}

pub proof fn lemma_index_of_key(entries: Seq<(Seq<char>, Seq<ActionModel>)>, cat: Seq<char>)
    ensures
        0 <= index_of_key(entries, cat) <= entries.len(),
        index_of_key(entries, cat) < entries.len() ==> entries[index_of_key(entries, cat)].0
            == cat,
        forall|j: int| 0 <= j < index_of_key(entries, cat) ==> (#[trigger] entries[j]).0 != cat,
    decreases entries.len(),
{
    if entries.len() > 0 && entries[0].0 != cat {
        lemma_index_of_key(entries.drop_first(), cat);
        assert forall|j: int|
            0 <= j < index_of_key(entries, cat) implies (#[trigger] entries[j]).0 != cat by {
            if j > 0 {
                assert(entries.drop_first()[j - 1] == entries[j]);
            }
        }
    }
}

/// Insert an action under its category: appended to the category's entry
/// when one exists, else opening a new entry at the end.
pub open spec fn insert_action(
    entries: Seq<(Seq<char>, Seq<ActionModel>)>,
    cat: Seq<char>,
    act: ActionModel,
) -> Seq<(Seq<char>, Seq<ActionModel>)> {
    let idx = index_of_key(entries, cat);
    if idx == entries.len() {
        entries.push((cat, seq![act]))
    } else {
        entries.update(idx, (cat, entries[idx].1.push(act)))
    }
}

/// Fold the records from `idx` on into category entries, tracking the
/// running category. A shortcut record before any header fails the whole
/// document; one whose field yields no keystroke contributes nothing.
pub open spec fn assemble_from(
    records: Seq<RecordModel>,
    idx: int,
    has_header: bool,
    category: Seq<char>,
    acc: Seq<(Seq<char>, Seq<ActionModel>)>,
) -> Option<Seq<(Seq<char>, Seq<ActionModel>)>>
    decreases records.len() - idx,
{
    if idx < 0 || idx >= records.len() {
        Some(acc)
    } else {
        match records[idx] {
            RecordModel::Header(name) => assemble_from(records, idx + 1, true, name, acc),
            RecordModel::Friendly(name) => assemble_from(records, idx + 1, has_header, name, acc),
            RecordModel::Entry { id, shortcut, default_shortcut, label } => {
                if !has_header {
                    None
                } else {
                    let kss = tokenize_field(shortcut);
                    if kss.len() == 0 {
                        assemble_from(records, idx + 1, has_header, category, acc)
                    } else {
                        let act = ActionModel { name: label, category, shortcuts: kss };
                        assemble_from(
                            records,
                            idx + 1,
                            has_header,
                            category,
                            insert_action(acc, category, act),
                        )
                    }
                }
            },
        }
    }
}

/// The category entries of a whole record list.
pub open spec fn assemble_records(records: Seq<RecordModel>) -> Option<
    Seq<(Seq<char>, Seq<ActionModel>)>,
> {
    assemble_from(records, 0, false, Seq::empty(), Seq::empty())
}

/// The keymap a document denotes, when it parses.
pub open spec fn keymap_of_document(s: Seq<char>) -> Option<KeyMapModel> {
    match document_from(s, 0) {
        None => None,
        Some(records) => match assemble_records(records) {
            None => None,
            Some(entries) => Some(
                KeyMapModel { name: seq!['K', 'D', 'E'], categories: entries },
            ),
        },
    }
}

proof fn lemma_non_empty_seqs_identity(kss: Seq<Seq<KeyCode>>)
    requires
        forall|q: int| 0 <= q < kss.len() ==> (#[trigger] kss[q]).len() > 0,
    ensures
        non_empty_seqs(kss) == kss,
    decreases kss.len(),
{
    if kss.len() > 0 {
        lemma_non_empty_seqs_identity(kss.drop_last());
        assert(non_empty_seqs(kss) =~= kss);
    }
}

/// The index of the entry named `cat` in the accumulator, or its length.
fn index_of_category(acc: &Vec<(String, Vec<Action>)>, cat: &str) -> (r: usize)
    ensures
        r as int == index_of_key(entries_of(acc@), cat@),
        r <= acc@.len(),
{
    let n = acc.len();
    let ghost entries = entries_of(acc@);
    let mut i: usize = 0;
    proof {
        assert(entries.skip(0) =~= entries);
    }
    while i < n
        invariant
            i <= n,
            n == acc@.len(),
            entries == entries_of(acc@),
            index_of_key(entries, cat@) == i + index_of_key(entries.skip(i as int), cat@),
        decreases n - i,
    {
        let ghost rest = entries.skip(i as int);
        proof {
            assert(rest[0] == entries[i as int]);
            assert(rest.drop_first() =~= entries.skip(i + 1));
        }
        if str_eq(acc[i].0.as_str(), cat) {
            return i;
        }
        i += 1;
    }
    proof {
        assert(entries.skip(n as int) =~= Seq::<(Seq<char>, Seq<ActionModel>)>::empty());
    }
    n
}

/// Fold the parsed records into category entries: headers and friendly
/// names update the running category; each shortcut record with surviving
/// keystrokes becomes an action under it. `None` is the structural failure
/// of a shortcut record standing before any header.
///
/// Two sections that resolve to the same category label merge: the later
/// section's actions follow the earlier section's in one entry.
pub fn assemble_actions(records: &Vec<LineRecord>) -> (r: Option<Vec<(String, Vec<Action>)>>)
    ensures
        match r {
            Some(acc) => assemble_records(record_models_of(records@)) == Some(entries_of(acc@))
                && distinct_keys(entries_of(acc@)) && entries_complete(entries_of(acc@)),
            None => assemble_records(record_models_of(records@)) is None,
        },
{
    let ghost models = record_models_of(records@);
    let n = records.len();
    let mut has_header = false;
    let mut category = String::new();
    let mut acc: Vec<(String, Vec<Action>)> = Vec::new();
    let mut idx: usize = 0;
    proof {
        assert(entries_of(acc@) =~= Seq::<(Seq<char>, Seq<ActionModel>)>::empty());
        assert(category@ =~= Seq::<char>::empty());
    }
    while idx < n
        invariant
            idx <= n,
            n == records@.len(),
            models == record_models_of(records@),
            assemble_records(models) == assemble_from(
                models,
                idx as int,
                has_header,
                category@,
                entries_of(acc@),
            ),
            distinct_keys(entries_of(acc@)),
            entries_complete(entries_of(acc@)),
        decreases n - idx,
    {
        proof {
            assert(models[idx as int] == records@[idx as int]@);
        }
        match &records[idx] {
            LineRecord::SectionHeader(name) => {
                category = name.clone();
                has_header = true;
            },
            LineRecord::SectionFriendlyName(name) => {
                category = name.clone();
            },
            LineRecord::Shortcut { id, shortcut, default_shortcut, label } => {
                if !has_header {
                    return None;
                }
                let shortcuts = parse_shortcuts(shortcut.as_str());
                if shortcuts.len() > 0 {
                    let ghost kss = tokenize_field(shortcut@);
                    let action = Action::new_filter_empty(
                        label.as_str(),
                        category.as_str(),
                        shortcuts,
                    );
                    proof {
                        lemma_non_empty_seqs_identity(kss);
                        assert(action@ == ActionModel {
                            name: label@,
                            category: category@,
                            shortcuts: kss,
                        });
                    }
                    let ghost old_entries = entries_of(acc@);
                    let pos = index_of_category(&acc, category.as_str());
                    proof {
                        lemma_index_of_key(old_entries, category@);
                    }
                    if pos < acc.len() {
                        let ghost old_acc_seq = acc@;
                        let mut entry = acc.remove(pos);
                        let ghost entry0 = entry;
                        entry.1.push(action);
                        let ghost entry1 = entry;
                        acc.insert(pos, entry);
                        proof {
                            assert(acc@ =~= old_acc_seq.update(pos as int, entry1));
                            let target = insert_action(old_entries, category@, action@);
                            assert(old_acc_seq[pos as int].0@ == category@);
                            assert(entry1.1@ =~= entry0.1@.push(action));
                            assert(action_models_of(entry1.1@) =~= old_entries[pos as int].1.push(
                                action@,
                            ));
                            assert forall|k: int|
                                0 <= k < entries_of(acc@).len() implies entries_of(acc@)[k]
                                == target[k] by {
                                if k != pos {
                                    assert(acc@[k] == old_acc_seq[k]);
                                }
                            }
                            assert(entries_of(acc@) =~= target);
                        }
                    } else {
                        let mut acts: Vec<Action> = Vec::new();
                        acts.push(action);
                        acc.push((category.clone(), acts));
                        proof {
                            assert(action_models_of(acts@) =~= seq![action@]);
                            assert(entries_of(acc@) =~= insert_action(
                                old_entries,
                                category@,
                                action@,
                            ));
                        }
                    }
                    proof {
                        let new_entries = entries_of(acc@);
                        assert forall|a: int, b: int|
                            0 <= a < b < new_entries.len() implies (
                        #[trigger] new_entries[a].0) != (#[trigger] new_entries[b].0) by {
                            if b < old_entries.len() {
                                assert(old_entries[a].0 == new_entries[a].0);
                                assert(old_entries[b].0 == new_entries[b].0);
                            } else {
                                assert(new_entries[b].0 == category@);
                                assert(old_entries[a].0 == new_entries[a].0);
                            }
                        }
                        assert forall|a: int|
                            0 <= a < new_entries.len() implies (#[trigger] new_entries[a]).1.len()
                            > 0 && forall|b: int|
                            0 <= b < new_entries[a].1.len() ==> (
                            #[trigger] new_entries[a].1[b]).shortcuts.len() > 0 by {
                            let pi = index_of_key(old_entries, category@);
                            if a < old_entries.len() && a != pi {
                                assert(new_entries[a] == old_entries[a]);
                            } else {
                                assert forall|b: int|
                                    0 <= b < new_entries[a].1.len() implies (
                                #[trigger] new_entries[a].1[b]).shortcuts.len() > 0 by {
                                    if a < old_entries.len() && b < old_entries[a].1.len() {
                                        assert(new_entries[a].1[b] == old_entries[a].1[b]);
                                    } else {
                                        assert(new_entries[a].1[b] == action@);
                                    }
                                }
                            }
                        }
                    }
                }
            },
        }
        idx += 1;
    }
    Some(acc)
}

/// Ingest one KDE global-shortcuts document into a keymap. `None` is the
/// structural parse failure: a grammar violation, or a shortcut record
/// before any section header. Inside a well-formed document, unknown key
/// vocabulary, `none` bindings and actions left without keystrokes are
/// silently dropped instead.
pub fn parse_kglobalshortcuts(input: &str) -> (r: Option<KeyMap>)
    ensures
        match r {
            Some(km) => keymap_of_document(input@) == Some(km@) && distinct_keys(km@.categories)
                && entries_complete(km@.categories),
            None => keymap_of_document(input@) is None,
        },
{
    match parse_document(input) {
        None => None,
        Some(records) => match assemble_actions(&records) {
            None => None,
            Some(acc) => {
                proof {
                    reveal_strlit("KDE");
                    assert("KDE"@ =~= seq!['K', 'D', 'E']);
                }
                Some(KeyMap::new("KDE", acc))
            },
        },
    }
}

// --- the line grammar inverts document generation ---

/// The text of one line record, as a generator writes it: the record
/// followed by a newline.
pub open spec fn record_text(r: RecordModel) -> Seq<char> {
    match r {
        RecordModel::Header(name) => seq!['['] + name + seq![']'] + seq!['\n'],
        RecordModel::Friendly(name) => friendly_prefix() + name + seq!['\n'],
        RecordModel::Entry { id, shortcut, default_shortcut, label } => id + seq!['='] + shortcut
            + seq![','] + default_shortcut + seq![','] + label + seq!['\n'],
    }
}

/// The text of a record list, record by record.
pub open spec fn records_text(rs: Seq<RecordModel>) -> Seq<char>
    decreases rs.len(),
{
    if rs.len() == 0 {
        Seq::empty()
    } else {
        record_text(rs[0]) + records_text(rs.drop_first())
    }
}

/// What a generator must respect for its text to read back: names free of
/// the delimiters that end them, and entry ids that cannot be mistaken for
/// a header or the friendly-name key.
pub open spec fn record_gen_ok(r: RecordModel) -> bool {
    match r {
        RecordModel::Header(name) => !name.contains(']') && !name.contains('\n'),
        RecordModel::Friendly(name) => !name.contains('\n'),
        RecordModel::Entry { id, shortcut, default_shortcut, label } => {
            &&& !id.contains('=')
            &&& !id.contains('\n')
            &&& (id.len() == 0 || (id[0] != '[' && id[0] != ' '))
            &&& id != friendly_prefix().drop_last()
            &&& !shortcut.contains(',')
            &&& !shortcut.contains('\n')
            &&& !default_shortcut.contains(',')
            &&& !default_shortcut.contains('\n')
            &&& !label.contains('\n')
        },
    }
}

pub open spec fn records_gen_ok(rs: Seq<RecordModel>) -> bool {
    forall|i: int| 0 <= i < rs.len() ==> record_gen_ok(#[trigger] rs[i])
}

proof fn lemma_matches_at_index(s: Seq<char>, i: int, t: Seq<char>)
    requires
        matches_at(s, i, t),
    ensures
        forall|j: int| i <= j < i + t.len() ==> #[trigger] s[j] == t[j - i],
{
    assert forall|j: int| i <= j < i + t.len() implies #[trigger] s[j] == t[j - i] by {
        assert(s.subrange(i, i + t.len())[j - i] == t[j - i]);
    }
}

proof fn lemma_find_from_pinned(s: Seq<char>, from: int, target: char, at: int)
    requires
        0 <= from <= at < s.len(),
        s[at] == target,
        forall|j: int| from <= j < at ==> s[j] != target,
    ensures
        find_from(s, from, target) == at,
{
    lemma_find_from(s, from, target);
}

/// Parsing a generated header line at `i` yields the header back.
proof fn lemma_header_text_parses(s: Seq<char>, i: int, name: Seq<char>)
    requires
        !name.contains(']'),
        !name.contains('\n'),
        0 <= i,
        matches_at(s, i, record_text(RecordModel::Header(name))),
    ensures
        record_at(s, i) == Some(
            (RecordModel::Header(name), i + record_text(RecordModel::Header(name)).len() - 1),
        ),
{
    let t = record_text(RecordModel::Header(name));
    lemma_matches_at_index(s, i, t);
    let nl = name.len() as int;
    assert(s[i] == t[0]);
    assert(t[0] == '[');
    assert(s[i + 1 + nl] == t[1 + nl]);
    assert(t[1 + nl] == ']');
    assert forall|j: int| i + 1 <= j < i + 1 + nl implies s[j] != ']' by {
        assert(s[j] == t[j - i]);
        assert(t[j - i] == name[j - i - 1]);
        if s[j] == ']' {
            assert(name.contains(']'));
        }
    }
    lemma_find_from_pinned(s, i + 1, ']', i + 1 + nl);
    assert forall|j: int| 0 <= j < nl implies s.subrange(i + 1, i + 1 + nl)[j] == name[j] by {
        assert(s[i + 1 + j] == t[1 + j]);
        assert(t[1 + j] == name[j]);
    }
    assert(s.subrange(i + 1, i + 1 + nl) =~= name);
}

/// Parsing a generated friendly-name line at `i` yields the name back,
/// ending just before its trailing newline.
proof fn lemma_friendly_text_parses(s: Seq<char>, i: int, name: Seq<char>)
    requires
        !name.contains('\n'),
        0 <= i,
        matches_at(s, i, record_text(RecordModel::Friendly(name))),
    ensures
        record_at(s, i) == Some(
            (RecordModel::Friendly(name), i + record_text(RecordModel::Friendly(name)).len() - 1),
        ),
{
    let t = record_text(RecordModel::Friendly(name));
    lemma_matches_at_index(s, i, t);
    let nl = name.len() as int;
    let pl = friendly_prefix().len() as int;
    // no header: the text starts with an underscore
    assert(s[i] == t[0]);
    assert(t[0] == '_');
    assert forall|j: int| 0 <= j < pl implies s.subrange(i, i + pl)[j]
        == friendly_prefix()[j] by {
        assert(s[i + j] == t[j]);
        assert(t[j] == friendly_prefix()[j]);
    }
    assert(s.subrange(i, i + pl) =~= friendly_prefix());
    assert(matches_at(s, i, friendly_prefix()));
    assert(s[i + pl + nl] == t[pl + nl]);
    assert(t[pl + nl] == '\n');
    assert forall|j: int| i + pl <= j < i + pl + nl implies s[j] != '\n' by {
        assert(s[j] == t[j - i]);
        assert(t[j - i] == name[j - i - pl]);
        if s[j] == '\n' {
            assert(name.contains('\n'));
        }
    }
    lemma_find_from_pinned(s, i + pl, '\n', i + pl + nl);
    assert forall|j: int| 0 <= j < nl implies s.subrange(i + pl, i + pl + nl)[j] == name[j] by {
        assert(s[i + pl + j] == t[pl + j]);
        assert(t[pl + j] == name[j]);
    }
    assert(s.subrange(i + pl, i + pl + nl) =~= name);
}

/// A generated shortcut-record line cannot be mistaken for a header or a
/// friendly name.
#[verifier::rlimit(30)]
proof fn lemma_entry_text_no_other_record(s: Seq<char>, i: int, r: RecordModel)
    requires
        record_gen_ok(r),
        r is Entry,
        0 <= i,
        matches_at(s, i, record_text(r)),
    ensures
        header_at(s, i) is None,
        friendly_at(s, i) is None,
{
    let t = record_text(r);
    lemma_matches_at_index(s, i, t);
    match r {
        RecordModel::Entry { id, shortcut, default_shortcut, label } => {
            let il = id.len() as int;
            // no header: the first character is never an opening bracket
            assert(s[i] == t[0]);
            assert(s[i] != '[') by {
                if il == 0 {
                    assert(t[0] == '=');
                } else {
                    assert(t[0] == id[0]);
                }
            }
            // no friendly name: the key literal cannot occur at the start
            if matches_at(s, i, friendly_prefix()) {
                lemma_matches_at_index(s, i, friendly_prefix());
                assert(s[i + 16] == friendly_prefix()[16]);
                assert(friendly_prefix()[16] == '=');
                if il > 16 {
                    assert(s[i + 16] == t[16]);
                    assert(t[16] == id[16]);
                    assert(id.contains('='));
                } else if il == 16 {
                    assert forall|j: int| 0 <= j < 16 implies id[j]
                        == friendly_prefix().drop_last()[j] by {
                        assert(s[i + j] == t[j]);
                        assert(t[j] == id[j]);
                        assert(s[i + j] == friendly_prefix()[j]);
                    }
                    assert(id =~= friendly_prefix().drop_last());
                } else {
                    // the '=' after the id sits where the key literal still
                    // has a letter
                    assert(s[i + il] == t[il]);
                    assert(t[il] == '=');
                    assert(s[i + il] == friendly_prefix()[il]);
                    assert(friendly_prefix()[il] != '=');
                }
                assert(false);
            }
        },
        _ => {},
    }
}

/// Parsing a generated shortcut-record line at `i` yields the record back,
/// ending just before its trailing newline.
#[verifier::rlimit(60)]
proof fn lemma_entry_text_parses(s: Seq<char>, i: int, r: RecordModel)
    requires
        record_gen_ok(r),
        r is Entry,
        0 <= i,
        matches_at(s, i, record_text(r)),
    ensures
        record_at(s, i) == Some((r, i + record_text(r).len() - 1)),
{
    let t = record_text(r);
    lemma_matches_at_index(s, i, t);
    lemma_entry_text_no_other_record(s, i, r);
    match r {
        RecordModel::Entry { id, shortcut, default_shortcut, label } => {
            let il = id.len() as int;
            let sl = shortcut.len() as int;
            let dl = default_shortcut.len() as int;
            let ll = label.len() as int;
            let e = i + il;
            let c1 = e + 1 + sl;
            let c2 = c1 + 1 + dl;
            let le = c2 + 1 + ll;
            assert(s[e] == t[il]);
            assert(t[il] == '=');
            assert forall|j: int| i <= j < e implies s[j] != '=' by {
                assert(s[j] == t[j - i]);
                assert(t[j - i] == id[j - i]);
                if s[j] == '=' {
                    assert(id.contains('='));
                }
            }
            lemma_find_from_pinned(s, i, '=', e);
            assert(s[c1] == t[il + 1 + sl]);
            assert(t[il + 1 + sl] == ',');
            assert forall|j: int| e + 1 <= j < c1 implies s[j] != ',' by {
                assert(s[j] == t[j - i]);
                assert(t[j - i] == shortcut[j - e - 1]);
                if s[j] == ',' {
                    assert(shortcut.contains(','));
                }
            }
            lemma_find_from_pinned(s, e + 1, ',', c1);
            assert(s[c2] == t[il + 2 + sl + dl]);
            assert(t[il + 2 + sl + dl] == ',');
            assert forall|j: int| c1 + 1 <= j < c2 implies s[j] != ',' by {
                assert(s[j] == t[j - i]);
                assert(t[j - i] == default_shortcut[j - c1 - 1]);
                if s[j] == ',' {
                    assert(default_shortcut.contains(','));
                }
            }
            lemma_find_from_pinned(s, c1 + 1, ',', c2);
            assert(s[le] == t[il + 3 + sl + dl + ll]);
            assert(t[il + 3 + sl + dl + ll] == '\n');
            assert forall|j: int| c2 + 1 <= j < le implies s[j] != '\n' by {
                assert(s[j] == t[j - i]);
                assert(t[j - i] == label[j - c2 - 1]);
                if s[j] == '\n' {
                    assert(label.contains('\n'));
                }
            }
            lemma_find_from_pinned(s, c2 + 1, '\n', le);
            assert forall|j: int| 0 <= j < il implies s.subrange(i, e)[j] == id[j] by {
                assert(s[i + j] == t[j]);
                assert(t[j] == id[j]);
            }
            assert(s.subrange(i, e) =~= id);
            assert forall|j: int| 0 <= j < sl implies s.subrange(e + 1, c1)[j] == shortcut[j] by {
                assert(s[e + 1 + j] == t[il + 1 + j]);
                assert(t[il + 1 + j] == shortcut[j]);
            }
            assert(s.subrange(e + 1, c1) =~= shortcut);
            assert forall|j: int| 0 <= j < dl implies s.subrange(c1 + 1, c2)[j]
                == default_shortcut[j] by {
                assert(s[c1 + 1 + j] == t[il + 2 + sl + j]);
                assert(t[il + 2 + sl + j] == default_shortcut[j]);
            }
            assert(s.subrange(c1 + 1, c2) =~= default_shortcut);
            assert forall|j: int| 0 <= j < ll implies s.subrange(c2 + 1, le)[j] == label[j] by {
                assert(s[c2 + 1 + j] == t[il + 3 + sl + dl + j]);
                assert(t[il + 3 + sl + dl + j] == label[j]);
            }
            assert(s.subrange(c2 + 1, le) =~= label);
        },
        _ => {},
    }
}

/// Parsing the generated text of one record at `i`, whatever follows it,
/// yields the record back, ending just before its trailing newline.
proof fn lemma_record_text_parses(s: Seq<char>, i: int, r: RecordModel)
    requires
        record_gen_ok(r),
        0 <= i,
        matches_at(s, i, record_text(r)),
    ensures
        record_at(s, i) == Some((r, i + record_text(r).len() - 1)),
{
    match r {
        RecordModel::Header(name) => {
            lemma_header_text_parses(s, i, name);
        },
        RecordModel::Friendly(name) => {
            lemma_friendly_text_parses(s, i, name);
        },
        RecordModel::Entry { id, shortcut, default_shortcut, label } => {
            lemma_entry_text_parses(s, i, r);
        },
    }
}

/// A generated record's text never begins with a blank line.
proof fn lemma_record_text_not_blank(s: Seq<char>, i: int, r: RecordModel)
    requires
        record_gen_ok(r),
        0 <= i <= s.len(),
        matches_at(s, i, record_text(r)),
    ensures
        after_blank_lines(s, i) == i,
{
    let t = record_text(r);
    lemma_matches_at_index(s, i, t);
    assert(s[i] == t[0]);
    // the first character is never a space or a newline
    assert(s[i] != ' ' && s[i] != '\n') by {
        match r {
            RecordModel::Header(name) => {
                assert(t[0] == '[');
            },
            RecordModel::Friendly(name) => {
                assert(t[0] == '_');
            },
            RecordModel::Entry { id, shortcut, default_shortcut, label } => {
                if id.len() == 0 {
                    assert(t[0] == '=');
                } else {
                    assert(t[0] == id[0]);
                    if s[i] == '\n' {
                        assert(id.contains('\n'));
                    }
                }
            },
        }
    }
    assert(non_space_from(s, i) == i);
}

/// Consuming a newline between records: the document parse is unchanged.
proof fn lemma_document_from_newline(s: Seq<char>, k: int)
    requires
        0 <= k < s.len(),
        s[k] == '\n',
    ensures
        document_from(s, k) == document_from(s, k + 1),
{
    assert(non_space_from(s, k) == k);
    assert(after_blank_lines(s, k) == after_blank_lines(s, k + 1));
}

proof fn lemma_document_round_trip_at(s: Seq<char>, i: int, rs: Seq<RecordModel>)
    requires
        records_gen_ok(rs),
        0 <= i <= s.len(),
        s.subrange(i, s.len() as int) == records_text(rs),
    ensures
        document_from(s, i) == Some(rs),
    decreases rs.len(),
{
    if rs.len() == 0 {
        assert(s.len() - i == 0);
        assert(after_blank_lines(s, i) == i);
    } else {
        let r = rs[0];
        let t = record_text(r);
        let rest = records_text(rs.drop_first());
        assert(records_text(rs) == t + rest);
        assert(s.subrange(i, s.len() as int) =~= s.subrange(i, i + records_text(rs).len()));
        assert(matches_at(s, i, records_text(rs)));
        lemma_matches_at_index(s, i, records_text(rs));
        assert(matches_at(s, i, t)) by {
            assert forall|j: int| 0 <= j < t.len() implies s.subrange(i, i + t.len())[j]
                == t[j] by {
                assert(s[i + j] == records_text(rs)[j]);
                assert(records_text(rs)[j] == t[j]);
            }
            assert(s.subrange(i, i + t.len()) =~= t);
        }
        assert(record_gen_ok(r));
        lemma_record_text_not_blank(s, i, r);
        lemma_record_text_parses(s, i, r);
        let k = i + t.len() - 1;
        assert(s[k] == '\n') by {
            assert(s[k] == records_text(rs)[t.len() - 1]);
            assert(records_text(rs)[t.len() - 1] == t[t.len() - 1]);
            assert(t[t.len() - 1] == '\n') by {
                match r {
                    RecordModel::Header(name) => {},
                    RecordModel::Friendly(name) => {},
                    RecordModel::Entry { id, shortcut, default_shortcut, label } => {},
                }
            }
        }
        lemma_document_from_newline(s, k);
        assert(s.subrange(k + 1, s.len() as int) == rest) by {
            assert forall|j: int| 0 <= j < rest.len() implies s.subrange(k + 1, s.len() as int)[j]
                == rest[j] by {
                assert(s[i + t.len() + j] == records_text(rs)[t.len() + j]);
                assert(records_text(rs)[t.len() + j] == rest[j]);
            }
            assert(s.subrange(k + 1, s.len() as int) =~= rest);
        }
        assert(records_gen_ok(rs.drop_first())) by {
            assert forall|j: int| 0 <= j < rs.drop_first().len() implies record_gen_ok(
                #[trigger] rs.drop_first()[j],
            ) by {
                assert(rs.drop_first()[j] == rs[j + 1]);
            }
        }
        lemma_document_round_trip_at(s, k + 1, rs.drop_first());
        assert(document_from(s, k) == Some(rs.drop_first()));
        assert(seq![r] + rs.drop_first() =~= rs);
    }
}

/// The line grammar inverts generation: a document written as headers,
/// friendly names and shortcut records, one per line, parses back to
/// exactly those records.
pub proof fn lemma_document_round_trip(rs: Seq<RecordModel>)
    requires
        records_gen_ok(rs),
    ensures
        document_from(records_text(rs), 0) == Some(rs),
{
    let s = records_text(rs);
    assert(s.subrange(0, s.len() as int) =~= s);
    lemma_document_round_trip_at(s, 0, rs);
}

// --- the tokenizer inverts keystroke generation ---

/// The token text a generator writes for one key: the backslash escape for
/// the backslash character key, the named word for every named key, and the
/// bare character otherwise. Empty for keys the format cannot express.
pub open spec fn token_text(k: KeyCode) -> Seq<char> {
    match k {
        KeyCode::Char(c) => if c == '\\' {
            backslash_escape()
        } else if c == ' ' {
            seq!['S', 'p', 'a', 'c', 'e']
        } else {
            seq![c]
        },
        KeyCode::Modifier(ModifierKeyCode::LeftControl) => seq!['C', 't', 'r', 'l'],
        KeyCode::Modifier(ModifierKeyCode::LeftAlt) => seq!['A', 'l', 't'],
        KeyCode::Modifier(ModifierKeyCode::LeftShift) => seq!['S', 'h', 'i', 'f', 't'],
        KeyCode::Modifier(ModifierKeyCode::LeftSuper) => seq!['S', 'u', 'p', 'e', 'r'],
        KeyCode::Modifier(ModifierKeyCode::LeftHyper) => seq!['H', 'y', 'p', 'e', 'r'],
        KeyCode::Modifier(ModifierKeyCode::LeftMeta) => seq!['M', 'e', 't', 'a'],
        KeyCode::F(n) => if n == 1 {
            seq!['F', '1']
        } else if n == 2 {
            seq!['F', '2']
        } else if n == 3 {
            seq!['F', '3']
        } else if n == 4 {
            seq!['F', '4']
        } else if n == 5 {
            seq!['F', '5']
        } else if n == 6 {
            seq!['F', '6']
        } else if n == 7 {
            seq!['F', '7']
        } else if n == 8 {
            seq!['F', '8']
        } else if n == 9 {
            seq!['F', '9']
        } else if n == 10 {
            seq!['F', '1', '0']
        } else if n == 11 {
            seq!['F', '1', '1']
        } else {
            seq!['F', '1', '2']
        },
        KeyCode::Up => seq!['U', 'p'],
        KeyCode::Down => seq!['D', 'o', 'w', 'n'],
        KeyCode::Left => seq!['L', 'e', 'f', 't'],
        KeyCode::Right => seq!['R', 'i', 'g', 'h', 't'],
        KeyCode::PageUp => seq!['P', 'g', 'U', 'p'],
        KeyCode::PageDown => seq!['P', 'g', 'D', 'o', 'w', 'n'],
        KeyCode::Tab => seq!['T', 'a', 'b'],
        KeyCode::BackTab => seq!['B', 'a', 'c', 'k', 't', 'a', 'b'],
        KeyCode::Esc => seq!['E', 's', 'c'],
        KeyCode::Delete => seq!['D', 'e', 'l'],
        KeyCode::Media(MediaKeyCode::Play) => seq!['M', 'e', 'd', 'i', 'a', ' ', 'P', 'l', 'a', 'y'],
        KeyCode::Media(MediaKeyCode::Pause) => seq![
            'M',
            'e',
            'd',
            'i',
            'a',
            ' ',
            'P',
            'a',
            'u',
            's',
            'e',
        ],
        KeyCode::Media(MediaKeyCode::Stop) => seq!['M', 'e', 'd', 'i', 'a', ' ', 'S', 't', 'o', 'p'],
        KeyCode::Media(MediaKeyCode::TrackNext) => seq![
            'M',
            'e',
            'd',
            'i',
            'a',
            ' ',
            'N',
            'e',
            'x',
            't',
        ],
        KeyCode::Media(MediaKeyCode::TrackPrevious) => seq![
            'M',
            'e',
            'd',
            'i',
            'a',
            ' ',
            'P',
            'r',
            'e',
            'v',
            'i',
            'o',
            'u',
            's',
        ],
        KeyCode::Media(MediaKeyCode::RaiseVolume) => seq![
            'V',
            'o',
            'l',
            'u',
            'm',
            'e',
            ' ',
            'U',
            'p',
        ],
        KeyCode::Media(MediaKeyCode::LowerVolume) => seq![
            'V',
            'o',
            'l',
            'u',
            'm',
            'e',
            ' ',
            'D',
            'o',
            'w',
            'n',
        ],
        KeyCode::Media(MediaKeyCode::MuteVolume) => seq![
            'V',
            'o',
            'l',
            'u',
            'm',
            'e',
            ' ',
            'M',
            'u',
            't',
            'e',
        ],
        KeyCode::PrintScreen => seq!['P', 'r', 'i', 'n', 't'],
        KeyCode::NumLock => seq!['N', 'u', 'm'],
        _ => Seq::empty(),
    }
}

/// Whether the export format has a token for the key: a character key other
/// than the token delimiters whose lowercase form is itself, a left-variant
/// modifier, a function key in range, or one of the named keys.
pub open spec fn key_token_expressible(k: KeyCode) -> bool {
    match k {
        KeyCode::Char(c) => c == '\\' || c == ' ' || (c != '+' && c != ',' && c != '\n'
            && lower_char_of(c) == c),
        KeyCode::Modifier(m) => m == ModifierKeyCode::LeftControl || m == ModifierKeyCode::LeftAlt
            || m == ModifierKeyCode::LeftShift || m == ModifierKeyCode::LeftSuper || m
            == ModifierKeyCode::LeftHyper || m == ModifierKeyCode::LeftMeta,
        KeyCode::F(n) => 1 <= n <= 12,
        KeyCode::Up | KeyCode::Down | KeyCode::Left | KeyCode::Right | KeyCode::PageUp
            | KeyCode::PageDown | KeyCode::Tab | KeyCode::BackTab | KeyCode::Esc
            | KeyCode::Delete | KeyCode::PrintScreen | KeyCode::NumLock => true,
        KeyCode::Media(m) => m == MediaKeyCode::Play || m == MediaKeyCode::Pause || m
            == MediaKeyCode::Stop || m == MediaKeyCode::TrackNext || m
            == MediaKeyCode::TrackPrevious || m == MediaKeyCode::RaiseVolume || m
            == MediaKeyCode::LowerVolume || m == MediaKeyCode::MuteVolume,
        _ => false,
    }
}

/// The binding text of a keystroke: its token texts joined by `+`.
pub open spec fn binding_text(ks: Seq<KeyCode>) -> Seq<char>
    decreases ks.len(),
{
    if ks.len() == 0 {
        Seq::empty()
    } else if ks.len() == 1 {
        token_text(ks[0])
    } else {
        token_text(ks[0]) + seq!['+'] + binding_text(ks.drop_first())
    }
}

/// The field text of a list of keystrokes: binding texts joined by the tab
/// escape.
pub open spec fn field_text(kss: Seq<Seq<KeyCode>>) -> Seq<char>
    decreases kss.len(),
{
    if kss.len() == 0 {
        Seq::empty()
    } else if kss.len() == 1 {
        binding_text(kss[0])
    } else {
        binding_text(kss[0]) + tab_escape() + field_text(kss.drop_first())
    }
}

/// A generated token, followed by a separator or the end of the field,
/// parses back to its key.
#[verifier::rlimit(100)]
proof fn lemma_token_text_parses(f: Seq<char>, i: int, k: KeyCode)
    requires
        key_token_expressible(k),
        0 <= i,
        matches_at(f, i, token_text(k)),
        i + token_text(k).len() == f.len() || f[i + token_text(k).len()] == '+' || f[i
            + token_text(k).len()] == '\\',
    ensures
        token_at(f, i) == (k, i + token_text(k).len()),
{
    let t = token_text(k);
    let tl = t.len() as int;
    lemma_matches_at_index(f, i, t);
    assert(f[i] == t[0]);
    if k == KeyCode::Char('\\') {
        assert(f.subrange(i, i + 4) =~= backslash_escape());
        assert(matches_at(f, i, backslash_escape()));
    } else {
        // the text never begins with a backslash, so the escape cannot match
        assert(t[0] != '\\');
        assert(!matches_at(f, i, backslash_escape())) by {
            if matches_at(f, i, backslash_escape()) {
                lemma_matches_at_index(f, i, backslash_escape());
                assert(f[i] == backslash_escape()[0]);
            }
        }
        // the text never spells the empty-binding literal: multi-character
        // tokens begin with an upper-case letter, and after a bare character
        // only a separator or the end can follow
        assert(!matches_at(f, i, none_literal())) by {
            if matches_at(f, i, none_literal()) {
                lemma_matches_at_index(f, i, none_literal());
                assert(f[i] == none_literal()[0]);
                assert(f[i + 1] == none_literal()[1]);
                if tl == 1 {
                    assert(i + 1 < f.len());
                    assert(f[i + 1] == '+' || f[i + 1] == '\\');
                } else {
                    assert(t[0] != 'n');
                }
            }
        }
        // the token runs exactly to the next separator
        assert forall|j: int| i <= j < i + tl implies !(f[j] == '+' || f[j] == ',' || #[trigger] f[j]
            == '\\') by {
            assert(f[j] == t[j - i]);
        }
        assert(token_break_from(f, i) == i + tl) by {
            lemma_token_break_from(f, i);
            let b = token_break_from(f, i);
            if b < i + tl {
                assert(f[b] == '+' || f[b] == ',' || f[b] == '\\');
            }
            if b > i + tl {
                assert(!(f[i + tl] == '+' || f[i + tl] == ',' || f[i + tl] == '\\'));
            }
        }
        assert(f.subrange(i, i + tl) =~= t);
        assert(keycode_of_token(t) == k);
    }
}

proof fn lemma_drop_null_identity(ks: Seq<KeyCode>)
    requires
        forall|q: int| 0 <= q < ks.len() ==> #[trigger] ks[q] != KeyCode::Null,
    ensures
        drop_null(ks) == ks,
    decreases ks.len(),
{
    if ks.len() > 0 {
        lemma_drop_null_identity(ks.drop_last());
        assert(drop_null(ks) =~= ks);
    }
}

/// A generated binding, followed by the tab escape or the end of the field,
/// parses back to its token list.
proof fn lemma_binding_text_parses(f: Seq<char>, i: int, ks: Seq<KeyCode>)
    requires
        ks.len() >= 1,
        forall|q: int| 0 <= q < ks.len() ==> key_token_expressible(#[trigger] ks[q]),
        0 <= i,
        matches_at(f, i, binding_text(ks)),
        i + binding_text(ks).len() == f.len() || f[i + binding_text(ks).len()] == '\\',
    ensures
        binding_at(f, i) == (ks, i + binding_text(ks).len()),
    decreases ks.len(),
{
    let t = binding_text(ks);
    let tl = t.len() as int;
    lemma_matches_at_index(f, i, t);
    if ks.len() == 1 {
        lemma_token_text_parses(f, i, ks[0]);
        // the binding ends here: no `+` follows
        assert(seq![ks[0]] =~= ks);
    } else {
        let t0 = token_text(ks[0]);
        let l0 = t0.len() as int;
        let rest = binding_text(ks.drop_first());
        assert(t == t0 + seq!['+'] + rest);
        assert(matches_at(f, i, t0)) by {
            assert forall|j: int| 0 <= j < l0 implies f.subrange(i, i + l0)[j] == t0[j] by {
                assert(f[i + j] == t[j]);
                assert(t[j] == t0[j]);
            }
            assert(f.subrange(i, i + l0) =~= t0);
        }
        assert(f[i + l0] == t[l0]);
        assert(t[l0] == '+');
        lemma_token_text_parses(f, i, ks[0]);
        assert(matches_at(f, i + l0 + 1, rest)) by {
            assert forall|j: int| 0 <= j < rest.len() implies f.subrange(
                i + l0 + 1,
                i + l0 + 1 + rest.len(),
            )[j] == rest[j] by {
                assert(f[i + l0 + 1 + j] == t[l0 + 1 + j]);
                assert(t[l0 + 1 + j] == rest[j]);
            }
            assert(f.subrange(i + l0 + 1, i + l0 + 1 + rest.len()) =~= rest);
        }
        assert forall|q: int| 0 <= q < ks.drop_first().len() implies key_token_expressible(
            #[trigger] ks.drop_first()[q],
        ) by {
            assert(ks.drop_first()[q] == ks[q + 1]);
        }
        lemma_binding_text_parses(f, i + l0 + 1, ks.drop_first());
        assert(seq![ks[0]] + ks.drop_first() =~= ks);
    }
}

/// A keystroke list the generator can express: non-empty keystrokes of
/// expressible keys, already in canonical form.
pub open spec fn keystrokes_expressible(kss: Seq<Seq<KeyCode>>) -> bool {
    forall|q: int|
        0 <= q < kss.len() ==> (#[trigger] kss[q]).len() >= 1 && canonical(kss[q]) == kss[q]
            && forall|w: int| 0 <= w < kss[q].len() ==> key_token_expressible(#[trigger] kss[q][w])
}

#[verifier::rlimit(60)]
proof fn lemma_field_text_parses(f: Seq<char>, i: int, kss: Seq<Seq<KeyCode>>)
    requires
        keystrokes_expressible(kss),
        0 <= i <= f.len(),
        matches_at(f, i, field_text(kss)),
        i + field_text(kss).len() == f.len(),
    ensures
        field_at(f, i) == kss,
    decreases kss.len(),
{
    let t = field_text(kss);
    lemma_matches_at_index(f, i, t);
    if kss.len() == 0 {
        // at the end of the field the empty token maps to the dropped
        // sentinel and yields no keystroke
        assert(i == f.len());
        assert(f.subrange(i, i) =~= Seq::<char>::empty());
        assert(keycode_of_token(Seq::<char>::empty()) == KeyCode::Null);
        assert(drop_null(seq![KeyCode::Null]) =~= drop_null(
            seq![KeyCode::Null].drop_last(),
        ));
        assert(drop_null(seq![KeyCode::Null]) =~= Seq::<KeyCode>::empty());
        assert(canonical_modifiers_upto(Seq::<KeyCode>::empty(), 14)
            =~= Seq::<KeyCode>::empty()) by {
            lemma_canonical_modifiers_upto_empty(14);
        }
        assert(binding_keystroke(seq![KeyCode::Null]).len() == 0);
        assert(field_at(f, i) =~= kss);
    } else {
        let b0 = binding_text(kss[0]);
        let l0 = b0.len() as int;
        if kss.len() == 1 {
            assert(matches_at(f, i, b0));
            lemma_binding_text_parses(f, i, kss[0]);
            assert(binding_keystroke(kss[0]) == kss[0]) by {
                lemma_drop_null_identity(kss[0]);
            }
            // nothing follows the last binding
            assert(!matches_at(f, i + l0, tab_escape()));
            assert(seq![kss[0]] =~= kss);
        } else {
            let rest = field_text(kss.drop_first());
            assert(t == b0 + tab_escape() + rest);
            assert(matches_at(f, i, b0)) by {
                assert forall|j: int| 0 <= j < l0 implies f.subrange(i, i + l0)[j] == b0[j] by {
                    assert(f[i + j] == t[j]);
                    assert(t[j] == b0[j]);
                }
                assert(f.subrange(i, i + l0) =~= b0);
            }
            assert(f[i + l0] == t[l0]);
            assert(t[l0] == '\\');
            assert(f[i + l0 + 1] == t[l0 + 1]);
            assert(t[l0 + 1] == 't');
            lemma_binding_text_parses(f, i, kss[0]);
            assert(binding_keystroke(kss[0]) == kss[0]) by {
                lemma_drop_null_identity(kss[0]);
            }
            assert(matches_at(f, i + l0, tab_escape())) by {
                assert(f.subrange(i + l0, i + l0 + 2) =~= tab_escape());
            }
            assert(matches_at(f, i + l0 + 2, rest)) by {
                assert forall|j: int| 0 <= j < rest.len() implies f.subrange(
                    i + l0 + 2,
                    i + l0 + 2 + rest.len(),
                )[j] == rest[j] by {
                    assert(f[i + l0 + 2 + j] == t[l0 + 2 + j]);
                    assert(t[l0 + 2 + j] == rest[j]);
                }
                assert(f.subrange(i + l0 + 2, i + l0 + 2 + rest.len()) =~= rest);
            }
            assert forall|q: int| 0 <= q < kss.drop_first().len() implies (#[trigger] kss.drop_first()[q]).len()
                >= 1 && canonical(kss.drop_first()[q]) == kss.drop_first()[q] && forall|w: int|
                0 <= w < kss.drop_first()[q].len() ==> key_token_expressible(
                    #[trigger] kss.drop_first()[q][w],
                ) by {
                assert(kss.drop_first()[q] == kss[q + 1]);
            }
            lemma_field_text_parses(f, i + l0 + 2, kss.drop_first());
            assert(seq![kss[0]] + kss.drop_first() =~= kss);
        }
    }
}

proof fn lemma_canonical_modifiers_upto_empty(r: int)
    requires
        0 <= r,
    ensures
        canonical_modifiers_upto(Seq::<KeyCode>::empty(), r) == Seq::<KeyCode>::empty(),
    decreases r,
{
    if r > 0 {
        lemma_canonical_modifiers_upto_empty(r - 1);
        assert(canonical_modifiers_upto(Seq::<KeyCode>::empty(), r) =~= Seq::<KeyCode>::empty());
    }
}

/// The tokenizer inverts generation: a shortcut field written as binding
/// texts joined by the tab escape parses back to exactly the canonical
/// keystrokes it was written from.
pub proof fn lemma_tokenizer_round_trip(kss: Seq<Seq<KeyCode>>)
    requires
        keystrokes_expressible(kss),
    ensures
        tokenize_field(field_text(kss)) == kss,
{
    let f = field_text(kss);
    assert(f.subrange(0, f.len() as int) =~= f);
    assert(matches_at(f, 0, f));
    lemma_field_text_parses(f, 0, kss);
}

proof fn lemma_token_text_clean(k: KeyCode)
    requires
        key_token_expressible(k),
    ensures
        forall|j: int|
            0 <= j < token_text(k).len() ==> #[trigger] token_text(k)[j] != ',' && token_text(k)[j]
                != '\n',
{
}

proof fn lemma_binding_text_clean(ks: Seq<KeyCode>)
    requires
        forall|q: int| 0 <= q < ks.len() ==> key_token_expressible(#[trigger] ks[q]),
    ensures
        forall|j: int|
            0 <= j < binding_text(ks).len() ==> #[trigger] binding_text(ks)[j] != ','
                && binding_text(ks)[j] != '\n',
    decreases ks.len(),
{
    if ks.len() == 1 {
        lemma_token_text_clean(ks[0]);
    } else if ks.len() > 1 {
        lemma_token_text_clean(ks[0]);
        assert forall|q: int| 0 <= q < ks.drop_first().len() implies key_token_expressible(
            #[trigger] ks.drop_first()[q],
        ) by {
            assert(ks.drop_first()[q] == ks[q + 1]);
        }
        lemma_binding_text_clean(ks.drop_first());
        let t0 = token_text(ks[0]);
        let l0 = t0.len() as int;
        let rest = binding_text(ks.drop_first());
        assert forall|j: int| 0 <= j < binding_text(ks).len() implies #[trigger] binding_text(
            ks,
        )[j] != ',' && binding_text(ks)[j] != '\n' by {
            if j < l0 {
                assert(binding_text(ks)[j] == t0[j]);
            } else if j == l0 {
                assert(binding_text(ks)[j] == '+');
            } else {
                assert(binding_text(ks)[j] == rest[j - l0 - 1]);
            }
        }
    }
}

/// A generated field never holds a field separator or a line break.
proof fn lemma_field_text_clean(kss: Seq<Seq<KeyCode>>)
    requires
        keystrokes_expressible(kss),
    ensures
        !field_text(kss).contains(','),
        !field_text(kss).contains('\n'),
    decreases kss.len(),
{
    if kss.len() == 1 {
        lemma_binding_text_clean(kss[0]);
        if field_text(kss).contains(',') {
            let w = choose|w: int|
                0 <= w < field_text(kss).len() && field_text(kss)[w] == ',';
            assert(binding_text(kss[0])[w] != ',');
        }
        if field_text(kss).contains('\n') {
            let w = choose|w: int|
                0 <= w < field_text(kss).len() && field_text(kss)[w] == '\n';
            assert(binding_text(kss[0])[w] != '\n');
        }
    } else if kss.len() > 1 {
        lemma_binding_text_clean(kss[0]);
        assert forall|q: int| 0 <= q < kss.drop_first().len() implies (#[trigger] kss.drop_first()[q]).len()
            >= 1 && canonical(kss.drop_first()[q]) == kss.drop_first()[q] && forall|w: int|
            0 <= w < kss.drop_first()[q].len() ==> key_token_expressible(
                #[trigger] kss.drop_first()[q][w],
            ) by {
            assert(kss.drop_first()[q] == kss[q + 1]);
        }
        lemma_field_text_clean(kss.drop_first());
        let b0 = binding_text(kss[0]);
        let l0 = b0.len() as int;
        let rest = field_text(kss.drop_first());
        assert forall|j: int| 0 <= j < field_text(kss).len() implies #[trigger] field_text(kss)[j]
            != ',' && field_text(kss)[j] != '\n' by {
            if j < l0 {
                assert(field_text(kss)[j] == b0[j]);
            } else if j == l0 {
                assert(field_text(kss)[j] == '\\');
            } else if j == l0 + 1 {
                assert(field_text(kss)[j] == 't');
            } else {
                assert(field_text(kss)[j] == rest[j - l0 - 2]);
                if rest[j - l0 - 2] == ',' {
                    assert(rest.contains(','));
                }
                if rest[j - l0 - 2] == '\n' {
                    assert(rest.contains('\n'));
                }
            }
        }
        if field_text(kss).contains(',') {
            let w = choose|w: int|
                0 <= w < field_text(kss).len() && field_text(kss)[w] == ',';
        }
        if field_text(kss).contains('\n') {
            let w = choose|w: int|
                0 <= w < field_text(kss).len() && field_text(kss)[w] == '\n';
        }
    }
}

// --- the whole pipeline inverts keymap generation ---

/// The shortcut record a generator writes for one action.
pub open spec fn gen_action_record(a: ActionModel) -> RecordModel {
    RecordModel::Entry {
        id: seq!['k'],
        shortcut: field_text(a.shortcuts),
        default_shortcut: Seq::empty(),
        label: a.name,
    }
}

/// The shortcut records of one section's actions, in order.
pub open spec fn gen_actions_records(actions: Seq<ActionModel>) -> Seq<RecordModel>
    decreases actions.len(),
{
    if actions.len() == 0 {
        Seq::empty()
    } else {
        seq![gen_action_record(actions[0])] + gen_actions_records(actions.drop_first())
    }
}

/// The records of a whole keymap: a header per category, followed by its
/// actions' records.
pub open spec fn gen_entries_records(
    entries: Seq<(Seq<char>, Seq<ActionModel>)>,
) -> Seq<RecordModel>
    decreases entries.len(),
{
    if entries.len() == 0 {
        Seq::empty()
    } else {
        seq![RecordModel::Header(entries[0].0)] + gen_actions_records(entries[0].1)
            + gen_entries_records(entries.drop_first())
    }
}

/// What the generator can express of one section's actions: printable names,
/// the section's own category label, and expressible non-empty keystrokes.
pub open spec fn actions_expressible(cat: Seq<char>, actions: Seq<ActionModel>) -> bool {
    forall|q: int|
        0 <= q < actions.len() ==> !(#[trigger] actions[q]).name.contains('\n')
            && actions[q].category == cat && actions[q].shortcuts.len() >= 1
            && keystrokes_expressible(actions[q].shortcuts)
}

/// What the generator can express of a whole keymap: distinct category
/// names free of the header delimiters, each with at least one action.
pub open spec fn entries_expressible(entries: Seq<(Seq<char>, Seq<ActionModel>)>) -> bool {
    &&& distinct_keys(entries)
    &&& forall|i: int|
        0 <= i < entries.len() ==> !(#[trigger] entries[i]).0.contains(']')
            && !entries[i].0.contains('\n') && entries[i].1.len() >= 1 && actions_expressible(
            entries[i].0,
            entries[i].1,
        )
}

/// Every record the generator writes satisfies the read-back conditions.
proof fn lemma_gen_action_records_ok(cat: Seq<char>, actions: Seq<ActionModel>)
    requires
        actions_expressible(cat, actions),
    ensures
        forall|j: int|
            0 <= j < gen_actions_records(actions).len() ==> record_gen_ok(
                #[trigger] gen_actions_records(actions)[j],
            ),
    decreases actions.len(),
{
    if actions.len() > 0 {
        assert forall|q: int| 0 <= q < actions.drop_first().len() implies !(
        #[trigger] actions.drop_first()[q]).name.contains('\n') && actions.drop_first()[q].category
            == cat && actions.drop_first()[q].shortcuts.len() >= 1 && keystrokes_expressible(
            actions.drop_first()[q].shortcuts,
        ) by {
            assert(actions.drop_first()[q] == actions[q + 1]);
        }
        lemma_gen_action_records_ok(cat, actions.drop_first());
        assert(record_gen_ok(gen_action_record(actions[0]))) by {
            lemma_field_text_clean(actions[0].shortcuts);
            if seq!['k'].contains('=') {
                let w = choose|w: int| 0 <= w < 1 && seq!['k'][w] == '=';
            }
            if seq!['k'].contains('\n') {
                let w = choose|w: int| 0 <= w < 1 && seq!['k'][w] == '\n';
            }
            assert(seq!['k'] != friendly_prefix().drop_last()) by {
                assert(friendly_prefix().drop_last().len() == 16);
            }
            if Seq::<char>::empty().contains(',') {
                let w = choose|w: int| Seq::<char>::empty()[w] == ',' && 0 <= w < 0;
                assert(false);
            }
            if Seq::<char>::empty().contains('\n') {
                let w = choose|w: int| Seq::<char>::empty()[w] == '\n' && 0 <= w < 0;
                assert(false);
            }
        }
        assert forall|j: int| 0 <= j < gen_actions_records(actions).len() implies record_gen_ok(
            #[trigger] gen_actions_records(actions)[j],
        ) by {
            if j == 0 {
                assert(gen_actions_records(actions)[0] == gen_action_record(actions[0]));
            } else {
                assert(gen_actions_records(actions)[j] == gen_actions_records(
                    actions.drop_first(),
                )[j - 1]);
            }
        }
    }
}

proof fn lemma_gen_records_ok(entries: Seq<(Seq<char>, Seq<ActionModel>)>)
    requires
        entries_expressible(entries),
    ensures
        records_gen_ok(gen_entries_records(entries)),
    decreases entries.len(),
{
    if entries.len() > 0 {
        assert(entries_expressible(entries.drop_first())) by {
            assert forall|a: int, b: int|
                0 <= a < b < entries.drop_first().len() implies (
            #[trigger] entries.drop_first()[a]).0 != (#[trigger] entries.drop_first()[b]).0 by {
                assert(entries.drop_first()[a] == entries[a + 1]);
                assert(entries.drop_first()[b] == entries[b + 1]);
            }
            assert forall|i: int| 0 <= i < entries.drop_first().len() implies !(
            #[trigger] entries.drop_first()[i]).0.contains(']') && !entries.drop_first()[i].0.contains(
                '\n',
            ) && entries.drop_first()[i].1.len() >= 1 && actions_expressible(
                entries.drop_first()[i].0,
                entries.drop_first()[i].1,
            ) by {
                assert(entries.drop_first()[i] == entries[i + 1]);
            }
        }
        lemma_gen_records_ok(entries.drop_first());
        lemma_gen_action_records_ok(entries[0].0, entries[0].1);
        let hd = seq![RecordModel::Header(entries[0].0)];
        let mid = gen_actions_records(entries[0].1);
        let tl = gen_entries_records(entries.drop_first());
        assert forall|j: int| 0 <= j < gen_entries_records(entries).len() implies record_gen_ok(
            #[trigger] gen_entries_records(entries)[j],
        ) by {
            if j == 0 {
                assert(gen_entries_records(entries)[0] == RecordModel::Header(entries[0].0));
            } else if j < 1 + mid.len() {
                assert(gen_entries_records(entries)[j] == mid[j - 1]);
            } else {
                assert(gen_entries_records(entries)[j] == tl[j - 1 - mid.len()]);
            }
        }
    }
}

/// Folding the generated records of `entries` onto fresh accumulated
/// categories yields the accumulated categories followed by `entries`.
proof fn lemma_assemble_entries(
    records: Seq<RecordModel>,
    idx: int,
    h0: bool,
    c0: Seq<char>,
    acc: Seq<(Seq<char>, Seq<ActionModel>)>,
    entries: Seq<(Seq<char>, Seq<ActionModel>)>,
)
    requires
        0 <= idx <= records.len(),
        records.skip(idx) == gen_entries_records(entries),
        entries_expressible(entries),
        forall|k: int, i: int|
            0 <= k < acc.len() && 0 <= i < entries.len() ==> (#[trigger] acc[k]).0 != (
            #[trigger] entries[i]).0,
    ensures
        assemble_from(records, idx, h0, c0, acc) == Some(acc + entries),
    decreases entries.len(), 0int,
{
    if entries.len() == 0 {
        assert(records.len() - idx == 0);
        assert(acc + entries =~= acc);
    } else {
        let cat = entries[0].0;
        let actions = entries[0].1;
        let rest = entries.drop_first();
        assert(records.skip(idx).len() == records.len() - idx);
        assert(gen_entries_records(entries).len() >= 1);
        assert(records[idx] == RecordModel::Header(cat)) by {
            assert(records.skip(idx)[0] == records[0 + idx]);
            assert(gen_entries_records(entries)[0] == RecordModel::Header(cat));
        }
        assert(records.skip(idx + 1).len() == records.len() - idx - 1);
        assert(records.skip(idx + 1) =~= gen_actions_records(actions) + gen_entries_records(
            rest,
        )) by {
            assert forall|j: int| 0 <= j < records.skip(idx + 1).len() implies records.skip(
                idx + 1,
            )[j] == (gen_actions_records(actions) + gen_entries_records(rest))[j] by {
                assert(records.skip(idx + 1)[j] == records[j + (idx + 1)]);
                assert(records.skip(idx)[j + 1] == records[(j + 1) + idx]);
                assert(records.skip(idx)[j + 1] == gen_entries_records(entries)[j + 1]);
            }
        }
        lemma_assemble_actions(records, idx + 1, acc, cat, Seq::empty(), actions, rest);
        assert(assemble_from(records, idx, h0, c0, acc) == assemble_from(
            records,
            idx + 1,
            true,
            cat,
            acc,
        ));
        assert(Seq::<ActionModel>::empty() + actions =~= actions);
        assert(acc.push((cat, actions)) + rest =~= acc + entries);
    }
}

/// Folding the remaining action records of the current section, whose first
/// `built` actions already stand in the last accumulated category, yields
/// the finished section followed by the remaining entries.
proof fn lemma_assemble_actions(
    records: Seq<RecordModel>,
    idx: int,
    acc: Seq<(Seq<char>, Seq<ActionModel>)>,
    cat: Seq<char>,
    built: Seq<ActionModel>,
    actions: Seq<ActionModel>,
    rest: Seq<(Seq<char>, Seq<ActionModel>)>,
)
    requires
        0 <= idx <= records.len(),
        records.skip(idx) == gen_actions_records(actions) + gen_entries_records(rest),
        actions_expressible(cat, actions),
        entries_expressible(rest),
        built.len() + actions.len() >= 1,
        forall|k: int| 0 <= k < acc.len() ==> (#[trigger] acc[k]).0 != cat,
        forall|i: int| 0 <= i < rest.len() ==> (#[trigger] rest[i]).0 != cat,
        forall|k: int, i: int|
            0 <= k < acc.len() && 0 <= i < rest.len() ==> (#[trigger] acc[k]).0 != (
            #[trigger] rest[i]).0,
    ensures
        assemble_from(
            records,
            idx,
            true,
            cat,
            if built.len() == 0 {
                acc
            } else {
                acc.push((cat, built))
            },
        ) == Some(acc.push((cat, built + actions)) + rest),
    decreases rest.len(), actions.len() + 1,
{
    let acc_state = if built.len() == 0 {
        acc
    } else {
        acc.push((cat, built))
    };
    if actions.len() == 0 {
        assert(records.skip(idx) =~= gen_entries_records(rest));
        assert(built.len() >= 1);
        assert forall|k: int, i: int|
            0 <= k < acc_state.len() && 0 <= i < rest.len() implies (#[trigger] acc_state[k]).0
            != (#[trigger] rest[i]).0 by {
            if k < acc.len() {
                assert(acc_state[k] == acc[k]);
            } else {
                assert(acc_state[k].0 == cat);
            }
        }
        lemma_assemble_entries(records, idx, true, cat, acc_state, rest);
        assert(built + actions =~= built);
        assert(acc_state + rest =~= acc.push((cat, built + actions)) + rest);
    } else {
        let a = actions[0];
        assert(records.skip(idx).len() == records.len() - idx);
        assert((gen_actions_records(actions) + gen_entries_records(rest)).len() >= 1);
        assert(records[idx] == gen_action_record(a)) by {
            assert(records.skip(idx)[0] == records[0 + idx]);
            assert((gen_actions_records(actions) + gen_entries_records(rest))[0]
                == gen_actions_records(actions)[0]);
            assert(gen_actions_records(actions)[0] == gen_action_record(a));
        }
        // the record's field reads back to the action's keystrokes
        lemma_tokenizer_round_trip(a.shortcuts);
        let act = ActionModel { name: a.name, category: cat, shortcuts: a.shortcuts };
        assert(act =~= a);
        // the action lands at the end of the accumulator, in its category
        let inserted = insert_action(acc_state, cat, act);
        assert(inserted =~= acc.push((cat, built.push(a)))) by {
            lemma_index_of_key(acc_state, cat);
            let p = index_of_key(acc_state, cat);
            if built.len() == 0 {
                assert(p == acc.len()) by {
                    if p < acc_state.len() {
                        assert(acc_state[p].0 == cat);
                    }
                }
                assert(seq![act] =~= built.push(a));
            } else {
                assert(p == acc.len()) by {
                    assert(acc_state[acc.len() as int].0 == cat);
                    if p < acc.len() {
                        assert(acc_state[p] == acc[p]);
                    }
                    if p > acc.len() {
                        assert(forall|j: int|
                            0 <= j < p ==> (#[trigger] acc_state[j]).0 != cat);
                    }
                }
                assert(acc_state[p].1 =~= built);
            }
        }
        assert forall|q: int| 0 <= q < actions.drop_first().len() implies !(
        #[trigger] actions.drop_first()[q]).name.contains('\n') && actions.drop_first()[q].category
            == cat && actions.drop_first()[q].shortcuts.len() >= 1 && keystrokes_expressible(
            actions.drop_first()[q].shortcuts,
        ) by {
            assert(actions.drop_first()[q] == actions[q + 1]);
        }
        assert(records.skip(idx + 1).len() == records.len() - idx - 1);
        assert(records.skip(idx + 1) =~= gen_actions_records(actions.drop_first())
            + gen_entries_records(rest)) by {
            assert forall|j: int| 0 <= j < records.skip(idx + 1).len() implies records.skip(
                idx + 1,
            )[j] == (gen_actions_records(actions.drop_first()) + gen_entries_records(rest))[j] by {
                assert(records.skip(idx + 1)[j] == records[j + (idx + 1)]);
                assert(records.skip(idx)[j + 1] == records[(j + 1) + idx]);
                assert(records.skip(idx)[j + 1] == (gen_actions_records(actions)
                    + gen_entries_records(rest))[j + 1]);
                if j + 1 < gen_actions_records(actions).len() {
                    assert(gen_actions_records(actions)[j + 1] == gen_actions_records(
                        actions.drop_first(),
                    )[j]);
                }
            }
        }
        lemma_assemble_actions(records, idx + 1, acc, cat, built.push(a), actions.drop_first(), rest);
        assert(built.push(a) + actions.drop_first() =~= built + actions);
    }
}

/// The whole pipeline inverts generation: a document written as one header
/// per category followed by one shortcut record per action ingests back to
/// exactly the keymap it was written from.
pub proof fn lemma_keymap_round_trip(entries: Seq<(Seq<char>, Seq<ActionModel>)>)
    requires
        entries_expressible(entries),
    ensures
        keymap_of_document(records_text(gen_entries_records(entries))) == Some(
            KeyMapModel { name: seq!['K', 'D', 'E'], categories: entries },
        ),
{
    let rs = gen_entries_records(entries);
    lemma_gen_records_ok(entries);
    lemma_document_round_trip(rs);
    assert(rs.skip(0) =~= rs);
    lemma_assemble_entries(rs, 0, false, Seq::empty(), Seq::empty(), entries);
    assert(Seq::<(Seq<char>, Seq<ActionModel>)>::empty() + entries =~= entries);
}

} // verus!
