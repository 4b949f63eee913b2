//! Character-level text utilities shared by the parsers: scanning for
//! delimiters, comparing against literals, trimming, and the Unicode
//! character classifications that std computes.

use vstd::prelude::*;

verus! {

/// The first index at or after `from` holding exactly `target`, or `s.len()`
/// if no such index exists.
pub open spec fn find_from(s: Seq<char>, from: int, target: char) -> int
    decreases s.len() - from,
{
    if from < 0 || from >= s.len() {
        s.len() as int
    } else if s[from] == target {
        from
    } else {
        find_from(s, from + 1, target)
    }
}

pub proof fn lemma_find_from(s: Seq<char>, from: int, target: char)
    requires
        0 <= from <= s.len(),
    ensures
        from <= find_from(s, from, target) <= s.len(),
        find_from(s, from, target) < s.len() ==> s[find_from(s, from, target)] == target,
        forall|j: int| from <= j < find_from(s, from, target) ==> s[j] != target,
    decreases s.len() - from,
{
    if from < s.len() && s[from] != target {
        lemma_find_from(s, from + 1, target);
    }
}

/// Executable counterpart of [`find_from`].
pub fn find_char(s: &str, from: usize, target: char) -> (r: usize)
    requires
        from <= s@.len(),
    ensures
        r == find_from(s@, from as int, target),
        from <= r <= s@.len(),
{
    let n: usize = s.unicode_len();
    let mut i: usize = from;
    while i < n
        invariant
            from <= i <= n,
            n == s@.len(),
            find_from(s@, from as int, target) == find_from(s@, i as int, target),
        decreases n - i,
    {
        if s.get_char(i) == target {
            return i;
        }
        i += 1;
    }
    n
}

/// The first index at or after `from` holding a keystroke-token terminator
/// (`+`, `,` or a backslash), or `s.len()`.
pub open spec fn token_break_from(s: Seq<char>, from: int) -> int
    decreases s.len() - from,
{
    if from < 0 || from >= s.len() {
        s.len() as int
    } else if s[from] == '+' || s[from] == ',' || s[from] == '\\' {
        from
    } else {
        token_break_from(s, from + 1)
    }
}

pub proof fn lemma_token_break_from(s: Seq<char>, from: int)
    requires
        0 <= from <= s.len(),
    ensures
        from <= token_break_from(s, from) <= s.len(),
        token_break_from(s, from) < s.len() ==> (s[token_break_from(s, from)] == '+'
            || s[token_break_from(s, from)] == ',' || s[token_break_from(s, from)] == '\\'),
        forall|j: int|
            from <= j < token_break_from(s, from) ==> !(s[j] == '+' || s[j] == ',' || #[trigger] s[j]
                == '\\'),
    decreases s.len() - from,
{
    if from < s.len() && !(s[from] == '+' || s[from] == ',' || s[from] == '\\') {
        lemma_token_break_from(s, from + 1);
    }
}

/// Executable counterpart of [`token_break_from`].
pub fn find_token_break(s: &str, from: usize) -> (r: usize)
    requires
        from <= s@.len(),
    ensures
        r == token_break_from(s@, from as int),
        from <= r <= s@.len(),
{
    let n: usize = s.unicode_len();
    let mut i: usize = from;
    while i < n
        invariant
            from <= i <= n,
            n == s@.len(),
            token_break_from(s@, from as int) == token_break_from(s@, i as int),
        decreases n - i,
    {
        let c = s.get_char(i);
        if c == '+' || c == ',' || c == '\\' {
            return i;
        }
        i += 1;
    }
    n
}

/// The first index at or after `from` holding anything but a space, or
/// `s.len()`.
pub open spec fn non_space_from(s: Seq<char>, from: int) -> int
    decreases s.len() - from,
{
    if from < 0 || from >= s.len() {
        s.len() as int
    } else if s[from] != ' ' {
        from
    } else {
        non_space_from(s, from + 1)
    }
}

pub proof fn lemma_non_space_from(s: Seq<char>, from: int)
    requires
        0 <= from <= s.len(),
    ensures
        from <= non_space_from(s, from) <= s.len(),
    decreases s.len() - from,
{
    if from < s.len() && s[from] == ' ' {
        lemma_non_space_from(s, from + 1);
    }
}

/// Executable counterpart of [`non_space_from`].
pub fn find_non_space(s: &str, from: usize) -> (r: usize)
    requires
        from <= s@.len(),
    ensures
        r == non_space_from(s@, from as int),
        from <= r <= s@.len(),
{
    let n: usize = s.unicode_len();
    let mut i: usize = from;
    while i < n
        invariant
            from <= i <= n,
            n == s@.len(),
            non_space_from(s@, from as int) == non_space_from(s@, i as int),
        decreases n - i,
    {
        if s.get_char(i) != ' ' {
            return i;
        }
        i += 1;
    }
    n
}

/// Whether `pat` occurs in `s` starting at index `at`.
pub open spec fn matches_at(s: Seq<char>, at: int, pat: Seq<char>) -> bool {
    0 <= at && at + pat.len() <= s.len() && s.subrange(at, at + pat.len()) == pat
}

/// Executable test for [`matches_at`].
pub fn str_matches_at(s: &str, at: usize, pat: &str) -> (r: bool)
    ensures
        r == matches_at(s@, at as int, pat@),
{
    let n: usize = s.unicode_len();
    let m: usize = pat.unicode_len();
    if at > n || m > n - at {
        proof {
            assert(!matches_at(s@, at as int, pat@));
        }
        return false;
    }
    let mut i: usize = 0;
    while i < m
        invariant
            at + m <= n,
            n == s@.len(),
            m == pat@.len(),
            i <= m,
            forall|j: int| 0 <= j < i ==> s@[at + j] == pat@[j],
        decreases m - i,
    {
        if s.get_char(at + i) != pat.get_char(i) {
            proof {
                assert(s@.subrange(at as int, at + pat@.len())[i as int] != pat@[i as int]);
            }
            return false;
        }
        i += 1;
    }
    proof {
        assert(s@.subrange(at as int, at + pat@.len()) =~= pat@);
    }
    true
}

/// Executable character-for-character equality of two string slices.
pub fn str_eq(a: &str, b: &str) -> (r: bool)
    ensures
        r == (a@ == b@),
{
    let n: usize = a.unicode_len();
    if n != b.unicode_len() {
        return false;
    }
    let mut i: usize = 0;
    while i < n
        invariant
            n == a@.len(),
            n == b@.len(),
            i <= n,
            forall|j: int| 0 <= j < i ==> a@[j] == b@[j],
        decreases n - i,
    {
        if a.get_char(i) != b.get_char(i) {
            return false;
        }
        i += 1;
    }
    proof {
        assert(a@ =~= b@);
    }
    true
}

/// Copy the character range `[from, to)` of `s` into an owned string.
pub fn substring(s: &str, from: usize, to: usize) -> (r: String)
    requires
        from <= to <= s@.len(),
    ensures
        r@ == s@.subrange(from as int, to as int),
{
    s.substring_char(from, to).to_owned()
}

/// The ASCII-lowercased image of a character sequence: `A`..`Z` shift down,
/// all other characters pass through.
pub open spec fn ascii_lower(s: Seq<char>) -> Seq<char> {
    s.map_values(|c: char| ascii_lower_char(c))
}

pub open spec fn ascii_lower_char(c: char) -> char {
    if 'A' <= c && c <= 'Z' {
        ((c as u8) + 32) as char
    } else {
        c
    }
}

/// Executable ASCII-lowercasing of one character.
pub fn to_ascii_lower_char(c: char) -> (r: char)
    ensures
        r == ascii_lower_char(c),
{
    if 'A' <= c && c <= 'Z' {
        ((c as u8) + 32) as char
    } else {
        c
    }
}

/// Whether `a` equals `b` after ASCII-lowercasing `a` alone.
pub fn str_eq_ascii_lowered(a: &str, b: &str) -> (r: bool)
    ensures
        r == (ascii_lower(a@) == b@),
{
    let n: usize = a.unicode_len();
    if n != b.unicode_len() {
        proof {
            assert(ascii_lower(a@).len() == a@.len());
        }
        return false;
    }
    let mut i: usize = 0;
    while i < n
        invariant
            n == a@.len(),
            n == b@.len(),
            i <= n,
            forall|j: int| 0 <= j < i ==> ascii_lower_char(a@[j]) == b@[j],
        decreases n - i,
    {
        if to_ascii_lower_char(a.get_char(i)) != b.get_char(i) {
            proof {
                assert(ascii_lower(a@)[i as int] != b@[i as int]);
            }
            return false;
        }
        i += 1;
    }
    proof {
        assert(ascii_lower(a@) =~= b@);
    }
    true
}

/// The lowercase mapping of a character, as computed by the standard library.
/// Uninterpreted: it depends on the character alone.
pub uninterp spec fn lower_char_of(c: char) -> char;

/// Relies on `char::to_lowercase`: the first scalar of the Unicode lowercase
/// mapping, which exists for every character and depends on it alone. For
/// ASCII the mapping is the documented `A`..`Z` shift.
#[verifier::external_body]
pub fn lowercase_char(c: char) -> (r: char)
    ensures
        r == lower_char_of(c),
        'A' <= c && c <= 'Z' ==> r == ascii_lower_char(c),
        (c as u32) < 128 && !('A' <= c && c <= 'Z') ==> r == c,
{
    c.to_lowercase().next().unwrap()
}

/// The uppercase mapping of a character (possibly several scalars), as
/// computed by the standard library. Uninterpreted: it depends on the
/// character alone.
pub uninterp spec fn upper_of(c: char) -> Seq<char>;

/// Relies on `char::to_uppercase`: the full Unicode uppercase mapping, which
/// depends on the character alone. For ASCII the mapping is the documented
/// `a`..`z` shift.
#[verifier::external_body]
pub fn uppercase_char(c: char) -> (r: String)
    ensures
        r@ == upper_of(c),
        'a' <= c && c <= 'z' ==> r@ =~= seq![((c as u8) - 32) as char],
        (c as u32) < 128 && !('a' <= c && c <= 'z') ==> r@ =~= seq![c],
{
    c.to_uppercase().to_string()
}

/// Whether a character has the Unicode `White_Space` property, as tested by
/// the standard library. Uninterpreted: it depends on the character alone.
pub uninterp spec fn char_is_ws(c: char) -> bool;

/// Relies on `char::is_whitespace`: the Unicode `White_Space` property, whose
/// ASCII members are documented to be space, tab, line feed, vertical tab,
/// form feed and carriage return.
#[verifier::external_body]
pub fn is_whitespace_char(c: char) -> (r: bool)
    ensures
        r == char_is_ws(c),
        (c as u32) < 128 ==> (r <==> (c == ' ' || c == '\t' || c == '\n' || c == '\r' || c as u32
            == 11 || c as u32 == 12)),
{
    c.is_whitespace()
}

/// Whether a character is Unicode alphanumeric, as tested by the standard
/// library. Uninterpreted: it depends on the character alone.
pub uninterp spec fn char_is_alnum(c: char) -> bool;

/// Relies on `char::is_alphanumeric`: the Unicode `Alphabetic` property or
/// one of the numeric general categories. Its documented ASCII members are
/// exactly the letters and digits.
#[verifier::external_body]
pub fn is_alphanumeric_char(c: char) -> (r: bool)
    ensures
        r == char_is_alnum(c),
        (c as u32) < 128 ==> (r <==> ('a' <= c && c <= 'z' || 'A' <= c && c <= 'Z' || '0' <= c && c
            <= '9')),
{
    c.is_alphanumeric()
}

/// The first index at or after `from` holding a non-whitespace character, or
/// `s.len()`.
pub open spec fn non_ws_from(s: Seq<char>, from: int) -> int
    decreases s.len() - from,
{
    if from < 0 || from >= s.len() {
        s.len() as int
    } else if !char_is_ws(s[from]) {
        from
    } else {
        non_ws_from(s, from + 1)
    }
}

pub proof fn lemma_non_ws_from(s: Seq<char>, from: int)
    requires
        0 <= from <= s.len(),
    ensures
        from <= non_ws_from(s, from) <= s.len(),
        non_ws_from(s, from) < s.len() ==> !char_is_ws(s[non_ws_from(s, from)]),
        forall|j: int| from <= j < non_ws_from(s, from) ==> char_is_ws(s[j]),
    decreases s.len() - from,
{
    if from < s.len() && char_is_ws(s[from]) {
        lemma_non_ws_from(s, from + 1);
    }
}

/// Executable counterpart of [`non_ws_from`].
pub fn find_non_ws(s: &str, from: usize) -> (r: usize)
    requires
        from <= s@.len(),
    ensures
        r == non_ws_from(s@, from as int),
        from <= r <= s@.len(),
{
    let n: usize = s.unicode_len();
    let mut i: usize = from;
    while i < n
        invariant
            from <= i <= n,
            n == s@.len(),
            non_ws_from(s@, from as int) == non_ws_from(s@, i as int),
        decreases n - i,
    {
        if !is_whitespace_char(s.get_char(i)) {
            return i;
        }
        i += 1;
    }
    n
}

/// The last index at or before `from` holding a non-whitespace character;
/// `-1` if there is none.
pub open spec fn last_non_ws(t: Seq<char>, from: int) -> int
    decreases from + 1,
{
    if from < 0 || from >= t.len() {
        -1
    } else if !char_is_ws(t[from]) {
        from
    } else {
        last_non_ws(t, from - 1)
    }
}

proof fn lemma_last_non_ws(t: Seq<char>, from: int)
    requires
        -1 <= from < t.len(),
    ensures
        -1 <= last_non_ws(t, from) <= from,
        last_non_ws(t, from) >= 0 ==> !char_is_ws(t[last_non_ws(t, from)]),
        forall|j: int| last_non_ws(t, from) < j <= from ==> char_is_ws(t[j]),
    decreases from + 1,
{
    if 0 <= from && char_is_ws(t[from]) {
        lemma_last_non_ws(t, from - 1);
    }
}

/// The whitespace-trimmed slice bounds of `t`: the range from the first
/// non-whitespace character through the last one, or the empty range at the
/// end when every character is whitespace.
pub open spec fn trim_range(t: Seq<char>) -> (int, int) {
    let a = non_ws_from(t, 0);
    if a == t.len() {
        (t.len() as int, t.len() as int)
    } else {
        (a, last_non_ws(t, t.len() - 1) + 1)
    }
}

/// The whitespace-trimmed image of `t`.
pub open spec fn trim_of(t: Seq<char>) -> Seq<char> {
    t.subrange(trim_range(t).0, trim_range(t).1)
}

/// Trim Unicode whitespace from both ends of `s`.
pub fn trim(s: &str) -> (r: String)
    ensures
        r@ == trim_of(s@),
{
    let n: usize = s.unicode_len();
    let a: usize = find_non_ws(s, 0);
    if a == n {
        return substring(s, n, n);
    }
    proof {
        lemma_non_ws_from(s@, 0);
    }
    let mut b: usize = n - 1;
    while is_whitespace_char(s.get_char(b))
        invariant
            a <= b < n,
            n == s@.len(),
            !char_is_ws(s@[a as int]),
            forall|j: int| b < j < n ==> char_is_ws(s@[j]),
        decreases b,
    {
        // position `a` is non-whitespace, so the scan stops at or before it
        proof {
            assert(b > a) by {
                if b == a {
                    assert(char_is_ws(s@[a as int]));
                }
            }
        }
        b -= 1;
    }
    proof {
        lemma_last_non_ws(s@, s@.len() - 1);
        let last = last_non_ws(s@, s@.len() - 1);
        assert(last >= b) by {
            if last < b {
                assert(char_is_ws(s@[b as int]));
            }
        }
        assert(last <= b) by {
            if last > b {
                assert(char_is_ws(s@[last]));
            }
        }
    }
    substring(s, a, b + 1)
}

/// The first index at or after `from` where `pat` occurs in `s`, or
/// `s.len()` if it occurs nowhere there.
pub open spec fn find_seq_from(s: Seq<char>, from: int, pat: Seq<char>) -> int
    decreases s.len() - from,
{
    if from < 0 || from >= s.len() {
        s.len() as int
    } else if matches_at(s, from, pat) {
        from
    } else {
        find_seq_from(s, from + 1, pat)
    }
}

pub proof fn lemma_find_seq_from(s: Seq<char>, from: int, pat: Seq<char>)
    requires
        0 <= from <= s.len(),
    ensures
        from <= find_seq_from(s, from, pat) <= s.len(),
        find_seq_from(s, from, pat) < s.len() ==> matches_at(s, find_seq_from(s, from, pat), pat),
    decreases s.len() - from,
{
    if from < s.len() && !matches_at(s, from, pat) {
        lemma_find_seq_from(s, from + 1, pat);
    }
}

/// Executable counterpart of [`find_seq_from`].
pub fn find_str(s: &str, from: usize, pat: &str) -> (r: usize)
    requires
        from <= s@.len(),
    ensures
        r == find_seq_from(s@, from as int, pat@),
        from <= r <= s@.len(),
{
    let n: usize = s.unicode_len();
    let mut i: usize = from;
    while i < n
        invariant
            from <= i <= n,
            n == s@.len(),
            find_seq_from(s@, from as int, pat@) == find_seq_from(s@, i as int, pat@),
        decreases n - i,
    {
        if str_matches_at(s, i, pat) {
            return i;
        }
        i += 1;
    }
    n
}

/// Whether `pat` occurs anywhere in `s`.
pub open spec fn has_substring(s: Seq<char>, pat: Seq<char>) -> bool {
    exists|k: int| matches_at(s, k, pat)
}

/// Executable test for [`has_substring`].
pub fn str_contains(s: &str, pat: &str) -> (r: bool)
    ensures
        r == has_substring(s@, pat@),
{
    let n: usize = s.unicode_len();
    let mut i: usize = 0;
    loop
        invariant
            i <= n,
            n == s@.len(),
            forall|k: int| 0 <= k < i ==> !matches_at(s@, k, pat@),
        decreases n - i,
    {
        if str_matches_at(s, i, pat) {
            return true;
        }
        if i == n {
            proof {
                assert forall|k: int| !matches_at(s@, k, pat@) by {
                    if k > n {
                        assert(k + pat@.len() > s@.len());
                    }
                }
            }
            return false;
        }
        i += 1;
    }
}

/// Whether a character can stand in an XML name: Unicode alphanumeric, or
/// `-`, or `_`.
pub open spec fn is_name_char(c: char) -> bool {
    char_is_alnum(c) || c == '-' || c == '_'
}

/// The first index at or after `from` holding a character that cannot stand
/// in an XML name, or `s.len()`.
pub open spec fn name_end_from(s: Seq<char>, from: int) -> int
    decreases s.len() - from,
{
    if from < 0 || from >= s.len() {
        s.len() as int
    } else if !is_name_char(s[from]) {
        from
    } else {
        name_end_from(s, from + 1)
    }
}

pub proof fn lemma_name_end_from(s: Seq<char>, from: int)
    requires
        0 <= from <= s.len(),
    ensures
        from <= name_end_from(s, from) <= s.len(),
    decreases s.len() - from,
{
    if from < s.len() && is_name_char(s[from]) {
        lemma_name_end_from(s, from + 1);
    }
}

/// Executable counterpart of [`name_end_from`].
pub fn find_name_end(s: &str, from: usize) -> (r: usize)
    requires
        from <= s@.len(),
    ensures
        r == name_end_from(s@, from as int),
        from <= r <= s@.len(),
{
    let n: usize = s.unicode_len();
    let mut i: usize = from;
    while i < n
        invariant
            from <= i <= n,
            n == s@.len(),
            name_end_from(s@, from as int) == name_end_from(s@, i as int),
        decreases n - i,
    {
        let c = s.get_char(i);
        if !(is_alphanumeric_char(c) || c == '-' || c == '_') {
            return i;
        }
        i += 1;
    }
    n
}

} // verus!
