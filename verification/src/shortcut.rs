//! Canonical key combinations ([`Shortcut`]) and named, categorized bindings
//! ([`Action`]).

use vstd::prelude::*;

use crate::key_event::{is_modifier, modifier_at_rank, modifier_of_rank, KeyCode, ModifierKeyCode};

verus! {

/// An ordered key combination. Constructed only through [`Shortcut::new`],
/// which canonicalizes the token list: modifiers first, deduplicated, in the
/// fixed global precedence order, then the remaining tokens in source order.
#[derive(Debug, Hash, Eq, PartialEq)]
pub struct Shortcut {
    pub keystroke: Vec<KeyCode>,
}

/// A display name together with the alternative shortcuts that reach it, and
/// the category it was resolved to.
#[derive(Debug, Hash, Eq, PartialEq)]
pub struct Action {
    pub id: String,
    pub category: String,
    pub shortcuts: Vec<Shortcut>,
}

impl View for Shortcut {
    type V = Seq<KeyCode>;

    open spec fn view(&self) -> Seq<KeyCode> {
        self.keystroke@
    }
}

/// The mathematical image of an [`Action`]: its name, its resolved category,
/// and its keystrokes.
#[verifier::ext_equal]
pub struct ActionModel {
    pub name: Seq<char>,
    pub category: Seq<char>,
    pub shortcuts: Seq<Seq<KeyCode>>,
}

impl View for Action {
    type V = ActionModel;

    open spec fn view(&self) -> ActionModel {
        ActionModel {
            name: self.id@,
            category: self.category@,
            shortcuts: keystrokes_of(self.shortcuts@),
        }
    }
}

/// The keystroke sequences of a list of shortcuts.
pub open spec fn keystrokes_of(ss: Seq<Shortcut>) -> Seq<Seq<KeyCode>> {
    Seq::new(ss.len(), |i: int| ss[i]@)
}

impl Clone for Shortcut {
    fn clone(&self) -> (r: Shortcut)
        ensures
            r@ == self@,
    {
        let n = self.keystroke.len();
        let mut ks: Vec<KeyCode> = Vec::new();
        let mut i: usize = 0;
        while i < n
            invariant
                i <= n,
                n == self.keystroke@.len(),
                ks@ == self.keystroke@.take(i as int),
            decreases n - i,
        {
            ks.push(self.keystroke[i]);
            proof {
                assert(ks@ =~= self.keystroke@.take(i + 1));
            }
            i += 1;
        }
        proof {
            assert(ks@ =~= self.keystroke@);
        }
        Shortcut { keystroke: ks }
    }
}

impl Clone for Action {
    fn clone(&self) -> (r: Action)
        ensures
            r@ == self@,
    {
        let n = self.shortcuts.len();
        let mut ss: Vec<Shortcut> = Vec::new();
        let mut i: usize = 0;
        while i < n
            invariant
                i <= n,
                n == self.shortcuts@.len(),
                ss@.len() == i,
                forall|j: int| 0 <= j < i ==> ss@[j]@ == self.shortcuts@[j]@,
            decreases n - i,
        {
            ss.push(self.shortcuts[i].clone());
            i += 1;
        }
        let r = Action { id: self.id.clone(), category: self.category.clone(), shortcuts: ss };
        proof {
            assert(keystrokes_of(r.shortcuts@) =~= keystrokes_of(self.shortcuts@));
        }
        r
    }
}

/// The modifiers of `ks` that rank below `r` in the fixed precedence order,
/// emitted in that order, one occurrence each.
pub open spec fn canonical_modifiers_upto(ks: Seq<KeyCode>, r: int) -> Seq<KeyCode>
    decreases r,
{
    if r <= 0 {
        Seq::empty()
    } else {
        let m = modifier_of_rank(r - 1);
        canonical_modifiers_upto(ks, r - 1) + if ks.contains(KeyCode::Modifier(m)) {
            seq![KeyCode::Modifier(m)]
        } else {
            Seq::empty()
        }
    }
}

/// The non-modifier tokens of `ks`, in source order.
pub open spec fn non_modifier_part(ks: Seq<KeyCode>) -> Seq<KeyCode>
    decreases ks.len(),
{
    if ks.len() == 0 {
        Seq::empty()
    } else if is_modifier(ks.last()) {
        non_modifier_part(ks.drop_last())
    } else {
        non_modifier_part(ks.drop_last()).push(ks.last())
    }
}

/// The canonical form of a token list: its modifiers deduplicated and sorted
/// by the fixed global precedence, followed by its non-modifier tokens in
/// source order.
pub open spec fn canonical(ks: Seq<KeyCode>) -> Seq<KeyCode> {
    canonical_modifiers_upto(ks, 14) + non_modifier_part(ks)
}

/// Executable membership test over a token vector.
fn contains_key(v: &Vec<KeyCode>, k: KeyCode) -> (r: bool)
    ensures
        r == v@.contains(k),
{
    let n = v.len();
    let mut i: usize = 0;
    while i < n
        invariant
            i <= n,
            n == v@.len(),
            forall|j: int| 0 <= j < i ==> v@[j] != k,
        decreases n - i,
    {
        if v[i] == k {
            return true;
        }
        i += 1;
    }
    false
}

impl Shortcut {
    /// Canonicalize a token list into a shortcut.
    pub fn new(keystroke: Vec<KeyCode>) -> (r: Shortcut)
        ensures
            r@ == canonical(keystroke@),
    {
        let mut out: Vec<KeyCode> = Vec::new();
        let mut r: usize = 0;
        while r < 14
            invariant
                r <= 14,
                out@ == canonical_modifiers_upto(keystroke@, r as int),
            decreases 14 - r,
        {
            let m = modifier_at_rank(r);
            if contains_key(&keystroke, KeyCode::Modifier(m)) {
                out.push(KeyCode::Modifier(m));
            }
            proof {
                assert(out@ =~= canonical_modifiers_upto(keystroke@, r + 1));
            }
            r += 1;
        }
        let n = keystroke.len();
        let mut i: usize = 0;
        while i < n
            invariant
                i <= n,
                n == keystroke@.len(),
                out@ == canonical_modifiers_upto(keystroke@, 14) + non_modifier_part(
                    keystroke@.take(i as int),
                ),
            decreases n - i,
        {
            let k = keystroke[i];
            let k_is_mod = match k {
                KeyCode::Modifier(_) => true,
                _ => false,
            };
            if !k_is_mod {
                out.push(k);
            }
            proof {
                assert(keystroke@.take(i + 1).drop_last() =~= keystroke@.take(i as int));
                assert(keystroke@.take(i + 1).last() == keystroke@[i as int]);
                assert(out@ =~= canonical_modifiers_upto(keystroke@, 14) + non_modifier_part(
                    keystroke@.take(i + 1),
                ));
            }
            i += 1;
        }
        proof {
            assert(keystroke@.take(n as int) =~= keystroke@);
        }
        Shortcut { keystroke: out }
    }

    /// The canonical token sequence of this shortcut.
    pub fn keystroke(&self) -> (r: &[KeyCode])
        ensures
            r@ == self@,
    {
        self.keystroke.as_slice()
    }

    /// Whether the combination includes the given modifier key.
    pub fn uses_modifier(&self, key: ModifierKeyCode) -> (r: bool)
        ensures
            r == self@.contains(KeyCode::Modifier(key)),
    {
        contains_key(&self.keystroke, KeyCode::Modifier(key))
    }
}

/// The keystroke sequences of `kss` that are non-empty, in order.
pub open spec fn non_empty_seqs(kss: Seq<Seq<KeyCode>>) -> Seq<Seq<KeyCode>>
    decreases kss.len(),
{
    if kss.len() == 0 {
        Seq::empty()
    } else if kss.last().len() == 0 {
        non_empty_seqs(kss.drop_last())
    } else {
        non_empty_seqs(kss.drop_last()).push(kss.last())
    }
}

impl Action {
    /// Build an action, discarding empty shortcuts.
    pub fn new_filter_empty(id: &str, category: &str, shortcuts: Vec<Shortcut>) -> (r: Action)
        ensures
            r@.name == id@,
            r@.category == category@,
            r@.shortcuts == non_empty_seqs(keystrokes_of(shortcuts@)),
    {
        let n = shortcuts.len();
        let mut kept: Vec<Shortcut> = Vec::new();
        let mut i: usize = 0;
        while i < n
            invariant
                i <= n,
                n == shortcuts@.len(),
                keystrokes_of(kept@) == non_empty_seqs(keystrokes_of(shortcuts@.take(i as int))),
            decreases n - i,
        {
            let ghost prefix = keystrokes_of(shortcuts@.take(i as int));
            let ghost prefix1 = keystrokes_of(shortcuts@.take(i + 1));
            proof {
                assert(prefix1.drop_last() =~= prefix);
                assert(prefix1.last() == shortcuts@[i as int]@);
            }
            if shortcuts[i].keystroke().len() > 0 {
                kept.push(shortcuts[i].clone());
                proof {
                    assert(keystrokes_of(kept@) =~= non_empty_seqs(prefix).push(
                        shortcuts@[i as int]@,
                    ));
                }
            }
            i += 1;
        }
        proof {
            assert(keystrokes_of(shortcuts@.take(n as int)) =~= keystrokes_of(shortcuts@));
        }
        Action { id: id.to_owned(), category: category.to_owned(), shortcuts: kept }
    }

    /// Build an action from a name and its shortcuts, uncategorized.
    pub fn new(id: &str, shortcuts: Vec<Shortcut>) -> (r: Action)
        ensures
            r@.name == id@,
            r@.category.len() == 0,
            r@.shortcuts == keystrokes_of(shortcuts@),
    {
        let category = String::new();
        Action { id: id.to_owned(), category, shortcuts }
    }

    /// The user-facing display name.
    pub fn name(&self) -> (r: &str)
        ensures
            r@ == self@.name,
    {
        self.id.as_str()
    }

    /// The alternative shortcuts, in source order.
    pub fn shortcuts(&self) -> (r: &[Shortcut])
        ensures
            keystrokes_of(r@) == self@.shortcuts,
    {
        self.shortcuts.as_slice()
    }

    /// Whether at least one shortcut is bound to the action.
    pub fn is_bound(&self) -> (r: bool)
        ensures
            r == (self@.shortcuts.len() > 0),
    {
        self.shortcuts.len() > 0
    }

    /// Replace the resolved category label.
    pub fn update_category(&mut self, category: &str)
        ensures
            final(self)@.name == old(self)@.name,
            final(self)@.category == category@,
            final(self)@.shortcuts == old(self)@.shortcuts,
    {
        self.category = category.to_owned();
    }

    /// The resolved category label.
    pub fn category(&self) -> (r: &str)
        ensures
            r@ == self@.category,
    {
        self.category.as_str()
    }
}

// --- canonical form: shape of the result ---

proof fn lemma_canonical_modifiers_upto_shape(ks: Seq<KeyCode>, r: int)
    requires
        0 <= r <= 14,
    ensures
        forall|i: int|
            0 <= i < canonical_modifiers_upto(ks, r).len() ==> is_modifier(
                #[trigger] canonical_modifiers_upto(ks, r)[i],
            ),
        forall|i: int, j: int|
            0 <= i < j < canonical_modifiers_upto(ks, r).len()
                ==> crate::key_event::modifier_rank(
                canonical_modifiers_upto(ks, r)[i]->Modifier_0,
            ) < crate::key_event::modifier_rank(canonical_modifiers_upto(ks, r)[j]->Modifier_0),
        forall|i: int|
            0 <= i < canonical_modifiers_upto(ks, r).len() ==> crate::key_event::modifier_rank(
                #[trigger] canonical_modifiers_upto(ks, r)[i]->Modifier_0,
            ) < r,
        forall|k: KeyCode|
            canonical_modifiers_upto(ks, r).contains(k) ==> ks.contains(k),
    decreases r,
{
    if r > 0 {
        lemma_canonical_modifiers_upto_shape(ks, r - 1);
        let m = modifier_of_rank(r - 1);
        assert(crate::key_event::modifier_rank(m) == r - 1);
        if ks.contains(KeyCode::Modifier(m)) {
            let prev = canonical_modifiers_upto(ks, r - 1);
            let cur = canonical_modifiers_upto(ks, r);
            assert(cur == prev + seq![KeyCode::Modifier(m)]);
            assert(forall|k: KeyCode|
                cur.contains(k) ==> prev.contains(k) || k == KeyCode::Modifier(m));
        }
    }
}

proof fn lemma_non_modifier_part_shape(ks: Seq<KeyCode>)
    ensures
        forall|i: int|
            0 <= i < non_modifier_part(ks).len() ==> !is_modifier(
                #[trigger] non_modifier_part(ks)[i],
            ),
    decreases ks.len(),
{
    if ks.len() > 0 {
        lemma_non_modifier_part_shape(ks.drop_last());
        let prev = non_modifier_part(ks.drop_last());
        if !is_modifier(ks.last()) {
            assert forall|i: int|
                0 <= i < non_modifier_part(ks).len() implies !is_modifier(
                #[trigger] non_modifier_part(ks)[i],
            ) by {
                if i < prev.len() {
                    assert(non_modifier_part(ks)[i] == prev[i]);
                } else {
                    assert(non_modifier_part(ks)[i] == ks.last());
                }
            }
        }
    }
}

/// In a canonical token list all modifiers precede all non-modifiers, no
/// modifier repeats, and the modifiers appear in the fixed global precedence
/// order.
pub proof fn lemma_canonical_shape(ks: Seq<KeyCode>)
    ensures
        forall|i: int, j: int|
            0 <= i < j < canonical(ks).len() && is_modifier(#[trigger] canonical(ks)[j])
                ==> is_modifier(#[trigger] canonical(ks)[i]),
        forall|i: int, j: int|
            0 <= i < j < canonical(ks).len() && is_modifier(canonical(ks)[i]) && is_modifier(
                canonical(ks)[j],
            ) ==> crate::key_event::modifier_rank(canonical(ks)[i]->Modifier_0)
                < crate::key_event::modifier_rank(canonical(ks)[j]->Modifier_0),
        forall|i: int, j: int|
            0 <= i < j < canonical(ks).len() && is_modifier(canonical(ks)[i]) && is_modifier(
                canonical(ks)[j],
            ) ==> canonical(ks)[i] != canonical(ks)[j],
{
    let mods = canonical_modifiers_upto(ks, 14);
    let rest = non_modifier_part(ks);
    lemma_canonical_modifiers_upto_shape(ks, 14);
    lemma_non_modifier_part_shape(ks);
    assert forall|i: int, j: int|
        0 <= i < j < canonical(ks).len() && is_modifier(
            #[trigger] canonical(ks)[j],
        ) implies is_modifier(#[trigger] canonical(ks)[i]) by {
        if j >= mods.len() {
            assert(canonical(ks)[j] == rest[j - mods.len()]);
        }
        if i >= mods.len() {
            assert(canonical(ks)[i] == rest[i - mods.len()]);
        }
    }
    assert forall|i: int, j: int|
        0 <= i < j < canonical(ks).len() && is_modifier(canonical(ks)[i]) && is_modifier(
            canonical(ks)[j],
        ) implies crate::key_event::modifier_rank(canonical(ks)[i]->Modifier_0)
        < crate::key_event::modifier_rank(canonical(ks)[j]->Modifier_0) by {
        if j >= mods.len() {
            assert(canonical(ks)[j] == rest[j - mods.len()]);
        }
        if i >= mods.len() {
            assert(canonical(ks)[i] == rest[i - mods.len()]);
        }
        assert(canonical(ks)[i] == mods[i]);
        assert(canonical(ks)[j] == mods[j]);
    }
}

// --- canonical form: idempotence ---

proof fn lemma_non_modifier_part_concat(a: Seq<KeyCode>, b: Seq<KeyCode>)
    ensures
        non_modifier_part(a + b) == non_modifier_part(a) + non_modifier_part(b),
    decreases b.len(),
{
    if b.len() == 0 {
        assert(a + b =~= a);
        assert(non_modifier_part(a) + non_modifier_part(b) =~= non_modifier_part(a));
    } else {
        lemma_non_modifier_part_concat(a, b.drop_last());
        assert((a + b).drop_last() =~= a + b.drop_last());
        assert((a + b).last() == b.last());
        if !is_modifier(b.last()) {
            assert(non_modifier_part(a) + non_modifier_part(b) =~= non_modifier_part(a)
                + non_modifier_part(b.drop_last()) + seq![b.last()]);
            assert(non_modifier_part(a + b) =~= non_modifier_part(a + b.drop_last()) + seq![
                b.last(),
            ]);
        }
    }
}

proof fn lemma_non_modifier_part_all_mods(a: Seq<KeyCode>)
    requires
        forall|i: int| 0 <= i < a.len() ==> is_modifier(#[trigger] a[i]),
    ensures
        non_modifier_part(a) == Seq::<KeyCode>::empty(),
    decreases a.len(),
{
    if a.len() > 0 {
        lemma_non_modifier_part_all_mods(a.drop_last());
    }
}

proof fn lemma_non_modifier_part_no_mods(a: Seq<KeyCode>)
    requires
        forall|i: int| 0 <= i < a.len() ==> !is_modifier(#[trigger] a[i]),
    ensures
        non_modifier_part(a) == a,
    decreases a.len(),
{
    if a.len() > 0 {
        lemma_non_modifier_part_no_mods(a.drop_last());
        assert(non_modifier_part(a) =~= a);
    }
}

proof fn lemma_canonical_modifiers_upto_same(a: Seq<KeyCode>, b: Seq<KeyCode>, r: int)
    requires
        0 <= r <= 14,
        forall|m: ModifierKeyCode|
            #[trigger] a.contains(KeyCode::Modifier(m)) == b.contains(KeyCode::Modifier(m)),
    ensures
        canonical_modifiers_upto(a, r) == canonical_modifiers_upto(b, r),
    decreases r,
{
    if r > 0 {
        lemma_canonical_modifiers_upto_same(a, b, r - 1);
    }
}

proof fn lemma_canonical_modifiers_upto_contains(ks: Seq<KeyCode>, r: int, m: ModifierKeyCode)
    requires
        0 <= r <= 14,
        ks.contains(KeyCode::Modifier(m)),
        crate::key_event::modifier_rank(m) < r,
    ensures
        canonical_modifiers_upto(ks, r).contains(KeyCode::Modifier(m)),
    decreases r,
{
    assert(modifier_of_rank(crate::key_event::modifier_rank(m)) == m);
    if crate::key_event::modifier_rank(m) == r - 1 {
        let prev = canonical_modifiers_upto(ks, r - 1);
        assert(canonical_modifiers_upto(ks, r)[prev.len() as int] == KeyCode::Modifier(m));
    } else {
        lemma_canonical_modifiers_upto_contains(ks, r - 1, m);
        let prev = canonical_modifiers_upto(ks, r - 1);
        let i = choose|i: int| 0 <= i < prev.len() && prev[i] == KeyCode::Modifier(m);
        assert(canonical_modifiers_upto(ks, r)[i] == KeyCode::Modifier(m));
    }
}

/// Canonicalizing is idempotent: an already-canonical token list is returned
/// unchanged, with no value changed and nothing reordered.
pub proof fn lemma_canonical_idempotent(ks: Seq<KeyCode>)
    ensures
        canonical(canonical(ks)) == canonical(ks),
{
    let mods = canonical_modifiers_upto(ks, 14);
    let rest = non_modifier_part(ks);
    let c = canonical(ks);
    lemma_canonical_modifiers_upto_shape(ks, 14);
    lemma_non_modifier_part_shape(ks);

    // the non-modifier tail survives unchanged
    lemma_non_modifier_part_concat(mods, rest);
    lemma_non_modifier_part_all_mods(mods);
    lemma_non_modifier_part_no_mods(rest);
    assert(non_modifier_part(c) =~= rest);

    // the canonical list holds exactly the modifiers of the input list
    assert forall|m: ModifierKeyCode|
        #[trigger] c.contains(KeyCode::Modifier(m)) == ks.contains(KeyCode::Modifier(m)) by {
        if ks.contains(KeyCode::Modifier(m)) {
            lemma_canonical_modifiers_upto_contains(ks, 14, m);
            let i = choose|i: int| 0 <= i < mods.len() && mods[i] == KeyCode::Modifier(m);
            assert(c[i] == KeyCode::Modifier(m));
            assert(c.contains(KeyCode::Modifier(m)));
        }
        if c.contains(KeyCode::Modifier(m)) {
            let i = choose|i: int| 0 <= i < c.len() && c[i] == KeyCode::Modifier(m);
            if i < mods.len() {
                assert(mods.contains(KeyCode::Modifier(m)));
            } else {
                assert(rest[i - mods.len()] == KeyCode::Modifier(m));
            }
        }
    }
    lemma_canonical_modifiers_upto_same(c, ks, 14);
}

} // verus!
