//! Navigation and filtering state over an ingested keymap: the selected
//! category, the modifier-key filters, and the bound shortcuts they expose.

use vstd::prelude::*;

use crate::key_event::{KeyCode, ModifierKeyCode};
use crate::keymap::{lookup_category, KeyMap};
use crate::shortcut::{ActionModel, Shortcut};
use crate::text::str_eq;

verus! {

/// One shortcut of one action, flattened for display, with the verdict of
/// the modifier-key filter.
#[derive(Debug, Clone)]
pub struct BoundShortcut {
    pub label: String,
    pub enabled_in_ui: bool,
    pub shortcut: Shortcut,
}

/// The mathematical image of a [`BoundShortcut`].
pub struct BoundShortcutModel {
    pub label: Seq<char>,
    pub enabled_in_ui: bool,
    pub keystroke: Seq<KeyCode>,
}

impl View for BoundShortcut {
    type V = BoundShortcutModel;

    open spec fn view(&self) -> BoundShortcutModel {
        BoundShortcutModel {
            label: self.label@,
            enabled_in_ui: self.enabled_in_ui,
            keystroke: self.shortcut@,
        }
    }
}

impl BoundShortcut {
    /// The display name of the owning action.
    pub fn name(&self) -> (r: &str)
        ensures
            r@ == self@.label,
    {
        self.label.as_str()
    }

    /// Whether the shortcut passes the active modifier-key filter.
    pub fn enabled_in_ui(&self) -> (r: bool)
        ensures
            r == self@.enabled_in_ui,
    {
        self.enabled_in_ui
    }

    /// The shortcut itself.
    pub fn shortcut(&self) -> (r: &Shortcut)
        ensures
            r@ == self@.keystroke,
    {
        &self.shortcut
    }
}

/// Selection and filter state over one keymap.
pub struct KeyMapContext {
    pub keymap: KeyMap,
    pub categories: Vec<(String, usize)>,
    pub ordered_categories: Vec<usize>,
    pub current_category: Option<usize>,
    pub current_action: Option<usize>,
    pub filter_key_control: bool,
    pub filter_key_alt: bool,
    pub filter_key_shift: bool,
    pub filter_key_meta: bool,
}

impl KeyMapContext {
    /// The context's structural soundness: the category list mirrors the
    /// keymap's entries, the navigation order permutes indices into it, and
    /// the selection stays in bounds.
    pub open spec fn wf(&self) -> bool {
        &&& self.categories@.len() == self.keymap@.categories.len()
        &&& forall|i: int|
            0 <= i < self.categories@.len() ==> (#[trigger] self.categories@[i]).0@
                == self.keymap@.categories[i].0 && self.categories@[i].1
                == self.keymap@.categories[i].1.len()
        &&& self.ordered_categories@.len() == self.categories@.len()
        &&& forall|i: int|
            0 <= i < self.ordered_categories@.len() ==> (#[trigger] self.ordered_categories@[i])
                < self.categories@.len()
        &&& match self.current_category {
            Some(idx) => idx < self.ordered_categories@.len(),
            None => true,
        }
    }

    /// Build the context over a keymap: categories in enumeration order,
    /// the navigation order initially the identity, nothing selected, no
    /// filter held.
    pub fn new(keymap: KeyMap) -> (r: KeyMapContext)
        ensures
            r.wf(),
            r.keymap@ == keymap@,
            r.current_category is None,
            r.current_action is None,
            !r.filter_key_control && !r.filter_key_alt && !r.filter_key_shift
                && !r.filter_key_meta,
    {
        let categories = keymap.categories();
        let n = categories.len();
        let mut ordered_categories: Vec<usize> = Vec::new();
        let mut i: usize = 0;
        while i < n
            invariant
                i <= n,
                ordered_categories@.len() == i,
                forall|k: int| 0 <= k < i ==> (#[trigger] ordered_categories@[k]) == k,
            decreases n - i,
        {
            ordered_categories.push(i);
            i += 1;
        }
        KeyMapContext {
            keymap,
            categories,
            ordered_categories,
            current_category: None,
            current_action: None,
            filter_key_control: false,
            filter_key_alt: false,
            filter_key_shift: false,
            filter_key_meta: false,
        }
    }

    /// The category names, in enumeration order.
    pub fn unordered_categories(&self) -> (r: Vec<&str>)
        ensures
            r@.len() == self.categories@.len(),
            forall|i: int| 0 <= i < r@.len() ==> (#[trigger] r@[i])@ == self.categories@[i].0@,
    {
        let n = self.categories.len();
        let mut out: Vec<&str> = Vec::new();
        let mut i: usize = 0;
        while i < n
            invariant
                i <= n,
                n == self.categories@.len(),
                out@.len() == i,
                forall|k: int| 0 <= k < i ==> (#[trigger] out@[k])@ == self.categories@[k].0@,
            decreases n - i,
        {
            out.push(self.categories[i].0.as_str());
            i += 1;
        }
        out
    }

    /// Clear the category and action selection.
    pub fn deselect_category(&mut self)
        ensures
            final(self).current_category is None,
            final(self).current_action is None,
            final(self).keymap == old(self).keymap,
            final(self).categories == old(self).categories,
            final(self).ordered_categories == old(self).ordered_categories,
            final(self).filter_key_control == old(self).filter_key_control,
            final(self).filter_key_alt == old(self).filter_key_alt,
            final(self).filter_key_shift == old(self).filter_key_shift,
            final(self).filter_key_meta == old(self).filter_key_meta,
    {
        self.current_category = None;
        self.current_action = None;
    }

    /// Select the next category, wrapping at the end; an empty selection
    /// starts at the first. Clears the action selection.
    pub fn next_category(&mut self)
        requires
            old(self).wf(),
            old(self).categories@.len() > 0,
    ensures
            final(self).current_category == match old(self).current_category {
                None => Some(0usize),
                Some(idx) => if idx == old(self).categories@.len() - 1 {
                    Some(0usize)
                } else {
                    Some((idx + 1) as usize)
                },
            },
            final(self).current_action is None,
            final(self).keymap == old(self).keymap,
            final(self).categories == old(self).categories,
            final(self).ordered_categories == old(self).ordered_categories,
            final(self).filter_key_control == old(self).filter_key_control,
            final(self).filter_key_alt == old(self).filter_key_alt,
            final(self).filter_key_shift == old(self).filter_key_shift,
            final(self).filter_key_meta == old(self).filter_key_meta,
    {
        let last_index = self.categories.len() - 1;
        self.current_category = match self.current_category {
            None => Some(0),
            Some(idx) => if last_index == idx {
                Some(0)
            } else {
                Some(idx + 1)
            },
        };
        self.current_action = None;
    }

    /// Select the previous category, wrapping at the start; an empty
    /// selection starts at the first. Clears the action selection.
    pub fn previous_category(&mut self)
        requires
            old(self).wf(),
            old(self).categories@.len() > 0,
        ensures
            final(self).current_category == match old(self).current_category {
                None => Some(0usize),
                Some(idx) => if idx == 0 {
                    Some((old(self).categories@.len() - 1) as usize)
                } else {
                    Some((idx - 1) as usize)
                },
            },
            final(self).current_action is None,
            final(self).keymap == old(self).keymap,
            final(self).categories == old(self).categories,
            final(self).ordered_categories == old(self).ordered_categories,
            final(self).filter_key_control == old(self).filter_key_control,
            final(self).filter_key_alt == old(self).filter_key_alt,
            final(self).filter_key_shift == old(self).filter_key_shift,
            final(self).filter_key_meta == old(self).filter_key_meta,
    {
        self.current_category = match self.current_category {
            None => Some(0),
            Some(idx) => if idx == 0 {
                Some(self.categories.len() - 1)
            } else {
                Some(idx - 1)
            },
        };
        self.current_action = None;
    }

    /// The name of the selected category, through the navigation order.
    pub open spec fn spec_category(&self) -> Option<Seq<char>> {
        match self.current_category {
            None => None,
            Some(idx) => Some(
                self.categories@[self.ordered_categories@[idx as int] as int].0@,
            ),
        }
    }

    /// The selected category's name, if one is selected.
    pub fn category(&self) -> (r: Option<&str>)
        requires
            self.wf(),
        ensures
            match r {
                Some(name) => self.spec_category() == Some(name@),
                None => self.spec_category() is None,
            },
    {
        match self.current_category {
            None => None,
            Some(idx) => {
                let category_idx = self.ordered_categories[idx];
                Some(self.categories[category_idx].0.as_str())
            },
        }
    }

    /// The selected position in the navigation order, if any.
    pub fn category_idx(&self) -> (r: Option<usize>)
        ensures
            r == self.current_category,
    {
        self.current_category
    }

    /// The selected category's index in enumeration order, if any.
    pub fn sorted_category_idx(&self) -> (r: Option<usize>)
        requires
            self.wf(),
        ensures
            match self.current_category {
                None => r is None,
                Some(idx) => r == Some(self.ordered_categories@[idx as int]),
            },
    {
        match self.current_category {
            None => None,
            Some(idx) => Some(self.ordered_categories[idx]),
        }
    }

    /// Toggle the filter of the given modifier key's class. The Super pair
    /// shares the Meta filter; the remaining modifiers have no filter.
    pub fn toggle_filter_key(&mut self, key_code: ModifierKeyCode)
        requires
            !(key_code is IsoLevel3Shift || key_code is IsoLevel5Shift || key_code is LeftHyper
                || key_code is RightHyper),
        ensures
            final(self).filter_key_shift == (if key_code is LeftShift || key_code is RightShift {
                !old(self).filter_key_shift
            } else {
                old(self).filter_key_shift
            }),
            final(self).filter_key_control == (if key_code is LeftControl
                || key_code is RightControl {
                !old(self).filter_key_control
            } else {
                old(self).filter_key_control
            }),
            final(self).filter_key_alt == (if key_code is LeftAlt || key_code is RightAlt {
                !old(self).filter_key_alt
            } else {
                old(self).filter_key_alt
            }),
            final(self).filter_key_meta == (if key_code is LeftMeta || key_code is RightMeta
                || key_code is LeftSuper || key_code is RightSuper {
                !old(self).filter_key_meta
            } else {
                old(self).filter_key_meta
            }),
            final(self).keymap == old(self).keymap,
            final(self).categories == old(self).categories,
            final(self).ordered_categories == old(self).ordered_categories,
            final(self).current_category == old(self).current_category,
            final(self).current_action == old(self).current_action,
    {
        match key_code {
            ModifierKeyCode::LeftShift | ModifierKeyCode::RightShift => {
                self.filter_key_shift = !self.filter_key_shift;
            },
            ModifierKeyCode::LeftControl | ModifierKeyCode::RightControl => {
                self.filter_key_control = !self.filter_key_control;
            },
            ModifierKeyCode::LeftAlt | ModifierKeyCode::RightAlt => {
                self.filter_key_alt = !self.filter_key_alt;
            },
            ModifierKeyCode::LeftMeta | ModifierKeyCode::RightMeta => {
                self.filter_key_meta = !self.filter_key_meta;
            },
            _ => {
                self.filter_key_meta = !self.filter_key_meta;
            },
        }
    }

    /// Whether any modifier filter is held.
    pub open spec fn spec_uses_any_filter(&self) -> bool {
        self.filter_key_control || self.filter_key_shift || self.filter_key_alt
            || self.filter_key_meta
    }

    /// Whether a keystroke passes the modifier filter: with no filter held
    /// everything passes; otherwise the keystroke's left-modifier usage must
    /// agree with every held and unheld filter.
    pub open spec fn spec_shortcut_enabled(&self, ks: Seq<KeyCode>) -> bool {
        !self.spec_uses_any_filter() || (self.filter_key_control == ks.contains(
            KeyCode::Modifier(ModifierKeyCode::LeftControl),
        ) && self.filter_key_shift == ks.contains(KeyCode::Modifier(ModifierKeyCode::LeftShift))
            && self.filter_key_alt == ks.contains(KeyCode::Modifier(ModifierKeyCode::LeftAlt))
            && self.filter_key_meta == ks.contains(KeyCode::Modifier(ModifierKeyCode::LeftMeta)))
    }

    /// The flattened bound shortcuts of one action, in order.
    pub open spec fn spec_bounds_of_action(&self, a: ActionModel) -> Seq<BoundShortcutModel> {
        Seq::new(
            a.shortcuts.len(),
            |j: int| BoundShortcutModel {
                label: a.name,
                enabled_in_ui: self.spec_shortcut_enabled(a.shortcuts[j]),
                keystroke: a.shortcuts[j],
            },
        )
    }

    /// The flattened bound shortcuts of a category's actions, in order.
    pub open spec fn spec_bounds_of(&self, actions: Seq<ActionModel>) -> Seq<BoundShortcutModel>
        decreases actions.len(),
    {
        if actions.len() == 0 {
            Seq::empty()
        } else {
            self.spec_bounds_of_action(actions[0]) + self.spec_bounds_of(actions.drop_first())
        }
    }

    /// The index of `category` in enumeration order together with its
    /// actions' shortcuts, flattened and filtered.
    pub fn filtered_actions_by_category(&self, category: &str) -> (r: (
        usize,
        Vec<BoundShortcut>,
    ))
        requires
            self.wf(),
            lookup_category(self.keymap@.categories, category@) is Some,
        ensures
            r.0 < self.keymap@.categories.len(),
            self.keymap@.categories[r.0 as int].0 == category@,
            bound_models_of(r.1@) == self.spec_bounds_of(
                lookup_category(self.keymap@.categories, category@)->Some_0,
            ),
    {
        let ghost entries = self.keymap@.categories;
        let n = self.categories.len();
        let pos = find_category_pos(&self.categories, category);
        if pos == n {
            // unreachable: the category is present by precondition
            proof {
                lemma_lookup_index(entries, category@);
                let w = choose|w: int| 0 <= w < entries.len() && (#[trigger] entries[w]).0 == category@;
                assert(self.categories@[w].0@ == category@);
                assert(false);
            }
            return (0, Vec::new());
        }
        let actions = self.keymap.actions_by_category(category);
        let m = actions.len();
        let ghost amodels = lookup_category(entries, category@)->Some_0;
        let mut out: Vec<BoundShortcut> = Vec::new();
        let mut i: usize = 0;
        proof {
            assert(crate::keymap::action_models_of(actions@) == amodels);
            assert(amodels.skip(0) =~= amodels);
            assert(bound_models_of(out@) + self.spec_bounds_of(amodels) =~= self.spec_bounds_of(
                amodels,
            ));
        }
        while i < m
            invariant
                i <= m,
                self.wf(),
                m == actions@.len(),
                crate::keymap::action_models_of(actions@) == amodels,
                bound_models_of(out@) + self.spec_bounds_of(amodels.skip(i as int))
                    == self.spec_bounds_of(amodels),
            decreases m - i,
        {
            let ghost rest = amodels.skip(i as int);
            proof {
                assert(rest[0] == amodels[i as int]);
                assert(rest.drop_first() =~= amodels.skip(i + 1));
                assert(amodels[i as int] == actions@[i as int]@);
            }
            let action = &actions[i];
            let shortcuts = action.shortcuts();
            let k = shortcuts.len();
            let mut j: usize = 0;
            proof {
                assert(self.spec_bounds_of(rest) == self.spec_bounds_of_action(amodels[i as int])
                    + self.spec_bounds_of(amodels.skip(i + 1)));
            }
            while j < k
                invariant
                    j <= k,
                    i < m,
                    self.wf(),
                    m == actions@.len(),
                    crate::keymap::action_models_of(actions@) == amodels,
                    k == actions@[i as int]@.shortcuts.len(),
                    k == shortcuts@.len(),
                    crate::shortcut::keystrokes_of(shortcuts@) == actions@[i as int]@.shortcuts,
                    *action == actions@[i as int],
                    bound_models_of(out@) + self.spec_bounds_of_action(amodels[i as int]).skip(
                        j as int,
                    ) + self.spec_bounds_of(amodels.skip(i + 1)) == self.spec_bounds_of(amodels),
                    amodels[i as int] == actions@[i as int]@,
                decreases k - j,
            {
                let enabled = if self.filter_key_control || self.filter_key_shift
                    || self.filter_key_alt || self.filter_key_meta {
                    self.filter_key_control == shortcuts[j].uses_modifier(
                        ModifierKeyCode::LeftControl,
                    ) && self.filter_key_shift == shortcuts[j].uses_modifier(
                        ModifierKeyCode::LeftShift,
                    ) && self.filter_key_alt == shortcuts[j].uses_modifier(
                        ModifierKeyCode::LeftAlt,
                    ) && self.filter_key_meta == shortcuts[j].uses_modifier(
                        ModifierKeyCode::LeftMeta,
                    )
                } else {
                    true
                };
                let b = BoundShortcut {
                    label: action.name().to_owned(),
                    enabled_in_ui: enabled,
                    shortcut: shortcuts[j].clone(),
                };
                out.push(b);
                proof {
                    let a = amodels[i as int];
                    assert(shortcuts@[j as int]@ == a.shortcuts[j as int]);
                    assert(b@ == self.spec_bounds_of_action(a)[j as int]);
                    assert(bound_models_of(out@) =~= bound_models_of(out@.drop_last()).push(b@));
                    assert(self.spec_bounds_of_action(a).skip(j as int) =~= seq![
                        self.spec_bounds_of_action(a)[j as int],
                    ] + self.spec_bounds_of_action(a).skip(j + 1));
                    assert(bound_models_of(out@) + self.spec_bounds_of_action(a).skip(j + 1)
                        + self.spec_bounds_of(amodels.skip(i + 1)) =~= bound_models_of(
                        out@.drop_last(),
                    ) + self.spec_bounds_of_action(a).skip(j as int) + self.spec_bounds_of(
                        amodels.skip(i + 1),
                    ));
                }
                j += 1;
            }
            proof {
                let a = amodels[i as int];
                assert(self.spec_bounds_of_action(a).skip(k as int)
                    =~= Seq::<BoundShortcutModel>::empty());
                assert(bound_models_of(out@) + self.spec_bounds_of(amodels.skip(i + 1))
                    =~= bound_models_of(out@) + self.spec_bounds_of_action(a).skip(k as int)
                    + self.spec_bounds_of(amodels.skip(i + 1)));
            }
            i += 1;
        }
        proof {
            assert(amodels.skip(m as int) =~= Seq::<ActionModel>::empty());
            assert(bound_models_of(out@) + self.spec_bounds_of(amodels.skip(m as int))
                =~= bound_models_of(out@));
        }
        (pos, out)
    }

    /// The selected category's shortcuts, flattened and filtered; empty
    /// when nothing is selected.
    pub fn filtered_actions(&self) -> (r: Vec<BoundShortcut>)
        requires
            self.wf(),
            match self.spec_category() {
                Some(name) => lookup_category(self.keymap@.categories, name) is Some,
                None => true,
            },
        ensures
            match self.spec_category() {
                Some(name) => bound_models_of(r@) == self.spec_bounds_of(
                    lookup_category(self.keymap@.categories, name)->Some_0,
                ),
                None => r@.len() == 0,
            },
    {
        match self.category() {
            Some(category) => self.filtered_actions_by_category(category).1,
            None => Vec::new(),
        }
    }
}

/// The models of a list of bound shortcuts.
pub open spec fn bound_models_of(v: Seq<BoundShortcut>) -> Seq<BoundShortcutModel> {
    Seq::new(v.len(), |i: int| v[i]@)
}

/// When a category is present, its position under `lookup_category` is a
/// real index of the entry list.
proof fn lemma_lookup_index(entries: Seq<(Seq<char>, Seq<ActionModel>)>, cat: Seq<char>)
    requires
        lookup_category(entries, cat) is Some,
    ensures
        exists|w: int| 0 <= w < entries.len() && (#[trigger] entries[w]).0 == cat,
    decreases entries.len(),
{
    if entries.len() > 0 {
        if entries[0].0 == cat {
            assert(entries[0].0 == cat);
        } else {
            lemma_lookup_index(entries.drop_first(), cat);
            let w = choose|w: int|
                0 <= w < entries.drop_first().len() && (#[trigger] entries.drop_first()[w]).0
                    == cat;
            assert(entries[w + 1].0 == cat);
        }
    }
}

/// The index in `categories` of the entry named `cat`, or the length when
/// no entry has that name.
fn find_category_pos(categories: &Vec<(String, usize)>, cat: &str) -> (r: usize)
    ensures
        r <= categories@.len(),
        r < categories@.len() ==> categories@[r as int].0@ == cat@,
        forall|k: int| 0 <= k < r ==> (#[trigger] categories@[k]).0@ != cat@,
{
    let n = categories.len();
    let mut i: usize = 0;
    while i < n
        invariant
            i <= n,
            n == categories@.len(),
            forall|k: int| 0 <= k < i ==> (#[trigger] categories@[k]).0@ != cat@,
        decreases n - i,
    {
        if str_eq(categories[i].0.as_str(), cat) {
            return i;
        }
        i += 1;
    }
    n
}

} // verus!
