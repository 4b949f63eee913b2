//! The normalized, immutable result of ingesting one shortcut document:
//! categories mapped to the ordered actions that survived for them.

use vstd::prelude::*;

use crate::shortcut::{Action, ActionModel};
use crate::text::str_eq;

verus! {

/// A keymap: a source name and a mapping from category name to the ordered
/// actions of that category. Keys are unique; enumeration order carries no
/// meaning.
#[derive(Debug)]
pub struct KeyMap {
    pub name: String,
    pub actions: Vec<(String, Vec<Action>)>,
}

/// The mathematical image of a [`KeyMap`].
pub struct KeyMapModel {
    pub name: Seq<char>,
    pub categories: Seq<(Seq<char>, Seq<ActionModel>)>,
}

impl View for KeyMap {
    type V = KeyMapModel;

    open spec fn view(&self) -> KeyMapModel {
        KeyMapModel { name: self.name@, categories: entries_of(self.actions@) }
    }
}

/// The action models of a list of actions.
pub open spec fn action_models_of(actions: Seq<Action>) -> Seq<ActionModel> {
    Seq::new(actions.len(), |i: int| actions[i]@)
}

/// The category entries of the stored association list.
pub open spec fn entries_of(v: Seq<(String, Vec<Action>)>) -> Seq<(Seq<char>, Seq<ActionModel>)> {
    Seq::new(v.len(), |i: int| (v[i].0@, action_models_of(v[i].1@)))
}

/// Whether the category names of `entries` are pairwise distinct.
pub open spec fn distinct_keys(entries: Seq<(Seq<char>, Seq<ActionModel>)>) -> bool {
    forall|i: int, j: int|
        0 <= i < j < entries.len() ==> (#[trigger] entries[i].0) != (#[trigger] entries[j].0)
}

/// The actions mapped to `cat`: the first entry with that name, if any.
pub open spec fn lookup_category(
    entries: Seq<(Seq<char>, Seq<ActionModel>)>,
    cat: Seq<char>,
) -> Option<Seq<ActionModel>>
    decreases entries.len(),
{
    if entries.len() == 0 {
        None
    } else if entries[0].0 == cat {
        Some(entries[0].1)
    } else {
        lookup_category(entries.drop_first(), cat)
    }
}

/// All action models of `entries`, category by category, in entry order.
pub open spec fn flatten_entries(entries: Seq<(Seq<char>, Seq<ActionModel>)>) -> Seq<ActionModel>
    decreases entries.len(),
{
    if entries.len() == 0 {
        Seq::empty()
    } else {
        entries[0].1 + flatten_entries(entries.drop_first())
    }
}

/// Every category of `entries` holds at least one action, and every action
/// holds at least one shortcut.
pub open spec fn entries_complete(entries: Seq<(Seq<char>, Seq<ActionModel>)>) -> bool {
    forall|i: int|
        0 <= i < entries.len() ==> (#[trigger] entries[i]).1.len() > 0 && forall|j: int|
            0 <= j < entries[i].1.len() ==> (#[trigger] entries[i].1[j]).shortcuts.len() > 0
}

impl KeyMap {
    /// Wrap a finished category map under a source name.
    pub fn new(name: &str, actions: Vec<(String, Vec<Action>)>) -> (r: KeyMap)
        requires
            distinct_keys(entries_of(actions@)),
        ensures
            r@.name == name@,
            r@.categories == entries_of(actions@),
    {
        KeyMap { name: name.to_owned(), actions }
    }

    /// The actions of `category`; empty when the category is unknown.
    pub fn actions_by_category(&self, category: &str) -> (r: &[Action])
        ensures
            match lookup_category(self@.categories, category@) {
                Some(actions) => action_models_of(r@) == actions,
                None => r@.len() == 0,
            },
    {
        let n = self.actions.len();
        proof {
            assert(entries_of(self.actions@).skip(0) =~= entries_of(self.actions@));
        }
        let mut i: usize = 0;
        while i < n
            invariant
                i <= n,
                n == self.actions@.len(),
                lookup_category(self@.categories, category@) == lookup_category(
                    entries_of(self.actions@).skip(i as int),
                    category@,
                ),
            decreases n - i,
        {
            let ghost rest = entries_of(self.actions@).skip(i as int);
            proof {
                assert(rest[0] == entries_of(self.actions@)[i as int]);
                assert(rest.drop_first() =~= entries_of(self.actions@).skip(i + 1));
            }
            if str_eq(self.actions[i].0.as_str(), category) {
                return self.actions[i].1.as_slice();
            }
            i += 1;
        }
        proof {
            assert(entries_of(self.actions@).skip(n as int) =~= Seq::<(
                Seq<char>,
                Seq<ActionModel>,
            )>::empty());
        }
        &[]
    }

    /// The stored association list itself.
    pub fn category_map(&self) -> (r: &Vec<(String, Vec<Action>)>)
        ensures
            entries_of(r@) == self@.categories,
    {
        &self.actions
    }

    /// Every action of every category, flattened in enumeration order.
    pub fn actions(&self) -> (r: Vec<Action>)
        ensures
            action_models_of(r@) == flatten_entries(self@.categories),
    {
        let n = self.actions.len();
        proof {
            assert(entries_of(self.actions@).skip(0) =~= entries_of(self.actions@));
            assert(action_models_of(Seq::<Action>::empty()) =~= Seq::<ActionModel>::empty());
            assert(Seq::<ActionModel>::empty() + flatten_entries(entries_of(self.actions@))
                =~= flatten_entries(entries_of(self.actions@)));
        }
        let mut out: Vec<Action> = Vec::new();
        let mut i: usize = 0;
        while i < n
            invariant
                i <= n,
                n == self.actions@.len(),
                action_models_of(out@) + flatten_entries(entries_of(self.actions@).skip(i as int))
                    == flatten_entries(self@.categories),
            decreases n - i,
        {
            let ghost rest = entries_of(self.actions@).skip(i as int);
            proof {
                assert(rest[0] == entries_of(self.actions@)[i as int]);
                assert(rest.drop_first() =~= entries_of(self.actions@).skip(i + 1));
            }
            let m = self.actions[i].1.len();
            let mut j: usize = 0;
            while j < m
                invariant
                    j <= m,
                    i < n,
                    n == self.actions@.len(),
                    m == self.actions@[i as int].1@.len(),
                    action_models_of(out@) + action_models_of(
                        self.actions@[i as int].1@.skip(j as int),
                    ) + flatten_entries(entries_of(self.actions@).skip(i + 1)) == flatten_entries(
                        self@.categories,
                    ),
                decreases m - j,
            {
                out.push(self.actions[i].1[j].clone());
                proof {
                    let inner = self.actions@[i as int].1@;
                    assert(action_models_of(out@) =~= action_models_of(out@.drop_last()).push(
                        inner[j as int]@,
                    ));
                    assert(action_models_of(inner.skip(j as int)) =~= seq![inner[j as int]@]
                        + action_models_of(inner.skip(j + 1)));
                    assert(action_models_of(out@) + action_models_of(inner.skip(j + 1))
                        + flatten_entries(entries_of(self.actions@).skip(i + 1)) =~= action_models_of(
                        out@.drop_last(),
                    ) + action_models_of(inner.skip(j as int)) + flatten_entries(
                        entries_of(self.actions@).skip(i + 1),
                    ));
                }
                j += 1;
            }
            proof {
                let inner = self.actions@[i as int].1@;
                assert(action_models_of(inner.skip(m as int)) =~= Seq::<ActionModel>::empty());
                assert(action_models_of(out@) + flatten_entries(
                    entries_of(self.actions@).skip(i + 1),
                ) =~= action_models_of(out@) + action_models_of(inner.skip(m as int))
                    + flatten_entries(entries_of(self.actions@).skip(i + 1)));
                assert(rest.len() > 0);
                assert(flatten_entries(rest) == rest[0].1 + flatten_entries(rest.drop_first()));
                assert(action_models_of(inner) == rest[0].1);
            }
            i += 1;
        }
        proof {
            assert(entries_of(self.actions@).skip(n as int) =~= Seq::<(
                Seq<char>,
                Seq<ActionModel>,
            )>::empty());
            assert(action_models_of(out@) + flatten_entries(
                entries_of(self.actions@).skip(n as int),
            ) =~= action_models_of(out@));
        }
        out
    }

    /// Each category name with its action count, in enumeration order.
    pub fn categories(&self) -> (r: Vec<(String, usize)>)
        ensures
            r@.len() == self@.categories.len(),
            forall|i: int|
                0 <= i < r@.len() ==> (#[trigger] r@[i]).0@ == self@.categories[i].0 && r@[i].1
                    == self@.categories[i].1.len(),
    {
        let n = self.actions.len();
        let mut out: Vec<(String, usize)> = Vec::new();
        let mut i: usize = 0;
        while i < n
            invariant
                i <= n,
                n == self.actions@.len(),
                out@.len() == i,
                forall|k: int|
                    0 <= k < i ==> (#[trigger] out@[k]).0@ == self@.categories[k].0 && out@[k].1
                        == self@.categories[k].1.len(),
            decreases n - i,
        {
            let name = self.actions[i].0.clone();
            let count = self.actions[i].1.len();
            out.push((name, count));
            i += 1;
        }
        out
    }
}

} // verus!
