//! The action registry: named actions, each with a shortcut derived from the
//! uppercase letters of its name, kept in a fixed order.

use vstd::prelude::*;
use crate::text::{derive_shortcut, shortcut_of};

verus! {

/// A named, invokable unit. The callback is whatever the caller runs to
/// invoke it; the library only reads the name and the shortcut.
pub struct Action<Callback> {
    pub name: String,
    pub shortcut: String,
    pub callback: Callback,
}

impl<Callback> Action<Callback> {
    /// The shortcut agrees with the name.
    pub open spec fn wf(&self) -> bool {
        self.shortcut@ == shortcut_of(self.name@)
    }

    /// Makes an action whose shortcut is the uppercase letters of `name`.
    pub fn new(name: &str, callback: Callback) -> (r: Self)
        ensures
            r.name@ == name@,
            r.shortcut@ == shortcut_of(name@),
            r.callback == callback,
            r.wf(),
    {
        Action { name: name.to_owned(), shortcut: derive_shortcut(name), callback }
    }
}

/// The shortcuts of a registry, in order.
pub open spec fn shortcuts<C>(actions: Seq<Action<C>>) -> Seq<Seq<char>> {
    actions.map_values(|a: Action<C>| a.shortcut@)
}

/// The names of a registry, in order.
pub open spec fn names<C>(actions: Seq<Action<C>>) -> Seq<Seq<char>> {
    actions.map_values(|a: Action<C>| a.name@)
}

/// Whether `i` is the first position whose shortcut equals `s`.
pub open spec fn first_with(sc: Seq<Seq<char>>, s: Seq<char>, i: int) -> bool {
    &&& 0 <= i < sc.len()
    &&& sc[i] == s
    &&& forall|j: int| 0 <= j < i ==> sc[j] != s
}

/// Whether some position holds the shortcut `s`.
pub open spec fn has_shortcut(sc: Seq<Seq<char>>, s: Seq<char>) -> bool {
    exists|j: int| 0 <= j < sc.len() && sc[j] == s
}

/// Looks an action up by its exact shortcut: the first one in registry
/// order that has it.
pub fn find_action<C>(actions: &Vec<Action<C>>, shortcut: &String) -> (r: Option<usize>)
    ensures
        match r {
            Some(i) => first_with(shortcuts(actions@), shortcut@, i as int),
            None => !has_shortcut(shortcuts(actions@), shortcut@),
        },
{
    let mut i: usize = 0;
    while i < actions.len()
        invariant
            i <= actions@.len(),
            forall|j: int| 0 <= j < i ==> shortcuts(actions@)[j] != shortcut@,
        decreases actions@.len() - i,
    {
        if actions[i].shortcut == *shortcut {
            return Some(i);
        }
        i = i + 1;
    }
    None
}

} // verus!
