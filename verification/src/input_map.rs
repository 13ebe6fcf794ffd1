//! The input map: an ordered mapping from each action of the user's closed
//! enumeration (identified by its ordinal) to its bound input combinations,
//! with an optional associated gamepad.

use vstd::prelude::*;

use crate::user_input::InputCombination;
use crate::user_input::InputSnapshot;

verus! {

/// Associates each action with its list of bound input combinations,
/// insertion order preserved. One slot per action of the enumeration; an
/// empty list means the action never fires. An optional associated gamepad
/// restricts gamepad bindings to that gamepad; absent means any gamepad.
#[derive(Clone, Debug)]
pub struct InputMap {
    /// Slot `a` holds the combinations bound to the action of ordinal `a`.
    pub bindings: Vec<Vec<InputCombination>>,
    /// The gamepad whose buttons satisfy gamepad bindings; `None` accepts
    /// input from any connected gamepad.
    pub associated_gamepad: Option<u32>,
}

impl InputMap {
    /// The number of actions in the enumeration this map was built for.
    pub open spec fn spec_n_actions(self) -> int {
        self.bindings@.len() as int
    }

    /// Well-formedness: every bound combination is itself well-formed.
    pub open spec fn wf(self) -> bool {
        forall|a: int, k: int|
            0 <= a < self.bindings@.len() && 0 <= k < self.bindings@[a]@.len()
                ==> (#[trigger] self.bindings@[a]@[k]).wf()
    }

    /// Whether combination `k` bound to action `a` is satisfied by `snap`.
    pub open spec fn spec_satisfied(self, snap: InputSnapshot, a: int, k: int) -> bool {
        self.bindings@[a]@[k].spec_satisfied(snap, self.associated_gamepad)
    }

    /// An action is a candidate when at least one of its bound combinations
    /// is satisfied; only candidates enter clash resolution.
    pub open spec fn spec_candidate(self, snap: InputSnapshot, a: int) -> bool {
        exists|k: int| 0 <= k < self.bindings@[a]@.len() && self.spec_satisfied(snap, a, k)
    }

    /// A map for an enumeration of `n_actions` actions, with no bindings
    /// and no associated gamepad.
    pub fn new(n_actions: usize) -> (map: Self)
        ensures
            map.spec_n_actions() == n_actions,
            forall|a: int| 0 <= a < n_actions ==> map.bindings@[a]@.len() == 0,
            map.associated_gamepad is None,
            map.wf(),
    {
        let mut bindings: Vec<Vec<InputCombination>> = Vec::new();
        let mut a: usize = 0;
        while a < n_actions
            invariant
                a <= n_actions,
                bindings@.len() == a,
                forall|j: int| 0 <= j < a ==> bindings@[j]@.len() == 0,
            decreases n_actions - a,
        {
            bindings.push(Vec::new());
            a += 1;
        }
        InputMap { bindings, associated_gamepad: Option::None }
    }

    /// The number of actions in the enumeration this map was built for.
    pub fn n_actions(&self) -> (n: usize)
        ensures
            n == self.spec_n_actions(),
    {
        self.bindings.len()
    }

    /// The associated gamepad, if any.
    pub fn gamepad(&self) -> (g: Option<u32>)
        ensures
            g == self.associated_gamepad,
    {
        self.associated_gamepad
    }

    /// Associates the map with one gamepad, or with any (`None`).
    pub fn set_gamepad(&mut self, gamepad: Option<u32>)
        ensures
            final(self).bindings == old(self).bindings,
            final(self).associated_gamepad == gamepad,
    {
        self.associated_gamepad = gamepad;
    }

    /// Appends `combination` to the action's list. No deduplication is
    /// enforced and nothing can fail: a duplicate binding is redundant but
    /// harmless.
    pub fn insert(&mut self, action: usize, combination: InputCombination)
        requires
            action < old(self).spec_n_actions(),
            combination.wf(),
        ensures
            final(self).bindings@.len() == old(self).bindings@.len(),
            forall|a: int|
                0 <= a < old(self).bindings@.len() && a != action ==> final(self).bindings@[a]
                    == old(self).bindings@[a],
            final(self).bindings@[action as int]@ == old(self).bindings@[
                action as int
            ]@.push(combination),
            final(self).associated_gamepad == old(self).associated_gamepad,
            old(self).wf() ==> final(self).wf(),
    {
        let ghost orig = self.bindings@;
        let mut list = self.bindings.remove(action);
        let ghost removed = self.bindings@;
        list.push(combination);
        self.bindings.insert(action, list);
        proof {
            orig.remove_ensures(action as int);
            removed.insert_ensures(action as int, list);
            assert forall|a: int|
                0 <= a < orig.len() && a != action implies self.bindings@[a] == orig[a] by {
                if a < action {
                    assert(removed[a] == orig[a]);
                    assert(self.bindings@[a] == removed[a]);
                } else {
                    assert(removed[a - 1] == orig[a]);
                    assert(self.bindings@[(a - 1) + 1] == removed[a - 1]);
                }
            }
            assert(self.bindings@[action as int] == list);
            if old(self).wf() {
                assert forall|a: int, k: int|
                    0 <= a < self.bindings@.len() && 0 <= k < self.bindings@[a]@.len() implies (
                #[trigger] self.bindings@[a]@[k]).wf() by {
                    if a == action {
                        if k < old(self).bindings@[a]@.len() {
                            assert(self.bindings@[a]@[k] == old(self).bindings@[a]@[k]);
                        } else {
                            assert(self.bindings@[a]@[k] == combination);
                        }
                    }
                }
            }
        }
    }

    /// Binds a single raw input to `action`.
    pub fn insert_single(&mut self, action: usize, raw: crate::user_input::RawInput)
        requires
            action < old(self).spec_n_actions(),
        ensures
            final(self).bindings@.len() == old(self).bindings@.len(),
            forall|a: int|
                0 <= a < old(self).bindings@.len() && a != action ==> final(self).bindings@[a]
                    == old(self).bindings@[a],
            final(self).bindings@[action as int]@.len() == old(self).bindings@[
                action as int
            ]@.len() + 1,
            forall|k: int|
                0 <= k < old(self).bindings@[action as int]@.len() ==> final(self).bindings@[
                    action as int
                ]@[k] == old(self).bindings@[action as int]@[k],
            final(self).bindings@[action as int]@.last().inputs@.len() == 1,
            final(self).bindings@[action as int]@.last().inputs@[0] == raw,
            final(self).associated_gamepad == old(self).associated_gamepad,
            old(self).wf() ==> final(self).wf(),
    {
        let combination = InputCombination::single(raw);
        self.insert(action, combination);
    }
}

} // verus!
