//! Clash detection and resolution: deciding which candidate actions stay
//! pressed when their satisfied input combinations overlap.
//!
//! Two distinct candidate actions clash when a satisfied combination of
//! one is a proper subset, as a set of raw inputs, of a satisfied
//! combination of the other: physically holding the larger chord cannot
//! help satisfying the smaller binding. The clash strategy then decides
//! which of the pair is dropped; an action dropped by any pairing is
//! excluded from the final pressed set and is never revived by another
//! pairing.

use vstd::prelude::*;

use crate::input_map::InputMap;
use crate::user_input::InputSnapshot;

verus! {

/// How to resolve clashing actions, supplied as resolution configuration.
#[derive(Clone, Copy, PartialEq, Eq, Structural, Debug)]
pub enum ClashStrategy {
    /// No pruning: every candidate stays pressed regardless of clashes.
    PressAll,
    /// The action whose longest satisfied combination is strictly longer
    /// wins; the other is dropped. Equal longest lengths keep both.
    PrioritizeLongest,
    /// The action declared earlier in the enumeration (lower ordinal) wins,
    /// irrespective of combination length.
    UseActionOrder,
}

impl InputMap {
    /// Actions `a` and `b` clash when a satisfied combination of one is a
    /// proper subset of a satisfied combination of the other.
    pub open spec fn spec_clash(self, snap: InputSnapshot, a: int, b: int) -> bool {
        exists|k: int, l: int|
            0 <= k < self.bindings@[a]@.len() && 0 <= l < self.bindings@[b]@.len()
                && self.spec_satisfied(snap, a, k) && self.spec_satisfied(snap, b, l) && (
            #[trigger] self.bindings@[a]@[k].spec_clashes_with(self.bindings@[b]@[l]))
    }

    /// The longest satisfied combination of `a` is strictly shorter than the
    /// longest satisfied combination of `b`: every satisfied combination of
    /// `a` has fewer raw inputs than some satisfied combination of `b`.
    pub open spec fn spec_longest_lt(self, snap: InputSnapshot, a: int, b: int) -> bool {
        exists|l: int|
            0 <= l < self.bindings@[b]@.len() && #[trigger] self.spec_satisfied(snap, b, l)
                && forall|k: int|
                0 <= k < self.bindings@[a]@.len() && #[trigger] self.spec_satisfied(snap, a, k)
                    ==> self.bindings@[a]@[k].spec_len() < self.bindings@[b]@[l].spec_len()
    }

    /// The final pressed set: action `a` is pressed when it is a candidate
    /// and no pairing under `strategy` drops it.
    pub open spec fn spec_resolved(
        self,
        snap: InputSnapshot,
        strategy: ClashStrategy,
        a: int,
    ) -> bool {
        self.spec_candidate(snap, a) && match strategy {
            ClashStrategy::PressAll => true,
            ClashStrategy::PrioritizeLongest => forall|b: int|
                0 <= b < self.spec_n_actions() && b != a && #[trigger] self.spec_clash(snap, a, b)
                    ==> !self.spec_longest_lt(snap, a, b),
            ClashStrategy::UseActionOrder => forall|b: int|
                0 <= b < a ==> !(#[trigger] self.spec_clash(snap, a, b)),
        }
    }

    /// Whether at least one combination bound to `action` is satisfied.
    pub fn is_candidate(&self, snap: &InputSnapshot, action: usize) -> (r: bool)
        requires
            action < self.spec_n_actions(),
        ensures
            r == self.spec_candidate(*snap, action as int),
    {
        let list = &self.bindings[action];
        let mut k: usize = 0;
        while k < list.len()
            invariant
                k <= list@.len(),
                list@ == self.bindings@[action as int]@,
                forall|j: int| 0 <= j < k ==> !self.spec_satisfied(*snap, action as int, j),
            decreases list@.len() - k,
        {
            if list[k].is_satisfied(snap, self.associated_gamepad) {
                assert(self.spec_satisfied(*snap, action as int, k as int));
                return true;
            }
            k += 1;
        }
        false
    }

    /// Whether actions `a` and `b` clash under the current snapshot.
    pub fn clashes_with(&self, snap: &InputSnapshot, a: usize, b: usize) -> (r: bool)
        requires
            a < self.spec_n_actions(),
            b < self.spec_n_actions(),
        ensures
            r == self.spec_clash(*snap, a as int, b as int),
    {
        let list_a = &self.bindings[a];
        let list_b = &self.bindings[b];
        let mut k: usize = 0;
        while k < list_a.len()
            invariant
                k <= list_a@.len(),
                list_a@ == self.bindings@[a as int]@,
                list_b@ == self.bindings@[b as int]@,
                forall|k2: int, l2: int|
                    0 <= k2 < k && 0 <= l2 < list_b@.len() ==> !(self.spec_satisfied(
                        *snap,
                        a as int,
                        k2,
                    ) && self.spec_satisfied(*snap, b as int, l2) && (
                    #[trigger] self.bindings@[a as int]@[k2].spec_clashes_with(
                        self.bindings@[b as int]@[l2],
                    ))),
            decreases list_a@.len() - k,
        {
            if list_a[k].is_satisfied(snap, self.associated_gamepad) {
                let mut l: usize = 0;
                while l < list_b.len()
                    invariant
                        l <= list_b@.len(),
                        k < list_a@.len(),
                        list_a@ == self.bindings@[a as int]@,
                        list_b@ == self.bindings@[b as int]@,
                        self.spec_satisfied(*snap, a as int, k as int),
                        forall|l2: int|
                            0 <= l2 < l ==> !(self.spec_satisfied(*snap, b as int, l2) && (
                            #[trigger] self.bindings@[a as int]@[k as int].spec_clashes_with(
                                self.bindings@[b as int]@[l2],
                            ))),
                    decreases list_b@.len() - l,
                {
                    if list_b[l].is_satisfied(snap, self.associated_gamepad) && list_a[k].clashes_with(
                        &list_b[l],
                    ) {
                        assert(self.spec_satisfied(*snap, b as int, l as int));
                        assert(self.bindings@[a as int]@[k as int].spec_clashes_with(
                            self.bindings@[b as int]@[l as int],
                        ));
                        return true;
                    }
                    l += 1;
                }
            }
            k += 1;
        }
        false
    }

    /// Whether the longest satisfied combination of `a` is strictly shorter
    /// than the longest satisfied combination of `b`.
    pub fn longest_shorter_than(&self, snap: &InputSnapshot, a: usize, b: usize) -> (r: bool)
        requires
            a < self.spec_n_actions(),
            b < self.spec_n_actions(),
        ensures
            r == self.spec_longest_lt(*snap, a as int, b as int),
    {
        let list_a = &self.bindings[a];
        let mut best_a: Option<usize> = Option::None;
        let mut k: usize = 0;
        while k < list_a.len()
            invariant
                k <= list_a@.len(),
                list_a@ == self.bindings@[a as int]@,
                match best_a {
                    Option::Some(m) => (exists|k2: int|
                        0 <= k2 < k && #[trigger] self.spec_satisfied(*snap, a as int, k2)
                            && self.bindings@[a as int]@[k2].spec_len() == m) && (forall|k2: int|
                        0 <= k2 < k && #[trigger] self.spec_satisfied(*snap, a as int, k2)
                            ==> self.bindings@[a as int]@[k2].spec_len() <= m),
                    Option::None => forall|k2: int|
                        0 <= k2 < k ==> !(#[trigger] self.spec_satisfied(*snap, a as int, k2)),
                },
            decreases list_a@.len() - k,
        {
            if list_a[k].is_satisfied(snap, self.associated_gamepad) {
                assert(self.spec_satisfied(*snap, a as int, k as int));
                let len_k = list_a[k].len();
                match best_a {
                    Option::Some(m) => {
                        if len_k > m {
                            best_a = Option::Some(len_k);
                        }
                    },
                    Option::None => {
                        best_a = Option::Some(len_k);
                    },
                }
            }
            k += 1;
        }
        let list_b = &self.bindings[b];
        let mut l: usize = 0;
        while l < list_b.len()
            invariant
                l <= list_b@.len(),
                list_a@ == self.bindings@[a as int]@,
                list_b@ == self.bindings@[b as int]@,
                match best_a {
                    Option::Some(m) => (exists|k2: int|
                        0 <= k2 < list_a@.len() && #[trigger] self.spec_satisfied(*snap, a as int, k2)
                            && self.bindings@[a as int]@[k2].spec_len() == m) && (forall|k2: int|
                        0 <= k2 < list_a@.len() && #[trigger] self.spec_satisfied(*snap, a as int, k2)
                            ==> self.bindings@[a as int]@[k2].spec_len() <= m),
                    Option::None => forall|k2: int|
                        0 <= k2 < list_a@.len() ==> !(#[trigger] self.spec_satisfied(
                            *snap,
                            a as int,
                            k2,
                        )),
                },
                forall|l2: int|
                    0 <= l2 < l && #[trigger] self.spec_satisfied(*snap, b as int, l2) ==> (
                    match best_a {
                        Option::Some(m) => self.bindings@[b as int]@[l2].spec_len() <= m,
                        Option::None => false,
                    }),
            decreases list_b@.len() - l,
        {
            if list_b[l].is_satisfied(snap, self.associated_gamepad) {
                assert(self.spec_satisfied(*snap, b as int, l as int));
                let len_l = list_b[l].len();
                let beats = match best_a {
                    Option::Some(m) => len_l > m,
                    Option::None => true,
                };
                if beats {
                    proof {
                        assert forall|k2: int|
                            0 <= k2 < self.bindings@[a as int]@.len() && #[trigger] self.spec_satisfied(
                                *snap,
                                a as int,
                                k2,
                            ) implies self.bindings@[a as int]@[k2].spec_len() < self.bindings@[
                            b as int
                        ]@[l as int].spec_len() by {}
                    }
                    return true;
                }
            }
            l += 1;
        }
        proof {
            if self.spec_longest_lt(*snap, a as int, b as int) {
                let l2 = choose|l2: int|
                    0 <= l2 < self.bindings@[b as int]@.len() && #[trigger] self.spec_satisfied(
                        *snap,
                        b as int,
                        l2,
                    ) && forall|k2: int|
                        0 <= k2 < self.bindings@[a as int]@.len() && #[trigger] self.spec_satisfied(
                            *snap,
                            a as int,
                            k2,
                        ) ==> self.bindings@[a as int]@[k2].spec_len() < self.bindings@[
                        b as int
                    ]@[l2].spec_len();
                match best_a {
                    Option::Some(m) => {
                        let k2 = choose|k2: int|
                            0 <= k2 < self.bindings@[a as int]@.len()
                                && #[trigger] self.spec_satisfied(*snap, a as int, k2)
                                && self.bindings@[a as int]@[k2].spec_len() == m;
                        assert(self.bindings@[b as int]@[l2].spec_len() <= m);
                        assert(self.bindings@[a as int]@[k2].spec_len() < self.bindings@[
                            b as int
                        ]@[l2].spec_len());
                    },
                    Option::None => {
                        assert(!self.spec_satisfied(*snap, b as int, l2));
                    },
                }
            }
        }
        false
    }

    /// Evaluates every action's bindings against `snap` and resolves clashes
    /// under `strategy`: slot `a` of the result says whether the action of
    /// ordinal `a` is pressed this tick.
    pub fn which_pressed(&self, snap: &InputSnapshot, strategy: ClashStrategy) -> (pressed: Vec<
        bool,
    >)
        ensures
            pressed@.len() == self.spec_n_actions(),
            forall|a: int|
                0 <= a < self.spec_n_actions() ==> pressed@[a] == self.spec_resolved(
                    *snap,
                    strategy,
                    a,
                ),
    {
        let n = self.bindings.len();
        let mut pressed: Vec<bool> = Vec::new();
        let mut a: usize = 0;
        while a < n
            invariant
                a <= n,
                n == self.spec_n_actions(),
                pressed@.len() == a,
                forall|a2: int|
                    0 <= a2 < a ==> pressed@[a2] == self.spec_resolved(*snap, strategy, a2),
            decreases n - a,
        {
            let mut keep = self.is_candidate(snap, a);
            if keep {
                match strategy {
                    ClashStrategy::PressAll => {},
                    ClashStrategy::PrioritizeLongest => {
                        let mut b: usize = 0;
                        while b < n
                            invariant
                                b <= n,
                                n == self.spec_n_actions(),
                                a < n,
                                self.spec_candidate(*snap, a as int),
                                keep == (forall|b2: int|
                                    0 <= b2 < b && b2 != a && #[trigger] self.spec_clash(
                                        *snap,
                                        a as int,
                                        b2,
                                    ) ==> !self.spec_longest_lt(*snap, a as int, b2)),
                            decreases n - b,
                        {
                            if b != a && self.clashes_with(snap, a, b) && self.longest_shorter_than(
                                snap,
                                a,
                                b,
                            ) {
                                keep = false;
                            }
                            b += 1;
                        }
                    },
                    ClashStrategy::UseActionOrder => {
                        let mut b: usize = 0;
                        while b < a
                            invariant
                                b <= a,
                                a < n,
                                n == self.spec_n_actions(),
                                self.spec_candidate(*snap, a as int),
                                keep == (forall|b2: int|
                                    0 <= b2 < b ==> !(#[trigger] self.spec_clash(
                                        *snap,
                                        a as int,
                                        b2,
                                    ))),
                            decreases a - b,
                        {
                            if self.clashes_with(snap, a, b) {
                                keep = false;
                            }
                            b += 1;
                        }
                    },
                }
            }
            pressed.push(keep);
            a += 1;
        }
        pressed
    }

    /// Whether `action` is in the final pressed set for this snapshot under
    /// the given clash strategy.
    pub fn pressed(&self, action: usize, snap: &InputSnapshot, strategy: ClashStrategy) -> (r:
        bool)
        requires
            action < self.spec_n_actions(),
        ensures
            r == self.spec_resolved(*snap, strategy, action as int),
    {
        let which = self.which_pressed(snap, strategy);
        which[action]
    }
}

/// Law: `PressAll` resolution never removes a candidate. The final pressed
/// set under `PressAll` is exactly the set of candidate actions.
pub proof fn lemma_press_all_keeps_candidates(
    map: InputMap,
    snap: InputSnapshot,
    a: int,
)
    ensures
        map.spec_resolved(snap, ClashStrategy::PressAll, a) == map.spec_candidate(snap, a),
{
}

/// Law: under `PrioritizeLongest`, if two actions clash and `b`'s longest
/// satisfied combination is strictly shorter than `a`'s, then `b` is absent
/// from the final pressed set.
pub proof fn lemma_prioritize_longest_drops_shorter(
    map: InputMap,
    snap: InputSnapshot,
    a: int,
    b: int,
)
    requires
        0 <= a < map.spec_n_actions(),
        0 <= b < map.spec_n_actions(),
        a != b,
        map.spec_clash(snap, a, b),
        map.spec_longest_lt(snap, b, a),
    ensures
        !map.spec_resolved(snap, ClashStrategy::PrioritizeLongest, b),
{
    let (k, l) = choose|k: int, l: int|
        0 <= k < map.bindings@[a]@.len() && 0 <= l < map.bindings@[b]@.len()
            && map.spec_satisfied(snap, a, k) && map.spec_satisfied(snap, b, l) && (
        #[trigger] map.bindings@[a]@[k].spec_clashes_with(map.bindings@[b]@[l]));
    assert(map.bindings@[b]@[l].spec_clashes_with(map.bindings@[a]@[k]));
    assert(map.spec_clash(snap, b, a));
}

/// Law: under `PrioritizeLongest`, a candidate whose longest satisfied
/// combination is not strictly shorter than that of any action it clashes
/// with stays in the final pressed set.
pub proof fn lemma_prioritize_longest_keeps_winner(map: InputMap, snap: InputSnapshot, a: int)
    requires
        0 <= a < map.spec_n_actions(),
        map.spec_candidate(snap, a),
        forall|b: int|
            0 <= b < map.spec_n_actions() && b != a && #[trigger] map.spec_clash(snap, a, b)
                ==> !map.spec_longest_lt(snap, a, b),
    ensures
        map.spec_resolved(snap, ClashStrategy::PrioritizeLongest, a),
{
}

/// Law: under `UseActionOrder`, whenever two actions clash the one declared
/// later in the enumeration is absent from the final pressed set.
pub proof fn lemma_action_order_drops_later(map: InputMap, snap: InputSnapshot, a: int, b: int)
    requires
        0 <= a < b < map.spec_n_actions(),
        map.spec_clash(snap, b, a),
    ensures
        !map.spec_resolved(snap, ClashStrategy::UseActionOrder, b),
{
}

/// Law: under `UseActionOrder`, a candidate that clashes with no action
/// declared before it stays in the final pressed set.
pub proof fn lemma_action_order_keeps_earlier(map: InputMap, snap: InputSnapshot, a: int)
    requires
        0 <= a < map.spec_n_actions(),
        map.spec_candidate(snap, a),
        forall|b: int| 0 <= b < a ==> !(#[trigger] map.spec_clash(snap, a, b)),
    ensures
        map.spec_resolved(snap, ClashStrategy::UseActionOrder, a),
{
}

/// Law: an action bound to zero combinations is never a candidate and never
/// appears in the final pressed set, under any strategy.
pub proof fn lemma_unbound_action_never_pressed(
    map: InputMap,
    snap: InputSnapshot,
    strategy: ClashStrategy,
    a: int,
)
    requires
        0 <= a < map.spec_n_actions(),
        map.bindings@[a]@.len() == 0,
    ensures
        !map.spec_candidate(snap, a),
        !map.spec_resolved(snap, strategy, a),
{
}

} // verus!
