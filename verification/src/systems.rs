//! The per-tick pipeline over the set of action-state owners: advance
//! timers, evaluate input maps under a clash strategy, bridge UI clicks,
//! derive and replay action diffs, and honour the toggle that disables a
//! scope. Each function works on plain values handed in by the caller: the
//! engine side only gathers them and performs the resulting effects.

use vstd::prelude::*;

use crate::action_state::ActionData;
use crate::action_state::ActionDiff;
use crate::action_state::ActionState;
use crate::action_state::ActionStateModel;
use crate::clashing_inputs::ClashStrategy;
use crate::input_map::InputMap;
use crate::user_input::InputSnapshot;

verus! {

/// The external on/off switch for one scope of action states. While
/// disabled, input evaluation for the scope is skipped and its states are
/// force-released.
#[derive(Clone, Copy, PartialEq, Eq, Structural, Debug)]
pub struct ToggleActions {
    /// Whether input evaluation for this scope is currently enabled.
    pub enabled: bool,
}

/// The click-detection signal of one UI node, as the external UI layer
/// reports it.
#[derive(Clone, Copy, PartialEq, Eq, Structural, Debug)]
pub enum Interaction {
    /// The node was clicked this tick.
    Clicked,
    /// The pointer hovers over the node.
    Hovered,
    /// No interaction with the node.
    Idle,
}

/// Ties a clickable UI node to the action it should press on a target
/// entity's action state.
#[derive(Clone, Copy, PartialEq, Eq, Structural, Debug)]
pub struct ActionStateDriver {
    /// The ordinal of the action to press.
    pub action: usize,
    /// The index of the targeted action state among this tick's owners.
    pub entity: usize,
}

/// The models of a sequence of action states, index for index.
pub open spec fn views_of(states: Seq<ActionState>) -> Seq<ActionStateModel> {
    Seq::new(states.len(), |e: int| states[e]@)
}

/// The final pressed set of `map` under `snap` and `strategy`, one slot per
/// action ordinal.
pub open spec fn pressed_seq(map: InputMap, snap: InputSnapshot, strategy: ClashStrategy) -> Seq<
    bool,
> {
    Seq::new(map.bindings@.len(), |a: int| map.spec_resolved(snap, strategy, a))
}

proof fn lemma_remove_insert_is_update<T>(orig: Seq<T>, e: int, x: T)
    requires
        0 <= e < orig.len(),
    ensures
        orig.remove(e).insert(e, x) =~= orig.update(e, x),
{
    orig.remove_ensures(e);
    orig.remove(e).insert_ensures(e, x);
    assert forall|j: int| 0 <= j < orig.len() implies orig.remove(e).insert(e, x)[j] == orig.update(
        e,
        x,
    )[j] by {
        if j > e {
            assert(orig.remove(e).insert(e, x)[(j - 1) + 1] == orig.remove(e)[j - 1]);
            assert(orig.remove(e)[j - 1] == orig[j]);
        }
    }
}

/// Advances the action timers: clears the just-pressed and just-released
/// transients of every action state and grows the durations by the wall
/// time elapsed since the last tick. `last_update` is the clock's latest
/// instant; a clock that has never ticked is a fatal precondition
/// violation, refused here rather than silently defaulted.
pub fn tick_action_state(states: &mut Vec<ActionState>, last_update: Option<u64>)
    requires
        last_update is Some,
        forall|e: int| 0 <= e < old(states)@.len() ==> (#[trigger] old(states)@[e])@.wf(),
        forall|e: int|
            0 <= e < old(states)@.len() ==> ((#[trigger] old(states)@[e])@.last_instant
                matches Option::Some(p) ==> p <= last_update.unwrap()),
    ensures
        final(states)@.len() == old(states)@.len(),
        forall|e: int|
            0 <= e < old(states)@.len() ==> (#[trigger] final(states)@[e])@ == old(
                states,
            )@[e]@.ticked(last_update.unwrap()),
        forall|e: int| 0 <= e < final(states)@.len() ==> (#[trigger] final(states)@[e])@.wf(),
{
    let t = last_update.unwrap();
    let mut e: usize = 0;
    while e < states.len()
        invariant
            e <= states@.len(),
            states@.len() == old(states)@.len(),
            forall|j: int| 0 <= j < old(states)@.len() ==> (#[trigger] old(states)@[j])@.wf(),
            forall|j: int|
                0 <= j < old(states)@.len() ==> ((#[trigger] old(states)@[j])@.last_instant
                    matches Option::Some(p) ==> p <= t),
            forall|j: int|
                0 <= j < e ==> (#[trigger] states@[j])@ == old(states)@[j]@.ticked(t) && states@[
                    j
                ]@.wf(),
            forall|j: int| e <= j < states@.len() ==> #[trigger] states@[j] == old(states)@[j],
        decreases states@.len() - e,
    {
        let ghost orig = states@;
        let mut s = states.remove(e);
        s.tick(t);
        states.insert(e, s);
        proof {
            lemma_remove_insert_is_update(orig, e as int, s);
            assert(states@ =~= orig.update(e as int, s));
        }
        e += 1;
    }
}

/// Evaluates each owner's input map against the tick's raw input snapshot,
/// resolves clashes under `strategy`, and applies the resulting pressed set
/// to the owner's action state. Missing input modalities contribute no
/// pressed inputs; they are never an error.
pub fn update_action_state(
    snap: &InputSnapshot,
    strategy: ClashStrategy,
    maps: &Vec<InputMap>,
    states: &mut Vec<ActionState>,
)
    requires
        maps@.len() == old(states)@.len(),
        forall|e: int| 0 <= e < old(states)@.len() ==> (#[trigger] old(states)@[e])@.wf(),
        forall|e: int|
            0 <= e < old(states)@.len() ==> (#[trigger] maps@[e]).spec_n_actions() == old(
                states,
            )@[e]@.n(),
    ensures
        final(states)@.len() == old(states)@.len(),
        forall|e: int|
            0 <= e < old(states)@.len() ==> (#[trigger] final(states)@[e])@ == old(
                states,
            )@[e]@.updated(pressed_seq(maps@[e], *snap, strategy)),
        forall|e: int| 0 <= e < final(states)@.len() ==> (#[trigger] final(states)@[e])@.wf(),
{
    let mut e: usize = 0;
    while e < states.len()
        invariant
            e <= states@.len(),
            states@.len() == old(states)@.len(),
            maps@.len() == old(states)@.len(),
            forall|j: int| 0 <= j < old(states)@.len() ==> (#[trigger] old(states)@[j])@.wf(),
            forall|j: int|
                0 <= j < old(states)@.len() ==> (#[trigger] maps@[j]).spec_n_actions() == old(
                    states,
                )@[j]@.n(),
            forall|j: int|
                0 <= j < e ==> (#[trigger] states@[j])@ == old(states)@[j]@.updated(
                    pressed_seq(maps@[j], *snap, strategy),
                ) && states@[j]@.wf(),
            forall|j: int| e <= j < states@.len() ==> #[trigger] states@[j] == old(states)@[j],
        decreases states@.len() - e,
    {
        let ghost orig = states@;
        let map = &maps[e];
        let set = map.which_pressed(snap, strategy);
        proof {
            assert(set@ =~= pressed_seq(maps@[e as int], *snap, strategy));
        }
        let mut s = states.remove(e);
        s.update(&set);
        states.insert(e, s);
        proof {
            lemma_remove_insert_is_update(orig, e as int, s);
            assert(states@ =~= orig.update(e as int, s));
        }
        e += 1;
    }
}

/// The models after the first `k` UI interactions: each clicked entry
/// presses its driver's action on its driver's target state.
pub open spec fn models_after_interactions(
    models: Seq<ActionStateModel>,
    ui: Seq<(Interaction, ActionStateDriver)>,
    k: int,
) -> Seq<ActionStateModel>
    decreases k,
{
    if k <= 0 {
        models
    } else {
        let prev = models_after_interactions(models, ui, k - 1);
        if ui[k - 1].0 is Clicked {
            prev.update(
                ui[k - 1].1.entity as int,
                prev[ui[k - 1].1.entity as int].pressed_one(ui[k - 1].1.action as int),
            )
        } else {
            prev
        }
    }
}

/// When a UI node tied to an action was clicked, presses that action on the
/// targeted action state, bypassing input evaluation. Every driver must
/// target an existing state and a valid action of it.
pub fn update_action_state_from_interaction(
    ui: &Vec<(Interaction, ActionStateDriver)>,
    states: &mut Vec<ActionState>,
)
    requires
        forall|k: int|
            0 <= k < ui@.len() ==> (#[trigger] ui@[k].1).entity < old(states)@.len() && ui@[
                k
            ].1.action < old(states)@[ui@[k].1.entity as int]@.n(),
        forall|e: int| 0 <= e < old(states)@.len() ==> (#[trigger] old(states)@[e])@.wf(),
    ensures
        final(states)@.len() == old(states)@.len(),
        views_of(final(states)@) == models_after_interactions(
            views_of(old(states)@),
            ui@,
            ui@.len() as int,
        ),
        forall|e: int| 0 <= e < final(states)@.len() ==> (#[trigger] final(states)@[e])@.wf(),
{
    let mut k: usize = 0;
    while k < ui.len()
        invariant
            k <= ui@.len(),
            states@.len() == old(states)@.len(),
            forall|j: int|
                0 <= j < ui@.len() ==> (#[trigger] ui@[j].1).entity < old(states)@.len() && ui@[
                    j
                ].1.action < old(states)@[ui@[j].1.entity as int]@.n(),
            views_of(states@) == models_after_interactions(views_of(old(states)@), ui@, k as int),
            forall|e: int| 0 <= e < states@.len() ==> (#[trigger] states@[e])@.wf(),
            forall|e: int|
                0 <= e < states@.len() ==> (#[trigger] states@[e])@.n() == old(states)@[e]@.n(),
        decreases ui@.len() - k,
    {
        let interaction = ui[k].0;
        let driver = ui[k].1;
        let ghost orig = states@;
        match interaction {
            Interaction::Clicked => {
                let mut s = states.remove(driver.entity);
                s.press(driver.action);
                states.insert(driver.entity, s);
                proof {
                    lemma_remove_insert_is_update(orig, driver.entity as int, s);
                    assert(states@ =~= orig.update(driver.entity as int, s));
                    assert(views_of(states@) =~= models_after_interactions(
                        views_of(old(states)@),
                        ui@,
                        k + 1,
                    ));
                }
            },
            _ => {
                proof {
                    assert(views_of(states@) =~= models_after_interactions(
                        views_of(old(states)@),
                        ui@,
                        k + 1,
                    ));
                }
            },
        }
        k += 1;
    }
}

/// The press diffs of one state's first `k` actions, in ordinal order.
pub open spec fn pressed_diffs_upto(id: u64, data: Seq<ActionData>, k: int) -> Seq<ActionDiff>
    decreases k,
{
    if k <= 0 {
        Seq::empty()
    } else {
        pressed_diffs_upto(id, data, k - 1) + (if data[k - 1].just_pressed {
            seq![ActionDiff::Pressed { action: (k - 1) as usize, id }]
        } else {
            Seq::empty()
        })
    }
}

/// The release diffs of one state's first `k` actions, in ordinal order.
pub open spec fn released_diffs_upto(id: u64, data: Seq<ActionData>, k: int) -> Seq<ActionDiff>
    decreases k,
{
    if k <= 0 {
        Seq::empty()
    } else {
        released_diffs_upto(id, data, k - 1) + (if data[k - 1].just_released {
            seq![ActionDiff::Released { action: (k - 1) as usize, id }]
        } else {
            Seq::empty()
        })
    }
}

/// The diffs one state emits this tick: one press event per just-pressed
/// action, then one release event per just-released action.
pub open spec fn state_diffs(id: u64, m: ActionStateModel) -> Seq<ActionDiff> {
    pressed_diffs_upto(id, m.data, m.data.len() as int) + released_diffs_upto(
        id,
        m.data,
        m.data.len() as int,
    )
}

/// The diffs of the first `e` owners, in owner order.
pub open spec fn all_diffs_upto(ids: Seq<u64>, models: Seq<ActionStateModel>, e: int) -> Seq<
    ActionDiff,
>
    decreases e,
{
    if e <= 0 {
        Seq::empty()
    } else {
        all_diffs_upto(ids, models, e - 1) + state_diffs(ids[e - 1], models[e - 1])
    }
}

/// Derives the tick's action diff stream: for every owner, one press event
/// per action with `just_pressed` set and one release event per action with
/// `just_released` set, keyed by the owner's stable external identifier.
pub fn generate_action_diffs(ids: &Vec<u64>, states: &Vec<ActionState>) -> (diffs: Vec<ActionDiff>)
    requires
        ids@.len() == states@.len(),
    ensures
        diffs@ == all_diffs_upto(ids@, views_of(states@), states@.len() as int),
{
    let mut diffs: Vec<ActionDiff> = Vec::new();
    let mut e: usize = 0;
    while e < states.len()
        invariant
            e <= states@.len(),
            ids@.len() == states@.len(),
            diffs@ == all_diffs_upto(ids@, views_of(states@), e as int),
        decreases states@.len() - e,
    {
        let s = &states[e];
        let id = ids[e];
        let n = s.n_actions();
        let ghost base = diffs@;
        let ghost d = states@[e as int]@.data;
        let mut a: usize = 0;
        while a < n
            invariant
                a <= n,
                n == d.len(),
                e < states@.len(),
                d == states@[e as int]@.data,
                s@ == states@[e as int]@,
                id == ids@[e as int],
                diffs@ == base + pressed_diffs_upto(id, d, a as int),
            decreases n - a,
        {
            if s.just_pressed(a) {
                diffs.push(ActionDiff::Pressed { action: a, id });
            }
            proof {
                assert(diffs@ =~= base + pressed_diffs_upto(id, d, a + 1));
            }
            a += 1;
        }
        let ghost base2 = diffs@;
        let mut a2: usize = 0;
        while a2 < n
            invariant
                a2 <= n,
                n == d.len(),
                e < states@.len(),
                d == states@[e as int]@.data,
                s@ == states@[e as int]@,
                id == ids@[e as int],
                base2 == base + pressed_diffs_upto(id, d, n as int),
                diffs@ == base2 + released_diffs_upto(id, d, a2 as int),
            decreases n - a2,
        {
            if s.just_released(a2) {
                diffs.push(ActionDiff::Released { action: a2, id });
            }
            proof {
                assert(diffs@ =~= base2 + released_diffs_upto(id, d, a2 + 1));
            }
            a2 += 1;
        }
        proof {
            assert(diffs@ =~= base + state_diffs(ids@[e as int], views_of(states@)[e as int]));
            assert(diffs@ =~= all_diffs_upto(ids@, views_of(states@), e + 1));
        }
        e += 1;
    }
    diffs
}

/// One model after replaying one diff addressed to identifier `id`: a diff
/// whose identifier does not match, or whose action ordinal the state does
/// not know, is silently dropped.
pub open spec fn model_after_diff(m: ActionStateModel, d: ActionDiff, id: u64) -> ActionStateModel {
    match d {
        ActionDiff::Pressed { action, id: diff_id } => if diff_id == id && (action as int)
            < m.n() {
            m.pressed_one(action as int)
        } else {
            m
        },
        ActionDiff::Released { action, id: diff_id } => if diff_id == id && (action as int)
            < m.n() {
            m.released_one(action as int)
        } else {
            m
        },
    }
}

/// The models after replaying the first `k` diffs, in stream order, each
/// against every owner whose identifier matches.
pub open spec fn models_after_diffs(
    models: Seq<ActionStateModel>,
    ids: Seq<u64>,
    diffs: Seq<ActionDiff>,
    k: int,
) -> Seq<ActionStateModel>
    decreases k,
{
    if k <= 0 {
        models
    } else {
        let prev = models_after_diffs(models, ids, diffs, k - 1);
        Seq::new(prev.len(), |e: int| model_after_diff(prev[e], diffs[k - 1], ids[e]))
    }
}

/// Replays an action diff stream onto this side's action states: each press
/// or release is applied to every owner whose identifier matches the diff's.
/// A diff referencing an identifier with no matching owner is silently
/// dropped, favouring availability over strictness in replicated state.
pub fn process_action_diffs(ids: &Vec<u64>, states: &mut Vec<ActionState>, diffs: &Vec<ActionDiff>)
    requires
        ids@.len() == old(states)@.len(),
        forall|e: int| 0 <= e < old(states)@.len() ==> (#[trigger] old(states)@[e])@.wf(),
    ensures
        final(states)@.len() == old(states)@.len(),
        views_of(final(states)@) == models_after_diffs(
            views_of(old(states)@),
            ids@,
            diffs@,
            diffs@.len() as int,
        ),
        forall|e: int| 0 <= e < final(states)@.len() ==> (#[trigger] final(states)@[e])@.wf(),
{
    let mut k: usize = 0;
    while k < diffs.len()
        invariant
            k <= diffs@.len(),
            ids@.len() == old(states)@.len(),
            states@.len() == old(states)@.len(),
            views_of(states@) == models_after_diffs(
                views_of(old(states)@),
                ids@,
                diffs@,
                k as int,
            ),
            forall|e: int| 0 <= e < states@.len() ==> (#[trigger] states@[e])@.wf(),
        decreases diffs@.len() - k,
    {
        let diff = diffs[k];
        let ghost prev = views_of(states@);
        let mut e: usize = 0;
        while e < states.len()
            invariant
                e <= states@.len(),
                ids@.len() == states@.len(),
                states@.len() == prev.len(),
                k < diffs@.len(),
                diff == diffs@[k as int],
                forall|j: int|
                    0 <= j < e ==> (#[trigger] states@[j])@ == model_after_diff(
                        prev[j],
                        diffs@[k as int],
                        ids@[j],
                    ),
                forall|j: int| e <= j < states@.len() ==> (#[trigger] states@[j])@ == prev[j],
                forall|j: int| 0 <= j < states@.len() ==> (#[trigger] states@[j])@.wf(),
            decreases states@.len() - e,
        {
            let ghost orig = states@;
            let matches_id = match diff {
                ActionDiff::Pressed { action: _, id } => id == ids[e],
                ActionDiff::Released { action: _, id } => id == ids[e],
            };
            if matches_id {
                let mut s = states.remove(e);
                match diff {
                    ActionDiff::Pressed { action, id: _ } => {
                        if action < s.n_actions() {
                            s.press(action);
                        }
                    },
                    ActionDiff::Released { action, id: _ } => {
                        if action < s.n_actions() {
                            s.release(action);
                        }
                    },
                }
                states.insert(e, s);
                proof {
                    lemma_remove_insert_is_update(orig, e as int, s);
                    assert(states@ =~= orig.update(e as int, s));
                    assert(states@[e as int]@ == model_after_diff(
                        prev[e as int],
                        diffs@[k as int],
                        ids@[e as int],
                    ));
                }
            } else {
                proof {
                    assert(states@[e as int]@ == model_after_diff(
                        prev[e as int],
                        diffs@[k as int],
                        ids@[e as int],
                    ));
                }
            }
            e += 1;
        }
        proof {
            assert(views_of(states@) =~= models_after_diffs(
                views_of(old(states)@),
                ids@,
                diffs@,
                k + 1,
            ));
        }
        k += 1;
    }
}

/// When the toggle was just switched off, force-releases every action state
/// under its scope; otherwise leaves every state untouched.
pub fn release_on_disable(states: &mut Vec<ActionState>, toggle: &ToggleActions, toggle_changed:
    bool)
    requires
        forall|e: int| 0 <= e < old(states)@.len() ==> (#[trigger] old(states)@[e])@.wf(),
    ensures
        final(states)@.len() == old(states)@.len(),
        toggle_changed && !toggle.enabled ==> forall|e: int|
            0 <= e < old(states)@.len() ==> (#[trigger] final(states)@[e])@ == old(
                states,
            )@[e]@.all_released(),
        !(toggle_changed && !toggle.enabled) ==> final(states)@ == old(states)@,
        forall|e: int| 0 <= e < final(states)@.len() ==> (#[trigger] final(states)@[e])@.wf(),
{
    if toggle_changed && !toggle.enabled {
        let mut e: usize = 0;
        while e < states.len()
            invariant
                e <= states@.len(),
                states@.len() == old(states)@.len(),
                forall|j: int| 0 <= j < old(states)@.len() ==> (#[trigger] old(states)@[j])@.wf(),
                forall|j: int|
                    0 <= j < e ==> (#[trigger] states@[j])@ == old(states)@[j]@.all_released()
                        && states@[j]@.wf(),
                forall|j: int| e <= j < states@.len() ==> #[trigger] states@[j] == old(states)@[j],
            decreases states@.len() - e,
        {
            let ghost orig = states@;
            let mut s = states.remove(e);
            s.release_all();
            states.insert(e, s);
            proof {
                lemma_remove_insert_is_update(orig, e as int, s);
                assert(states@ =~= orig.update(e as int, s));
            }
            e += 1;
        }
    }
}

/// Whether input evaluation should run for the toggle's scope this tick.
pub fn run_if_enabled(toggle: &ToggleActions) -> (r: bool)
    ensures
        r == toggle.enabled,
{
    toggle.enabled
}

proof fn lemma_pressed_diffs_membership(id: u64, data: Seq<ActionData>, k: int, a: usize, did: u64)
    requires
        0 <= k <= data.len(),
        data.len() <= usize::MAX,
    ensures
        pressed_diffs_upto(id, data, k).contains((ActionDiff::Pressed { action: a, id: did }))
            <==> (did == id && (a as int) < k && data[a as int].just_pressed),
        !pressed_diffs_upto(id, data, k).contains((ActionDiff::Released { action: a, id: did })),
    decreases k,
{
    broadcast use vstd::seq_lib::lemma_seq_concat_contains_all_elements;

    if k <= 0 {
    } else {
        lemma_pressed_diffs_membership(id, data, k - 1, a, did);
        let tail: Seq<ActionDiff> = if data[k - 1].just_pressed {
            seq![ActionDiff::Pressed { action: (k - 1) as usize, id }]
        } else {
            Seq::empty()
        };
        assert(pressed_diffs_upto(id, data, k) == pressed_diffs_upto(id, data, k - 1) + tail);
        if data[k - 1].just_pressed {
            assert(tail[0] == (ActionDiff::Pressed { action: (k - 1) as usize, id }));
            if did == id && a as int == k - 1 {
                assert(tail.contains((ActionDiff::Pressed { action: a, id: did })));
            }
            assert forall|x: ActionDiff| tail.contains(x) implies x == (ActionDiff::Pressed {
                action: (k - 1) as usize,
                id,
            }) by {
                let j = choose|j: int| 0 <= j < tail.len() && tail[j] == x;
            }
        }
    }
}

proof fn lemma_released_diffs_membership(id: u64, data: Seq<ActionData>, k: int, a: usize, did: u64)
    requires
        0 <= k <= data.len(),
        data.len() <= usize::MAX,
    ensures
        released_diffs_upto(id, data, k).contains((ActionDiff::Released { action: a, id: did }))
            <==> (did == id && (a as int) < k && data[a as int].just_released),
        !released_diffs_upto(id, data, k).contains((ActionDiff::Pressed { action: a, id: did })),
    decreases k,
{
    broadcast use vstd::seq_lib::lemma_seq_concat_contains_all_elements;

    if k <= 0 {
    } else {
        lemma_released_diffs_membership(id, data, k - 1, a, did);
        let tail: Seq<ActionDiff> = if data[k - 1].just_released {
            seq![ActionDiff::Released { action: (k - 1) as usize, id }]
        } else {
            Seq::empty()
        };
        assert(released_diffs_upto(id, data, k) == released_diffs_upto(id, data, k - 1) + tail);
        if data[k - 1].just_released {
            assert(tail[0] == (ActionDiff::Released { action: (k - 1) as usize, id }));
            if did == id && a as int == k - 1 {
                assert(tail.contains((ActionDiff::Released { action: a, id: did })));
            }
            assert forall|x: ActionDiff| tail.contains(x) implies x == (ActionDiff::Released {
                action: (k - 1) as usize,
                id,
            }) by {
                let j = choose|j: int| 0 <= j < tail.len() && tail[j] == x;
            }
        }
    }
}

/// Law (round trip): after `update(set)`, re-deriving the diff stream
/// reproduces exactly the membership changes relative to the previous
/// pressed set. The stream holds a press event for action `a` if and only
/// if `a` entered the set, and a release event if and only if `a` left it.
pub proof fn lemma_diffs_reflect_update(id: u64, m: ActionStateModel, set: Seq<bool>, a: usize)
    requires
        set.len() == m.n(),
        m.n() <= usize::MAX,
        (a as int) < m.n(),
    ensures
        state_diffs(id, m.updated(set)).contains((ActionDiff::Pressed { action: a, id })) <==> (
        set[a as int] && !m.data[a as int].pressed),
        state_diffs(id, m.updated(set)).contains((ActionDiff::Released { action: a, id })) <==> (
        !set[a as int] && m.data[a as int].pressed),
{
    broadcast use vstd::seq_lib::lemma_seq_concat_contains_all_elements;

    let u = m.updated(set);
    lemma_pressed_diffs_membership(id, u.data, u.data.len() as int, a, id);
    lemma_released_diffs_membership(id, u.data, u.data.len() as int, a, id);
    assert(u.data[a as int] == crate::action_state::data_updated(m.data[a as int], set[a as int]));
}

} // verus!
