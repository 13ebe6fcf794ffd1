//! Per-action press state: current and previous press flags, the derived
//! just-pressed / just-released transients, and duration bookkeeping, all
//! advanced once per tick. Also the action diff events derived from state
//! transitions for external consumption.

use vstd::prelude::*;

verus! {

/// The per-action slot of an [`ActionState`]: press flags and durations.
/// Durations count elapsed time units in the current and previous press
/// state; a duration resets to zero when the pressed state flips.
#[derive(Clone, Copy, PartialEq, Eq, Structural, Debug)]
pub struct ActionData {
    /// Whether the action is currently considered pressed.
    pub pressed: bool,
    /// Whether the action became pressed since the last tick. Valid only
    /// until the next `tick` call.
    pub just_pressed: bool,
    /// Whether the action became released since the last tick. Valid only
    /// until the next `tick` call.
    pub just_released: bool,
    /// Time units spent in the current press state.
    pub current_duration: u64,
    /// Time units the previous press state lasted.
    pub previous_duration: u64,
}

/// The slot of a freshly created state: released, no transients, zero
/// durations.
pub open spec fn default_data() -> ActionData {
    ActionData {
        pressed: false,
        just_pressed: false,
        just_released: false,
        current_duration: 0,
        previous_duration: 0,
    }
}

/// One slot after a direct press: a released slot flips to pressed with its
/// duration moved to `previous_duration`; an already pressed slot is left
/// unchanged.
pub open spec fn data_pressed(d: ActionData) -> ActionData {
    if d.pressed {
        d
    } else {
        ActionData {
            pressed: true,
            just_pressed: true,
            just_released: d.just_released,
            current_duration: 0,
            previous_duration: d.current_duration,
        }
    }
}

/// One slot after a direct release, symmetric to [`data_pressed`].
pub open spec fn data_released(d: ActionData) -> ActionData {
    if !d.pressed {
        d
    } else {
        ActionData {
            pressed: false,
            just_pressed: d.just_pressed,
            just_released: true,
            current_duration: 0,
            previous_duration: d.current_duration,
        }
    }
}

/// One slot after `update` with membership `now`: a flip sets the matching
/// transient, an unchanged slot keeps its press flag and clears both
/// transients.
pub open spec fn data_updated(d: ActionData, now: bool) -> ActionData {
    if now && !d.pressed {
        ActionData {
            pressed: true,
            just_pressed: true,
            just_released: false,
            current_duration: 0,
            previous_duration: d.current_duration,
        }
    } else if !now && d.pressed {
        ActionData {
            pressed: false,
            just_pressed: false,
            just_released: true,
            current_duration: 0,
            previous_duration: d.current_duration,
        }
    } else {
        ActionData {
            pressed: d.pressed,
            just_pressed: false,
            just_released: false,
            current_duration: d.current_duration,
            previous_duration: d.previous_duration,
        }
    }
}

/// One slot after a tick that advanced time by `delta`: transients cleared,
/// the current duration grown by the elapsed time.
pub open spec fn data_ticked(d: ActionData, delta: u64) -> ActionData {
    ActionData {
        pressed: d.pressed,
        just_pressed: false,
        just_released: false,
        current_duration: (d.current_duration + delta) as u64,
        previous_duration: d.previous_duration,
    }
}

/// The mathematical model of an [`ActionState`]: one slot per action of the
/// enumeration, and the instant of the last tick, if any tick happened yet.
#[verifier::ext_equal]
pub struct ActionStateModel {
    /// Slot `a` models the action of ordinal `a`.
    pub data: Seq<ActionData>,
    /// The instant passed to the last `tick`, `None` before the first.
    pub last_instant: Option<u64>,
}

impl ActionStateModel {
    /// The number of actions in the enumeration this state was built for.
    pub open spec fn n(self) -> int {
        self.data.len() as int
    }

    /// Well-formedness: before the first tick all durations are zero; after
    /// a tick at instant `p` every duration is at most `p`. This is what
    /// keeps duration arithmetic free of overflow under a monotonic clock.
    pub open spec fn wf(self) -> bool {
        match self.last_instant {
            Option::Some(p) => forall|i: int|
                0 <= i < self.data.len() ==> (#[trigger] self.data[i]).current_duration <= p
                    && self.data[i].previous_duration <= p,
            Option::None => forall|i: int|
                0 <= i < self.data.len() ==> (#[trigger] self.data[i]).current_duration == 0
                    && self.data[i].previous_duration == 0,
        }
    }

    /// The elapsed time a tick at instant `t` advances by.
    pub open spec fn tick_delta(self, t: u64) -> u64 {
        match self.last_instant {
            Option::Some(p) => (t - p) as u64,
            Option::None => 0u64,
        }
    }

    /// The state after `tick(t)`: every transient cleared, every current
    /// duration advanced by the time elapsed since the last tick.
    pub open spec fn ticked(self, t: u64) -> ActionStateModel {
        ActionStateModel {
            data: Seq::new(self.data.len(), |i: int| data_ticked(self.data[i], self.tick_delta(t))),
            last_instant: Option::Some(t),
        }
    }

    /// The state after `update(set)`: each slot diffed against its new
    /// membership.
    pub open spec fn updated(self, set: Seq<bool>) -> ActionStateModel {
        ActionStateModel {
            data: Seq::new(self.data.len(), |i: int| data_updated(self.data[i], set[i])),
            last_instant: self.last_instant,
        }
    }

    /// The state after a direct `press` of action `a`.
    pub open spec fn pressed_one(self, a: int) -> ActionStateModel {
        ActionStateModel {
            data: self.data.update(a, data_pressed(self.data[a])),
            last_instant: self.last_instant,
        }
    }

    /// The state after a direct `release` of action `a`.
    pub open spec fn released_one(self, a: int) -> ActionStateModel {
        ActionStateModel {
            data: self.data.update(a, data_released(self.data[a])),
            last_instant: self.last_instant,
        }
    }

    /// The state after `release_all`: every slot directly released.
    pub open spec fn all_released(self) -> ActionStateModel {
        ActionStateModel {
            data: Seq::new(self.data.len(), |i: int| data_released(self.data[i])),
            last_instant: self.last_instant,
        }
    }
}

/// Dense per-action press state of one entity (or of the global scope):
/// exactly one slot per action of the enumeration, indexed by ordinal.
#[derive(Clone, Debug)]
pub struct ActionState {
    /// Slot `a` holds the state of the action of ordinal `a`.
    pub data: Vec<ActionData>,
    /// The instant passed to the last `tick`, `None` before the first.
    pub last_instant: Option<u64>,
}

impl View for ActionState {
    type V = ActionStateModel;

    open spec fn view(&self) -> ActionStateModel {
        ActionStateModel { data: self.data@, last_instant: self.last_instant }
    }
}

impl ActionState {
    /// A state for an enumeration of `n_actions` actions, every action
    /// released, no tick seen yet.
    pub fn new(n_actions: usize) -> (state: Self)
        ensures
            state@.n() == n_actions,
            forall|a: int| 0 <= a < n_actions ==> state@.data[a] == default_data(),
            state@.last_instant is None,
            state@.wf(),
    {
        let mut data: Vec<ActionData> = Vec::new();
        let mut a: usize = 0;
        while a < n_actions
            invariant
                a <= n_actions,
                data@.len() == a,
                forall|j: int| 0 <= j < a ==> data@[j] == default_data(),
            decreases n_actions - a,
        {
            data.push(
                ActionData {
                    pressed: false,
                    just_pressed: false,
                    just_released: false,
                    current_duration: 0,
                    previous_duration: 0,
                },
            );
            a += 1;
        }
        ActionState { data, last_instant: Option::None }
    }

    /// The number of actions in the enumeration this state was built for.
    pub fn n_actions(&self) -> (n: usize)
        ensures
            n == self@.n(),
    {
        self.data.len()
    }

    /// Clears every just-pressed and just-released transient and advances
    /// the duration bookkeeping by the wall time elapsed since the last
    /// tick. Must be called once per frame, before `update`, with a clock
    /// that never runs backwards.
    pub fn tick(&mut self, current_time: u64)
        requires
            old(self)@.wf(),
            old(self)@.last_instant matches Option::Some(p) ==> p <= current_time,
        ensures
            final(self)@ == old(self)@.ticked(current_time),
            final(self)@.wf(),
    {
        let delta: u64 = match self.last_instant {
            Option::Some(p) => current_time - p,
            Option::None => 0,
        };
        let ghost orig = self@;
        let mut a: usize = 0;
        while a < self.data.len()
            invariant
                a <= self.data@.len(),
                self.data@.len() == orig.data.len(),
                self.last_instant == orig.last_instant,
                delta == orig.tick_delta(current_time),
                orig.wf(),
                orig.last_instant matches Option::Some(p) ==> p <= current_time,
                forall|j: int| 0 <= j < a ==> self.data@[j] == data_ticked(orig.data[j], delta),
                forall|j: int| a <= j < self.data@.len() ==> self.data@[j] == orig.data[j],
            decreases self.data@.len() - a,
        {
            let d = self.data[a];
            proof {
                assert(orig.data[a as int].current_duration + delta <= current_time);
            }
            self.data.set(
                a,
                ActionData {
                    pressed: d.pressed,
                    just_pressed: false,
                    just_released: false,
                    current_duration: d.current_duration + delta,
                    previous_duration: d.previous_duration,
                },
            );
            a += 1;
        }
        self.last_instant = Option::Some(current_time);
        proof {
            assert(self@.data =~= orig.ticked(current_time).data);
            assert(self@ =~= orig.ticked(current_time));
        }
    }

    /// Applies this tick's pressed set: newly pressed actions gain
    /// `just_pressed`, newly released ones gain `just_released`, unchanged
    /// ones keep their press flag with both transients cleared.
    pub fn update(&mut self, pressed_set: &Vec<bool>)
        requires
            old(self)@.wf(),
            pressed_set@.len() == old(self)@.n(),
        ensures
            final(self)@ == old(self)@.updated(pressed_set@),
            final(self)@.wf(),
    {
        let ghost orig = self@;
        let mut a: usize = 0;
        while a < self.data.len()
            invariant
                a <= self.data@.len(),
                self.data@.len() == orig.data.len(),
                pressed_set@.len() == orig.data.len(),
                self.last_instant == orig.last_instant,
                forall|j: int|
                    0 <= j < a ==> self.data@[j] == data_updated(orig.data[j], pressed_set@[j]),
                forall|j: int| a <= j < self.data@.len() ==> self.data@[j] == orig.data[j],
            decreases self.data@.len() - a,
        {
            let d = self.data[a];
            let now = pressed_set[a];
            let next = if now && !d.pressed {
                ActionData {
                    pressed: true,
                    just_pressed: true,
                    just_released: false,
                    current_duration: 0,
                    previous_duration: d.current_duration,
                }
            } else if !now && d.pressed {
                ActionData {
                    pressed: false,
                    just_pressed: false,
                    just_released: true,
                    current_duration: 0,
                    previous_duration: d.current_duration,
                }
            } else {
                ActionData {
                    pressed: d.pressed,
                    just_pressed: false,
                    just_released: false,
                    current_duration: d.current_duration,
                    previous_duration: d.previous_duration,
                }
            };
            self.data.set(a, next);
            a += 1;
        }
        proof {
            assert(self@.data =~= orig.updated(pressed_set@).data);
            assert(self@ =~= orig.updated(pressed_set@));
        }
    }

    /// Directly presses `action`, bypassing input evaluation (used for
    /// UI-driven or network-driven state).
    pub fn press(&mut self, action: usize)
        requires
            old(self)@.wf(),
            action < old(self)@.n(),
        ensures
            final(self)@ == old(self)@.pressed_one(action as int),
            final(self)@.wf(),
    {
        let ghost orig = self@;
        let d = self.data[action];
        if !d.pressed {
            self.data.set(
                action,
                ActionData {
                    pressed: true,
                    just_pressed: true,
                    just_released: d.just_released,
                    current_duration: 0,
                    previous_duration: d.current_duration,
                },
            );
        }
        proof {
            assert(self@.data =~= orig.pressed_one(action as int).data);
            assert(self@ =~= orig.pressed_one(action as int));
        }
    }

    /// Directly releases `action`, bypassing input evaluation.
    pub fn release(&mut self, action: usize)
        requires
            old(self)@.wf(),
            action < old(self)@.n(),
        ensures
            final(self)@ == old(self)@.released_one(action as int),
            final(self)@.wf(),
    {
        let ghost orig = self@;
        let d = self.data[action];
        if d.pressed {
            self.data.set(
                action,
                ActionData {
                    pressed: false,
                    just_pressed: d.just_pressed,
                    just_released: true,
                    current_duration: 0,
                    previous_duration: d.current_duration,
                },
            );
        }
        proof {
            assert(self@.data =~= orig.released_one(action as int).data);
            assert(self@ =~= orig.released_one(action as int));
        }
    }

    /// Directly releases every action.
    pub fn release_all(&mut self)
        requires
            old(self)@.wf(),
        ensures
            final(self)@ == old(self)@.all_released(),
            final(self)@.wf(),
    {
        let ghost orig = self@;
        let mut a: usize = 0;
        while a < self.data.len()
            invariant
                a <= self.data@.len(),
                self.data@.len() == orig.data.len(),
                self.last_instant == orig.last_instant,
                orig.wf(),
                forall|j: int| 0 <= j < a ==> self.data@[j] == data_released(orig.data[j]),
                forall|j: int| a <= j < self.data@.len() ==> self.data@[j] == orig.data[j],
            decreases self.data@.len() - a,
        {
            proof {
                assert(self@.wf()) by {
                    assert forall|j: int| 0 <= j < self.data@.len() implies (match self.last_instant {
                        Option::Some(p) => (#[trigger] self.data@[j]).current_duration <= p
                            && self.data@[j].previous_duration <= p,
                        Option::None => self.data@[j].current_duration == 0
                            && self.data@[j].previous_duration == 0,
                    }) by {
                        if j < a {
                            assert(self.data@[j] == data_released(orig.data[j]));
                        } else {
                            assert(self.data@[j] == orig.data[j]);
                        }
                    }
                }
                assert(self@.n() == orig.n());
            }
            self.release(a);
            a += 1;
        }
        proof {
            assert(self@.data =~= orig.all_released().data);
            assert(self@ =~= orig.all_released());
        }
    }

    /// Whether `action` is currently pressed.
    pub fn pressed(&self, action: usize) -> (r: bool)
        requires
            action < self@.n(),
        ensures
            r == self@.data[action as int].pressed,
    {
        self.data[action].pressed
    }

    /// Whether `action` is currently released.
    pub fn released(&self, action: usize) -> (r: bool)
        requires
            action < self@.n(),
        ensures
            r == !self@.data[action as int].pressed,
    {
        !self.data[action].pressed
    }

    /// Whether `action` became pressed since the last tick.
    pub fn just_pressed(&self, action: usize) -> (r: bool)
        requires
            action < self@.n(),
        ensures
            r == self@.data[action as int].just_pressed,
    {
        self.data[action].just_pressed
    }

    /// Whether `action` became released since the last tick.
    pub fn just_released(&self, action: usize) -> (r: bool)
        requires
            action < self@.n(),
        ensures
            r == self@.data[action as int].just_released,
    {
        self.data[action].just_released
    }

    /// Time units spent in `action`'s current press state.
    pub fn current_duration(&self, action: usize) -> (r: u64)
        requires
            action < self@.n(),
        ensures
            r == self@.data[action as int].current_duration,
    {
        self.data[action].current_duration
    }

    /// Time units `action`'s previous press state lasted.
    pub fn previous_duration(&self, action: usize) -> (r: u64)
        requires
            action < self@.n(),
        ensures
            r == self@.data[action as int].previous_duration,
    {
        self.data[action].previous_duration
    }
}

/// A press or release event derived from one action state transition, keyed
/// by a stable external identifier suitable for transport the core does not
/// implement.
#[derive(Clone, Copy, PartialEq, Eq, Structural, Debug)]
pub enum ActionDiff {
    /// The action of this ordinal became pressed on the entity `id`.
    Pressed { action: usize, id: u64 },
    /// The action of this ordinal became released on the entity `id`.
    Released { action: usize, id: u64 },
}

/// Law: a tick is idempotent. A second `tick` at the same instant changes
/// nothing at all: the pressed flags are untouched and the transients are
/// already cleared; with no elapsed time the durations do not move either.
pub proof fn lemma_tick_idempotent(m: ActionStateModel, t: u64)
    ensures
        m.ticked(t).ticked(t) == m.ticked(t),
        forall|a: int| 0 <= a < m.n() ==> m.ticked(t).data[a].pressed == m.data[a].pressed,
        forall|a: int|
            0 <= a < m.n() ==> !m.ticked(t).data[a].just_pressed && !m.ticked(
                t,
            ).data[a].just_released,
{
    let once = m.ticked(t);
    assert(once.tick_delta(t) == 0);
    assert(once.ticked(t).data =~= once.data);
    assert(once.ticked(t) =~= once);
}

} // verus!
