//! Raw physical inputs, input combinations (simple bindings and chords), and
//! the per-tick snapshot of which raw inputs are currently held.

use vstd::prelude::*;

verus! {

/// Identifies one physical control. Gamepad buttons carry only their button
/// code: which gamepad they are read from is decided by the input map's
/// associated gamepad, not by the binding.
#[derive(Clone, Copy, PartialEq, Eq, Structural, Debug)]
pub enum RawInput {
    /// A keyboard key, by key code.
    Keyboard(u32),
    /// A mouse button, by button id.
    MouseButton(u32),
    /// A gamepad button, by button code.
    GamepadButton(u32),
}

/// The buttons currently held on one connected gamepad.
#[derive(Clone, Debug)]
pub struct GamepadSnapshot {
    /// Identifier of the gamepad this snapshot belongs to.
    pub gamepad_id: u32,
    /// Button codes currently held on this gamepad.
    pub buttons: Vec<u32>,
}

/// The raw inputs held during one tick, one optional field per modality.
/// A missing modality (`None`) means "nothing pressed", never an error.
#[derive(Clone, Debug)]
pub struct InputSnapshot {
    /// Key codes currently held, if a keyboard is present.
    pub keyboard: Option<Vec<u32>>,
    /// Mouse button ids currently held, if a mouse is present.
    pub mouse: Option<Vec<u32>>,
    /// Connected gamepads and their held buttons, if any gamepad is present.
    pub gamepads: Option<Vec<GamepadSnapshot>>,
}

/// Whether `code` is among the held codes of an optional modality.
pub open spec fn code_held(codes: Option<Vec<u32>>, code: u32) -> bool {
    match codes {
        Option::Some(v) => v@.contains(code),
        Option::None => false,
    }
}

/// Whether one gamepad's snapshot may serve the associated gamepad `assoc`:
/// with an association only that gamepad counts, without one any does.
pub open spec fn gamepad_matches(gp: GamepadSnapshot, assoc: Option<u32>) -> bool {
    match assoc {
        Option::Some(id) => gp.gamepad_id == id,
        Option::None => true,
    }
}

/// Whether gamepad button `button` is held, restricted to the gamepad
/// `assoc` when one is associated, on any connected gamepad otherwise.
pub open spec fn gamepad_button_held(
    gamepads: Option<Vec<GamepadSnapshot>>,
    assoc: Option<u32>,
    button: u32,
) -> bool {
    match gamepads {
        Option::Some(gps) => exists|g: int|
            0 <= g < gps@.len() && gamepad_matches(#[trigger] gps@[g], assoc)
                && gps@[g].buttons@.contains(button),
        Option::None => false,
    }
}

/// Whether the raw input `raw` is held in `snap`, with gamepad buttons
/// resolved against the associated gamepad `assoc`.
pub open spec fn raw_pressed(snap: InputSnapshot, assoc: Option<u32>, raw: RawInput) -> bool {
    match raw {
        RawInput::Keyboard(k) => code_held(snap.keyboard, k),
        RawInput::MouseButton(b) => code_held(snap.mouse, b),
        RawInput::GamepadButton(b) => gamepad_button_held(snap.gamepads, assoc, b),
    }
}

fn contains_code(codes: &Vec<u32>, code: u32) -> (r: bool)
    ensures
        r == codes@.contains(code),
{
    let mut i: usize = 0;
    while i < codes.len()
        invariant
            i <= codes@.len(),
            forall|k: int| 0 <= k < i ==> codes@[k] != code,
        decreases codes@.len() - i,
    {
        if codes[i] == code {
            return true;
        }
        i += 1;
    }
    false
}

fn contains_raw(inputs: &Vec<RawInput>, raw: RawInput) -> (r: bool)
    ensures
        r == inputs@.contains(raw),
{
    let mut i: usize = 0;
    while i < inputs.len()
        invariant
            i <= inputs@.len(),
            forall|k: int| 0 <= k < i ==> inputs@[k] != raw,
        decreases inputs@.len() - i,
    {
        if inputs[i] == raw {
            return true;
        }
        i += 1;
    }
    false
}

impl InputSnapshot {
    /// An empty snapshot: every modality missing, so nothing is pressed.
    pub fn empty() -> (snap: Self)
        ensures
            snap.keyboard is None,
            snap.mouse is None,
            snap.gamepads is None,
    {
        InputSnapshot { keyboard: Option::None, mouse: Option::None, gamepads: Option::None }
    }

    /// Whether the raw input `raw` is currently held, with gamepad buttons
    /// restricted to the associated gamepad `assoc` when one is given.
    pub fn is_raw_pressed(&self, assoc: Option<u32>, raw: RawInput) -> (r: bool)
        ensures
            r == raw_pressed(*self, assoc, raw),
    {
        match raw {
            RawInput::Keyboard(k) => match &self.keyboard {
                Option::Some(v) => contains_code(v, k),
                Option::None => false,
            },
            RawInput::MouseButton(b) => match &self.mouse {
                Option::Some(v) => contains_code(v, b),
                Option::None => false,
            },
            RawInput::GamepadButton(b) => match &self.gamepads {
                Option::Some(gps) => {
                    let mut g: usize = 0;
                    let mut found = false;
                    while g < gps.len()
                        invariant
                            g <= gps@.len(),
                            found == exists|j: int|
                                0 <= j < g && gamepad_matches(#[trigger] gps@[j], assoc)
                                    && gps@[j].buttons@.contains(b),
                        decreases gps@.len() - g,
                    {
                        let id_matches = match assoc {
                            Option::Some(id) => gps[g].gamepad_id == id,
                            Option::None => true,
                        };
                        if id_matches && contains_code(&gps[g].buttons, b) {
                            proof {
                                assert(gamepad_matches(gps@[g as int], assoc)
                                    && gps@[g as int].buttons@.contains(b));
                            }
                            found = true;
                        }
                        g += 1;
                    }
                    found
                },
                Option::None => false,
            },
        }
    }
}

/// A normalized, order-independent, duplicate-free set of one or more raw
/// inputs: a simple binding (one input) or a chord (several).
#[derive(Clone, Debug)]
pub struct InputCombination {
    /// The raw inputs of the combination, free of duplicates.
    pub inputs: Vec<RawInput>,
}

impl InputCombination {
    /// Well-formedness: at least one input, and no duplicates, so that the
    /// input count is the cardinality of the combination's set of inputs.
    pub open spec fn wf(self) -> bool {
        self.inputs@.len() >= 1 && self.inputs@.no_duplicates()
    }

    /// The combination's length: its input count, the primary tie-break key
    /// of clash resolution.
    pub open spec fn spec_len(self) -> int {
        self.inputs@.len() as int
    }

    /// Whether the combination holds `raw`.
    pub open spec fn spec_contains(self, raw: RawInput) -> bool {
        self.inputs@.contains(raw)
    }

    /// Two combinations overlap when they share at least one raw input.
    pub open spec fn spec_overlaps(self, other: InputCombination) -> bool {
        exists|raw: RawInput| self.spec_contains(raw) && other.spec_contains(raw)
    }

    /// Whether every raw input of this combination is also in `other`.
    pub open spec fn spec_subset_of(self, other: InputCombination) -> bool {
        forall|raw: RawInput| #[trigger] self.spec_contains(raw) ==> other.spec_contains(raw)
    }

    /// The clash predicate between two combinations: one decomposes into
    /// the other, that is, its set of raw inputs is a proper subset of the
    /// other's, so that physically holding the larger chord necessarily
    /// satisfies the smaller binding too. Combinations that merely share an
    /// input without either containing the other (or that are equal as
    /// sets) can each be held deliberately and do not clash.
    pub open spec fn spec_clashes_with(self, other: InputCombination) -> bool {
        (self.spec_subset_of(other) && !other.spec_subset_of(self)) || (other.spec_subset_of(self)
            && !self.spec_subset_of(other))
    }

    /// A combination is satisfied when every one of its raw inputs is held.
    pub open spec fn spec_satisfied(self, snap: InputSnapshot, assoc: Option<u32>) -> bool {
        forall|k: int|
            0 <= k < self.inputs@.len() ==> raw_pressed(snap, assoc, #[trigger] self.inputs@[k])
    }

    /// A simple binding of a single raw input.
    pub fn single(raw: RawInput) -> (c: Self)
        ensures
            c.inputs@.len() == 1,
            c.inputs@[0] == raw,
            c.wf(),
    {
        let mut inputs: Vec<RawInput> = Vec::new();
        inputs.push(raw);
        InputCombination { inputs }
    }

    /// A chord over the given raw inputs, deduplicated. Returns `None` only
    /// when `inputs` is empty: a combination can never be empty.
    pub fn chord(inputs: Vec<RawInput>) -> (c: Option<Self>)
        ensures
            c is Some <==> inputs@.len() >= 1,
            c is Some ==> c.unwrap().wf(),
            c is Some ==> forall|raw: RawInput|
                c.unwrap().spec_contains(raw) <==> inputs@.contains(raw),
    {
        if inputs.len() == 0 {
            return Option::None;
        }
        let mut deduped: Vec<RawInput> = Vec::new();
        let mut i: usize = 0;
        while i < inputs.len()
            invariant
                i <= inputs@.len(),
                deduped@.no_duplicates(),
                forall|raw: RawInput| deduped@.contains(raw) ==> inputs@.contains(raw),
                forall|k: int| 0 <= k < i ==> deduped@.contains(#[trigger] inputs@[k]),
            decreases inputs@.len() - i,
        {
            let raw = inputs[i];
            let ghost before = deduped@;
            if !contains_raw(&deduped, raw) {
                deduped.push(raw);
                proof {
                    assert forall|j: int, k: int|
                        0 <= j < deduped@.len() && 0 <= k < deduped@.len() && j != k implies
                        deduped@[j] != deduped@[k] by {
                        if j < before.len() && k < before.len() {
                        } else if j == before.len() {
                            assert(!before.contains(deduped@[j]));
                            assert(before[k] == deduped@[k]);
                        } else {
                            assert(!before.contains(deduped@[k]));
                            assert(before[j] == deduped@[j]);
                        }
                    }
                    assert forall|r: RawInput| deduped@.contains(r) implies inputs@.contains(
                        r,
                    ) by {
                        let j = choose|j: int| 0 <= j < deduped@.len() && deduped@[j] == r;
                        if j < before.len() {
                            assert(before.contains(r));
                        } else {
                            assert(r == inputs@[i as int]);
                            assert(inputs@.contains(inputs@[i as int]));
                        }
                    }
                    assert forall|k: int| 0 <= k <= i implies deduped@.contains(
                        #[trigger] inputs@[k],
                    ) by {
                        if k < i {
                            let j = choose|j: int| 0 <= j < before.len() && before[j] == inputs@[k];
                            assert(deduped@[j] == inputs@[k]);
                        } else {
                            assert(deduped@[before.len() as int] == inputs@[i as int]);
                        }
                    }
                }
            } else {
                proof {
                    assert(deduped@.contains(inputs@[i as int]));
                }
            }
            i += 1;
        }
        proof {
            assert(deduped@.contains(inputs@[0]));
            assert forall|raw: RawInput| inputs@.contains(raw) implies deduped@.contains(raw) by {
                let k = choose|k: int| 0 <= k < inputs@.len() && inputs@[k] == raw;
                assert(deduped@.contains(inputs@[k]));
            }
        }
        Option::Some(InputCombination { inputs: deduped })
    }

    /// The combination's input count.
    pub fn len(&self) -> (n: usize)
        ensures
            n == self.spec_len(),
    {
        self.inputs.len()
    }

    /// Whether this combination shares at least one raw input with `other`.
    pub fn overlaps(&self, other: &InputCombination) -> (r: bool)
        ensures
            r == self.spec_overlaps(*other),
    {
        let mut i: usize = 0;
        while i < self.inputs.len()
            invariant
                i <= self.inputs@.len(),
                forall|k: int| 0 <= k < i ==> !other.inputs@.contains(#[trigger] self.inputs@[k]),
            decreases self.inputs@.len() - i,
        {
            if contains_raw(&other.inputs, self.inputs[i]) {
                assert(self.spec_contains(self.inputs@[i as int]));
                return true;
            }
            i += 1;
        }
        proof {
            if self.spec_overlaps(*other) {
                let raw = choose|raw: RawInput|
                    self.spec_contains(raw) && other.spec_contains(raw);
                let k = choose|k: int| 0 <= k < self.inputs@.len() && self.inputs@[k] == raw;
                assert(!other.inputs@.contains(self.inputs@[k]));
            }
        }
        false
    }

    /// Whether every raw input of this combination is also in `other`.
    pub fn is_subset_of(&self, other: &InputCombination) -> (r: bool)
        ensures
            r == self.spec_subset_of(*other),
    {
        let mut i: usize = 0;
        while i < self.inputs.len()
            invariant
                i <= self.inputs@.len(),
                forall|k: int| 0 <= k < i ==> other.inputs@.contains(#[trigger] self.inputs@[k]),
            decreases self.inputs@.len() - i,
        {
            if !contains_raw(&other.inputs, self.inputs[i]) {
                assert(self.spec_contains(self.inputs@[i as int]));
                return false;
            }
            i += 1;
        }
        proof {
            assert forall|raw: RawInput| #[trigger] self.spec_contains(raw) implies
                other.spec_contains(raw) by {
                let k = choose|k: int| 0 <= k < self.inputs@.len() && self.inputs@[k] == raw;
                assert(other.inputs@.contains(self.inputs@[k]));
            }
        }
        true
    }

    /// Whether this combination and `other` clash: exactly one of the two
    /// is a proper subset of the other.
    pub fn clashes_with(&self, other: &InputCombination) -> (r: bool)
        ensures
            r == self.spec_clashes_with(*other),
    {
        let forward = self.is_subset_of(other);
        let backward = other.is_subset_of(self);
        (forward && !backward) || (backward && !forward)
    }

    /// Whether every raw input of the combination is currently held.
    pub fn is_satisfied(&self, snap: &InputSnapshot, assoc: Option<u32>) -> (r: bool)
        ensures
            r == self.spec_satisfied(*snap, assoc),
    {
        let mut i: usize = 0;
        while i < self.inputs.len()
            invariant
                i <= self.inputs@.len(),
                forall|k: int| 0 <= k < i ==> raw_pressed(*snap, assoc, #[trigger] self.inputs@[k]),
            decreases self.inputs@.len() - i,
        {
            if !snap.is_raw_pressed(assoc, self.inputs[i]) {
                return false;
            }
            i += 1;
        }
        true
    }
}

} // verus!
