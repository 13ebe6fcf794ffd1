//! An input-abstraction layer for interactive applications.
//!
//! Heterogeneous physical inputs (keyboard keys, mouse buttons, gamepad
//! buttons, chorded combinations) are mapped onto a user-defined set of
//! semantic actions. Each action's press state is tracked over time, and
//! ambiguity between overlapping input combinations is resolved by a
//! configurable clash strategy.
//!
//! Actions are identified by their ordinal in the user's closed action
//! enumeration; declaration order doubles as the action priority order.

pub mod action_state;
pub mod clashing_inputs;
pub mod input_map;
pub mod systems;
pub mod user_input;
