//! Core of a small real-time rendering demo: a score codec and store,
//! a frame clock with a toggling indicator phase, a solid-texture model,
//! and the render loop's per-iteration state machine.

pub mod clock;
pub mod codec;
pub mod render;
pub mod store;
pub mod texture;

use vstd::prelude::*;

verus! {

} // verus!
