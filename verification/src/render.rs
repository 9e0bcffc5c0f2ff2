//! Render loop state machine: the per-iteration decision from the pending
//! input events and the clock reading. The loop has two states, Running
//! and Stopped, Stopped terminal; a quit request stops it within the same
//! iteration, before anything is drawn. The backend performs the planned
//! frame; the decision of what to draw is made and checked here.

use crate::clock::{elapsed_from_reading, indicator_phase, phase_of, reading_secs};
use crate::texture::{Rgb, TextureColor};
use vstd::prelude::*;

verus! {

/// Side length of the indicator square, in pixels.
pub const TEXTURE_SIZE: u32 = 32;

/// Per-frame budget targeting sixty frames per second, in nanoseconds.
pub const FRAME_DELAY_NANOS: u32 = 1_000_000_000u32 / 60;

/// The events the core distinguishes; everything else is `Other` and is
/// ignored.
#[derive(Clone, Copy, PartialEq, Eq, Structural, Debug)]
pub enum InputEvent {
    Quit,
    EscapeKeyDown,
    Other,
}

/// The loop's two states; `Stopped` is terminal.
#[derive(Clone, Copy, PartialEq, Eq, Structural, Debug)]
pub enum LoopState {
    Running,
    Stopped,
}

/// Everything one frame draws, in order: clear to the background color,
/// copy the indicator texture onto the fixed top-left square, copy the
/// background image stretched over the whole frame, present, then sleep
/// the per-frame budget.
#[derive(Clone, Copy, PartialEq, Eq, Structural, Debug)]
pub struct FramePlan {
    pub clear: Rgb,
    pub indicator: TextureColor,
    pub indicator_x: i32,
    pub indicator_y: i32,
    pub indicator_size: u32,
    pub delay_nanos: u32,
}

/// Some pending event requests quitting: a quit event or an escape key
/// press.
pub open spec fn wants_stop(events: Seq<InputEvent>) -> bool {
    exists|k: int|
        0 <= k < events.len() && (events[k] is Quit || events[k] is EscapeKeyDown)
}

/// The frame a running iteration draws for a clock reading: clear to pure
/// red, the green indicator on even elapsed seconds and the blue one
/// otherwise, at the fixed top-left square, then the fixed frame delay.
pub open spec fn frame_plan_spec(reading: Option<u64>) -> FramePlan {
    FramePlan {
        clear: Rgb { r: 255, g: 0, b: 0 },
        indicator: if phase_of(reading_secs(reading)) {
            TextureColor::Green
        } else {
            TextureColor::Blue
        },
        indicator_x: 0,
        indicator_y: 0,
        indicator_size: TEXTURE_SIZE,
        delay_nanos: FRAME_DELAY_NANOS,
    }
}

/// One loop iteration's decision. A stopped loop stays stopped and draws
/// nothing. A running loop stops immediately — drawing nothing further in
/// that same iteration — as soon as any pending event requests it;
/// otherwise it stays running and draws exactly the planned frame.
pub fn step(state: LoopState, events: &Vec<InputEvent>, reading: Option<u64>) -> (r: (
    LoopState,
    Option<FramePlan>,
))
    ensures
        state is Stopped ==> r.0 is Stopped && r.1 is None,
        state is Running && wants_stop(events@) ==> r.0 is Stopped && r.1 is None,
        state is Running && !wants_stop(events@) ==> r.0 is Running && r.1 == Some(
            frame_plan_spec(reading),
        ),
{
    match state {
        LoopState::Stopped => (LoopState::Stopped, None),
        LoopState::Running => {
            let mut k: usize = 0;
            let mut stop = false;
            while k < events.len()
                invariant
                    k <= events@.len(),
                    stop ==> wants_stop(events@),
                    !stop ==> forall|m: int|
                        0 <= m < k ==> !(events@[m] is Quit || events@[m] is EscapeKeyDown),
                decreases events@.len() - k,
            {
                match events[k] {
                    InputEvent::Quit | InputEvent::EscapeKeyDown => {
                        stop = true;
                    },
                    InputEvent::Other => {},
                }
                k = k + 1;
            }
            if stop {
                (LoopState::Stopped, None)
            } else {
                let phase = indicator_phase(elapsed_from_reading(reading));
                let plan = FramePlan {
                    clear: Rgb { r: 255, g: 0, b: 0 },
                    indicator: if phase {
                        TextureColor::Green
                    } else {
                        TextureColor::Blue
                    },
                    indicator_x: 0,
                    indicator_y: 0,
                    indicator_size: TEXTURE_SIZE,
                    delay_nanos: FRAME_DELAY_NANOS,
                };
                (LoopState::Running, Some(plan))
            }
        },
    }
}

} // verus!
