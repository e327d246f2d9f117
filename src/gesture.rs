//! The click-and-drag gesture that produces a selection, as a state machine
//! fed with pointer samples.

use vstd::prelude::*;

use crate::bounding_box::{corner_span, BoundingBox, Coord};

verus! {

/// One reading of the pointer: where it is and whether the primary button is down.
#[derive(Clone, Copy, Debug, PartialEq, Eq, Structural)]
pub struct PointerSample {
    pub position: Coord,
    pub primary_pressed: bool,
}

/// Progress of a selection gesture.
#[derive(Clone, Copy, Debug, PartialEq, Eq, Structural)]
pub enum GestureState {
    /// The button has not been pressed yet.
    Idle,
    /// The button went down at `start` and is still held.
    Selecting { start: Coord },
    /// The button went down at `start` and came up at `end`.
    Complete { start: Coord, end: Coord },
}

/// The state after observing `sample` in `state`: the start is latched on
/// the first press only, the end on the first release after it, and a
/// completed gesture stays as it is.
pub open spec fn next_state(state: GestureState, sample: PointerSample) -> GestureState {
    match state {
        GestureState::Idle => if sample.primary_pressed {
            GestureState::Selecting { start: sample.position }
        } else {
            GestureState::Idle
        },
        GestureState::Selecting { start } => if sample.primary_pressed {
            state
        } else {
            GestureState::Complete { start, end: sample.position }
        },
        GestureState::Complete { .. } => state,
    }
}

impl GestureState {
    pub fn new() -> (r: Self)
        ensures
            r == GestureState::Idle,
    {
        GestureState::Idle
    }

    /// Advances the gesture by one pointer sample.
    pub fn step(&self, sample: &PointerSample) -> (r: Self)
        ensures
            r == next_state(*self, *sample),
    {
        match self {
            GestureState::Idle => if sample.primary_pressed {
                GestureState::Selecting { start: sample.position }
            } else {
                GestureState::Idle
            },
            GestureState::Selecting { start } => if sample.primary_pressed {
                *self
            } else {
                GestureState::Complete { start: *start, end: sample.position }
            },
            GestureState::Complete { .. } => *self,
        }
    }

    /// The selected box once the gesture is complete, with its corners put
    /// in order whichever way the pointer was dragged.
    pub fn selection(&self) -> (r: Option<BoundingBox>)
        ensures
            match *self {
                GestureState::Complete { start, end } => {
                    &&& r is Some
                    &&& r->0.wf()
                    &&& r->0@ == corner_span(start, end)
                },
                _ => r is None,
            },
    {
        match self {
            GestureState::Complete { start, end } => Some(BoundingBox::from_corners(*start, *end)),
            _ => None,
        }
    }
}

} // verus!
