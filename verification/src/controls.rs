//! The on-screen controls: what each button press does to the state of the
//! viewer. The render loop reads the state, draws, and hands every press
//! back here as a `Control`.

use vstd::prelude::*;
use crate::method::{Method, next_method, spec_next_method};

verus! {

/// The fewest integration steps taken per frame.
pub const MIN_STEPS_PER_FRAME: usize = 1;

/// The most integration steps taken per frame.
pub const MAX_STEPS_PER_FRAME: usize = 200;

/// The time step is `2^step_log2` days; this is the smallest `step_log2`
/// (a step of 1/32 day).
pub const MIN_STEP_LOG2: i32 = -5;

/// The largest `step_log2` (a step of 32 days).
pub const MAX_STEP_LOG2: i32 = 5;

/// One press of a control.
#[derive(Clone, Copy, Debug, PartialEq, Eq, Structural)]
pub enum Control {
    /// Pause a running simulation, or resume a paused one.
    PlayPause,
    /// Switch to the next integrator of the cycle.
    CycleMethod,
    /// Switch to the given integrator.
    SelectMethod(Method),
    /// Show or hide the orbit trails.
    ToggleTrails,
    /// One integration step fewer per frame.
    Slower,
    /// One integration step more per frame.
    Faster,
    /// Halve the time step.
    HalveStep,
    /// Double the time step.
    DoubleStep,
    /// Start again from J2000 with the same integrator.
    Reset,
}

/// What the render loop has to do after a press, besides reading the new
/// state.
#[derive(Clone, Copy, Debug, PartialEq, Eq, Structural)]
pub enum Action {
    /// Nothing more.
    Nothing,
    /// Rebuild the simulation at J2000, keeping the integrator, and clear
    /// the trails.
    Restart,
}

/// The state of the controls.
#[derive(Clone, Copy, Debug, PartialEq, Eq, Structural)]
pub struct Controls {
    /// Whether the simulation advances.
    pub playing: bool,
    /// Whether the orbit trails are drawn.
    pub show_trails: bool,
    /// Integration steps per frame.
    pub steps_per_frame: usize,
    /// The time step is `2^step_log2` days.
    pub step_log2: i32,
    /// The integrator in use.
    pub method: Method,
}

impl Controls {
    /// The bounds that every reachable state keeps.
    pub open spec fn wf(self) -> bool {
        &&& MIN_STEPS_PER_FRAME <= self.steps_per_frame <= MAX_STEPS_PER_FRAME
        &&& MIN_STEP_LOG2 <= self.step_log2 <= MAX_STEP_LOG2
    }
}

/// The state after pressing `control` in state `c`, and what the render
/// loop has to do.
pub open spec fn spec_apply(c: Controls, control: Control) -> (Controls, Action) {
    match control {
        Control::PlayPause => (Controls { playing: !c.playing, ..c }, Action::Nothing),
        Control::CycleMethod => (Controls { method: spec_next_method(c.method), ..c }, Action::Nothing),
        Control::SelectMethod(m) => (Controls { method: m, ..c }, Action::Nothing),
        Control::ToggleTrails => (Controls { show_trails: !c.show_trails, ..c }, Action::Nothing),
        Control::Slower => (
            Controls {
                steps_per_frame: if c.steps_per_frame > MIN_STEPS_PER_FRAME {
                    (c.steps_per_frame - 1) as usize
                } else {
                    MIN_STEPS_PER_FRAME
                },
                ..c
            },
            Action::Nothing,
        ),
        Control::Faster => (
            Controls {
                steps_per_frame: if c.steps_per_frame < MAX_STEPS_PER_FRAME {
                    (c.steps_per_frame + 1) as usize
                } else {
                    MAX_STEPS_PER_FRAME
                },
                ..c
            },
            Action::Nothing,
        ),
        Control::HalveStep => (
            Controls {
                step_log2: if c.step_log2 > MIN_STEP_LOG2 {
                    (c.step_log2 - 1) as i32
                } else {
                    MIN_STEP_LOG2
                },
                ..c
            },
            Action::Nothing,
        ),
        Control::DoubleStep => (
            Controls {
                step_log2: if c.step_log2 < MAX_STEP_LOG2 {
                    (c.step_log2 + 1) as i32
                } else {
                    MAX_STEP_LOG2
                },
                ..c
            },
            Action::Nothing,
        ),
        Control::Reset => (c, Action::Restart),
    }
}

impl Controls {
    /// The state at start-up: running, trails shown, 4 steps of one day per
    /// frame, velocity Verlet.
    pub fn new() -> (c: Controls)
        ensures
            c.wf(),
            c.playing,
            c.show_trails,
            c.steps_per_frame == 4,
            c.step_log2 == 0,
            c.method == Method::Verlet,
    {
        Controls { playing: true, show_trails: true, steps_per_frame: 4, step_log2: 0, method: Method::Verlet }
    }

    /// Applies one press of `control`, and says what else the render loop
    /// has to do.
    pub fn apply(&mut self, control: Control) -> (action: Action)
        requires
            old(self).wf(),
        ensures
            (*final(self), action) == spec_apply(*old(self), control),
            final(self).wf(),
    {
        match control {
            Control::PlayPause => {
                self.playing = !self.playing;
                Action::Nothing
            },
            Control::CycleMethod => {
                self.method = next_method(self.method);
                Action::Nothing
            },
            Control::SelectMethod(m) => {
                self.method = m;
                Action::Nothing
            },
            Control::ToggleTrails => {
                self.show_trails = !self.show_trails;
                Action::Nothing
            },
            Control::Slower => {
                let s: usize = self.steps_per_frame.saturating_sub(1);
                self.steps_per_frame = if s > MIN_STEPS_PER_FRAME { s } else { MIN_STEPS_PER_FRAME };
                Action::Nothing
            },
            Control::Faster => {
                let s: usize = self.steps_per_frame + 1;
                self.steps_per_frame = if s < MAX_STEPS_PER_FRAME { s } else { MAX_STEPS_PER_FRAME };
                Action::Nothing
            },
            Control::HalveStep => {
                let k: i32 = self.step_log2 - 1;
                self.step_log2 = if k > MIN_STEP_LOG2 { k } else { MIN_STEP_LOG2 };
                Action::Nothing
            },
            Control::DoubleStep => {
                let k: i32 = self.step_log2 + 1;
                self.step_log2 = if k < MAX_STEP_LOG2 { k } else { MAX_STEP_LOG2 };
                Action::Nothing
            },
            Control::Reset => Action::Restart,
        }
    }
}

/// Pressing pause/play twice, or the trails button twice, leaves the
/// controls as they were.
pub proof fn lemma_toggle_twice(c: Controls)
    ensures
        spec_apply(spec_apply(c, Control::PlayPause).0, Control::PlayPause).0 == c,
        spec_apply(spec_apply(c, Control::ToggleTrails).0, Control::ToggleTrails).0 == c,
{
}

/// Pressing the integrator button three times leaves the controls as they
/// were.
pub proof fn lemma_cycle_method_thrice(c: Controls)
    ensures
        spec_apply(
            spec_apply(spec_apply(c, Control::CycleMethod).0, Control::CycleMethod).0,
            Control::CycleMethod,
        ).0 == c,
{
}

/// Away from the bounds, one press undoes the other: faster then slower,
/// slower then faster, double then halve, halve then double.
pub proof fn lemma_presses_undo(c: Controls)
    requires
        c.wf(),
    ensures
        c.steps_per_frame < MAX_STEPS_PER_FRAME ==> spec_apply(
            spec_apply(c, Control::Faster).0,
            Control::Slower,
        ).0 == c,
        c.steps_per_frame > MIN_STEPS_PER_FRAME ==> spec_apply(
            spec_apply(c, Control::Slower).0,
            Control::Faster,
        ).0 == c,
        c.step_log2 < MAX_STEP_LOG2 ==> spec_apply(
            spec_apply(c, Control::DoubleStep).0,
            Control::HalveStep,
        ).0 == c,
        c.step_log2 > MIN_STEP_LOG2 ==> spec_apply(
            spec_apply(c, Control::HalveStep).0,
            Control::DoubleStep,
        ).0 == c,
{
}

/// Every press keeps the steps per frame within 1 to 200 and the time step
/// within 1/32 to 32 days; only a reset asks for a restart, and a reset
/// keeps every setting, the integrator among them.
pub proof fn lemma_apply_invariants(c: Controls, control: Control)
    requires
        c.wf(),
    ensures
        spec_apply(c, control).0.wf(),
        (spec_apply(c, control).1 == Action::Restart) <==> control == Control::Reset,
        control == Control::Reset ==> spec_apply(c, control).0 == c,
{
}

/// What each press does, whether the simulation is running or paused: it
/// changes exactly the setting it names, in the way it names, and leaves
/// every other setting as it was.
pub proof fn lemma_press_effects(c: Controls, control: Control)
    requires
        c.wf(),
    ensures
        ({
            let (r, action) = spec_apply(c, control);
            &&& control == Control::PlayPause ==> {
                &&& r.playing == !c.playing
                &&& r.show_trails == c.show_trails
                &&& r.steps_per_frame == c.steps_per_frame
                &&& r.step_log2 == c.step_log2
                &&& r.method == c.method
                &&& action == Action::Nothing
            }
            &&& control == Control::CycleMethod ==> {
                &&& c.method == Method::Euler ==> r.method == Method::SymplecticEuler
                &&& c.method == Method::SymplecticEuler ==> r.method == Method::Verlet
                &&& c.method == Method::Verlet ==> r.method == Method::Euler
                &&& r.playing == c.playing
                &&& r.show_trails == c.show_trails
                &&& r.steps_per_frame == c.steps_per_frame
                &&& r.step_log2 == c.step_log2
                &&& action == Action::Nothing
            }
            &&& forall|m: Method|
                control == Control::SelectMethod(m) ==> {
                    &&& r.method == m
                    &&& r.playing == c.playing
                    &&& r.show_trails == c.show_trails
                    &&& r.steps_per_frame == c.steps_per_frame
                    &&& r.step_log2 == c.step_log2
                    &&& action == Action::Nothing
                }
            &&& control == Control::ToggleTrails ==> {
                &&& r.show_trails == !c.show_trails
                &&& r.playing == c.playing
                &&& r.steps_per_frame == c.steps_per_frame
                &&& r.step_log2 == c.step_log2
                &&& r.method == c.method
                &&& action == Action::Nothing
            }
            &&& control == Control::Slower ==> {
                &&& c.steps_per_frame > 1 ==> r.steps_per_frame == c.steps_per_frame - 1
                &&& c.steps_per_frame == 1 ==> r.steps_per_frame == 1
                &&& r.playing == c.playing
                &&& r.show_trails == c.show_trails
                &&& r.step_log2 == c.step_log2
                &&& r.method == c.method
                &&& action == Action::Nothing
            }
            &&& control == Control::Faster ==> {
                &&& c.steps_per_frame < 200 ==> r.steps_per_frame == c.steps_per_frame + 1
                &&& c.steps_per_frame == 200 ==> r.steps_per_frame == 200
                &&& r.playing == c.playing
                &&& r.show_trails == c.show_trails
                &&& r.step_log2 == c.step_log2
                &&& r.method == c.method
                &&& action == Action::Nothing
            }
            &&& control == Control::HalveStep ==> {
                &&& c.step_log2 > -5 ==> r.step_log2 == c.step_log2 - 1
                &&& c.step_log2 == -5 ==> r.step_log2 == -5
                &&& r.playing == c.playing
                &&& r.show_trails == c.show_trails
                &&& r.steps_per_frame == c.steps_per_frame
                &&& r.method == c.method
                &&& action == Action::Nothing
            }
            &&& control == Control::DoubleStep ==> {
                &&& c.step_log2 < 5 ==> r.step_log2 == c.step_log2 + 1
                &&& c.step_log2 == 5 ==> r.step_log2 == 5
                &&& r.playing == c.playing
                &&& r.show_trails == c.show_trails
                &&& r.steps_per_frame == c.steps_per_frame
                &&& r.method == c.method
                &&& action == Action::Nothing
            }
            &&& control == Control::Reset ==> {
                &&& r == c
                &&& action == Action::Restart
            }
        }),
{
}

} // verus!
