use solarsim::controls::{
    Action, Control, Controls, MAX_STEPS_PER_FRAME, MAX_STEP_LOG2, MIN_STEPS_PER_FRAME,
    MIN_STEP_LOG2,
};
use solarsim::method::Method;

#[test]
fn start_up_state() {
    let c = Controls::new();
    assert!(c.playing);
    assert!(c.show_trails);
    assert_eq!(c.steps_per_frame, 4);
    assert_eq!(c.step_log2, 0);
    assert_eq!(c.method, Method::Verlet);
}

#[test]
fn play_pause_and_trails_toggle() {
    let mut c = Controls::new();
    assert_eq!(c.apply(Control::PlayPause), Action::Nothing);
    assert!(!c.playing);
    c.apply(Control::PlayPause);
    assert!(c.playing);
    c.apply(Control::ToggleTrails);
    assert!(!c.show_trails);
    c.apply(Control::ToggleTrails);
    assert_eq!(c, Controls::new());
}

#[test]
fn method_button_cycles() {
    let mut c = Controls::new();
    c.apply(Control::CycleMethod);
    assert_eq!(c.method, Method::Euler);
    c.apply(Control::CycleMethod);
    assert_eq!(c.method, Method::SymplecticEuler);
    c.apply(Control::CycleMethod);
    assert_eq!(c.method, Method::Verlet);
    c.apply(Control::SelectMethod(Method::SymplecticEuler));
    assert_eq!(c.method, Method::SymplecticEuler);
}

#[test]
fn steps_per_frame_stay_between_one_and_two_hundred() {
    let mut c = Controls::new();
    for _ in 0..10 {
        c.apply(Control::Slower);
    }
    assert_eq!(c.steps_per_frame, MIN_STEPS_PER_FRAME);
    assert_eq!(c.steps_per_frame, 1);
    for _ in 0..300 {
        c.apply(Control::Faster);
    }
    assert_eq!(c.steps_per_frame, MAX_STEPS_PER_FRAME);
    assert_eq!(c.steps_per_frame, 200);
    c.apply(Control::Slower);
    assert_eq!(c.steps_per_frame, 199);
}

#[test]
fn time_step_stays_between_a_32nd_and_32_days() {
    let mut c = Controls::new();
    c.apply(Control::HalveStep);
    assert_eq!(c.step_log2, -1);
    for _ in 0..10 {
        c.apply(Control::HalveStep);
    }
    assert_eq!(c.step_log2, MIN_STEP_LOG2);
    assert_eq!(c.step_log2, -5);
    for _ in 0..20 {
        c.apply(Control::DoubleStep);
    }
    assert_eq!(c.step_log2, MAX_STEP_LOG2);
    assert_eq!(c.step_log2, 5);
}

#[test]
fn presses_undo_each_other() {
    let mut c = Controls::new();
    c.apply(Control::Faster);
    c.apply(Control::Slower);
    c.apply(Control::DoubleStep);
    c.apply(Control::HalveStep);
    assert_eq!(c, Controls::new());
}

#[test]
fn reset_keeps_the_settings() {
    let mut c = Controls::new();
    c.apply(Control::CycleMethod);
    c.apply(Control::Faster);
    c.apply(Control::PlayPause);
    let before = c;
    assert_eq!(c.apply(Control::Reset), Action::Restart);
    assert_eq!(c, before);
    assert_eq!(c.method, Method::Euler);
}
