# solarsim

The Sun and eight planets, integrated as a full N-body gravitational system
and drawn with macroquad.

- `src/` is the verified library:
  - `method.rs`: the three integrators, their labels and the order in which
    the integrator button cycles through them;
  - `controls.rs`: what each press of a control does to the viewer's state
    (running or paused, trails, steps per frame, time step as a power of
    two, integrator), with the bounds every state keeps;
  - `trail.rs`: the bounded orbit trails;
  - `calendar.rs`: Julian Day Number to calendar date (Julian calendar before
    15 October 1582, Gregorian after), proved against the calendars' day
    counts.
- `app/` is the program: the floating-point physics (Kepler elements, the
  three integrators, energy and angular momentum), the render loop and the
  input, which hands every press to the library.
- `tests/` runs the library.
