//! The three integrators the simulation can advance with, and the order in
//! which the integrator button cycles through them.

use vstd::prelude::*;

verus! {

/// Which integrator advances the N-body system.
#[derive(Clone, Copy, Debug, PartialEq, Eq, Structural)]
pub enum Method {
    /// Explicit Euler. Energy runs away fast — that is the point.
    Euler,
    /// Semi-implicit (symplectic) Euler. Energy stays bounded but wobbles.
    SymplecticEuler,
    /// Velocity Verlet. Symplectic, 2nd order, the sane default.
    Verlet,
}

impl Method {
    /// The label shown for this integrator in the HUD.
    pub fn name(self) -> (label: &'static str)
        ensures
            self == Method::Euler ==> label@ == "Euler"@,
            self == Method::SymplecticEuler ==> label@ == "Symplectic Euler"@,
            self == Method::Verlet ==> label@ == "Velocity Verlet"@,
    {
        match self {
            Method::Euler => "Euler",
            Method::SymplecticEuler => "Symplectic Euler",
            Method::Verlet => "Velocity Verlet",
        }
    }
}

/// The integrator that follows `m` in the button's cycle:
/// Euler, then symplectic Euler, then Verlet, then Euler again.
pub open spec fn spec_next_method(m: Method) -> Method {
    match m {
        Method::Euler => Method::SymplecticEuler,
        Method::SymplecticEuler => Method::Verlet,
        Method::Verlet => Method::Euler,
    }
}

/// Steps `m` one place along the integrator cycle.
pub fn next_method(m: Method) -> (next: Method)
    ensures
        next == spec_next_method(m),
{
    match m {
        Method::Euler => Method::SymplecticEuler,
        Method::SymplecticEuler => Method::Verlet,
        Method::Verlet => Method::Euler,
    }
}

/// Pressing the integrator button three times brings back the integrator
/// one started with, and no fewer presses do.
pub proof fn lemma_next_method_cycle(m: Method)
    ensures
        spec_next_method(spec_next_method(spec_next_method(m))) == m,
        spec_next_method(m) != m,
        spec_next_method(spec_next_method(m)) != m,
{
}

/// Every integrator is reached from every other by pressing the button.
pub proof fn lemma_next_method_reaches_all(from: Method, to: Method)
    ensures
        to == from || to == spec_next_method(from) || to == spec_next_method(spec_next_method(from)),
{
}

/// The integrator button goes from Euler to symplectic Euler, from
/// symplectic Euler to velocity Verlet, and from velocity Verlet back to
/// Euler.
pub proof fn lemma_next_method_order()
    ensures
        spec_next_method(Method::Euler) == Method::SymplecticEuler,
        spec_next_method(Method::SymplecticEuler) == Method::Verlet,
        spec_next_method(Method::Verlet) == Method::Euler,
{
}

} // verus!
