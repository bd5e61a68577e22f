//! The verified core of an N-body solar-system viewer: the choice of
//! integrator, the on-screen controls, the bounded orbit trails and the
//! calendar arithmetic behind the clock.

pub mod method;
pub mod calendar;
pub mod controls;
pub mod trail;
