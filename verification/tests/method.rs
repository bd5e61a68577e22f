use solarsim::method::{next_method, Method};

#[test]
fn names_of_the_integrators() {
    assert_eq!(Method::Euler.name(), "Euler");
    assert_eq!(Method::SymplecticEuler.name(), "Symplectic Euler");
    assert_eq!(Method::Verlet.name(), "Velocity Verlet");
}

#[test]
fn next_method_follows_the_cycle() {
    assert_eq!(next_method(Method::Euler), Method::SymplecticEuler);
    assert_eq!(next_method(Method::SymplecticEuler), Method::Verlet);
    assert_eq!(next_method(Method::Verlet), Method::Euler);
}

#[test]
fn three_presses_return_to_the_start() {
    for m in [Method::Euler, Method::SymplecticEuler, Method::Verlet] {
        assert_ne!(next_method(m), m);
        assert_ne!(next_method(next_method(m)), m);
        assert_eq!(next_method(next_method(next_method(m))), m);
    }
}
