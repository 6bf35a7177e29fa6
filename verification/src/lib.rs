//! Elementary numerical calculus on fixed-point numbers: finite-difference
//! derivatives at a point and fixed-step quadrature over an interval.
pub mod derivatives;
pub mod fixed;
pub mod integral_lemmas;
pub mod integrals;
