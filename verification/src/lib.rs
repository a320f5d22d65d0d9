//! Low-discrepancy sequence generators.
//!
//! The crate provides deterministic digit-reversal (Van der Corput)
//! sequences and generators built on top of them: Halton points, points on
//! circles and on spheres of arbitrary dimension.  Every generator is a
//! small state machine over integer counters; scalar draws are returned as
//! exact fractions, so the state evolution and the values drawn are fully
//! specified and verified.

pub mod ilds;
pub mod lds;
pub mod lds_n;
pub mod lds_n1;
pub mod lds_n2;
pub mod sphere_n;

pub use crate::lds::Circle;
pub use crate::lds::ConfigError;
pub use crate::lds::Frac;
pub use crate::lds::Halton;
pub use crate::lds::Sphere;
pub use crate::lds::Sphere3Hopf;
pub use crate::lds::VdCorput;
pub use crate::lds_n::HaltonN;
