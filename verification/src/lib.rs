//! Gasteiger-Marsili partial charges by iterative electronegativity
//! equalization, computed in fixed-point arithmetic.
//!
//! All charges, electronegativity coefficients and bond orders are integers
//! carrying a fixed scale: [`parameters::SCALE`] steps make one unit. The
//! solver is a pure function of its inputs, and its contract pins the result
//! to a mathematical model of the whole computation, over which the crate
//! proves conservation of total charge, inertness of unparameterized atoms,
//! and independence of disconnected molecules.

pub mod laws;
pub mod parameters;
pub mod solver;
pub mod traits;

pub use parameters::{get_params, GasteigerParams, Hybridization, SCALE};
pub use solver::GasteigerSolver;
pub use traits::{GasteigerAtom, GasteigerBond, SimpleAtom, SimpleBond};
