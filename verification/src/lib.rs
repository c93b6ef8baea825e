//! Integer bookkeeping of the photon-population evolution for third harmonic
//! generation: the simulation parameters of each mean pump photon number, the
//! truncation of the Hilbert space to the relevant Fock states, the layout of
//! the state vector, and the enumeration of the terms of the moments.
//!
//! Every quantity here is exact: times are counted in microseconds of the
//! dimensionless evolution time, and no floating-point value enters the crate.

pub mod alpha_square;
pub mod poisson;
pub mod layout;
pub mod evolution;
pub mod moments;
pub mod hamiltonian;
