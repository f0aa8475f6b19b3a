pub mod curve;
pub mod ecvrf;
pub mod error;
pub mod field;
pub mod hash;
pub mod swu;

pub use ecvrf::{ECVRF, Proof, STARK_PEDERSEN_SSWU};
