//! Verified dimension, layout and parameter logic of the LaBRADOR lattice-based
//! proof system: sizes of folded instances, the layout of the next-round witness,
//! parameter checks for the binary R1CS front end, and the index structure of
//! the constraints produced when an instance is folded.

pub mod size;
pub mod layout;
pub mod params;
pub mod rounding;
pub mod modulus;
pub mod r1cs_params;
pub mod embedding;
pub mod binary_reduce;
pub mod folding;
pub mod binary_laws;
pub mod transcript;
