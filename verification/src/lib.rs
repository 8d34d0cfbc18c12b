//! Polynomial-ring arithmetic for lattice-based proof systems.
//!
//! The crate provides the algebraic substrate that commitment and folding
//! protocols build on: a concrete residue ring `Zq`, a `ConvertibleRing`
//! capability for moving between ring elements and wide integers, balanced
//! base-b decomposition, L2/L-infinity norms, the coefficient/evaluation
//! (CRT) transform capability, and a power-of-two cyclotomic ring model
//! with its negacyclic rotation.

pub mod balanced_decomposition;
pub mod bigint;
pub mod convertible_ring;
pub mod crt;
pub mod norms;
pub mod pow2;
pub mod zq;

pub use balanced_decomposition::decompose_balanced;
pub use balanced_decomposition::Decompose;
pub use convertible_ring::ConvertibleRing;
pub use crt::CRT;
pub use crt::ICRT;
pub use pow2::Pow2CyclotomicPolyRing;
pub use pow2::Pow2CyclotomicPolyRingNTT;
pub use norms::WithL2Norm;
pub use norms::WithLinfNorm;
pub use zq::Zq;
