//! Fiat-Shamir challenges for multi-phase BN254 circuits.
//!
//! [`phase`] derives them: it commits to witness values ([`commitment`]) and
//! squeezes challenges out of the commitment ([`transcript`]).

pub mod bigint;
pub mod commitment;
pub mod curve;
pub mod field;
pub mod number;
pub mod phase;
pub mod solver;
pub mod srs;
pub mod text;
pub mod transcript;
