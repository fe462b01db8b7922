//! P-256 arithmetic on the public key engine.
pub mod curve;
pub mod engine;
pub mod frobenius;
pub mod gaussian;
pub mod group;
pub mod naf;
pub mod p256;
pub mod prime;
pub mod program;
