//! Threshold Schnorr signatures over secp256k1: distributed key generation
//! and t-of-n signing, with every protocol step verified against its contract.
//!
//! - `group`: scalars modulo the group order, compressed points, tagged hashing.
//! - `poly`: secret polynomials, Feldman commitments, Lagrange coefficients.
//! - `codec`: fixed-width big-endian encodings.
//! - `collect`: contributions keyed by sender index.
//! - `keygen`: the three rounds of key generation, and key shares.
//! - `sign`: preprocessing, partial signatures, aggregation and verification.
//! - `error`: protocol errors and their kinds.

pub mod codec;
pub mod collect;
pub mod error;
pub mod group;
pub mod keygen;
pub mod poly;
pub mod sign;
