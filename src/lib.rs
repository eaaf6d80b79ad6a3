//! Threshold, delegatable BLS signatures over BLS12-381.
//!
//! Scalars, points and signatures are held as their canonical byte encodings;
//! every curve and field operation is carried out by the `bls12_381` crate.
pub mod codec;
pub mod curve;
pub mod keys;
pub mod resign;
pub mod scalar;
pub mod threshold;

pub use keys::{KeyError, KeyKind, PrivateKey, PublicKey, Signature};
pub use scalar::Scalar;
