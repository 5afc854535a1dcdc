//! Verified core of a proof-of-solvency round: field encoding of balances,
//! Merkle sum tree path checking, and the assembly of KZG inclusion proofs.
pub mod field;
pub mod merkle;
pub mod round;
pub mod setup;
