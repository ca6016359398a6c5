//! Chaum-Pedersen zero-knowledge proofs over a discrete-log group, and a
//! password-less authentication service built on them.
//!
//! Integers are carried as big-endian unsigned byte strings; their value is
//! `be_value`, and all arithmetic on them is done by `num_bigint`.

pub mod auth;
pub mod bignum;
pub mod store;
pub mod zkp;
