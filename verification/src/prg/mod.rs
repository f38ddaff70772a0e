//! Pseudorandom generators.

pub mod rsa;
