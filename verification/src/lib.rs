//! A deterministic pseudorandom byte generator whose state advances by
//! RSA-style modular exponentiation, together with the overflow-free
//! modular exponentiation it is built on.

pub mod prg;
pub mod utils;
