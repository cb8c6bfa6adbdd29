//! Chaum-Pedersen zero-knowledge password authentication.
//!
//! A prover shows that it knows the exponent `x` behind a registered pair
//! `(alpha^x mod p, beta^x mod p)` without revealing it.  The crate holds the
//! proof engine over arbitrary-precision naturals and the three-step
//! register / challenge / verify protocol built on top of it.

mod backend;
pub mod bignat;
pub mod client;
pub mod constants;
pub mod encoding;
pub mod engine;
pub mod error;
pub mod fermat;
pub mod hexstr;
pub mod modular;
pub mod primality;
pub mod random;
pub mod service;
pub mod store;
pub mod theorems;
pub mod wire;

pub use crate::bignat::BigNat;
pub use crate::engine::ZKP;
pub use crate::error::AuthError;
