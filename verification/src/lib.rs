//! A Chaum-Pedersen zero-knowledge proof engine and the authentication
//! coordinator built on it: a prover registers a commitment pair derived
//! from a secret, then proves knowledge of that secret in a
//! challenge-response exchange, without ever sending the secret itself.

pub mod bignum;
pub mod client;
pub mod engine;
pub mod serialization;
pub mod server;

pub use engine::ZKP;
pub use engine::ZkpConfig;
pub use engine::ZkpError;
pub use engine::ZkpResult;
