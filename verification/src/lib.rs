//! Chaum-Pedersen zero-knowledge authentication over a safe-prime group.
//!
//! A prover shows that it knows the discrete logarithm `x` shared by two public
//! values `y1 = g^x mod p` and `y2 = h^x mod p` without disclosing `x`. The crate
//! holds the arithmetic of the exchange, the construction of the group, the
//! verifier's per-user state machine and the prover's side of the protocol.

pub mod algebra;
mod bigint;
pub mod client;
pub mod encoding;
mod equality;
pub mod error;
pub mod group;
pub mod natural;
pub mod registry;
pub mod server;
pub mod soundness;
