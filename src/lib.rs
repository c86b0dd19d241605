//! Anonymous token protocols between a client and an issuing server, over
//! elliptic-curve groups:
//!
//! - a non-interactive anonymous token (NTAT) with blind issuance, a
//!   representation proof (REP3) for the query, a discrete-log equality proof
//!   (DLEQ) for the response and a two-round redemption, over Ristretto
//!   (`util_dalek`, `client_dalek`, `server_dalek`) and over secp256k1
//!   (`util`, `client`, `server`);
//! - the same token over BLS12-381, where pairing checks take the place of the
//!   DLEQ proof and of the server's key check (`util_pairing`,
//!   `client_pairing`, `server_pairing`);
//! - a pairing-based credential whose messages are checked by pairing
//!   equations alone (`util_chac`, `client_chac`, `server_chac`).
//!
//! Scalars and group elements are held as their canonical encodings. Contracts
//! speak of a group element through its discrete logarithm with respect to a
//! fixed generator, so that the algebra of every proof is stated and checked
//! modulo the group order. Fiat–Shamir transcripts are byte strings of those
//! encodings, hashed with SHA-256. The `correctness*` modules state the
//! completeness of each protocol, and `session` runs whole sessions whose
//! success is proved.

pub mod scalar;
pub mod congruence;
pub mod ristretto;
pub mod transcript;
pub mod bls;
pub mod secp;
pub mod util_dalek;
pub mod client_dalek;
pub mod server_dalek;
pub mod util;
pub mod client;
pub mod server;
pub mod correctness;
pub mod correctness_secp;
pub mod correctness_pairing;
pub mod correctness_chac;
pub mod session;
pub mod util_chac;
pub mod client_chac;
pub mod server_chac;
pub mod util_pairing;
pub mod client_pairing;
pub mod server_pairing;
