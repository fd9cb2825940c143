//! Privacy-preserving fingerprints of financial transactions.
//!
//! A fingerprint is one element of the BN254 scalar field. It is the same
//! for the same transaction, and it is bound to a secret that one agent
//! holds whole or that several agents hold in shares.
//!
//! The parts of the crate, leaves first:
//!
//! - [`field`], [`ring`] and [`wide`]: field elements in canonical form
//!   with their byte encoding, the laws of their arithmetic, and 256-bit
//!   integers;
//! - [`poseidon`]: the Poseidon permutation and sponge, and the derivation
//!   of their parameters from the Grain stream;
//! - [`buffer`] and [`hashing`]: byte buffers, the three instances that
//!   are used, and the hashing of buffers;
//! - [`components`] and [`date_time`]: the parts of a transaction and the
//!   bytes they enter the fingerprint with;
//! - [`curve`], [`protocols`], [`topology`], [`collaborative`] and
//!   [`in_process`]: the protocols that bind the fingerprint to the
//!   secret;
//! - [`secret_sharing`] and [`interpolation`]: Shamir's scheme and the
//!   proof that it gives the secret back;
//! - [`transaction`]: the fingerprint of a transaction;
//! - [`compact`]: base58 text for elements and bytes;
//! - [`service`] and [`config`]: requests and configuration as plain
//!   values.

pub mod buffer;
pub mod collaborative;
pub mod compact;
pub mod components;
pub mod config;
pub mod curve;
pub mod date_time;
pub mod error;
pub mod field;
pub mod hashing;
pub mod in_process;
pub mod interpolation;
pub mod poseidon;
pub mod protocols;
pub mod ring;
pub mod secret_sharing;
pub mod service;
pub mod topology;
pub mod transaction;
pub mod wide;
