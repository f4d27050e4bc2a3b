//! A lightweight data-availability sampling client for a blockchain-style
//! ledger.  Instead of replicating every fragment ("shred") of a slot, the
//! client probes a slot's fragment count, draws a small random sample of
//! fragment indices, fetches exactly those fragments, checks each one's
//! producer signature and Merkle inclusion proof, and records the survivors
//! in a content-addressed archive.
//!
//! The crate holds the pipeline's logic: the sampling policy, the
//! classification of probe responses, the reconciliation of fetch responses,
//! the cryptographic acceptance rule, and the archive's key derivation and
//! store semantics.  Network and disk I/O live outside the crate and hand
//! these functions plain values.

pub mod archiver;
pub mod client;
pub mod crypto;
pub mod fragment;
pub mod merkle;
pub mod monitor;
pub mod sampler;
pub mod verify;
