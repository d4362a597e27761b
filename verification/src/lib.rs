//! Preparation of DKIM signature material for a fixed-width arithmetic circuit.
//!
//! The crate turns a signed email message into the numeric record that a
//! downstream proving system consumes: the relaxed-canonical header block,
//! the parsed DKIM-Signature tags, the reconstructed public key, fixed-width
//! limb decompositions of the big integers involved, and zero-padded copies
//! of the sender, recipient and subject fields together with their byte
//! offsets inside the canonical header.

pub mod bytes;
pub mod canonical;
pub mod errors;
pub mod fields;
pub mod keys;
pub mod limbs;
pub mod padded;
pub mod record;
pub mod render;
pub mod tags;
