//! Offline WPA/WPA2 handshake cracking engine.
//!
//! The crate derives WPA keys from candidate passphrases, checks them against
//! a captured 4-way handshake, enumerates candidate spaces, and assembles
//! handshake records from raw 802.11 monitor-mode frames.

pub mod assembler;
pub mod byteops;
pub mod codec;
pub mod cracker;
pub mod crypto;
pub mod generator;
pub mod handshake;

use vstd::prelude::*;

verus! {

} // verus!
