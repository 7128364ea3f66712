//! Client-side protocol stack for reading and writing named registers on
//! industrial controllers over byte-oriented transports.
//!
//! Each controller family speaks its own wire protocol: a binary frame
//! protocol, an ASCII delimited protocol with an XOR checksum, and a
//! line-oriented ASCII command protocol for a simple IO module. This crate
//! holds the pure codec for all three: address resolution, request-frame
//! construction, incremental reply classification, checksum validation and
//! payload decoding. Transport handling (sockets, timeouts, locking) is left
//! to the caller.

use vstd::prelude::*;

pub mod address;
pub mod conn;
pub mod eio;
pub mod error;
pub mod mc;
pub mod mc_3e_binary;
pub mod newtocol;
pub mod newtocol_codec;
pub mod outcome;
pub mod prelude;
pub mod radix;
pub mod scan;

verus! {

/// The unit of a register access: a single point or a 16-bit word.
#[derive(Clone, Copy, PartialEq, Eq, Structural, Debug)]
pub enum DataType {
    /// One value per point, 0 or 1.
    Bit,
    /// One 16-bit value per register.
    Word,
}

} // verus!
