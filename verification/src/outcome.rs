//! Three-way classification of a growing reply buffer.

use vstd::prelude::*;

verus! {

/// Mathematical counterpart of [`ProtocolOutcome`], used in contracts.
pub enum SpecOutcome {
    /// More bytes are needed before anything can be decided.
    Incomplete,
    /// A complete frame that passed the protocol's integrity checks; the
    /// sequence is the frame as the payload decoder expects it.
    Valid(Seq<u8>),
    /// A complete frame reporting a device-level fault with this code.
    DeviceError(u16),
}

/// What a reply buffer holds at some point in time.
///
/// Classification never confuses missing bytes with corruption: a buffer is
/// reported `Incomplete` until a whole frame with a clean integrity check
/// (or a device error report) has arrived.
#[derive(Debug, PartialEq, Eq)]
pub enum ProtocolOutcome {
    /// More bytes are needed; the caller keeps reading and reclassifies.
    Incomplete,
    /// A complete, integrity-checked frame, ready for the payload decoder.
    Valid(Vec<u8>),
    /// A complete frame reporting a device-level fault with this code.
    DeviceError(u16),
}

impl View for ProtocolOutcome {
    type V = SpecOutcome;

    open spec fn view(&self) -> SpecOutcome {
        match self {
            ProtocolOutcome::Incomplete => SpecOutcome::Incomplete,
            ProtocolOutcome::Valid(frame) => SpecOutcome::Valid(frame@),
            ProtocolOutcome::DeviceError(code) => SpecOutcome::DeviceError(*code),
        }
    }
}

} // verus!
