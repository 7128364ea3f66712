//! The uniform error type shared by every protocol family.

use vstd::prelude::*;

verus! {

/// Why an operation failed.
///
/// Address and parameter faults are detected before any byte is sent; the
/// remaining variants describe transport-level and device-level failures and
/// are produced by the caller that drives the transport.
#[derive(Debug)]
pub enum PlcError {
    /// An out-of-range count or a value of the wrong shape.
    Param(String),
    /// A transport fault, a closed connection or a malformed reply.
    Comm(String),
    /// The configured deadline elapsed while sending or receiving.
    Timeout,
    /// An unparseable or out-of-table register name, including alignment
    /// violations.
    Addr(String),
    /// No live transport to send on.
    NotConnect,
    /// The device understood the request and rejected it with this status
    /// code; the text is the code's documented cause.
    Device(u16, String),
}

/// Result of an operation that yields no value.
pub type PlcResult = Result<(), PlcError>;

} // verus!
