//! The names a typical user of the codec wants in scope.

pub use crate::DataType;
pub use crate::address::IAddress;
pub use crate::conn::{Network, PlcConnector, SerailPort};
pub use crate::error::{PlcError, PlcResult};
pub use crate::outcome::ProtocolOutcome;
