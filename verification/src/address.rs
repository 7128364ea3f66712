//! The interface shared by every protocol family's resolved register
//! address.

use vstd::prelude::*;

use crate::DataType;

verus! {

/// A resolved register address, however the protocol family spells it.
pub trait IAddress {
    /// The full symbolic name the address was resolved from.
    fn get_address_name(&self) -> &str;

    /// The category token extracted from the name.
    fn get_address_header(&self) -> &str;

    /// The numeric offset within the category.
    fn get_address(&self) -> u32;

    /// The value kind the address was resolved for.
    fn get_data_type(&self) -> &DataType;
}

} // verus!
