//! Address resolution and command tokens for the ASCII delimited
//! protocol.
//!
//! A register name carries a category token and a numeric offset. Coil
//! categories are bit-addressed and parse their offset in hexadecimal;
//! word categories parse it in decimal. A coil accessed at word
//! granularity must start on a 16-bit boundary.

use vstd::prelude::*;
use vstd::string::*;

use crate::DataType;
use crate::address::IAddress;
use crate::error::PlcError;
use crate::radix::{parse_radix, spec_parse_val, spec_parses};

verus! {

/// Whether the name starts with a two-character word-category token.
pub open spec fn spec_nt_is2(s: Seq<char>) -> bool {
    s.len() >= 2 && ((s[0] == 'I' && (s[1] == 'X' || s[1] == 'Y')) || (s[0] == 'W' && (s[1] == 'X'
        || s[1] == 'Y' || s[1] == 'R')))
}

/// Whether `c` is a one-character word-category token.
pub open spec fn spec_nt_word1(c: char) -> bool {
    c == 'D' || c == 'L' || c == 'F' || c == 'S' || c == 'K'
}

/// Whether `c` is a coil-category token.
pub open spec fn spec_nt_coil1(c: char) -> bool {
    c == 'X' || c == 'Y' || c == 'R' || c == 'T' || c == 'C' || c == 'L'
}

/// Length in characters of the category token of `s`.
pub open spec fn spec_nt_header_len(s: Seq<char>) -> int {
    if spec_nt_is2(s) {
        2
    } else {
        1
    }
}

/// Whether the category token of `s` is in one of the tables. The word
/// tables are consulted first, so `L` names a word category.
pub open spec fn spec_nt_known(s: Seq<char>) -> bool {
    spec_nt_is2(s) || (s.len() >= 1 && (spec_nt_word1(s[0]) || spec_nt_coil1(s[0])))
}

/// Whether `s` names a coil category.
pub open spec fn spec_nt_is_coil(s: Seq<char>) -> bool {
    !spec_nt_is2(s) && s.len() >= 1 && !spec_nt_word1(s[0]) && spec_nt_coil1(s[0])
}

/// Radix of the numeric offset: hexadecimal for coils, decimal for words.
pub open spec fn spec_nt_radix(s: Seq<char>) -> u32 {
    if spec_nt_is_coil(s) {
        16
    } else {
        10
    }
}

/// Numeric offset encoded in `s`.
pub open spec fn spec_nt_addr_val(s: Seq<char>) -> int {
    spec_parse_val(s.skip(spec_nt_header_len(s)), spec_nt_radix(s))
}

/// Whether `s` resolves for `kind`: at least two characters, a category
/// token in a table, an offset that parses in the category's radix, and,
/// for a coil accessed as words, an offset on a 16-bit boundary.
pub open spec fn spec_nt_valid(s: Seq<char>, kind: DataType) -> bool {
    &&& s.len() >= 2
    &&& spec_nt_known(s)
    &&& spec_parses(s.skip(spec_nt_header_len(s)), spec_nt_radix(s))
    &&& ((spec_nt_is_coil(s) && kind == DataType::Word) ==> spec_nt_addr_val(s) % 16 == 0)
}

/// A resolved register address for the ASCII delimited protocol.
pub struct NewtocolAddress {
    /// The full symbolic name the address was resolved from.
    pub address_name: String,
    /// The value kind the address was resolved for.
    pub data_type: DataType,
    /// The category token extracted from the name.
    pub inner_address_header: String,
    /// The numeric offset within the category.
    pub inner_address: u32,
    /// Whether the category is bit-addressed as a coil.
    pub inner_is_coil: bool,
}

impl NewtocolAddress {
    /// Resolves a symbolic register name.
    ///
    /// The two-character prefix is tried against the word-category table
    /// first, then the one-character prefix against the word and coil
    /// tables in that order. The remainder is parsed in hexadecimal for
    /// coils, decimal for words; a coil read or written as words must
    /// start on a 16-bit boundary.
    pub fn new(address_name: &str, data_type: DataType) -> (r: Result<Self, PlcError>)
        ensures
            r is Ok <==> spec_nt_valid(address_name@, data_type),
            r matches Ok(a) ==> {
                &&& a.address_name@ == address_name@
                &&& a.data_type == data_type
                &&& a.inner_address_header@ == address_name@.subrange(
                    0,
                    spec_nt_header_len(address_name@),
                )
                &&& a.inner_address == spec_nt_addr_val(address_name@)
                &&& a.inner_is_coil == spec_nt_is_coil(address_name@)
            },
            r matches Err(e) ==> e matches PlcError::Addr(_),
    {
        let n = address_name.unicode_len();
        if n <= 1 {
            return Err(PlcError::Addr(String::from_str("register name too short")));
        }
        let c0 = address_name.get_char(0);
        let c1 = address_name.get_char(1);
        let is2 = (c0 == 'I' && (c1 == 'X' || c1 == 'Y')) || (c0 == 'W' && (c1 == 'X' || c1 == 'Y'
            || c1 == 'R'));
        let word1 = c0 == 'D' || c0 == 'L' || c0 == 'F' || c0 == 'S' || c0 == 'K';
        let coil1 = c0 == 'X' || c0 == 'Y' || c0 == 'R' || c0 == 'T' || c0 == 'C' || c0 == 'L';
        let is_coil = if is2 || word1 {
            false
        } else if coil1 {
            true
        } else {
            return Err(PlcError::Addr(String::from_str("invalid register category")));
        };
        let header_len: usize = if is2 {
            2
        } else {
            1
        };
        let radix: u32 = if is_coil {
            16
        } else {
            10
        };
        let address = match parse_radix(address_name, header_len, radix) {
            Some(v) => v,
            None => {
                return Err(PlcError::Addr(String::from_str("invalid register number")));
            },
        };
        if is_coil && data_type == DataType::Word && address % 16 != 0 {
            return Err(
                PlcError::Addr(
                    String::from_str(
                        "word access to a coil must start on a multiple of 16",
                    ),
                ),
            );
        }
        let header = address_name.substring_char(0, header_len);
        Ok(
            NewtocolAddress {
                address_name: String::from_str(address_name),
                data_type,
                inner_address_header: String::from_str(header),
                inner_address: address,
                inner_is_coil: is_coil,
            },
        )
    }

    /// Whether the category is bit-addressed as a coil.
    pub fn is_coil(&self) -> (r: bool)
        ensures
            r == self.inner_is_coil,
    {
        self.inner_is_coil
    }
}

impl IAddress for NewtocolAddress {
    fn get_address_name(&self) -> &str {
        self.address_name.as_str()
    }

    fn get_address_header(&self) -> &str {
        self.inner_address_header.as_str()
    }

    fn get_address(&self) -> u32 {
        self.inner_address
    }

    fn get_data_type(&self) -> &DataType {
        &self.data_type
    }
}

/// A command token of the ASCII delimited protocol.
pub enum Cmd {
    /// Read a single contact.
    RCS,
    /// Write a single contact.
    WCS,
    /// Read several enumerated contacts.
    RCP,
    /// Read a word-aligned range of contacts.
    RCC,
    /// Write several enumerated contacts.
    WCP,
    /// Write a word-aligned range of contacts.
    WCC,
    /// Read a register range.
    RD,
    /// Write a register range.
    WD,
}

/// The characters of a command token.
pub open spec fn spec_cmd_str(cmd: Cmd) -> Seq<char> {
    match cmd {
        Cmd::RCS => "RCS"@,
        Cmd::WCS => "WCS"@,
        Cmd::RCP => "RCP"@,
        Cmd::RCC => "RCC"@,
        Cmd::WCP => "WCP"@,
        Cmd::WCC => "WCC"@,
        Cmd::RD => "RD"@,
        Cmd::WD => "WD"@,
    }
}

impl Cmd {
    /// The token as it is written on the wire.
    pub fn to_str(&self) -> (r: &'static str)
        ensures
            r@ == spec_cmd_str(*self),
    {
        match self {
            Cmd::RCS => "RCS",
            Cmd::WCS => "WCS",
            Cmd::RCP => "RCP",
            Cmd::RCC => "RCC",
            Cmd::WCP => "WCP",
            Cmd::WCC => "WCC",
            Cmd::RD => "RD",
            Cmd::WD => "WD",
        }
    }
}

} // verus!
