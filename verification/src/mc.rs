//! Address resolution for the binary frame protocol.
//!
//! A register name such as `"D10"` carries a one- or two-character category
//! token followed by a numeric offset. The category fixes the device code
//! byte sent on the wire and the radix of the offset: octal for the X and Y
//! input/output points, hexadecimal for the link and block categories, and
//! decimal for the rest.

use vstd::prelude::*;
use vstd::string::*;

use crate::DataType;
use crate::address::IAddress;
use crate::error::PlcError;
use crate::radix::{parse_radix, spec_parse_val, spec_parses};

verus! {

/// Device code for a two-character category token, if it is one.
pub open spec fn spec_mc_code2(c0: char, c1: char) -> Option<u8> {
    if c0 == 'S' && c1 == 'M' {
        Some(0x91u8)
    } else if c0 == 'S' && c1 == 'D' {
        Some(0xA9u8)
    } else if c0 == 'T' && c1 == 'S' {
        Some(0xC1u8)
    } else if c0 == 'T' && c1 == 'C' {
        Some(0xC0u8)
    } else if c0 == 'T' && c1 == 'N' {
        Some(0xC2u8)
    } else if c0 == 'S' && c1 == 'S' {
        Some(0xC7u8)
    } else if c0 == 'S' && c1 == 'C' {
        Some(0xC6u8)
    } else if c0 == 'S' && c1 == 'N' {
        Some(0xC8u8)
    } else if c0 == 'C' && c1 == 'S' {
        Some(0xC4u8)
    } else if c0 == 'C' && c1 == 'C' {
        Some(0xC3u8)
    } else if c0 == 'C' && c1 == 'N' {
        Some(0xC5u8)
    } else if c0 == 'S' && c1 == 'B' {
        Some(0xA1u8)
    } else if c0 == 'S' && c1 == 'W' {
        Some(0xB5u8)
    } else if c0 == 'D' && c1 == 'X' {
        Some(0xA2u8)
    } else if c0 == 'D' && c1 == 'Y' {
        Some(0xA3u8)
    } else if c0 == 'Z' && c1 == 'R' {
        Some(0xB0u8)
    } else {
        None
    }
}

/// Device code for a one-character category token, if it is one.
pub open spec fn spec_mc_code1(c: char) -> Option<u8> {
    if c == 'X' {
        Some(0x9Cu8)
    } else if c == 'Y' {
        Some(0x9Du8)
    } else if c == 'M' {
        Some(0x90u8)
    } else if c == 'L' {
        Some(0x92u8)
    } else if c == 'F' {
        Some(0x93u8)
    } else if c == 'V' {
        Some(0x94u8)
    } else if c == 'B' {
        Some(0xA0u8)
    } else if c == 'D' {
        Some(0xA8u8)
    } else if c == 'W' {
        Some(0xB4u8)
    } else if c == 'S' {
        Some(0x98u8)
    } else if c == 'Z' {
        Some(0xCCu8)
    } else if c == 'R' {
        Some(0xAFu8)
    } else {
        None
    }
}

/// Whether the name starts with a two-character category token.
pub open spec fn spec_mc_header_is2(s: Seq<char>) -> bool {
    s.len() >= 2 && spec_mc_code2(s[0], s[1]) is Some
}

/// Length in characters of the category token of `s`.
pub open spec fn spec_mc_header_len(s: Seq<char>) -> int {
    if spec_mc_header_is2(s) {
        2
    } else {
        1
    }
}

/// Device code of the category token of `s`, if the token is in the table.
pub open spec fn spec_mc_code_of(s: Seq<char>) -> Option<u8> {
    if spec_mc_header_is2(s) {
        spec_mc_code2(s[0], s[1])
    } else if s.len() >= 1 {
        spec_mc_code1(s[0])
    } else {
        None
    }
}

/// Radix of the numeric offset mandated by the category token of `s`.
pub open spec fn spec_mc_radix_of(s: Seq<char>) -> u32 {
    if spec_mc_header_is2(s) {
        if (s[0] == 'S' && (s[1] == 'B' || s[1] == 'W')) || (s[0] == 'D' && (s[1] == 'X' || s[1]
            == 'Y')) || (s[0] == 'Z' && s[1] == 'R') {
            16
        } else {
            10
        }
    } else if s.len() >= 1 && (s[0] == 'X' || s[0] == 'Y') {
        8
    } else if s.len() >= 1 && (s[0] == 'B' || s[0] == 'W') {
        16
    } else {
        10
    }
}

/// Whether `s` resolves: at least two characters, a category token in the
/// table, and a non-empty offset that parses in the category's radix
/// without overflowing `u32`.
pub open spec fn spec_mc_valid(s: Seq<char>) -> bool {
    &&& s.len() >= 2
    &&& spec_mc_code_of(s) is Some
    &&& spec_parses(s.skip(spec_mc_header_len(s)), spec_mc_radix_of(s))
}

/// Numeric offset encoded in `s` (meaningful when `spec_mc_valid(s)`).
pub open spec fn spec_mc_addr_val(s: Seq<char>) -> int {
    spec_parse_val(s.skip(spec_mc_header_len(s)), spec_mc_radix_of(s))
}

fn mc_code2(c0: char, c1: char) -> (r: Option<u8>)
    ensures
        r == spec_mc_code2(c0, c1),
{
    match (c0, c1) {
        ('S', 'M') => Some(0x91),
        ('S', 'D') => Some(0xA9),
        ('T', 'S') => Some(0xC1),
        ('T', 'C') => Some(0xC0),
        ('T', 'N') => Some(0xC2),
        ('S', 'S') => Some(0xC7),
        ('S', 'C') => Some(0xC6),
        ('S', 'N') => Some(0xC8),
        ('C', 'S') => Some(0xC4),
        ('C', 'C') => Some(0xC3),
        ('C', 'N') => Some(0xC5),
        ('S', 'B') => Some(0xA1),
        ('S', 'W') => Some(0xB5),
        ('D', 'X') => Some(0xA2),
        ('D', 'Y') => Some(0xA3),
        ('Z', 'R') => Some(0xB0),
        _ => None,
    }
}

fn mc_code1(c: char) -> (r: Option<u8>)
    ensures
        r == spec_mc_code1(c),
{
    match c {
        'X' => Some(0x9C),
        'Y' => Some(0x9D),
        'M' => Some(0x90),
        'L' => Some(0x92),
        'F' => Some(0x93),
        'V' => Some(0x94),
        'B' => Some(0xA0),
        'D' => Some(0xA8),
        'W' => Some(0xB4),
        'S' => Some(0x98),
        'Z' => Some(0xCC),
        'R' => Some(0xAF),
        _ => None,
    }
}

/// A resolved register address for the binary frame protocol.
pub struct McAddress {
    /// The full symbolic name the address was resolved from.
    pub address_name: String,
    /// The value kind the address was resolved for.
    pub data_type: DataType,
    /// The category token extracted from the name.
    pub inner_address_header: String,
    /// The device code of the category, sent on the wire.
    pub component_code: u8,
    /// The numeric offset within the category.
    pub inner_address: u32,
}

impl McAddress {
    /// Resolves a symbolic register name.
    ///
    /// The two-character prefix is tried against the category table first,
    /// then the one-character prefix; the remainder is parsed in the radix
    /// the category mandates. A name that does not resolve is rejected
    /// before any request is built.
    pub fn new(address_name: &str, data_type: DataType) -> (r: Result<Self, PlcError>)
        ensures
            r is Ok <==> spec_mc_valid(address_name@),
            r matches Ok(a) ==> {
                &&& a.address_name@ == address_name@
                &&& a.data_type == data_type
                &&& a.inner_address_header@ == address_name@.subrange(
                    0,
                    spec_mc_header_len(address_name@),
                )
                &&& Some(a.component_code) == spec_mc_code_of(address_name@)
                &&& a.inner_address == spec_mc_addr_val(address_name@)
            },
            r matches Err(e) ==> e matches PlcError::Addr(_),
    {
        let n = address_name.unicode_len();
        if n <= 1 {
            return Err(PlcError::Addr(String::from_str("register name too short")));
        }
        let c0 = address_name.get_char(0);
        let c1 = address_name.get_char(1);
        let two = mc_code2(c0, c1);
        let (header_len, code) = match two {
            Some(code) => (2usize, code),
            None => match mc_code1(c0) {
                Some(code) => (1usize, code),
                None => {
                    return Err(PlcError::Addr(String::from_str("invalid register category")));
                },
            },
        };
        let radix: u32 = match two {
            Some(_) => {
                if (c0 == 'S' && (c1 == 'B' || c1 == 'W')) || (c0 == 'D' && (c1 == 'X' || c1
                    == 'Y')) || (c0 == 'Z' && c1 == 'R') {
                    16
                } else {
                    10
                }
            },
            None => {
                if c0 == 'X' || c0 == 'Y' {
                    8
                } else if c0 == 'B' || c0 == 'W' {
                    16
                } else {
                    10
                }
            },
        };
        let address = match parse_radix(address_name, header_len, radix) {
            Some(v) => v,
            None => {
                return Err(PlcError::Addr(String::from_str("invalid register number")));
            },
        };
        let header = address_name.substring_char(0, header_len);
        Ok(
            McAddress {
                address_name: String::from_str(address_name),
                data_type,
                inner_address_header: String::from_str(header),
                component_code: code,
                inner_address: address,
            },
        )
    }
}

impl IAddress for McAddress {
    fn get_address_name(&self) -> &str {
        self.address_name.as_str()
    }

    fn get_address_header(&self) -> &str {
        self.inner_address_header.as_str()
    }

    fn get_address(&self) -> u32 {
        self.inner_address
    }

    fn get_data_type(&self) -> &DataType {
        &self.data_type
    }
}

} // verus!
