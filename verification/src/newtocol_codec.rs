//! The ASCII delimited protocol: request encoding, reply classification
//! and payload decoding.
//!
//! A request frame is `%`, a two-digit station id, `#`, a command token,
//! the category token and zero-padded numeric fields, an optional payload,
//! a two-digit upper-case hexadecimal XOR checksum over every byte written
//! so far, and a carriage return. Replies carry `$` for success or `!`
//! with a status code, and end in the same checksum and terminator.

use vstd::prelude::*;
use vstd::string::*;

use crate::DataType;
use crate::error::PlcError;
use crate::newtocol::{NewtocolAddress, spec_nt_addr_val, spec_nt_header_len, spec_nt_is_coil, spec_nt_valid};
use crate::outcome::{ProtocolOutcome, SpecOutcome};
use crate::radix::{
    hex_digit_str, push_dec, push_dec_pad, push_hex_pad, spec_dec_digits, spec_dec_pad,
    spec_hex_char, spec_hex_digit, spec_hex_pad,
};
use crate::scan::{find_sub, spec_find};

verus! {

/// XOR of all bytes of `b`.
pub open spec fn spec_xor_all(b: Seq<u8>) -> u8
    decreases b.len(),
{
    if b.len() == 0 {
        0
    } else {
        spec_xor_all(b.drop_last()) ^ b.last()
    }
}

/// The checksum as two upper-case hexadecimal digit bytes.
pub open spec fn spec_hex2(v: u8) -> Seq<u8> {
    spec_hex_pad(v as int, 2)
}

/// The two checksum digits are the digits of the high and low nibble.
pub proof fn lemma_hex2_digits(v: u8)
    ensures
        spec_hex2(v) =~= seq![spec_hex_digit(v as int / 16), spec_hex_digit(v as int % 16)],
{
    if v < 16 {
        assert(spec_hex_pad(v as int, 2) =~= seq![48u8] + seq![spec_hex_digit(v as int)]);
    } else {
        assert(crate::radix::spec_hex_digits(v as int / 16) =~= seq![spec_hex_digit(v as int / 16)]);
        assert(crate::radix::spec_hex_digits(v as int) =~= seq![
            spec_hex_digit(v as int / 16),
            spec_hex_digit(v as int % 16),
        ]);
    }
}

/// A value swapped byte for byte: the low byte first, then the high byte.
pub open spec fn spec_dcba(v: u16) -> int {
    (v % 256) * 256 + v / 256
}

/// Exchanges the high and low byte of a 16-bit value.
pub fn to_dcba(value: &u16) -> (r: u16)
    ensures
        r == spec_dcba(*value),
{
    (*value % 256) * 256 + *value / 256
}

/// XOR of all bytes of `content`.
fn xor_all(content: &[u8]) -> (r: u8)
    ensures
        r == spec_xor_all(content@),
{
    let mut x: u8 = 0;
    let mut i: usize = 0;
    while i < content.len()
        invariant
            i <= content@.len(),
            x == spec_xor_all(content@.take(i as int)),
        decreases content@.len() - i,
    {
        x = x ^ content[i];
        i = i + 1;
        proof {
            assert(content@.take(i as int).drop_last() =~= content@.take(i - 1));
            assert(content@.take(i as int).last() == content@[i - 1]);
        }
    }
    proof {
        assert(content@.take(content@.len() as int) =~= content@);
    }
    x
}

/// The checksum of `content` as a string of two upper-case hexadecimal
/// digits.
pub fn bcc(content: &[u8]) -> (r: String)
    ensures
        r@ == seq![
            spec_hex_char(spec_xor_all(content@) as int / 16),
            spec_hex_char(spec_xor_all(content@) as int % 16),
        ],
{
    let x = xor_all(content);
    let mut s = String::from_str(hex_digit_str((x / 16) as u32));
    s.append(hex_digit_str((x % 16) as u32));
    proof {
        assert(s@ =~= seq![
            spec_hex_char(spec_xor_all(content@) as int / 16),
            spec_hex_char(spec_xor_all(content@) as int % 16),
        ]);
    }
    s
}

/// One upper-case hexadecimal digit byte.
fn hex_digit_byte(d: u8) -> (r: u8)
    requires
        d < 16,
    ensures
        r == spec_hex_digit(d as int),
{
    if d < 10 {
        48 + d
    } else {
        55 + d
    }
}

/// The characters of a category token as bytes.
pub open spec fn spec_chars_bytes(s: Seq<char>) -> Seq<u8> {
    Seq::new(s.len(), |i: int| (s[i] as u32 % 256) as u8)
}

/// The frame prefix: start marker, two-digit station id, fixed marker.
pub open spec fn spec_nt_prefix(station: u8) -> Seq<u8> {
    seq![0x25u8] + spec_hex2(station) + seq![0x23u8]
}

/// One numeric field: four hexadecimal digits for a coil, four decimal
/// digits otherwise, zero-padded.
pub open spec fn spec_nt_field(coil: bool, v: int) -> Seq<u8> {
    if coil {
        spec_hex_pad(v, 4)
    } else {
        spec_dec_pad(v, 4)
    }
}

/// The enumerated points of a multi-point read: for each of `count`
/// consecutive addresses, the category token and the address field.
pub open spec fn spec_nt_points(header: Seq<u8>, coil: bool, addr: int, count: int) -> Seq<u8>
    decreases count,
{
    if count <= 0 {
        Seq::empty()
    } else {
        spec_nt_points(header, coil, addr, count - 1) + header + spec_nt_field(
            coil,
            addr + count - 1,
        )
    }
}

/// The enumerated points of a multi-point write: for each value, the
/// category token, the address field and a `0` or `1` byte.
pub open spec fn spec_nt_value_points(
    header: Seq<u8>,
    coil: bool,
    addr: int,
    vals: Seq<u16>,
) -> Seq<u8>
    decreases vals.len(),
{
    if vals.len() == 0 {
        Seq::empty()
    } else {
        spec_nt_value_points(header, coil, addr, vals.drop_last()) + header + spec_nt_field(
            coil,
            addr + vals.len() - 1,
        ) + seq![if vals.last() == 0 {
            48u8
        } else {
            49u8
        }]
    }
}

/// The data of a word-range write: each value byte-swapped and rendered
/// as four hexadecimal digits.
pub open spec fn spec_nt_word_values(vals: Seq<u16>) -> Seq<u8>
    decreases vals.len(),
{
    if vals.len() == 0 {
        Seq::empty()
    } else {
        spec_nt_word_values(vals.drop_last()) + spec_hex_pad(spec_dcba(vals.last()), 4)
    }
}

/// The body of a read request, from the start marker through the last
/// byte the checksum covers.
///
/// A bit read past the end of the containing word (offset plus count over
/// eight) would have to fall back to word-range access; that fallback is
/// not supported and the body is left empty after the prefix.
pub open spec fn spec_nt_read_body(
    header: Seq<u8>,
    coil: bool,
    addr: u32,
    kind: DataType,
    len: u16,
    station: u8,
) -> Seq<u8> {
    let p = spec_nt_prefix(station);
    if kind == DataType::Bit {
        if addr % 16 + len <= 8 {
            if len == 1 {
                p + seq![82u8, 67u8, 83u8] + header + spec_nt_field(coil, addr as int)
            } else {
                p + seq![82u8, 67u8, 80u8] + spec_dec_digits(len as int) + spec_nt_points(
                    header,
                    coil,
                    addr as int,
                    len as int,
                )
            }
        } else {
            p
        }
    } else {
        if coil {
            p + seq![82u8, 67u8, 67u8] + header + spec_hex_pad(addr as int / 16, 4) + spec_hex_pad(
                addr as int / 16 + len - 1,
                4,
            )
        } else {
            p + seq![82u8, 68u8] + header + spec_dec_pad(addr as int, 5) + spec_dec_pad(
                addr as int + len,
                5,
            )
        }
    }
}

/// The body of a write request, from the start marker through the last
/// byte the checksum covers (meaningful when the bit-kind count is at
/// most eight).
pub open spec fn spec_nt_write_body(
    header: Seq<u8>,
    coil: bool,
    addr: u32,
    kind: DataType,
    vals: Seq<u16>,
    station: u8,
) -> Seq<u8> {
    let p = spec_nt_prefix(station);
    if kind == DataType::Bit {
        if vals.len() == 1 {
            p + seq![87u8, 67u8, 83u8] + header + spec_nt_field(coil, addr as int)
        } else {
            p + seq![87u8, 67u8, 80u8] + spec_dec_digits(vals.len() as int) + spec_nt_value_points(
                header,
                coil,
                addr as int,
                vals,
            )
        }
    } else {
        if coil {
            p + seq![87u8, 67u8, 67u8] + header + spec_hex_pad(addr as int / 16, 4) + spec_hex_pad(
                addr as int / 16 + vals.len() - 1,
                4,
            ) + spec_nt_word_values(vals)
        } else {
            p + seq![87u8, 68u8] + header + spec_dec_pad(addr as int, 5) + spec_dec_pad(
                addr as int + vals.len() - 1,
                5,
            ) + spec_nt_word_values(vals)
        }
    }
}

/// A whole frame: the body, its checksum digits, and the terminator.
pub open spec fn spec_nt_frame(body: Seq<u8>) -> Seq<u8> {
    body + spec_hex2(spec_xor_all(body)) + seq![0x0Du8]
}

/// Appends the category token bytes.
fn push_header(buf: &mut Vec<u8>, header: &str)
    ensures
        final(buf)@ == old(buf)@ + spec_chars_bytes(header@),
{
    let n = header.unicode_len();
    let mut i: usize = 0;
    while i < n
        invariant
            n == header@.len(),
            i <= n,
            buf@ == old(buf)@ + spec_chars_bytes(header@).take(i as int),
        decreases n - i,
    {
        let c = header.get_char(i);
        let v = c as u32;
        buf.push((v % 256) as u8);
        i = i + 1;
        proof {
            assert(buf@ =~= old(buf)@ + spec_chars_bytes(header@).take(i as int));
        }
    }
    proof {
        assert(buf@ =~= old(buf)@ + spec_chars_bytes(header@));
    }
}

/// Appends the frame prefix.
fn push_prefix(buf: &mut Vec<u8>, station: u8)
    ensures
        final(buf)@ == old(buf)@ + spec_nt_prefix(station),
{
    buf.push(0x25);
    push_hex_pad(buf, station as u32, 2);
    buf.push(0x23);
    proof {
        assert(final(buf)@ =~= old(buf)@ + spec_nt_prefix(station));
    }
}

/// Appends one numeric field.
fn push_field(buf: &mut Vec<u8>, coil: bool, v: u32)
    ensures
        final(buf)@ == old(buf)@ + spec_nt_field(coil, v as int),
{
    if coil {
        push_hex_pad(buf, v, 4);
    } else {
        push_dec_pad(buf, v, 4);
    }
}

/// Appends the checksum digits and the terminator, turning a body into a
/// whole frame.
fn seal_frame(buf: &mut Vec<u8>)
    ensures
        final(buf)@ == spec_nt_frame(old(buf)@),
{
    let x = xor_all(buf.as_slice());
    push_hex_pad(buf, x as u32, 2);
    buf.push(0x0D);
    proof {
        assert(final(buf)@ =~= spec_nt_frame(old(buf)@));
    }
}

/// Builds the read request for `len` points at `address`, for the given
/// station.
pub fn create_read_buf(address: &NewtocolAddress, len: u16, station: u8) -> (r: Result<
    Vec<u8>,
    PlcError,
>)
    requires
        1 <= len,
        address.inner_address + len <= u32::MAX,
    ensures
        r matches Ok(b) && b@ == spec_nt_frame(
            spec_nt_read_body(
                spec_chars_bytes(address.inner_address_header@),
                address.inner_is_coil,
                address.inner_address,
                address.data_type,
                len,
                station,
            ),
        ),
{
    let ghost hb = spec_chars_bytes(address.inner_address_header@);
    let mut body: Vec<u8> = Vec::new();
    push_prefix(&mut body, station);
    match address.data_type {
        DataType::Bit => {
            let offset = address.inner_address % 16;
            if offset + (len as u32) <= 8 {
                if len == 1 {
                    body.push(82);
                    body.push(67);
                    body.push(83);
                    push_header(&mut body, address.inner_address_header.as_str());
                    push_field(&mut body, address.inner_is_coil, address.inner_address);
                } else {
                    body.push(82);
                    body.push(67);
                    body.push(80);
                    push_dec(&mut body, len as u32);
                    let ghost base = body@;
                    let mut i: u32 = 0;
                    while i < len as u32
                        invariant
                            i <= len,
                            hb == spec_chars_bytes(address.inner_address_header@),
                            address.inner_address + len <= u32::MAX,
                            body@ == base + spec_nt_points(
                                hb,
                                address.inner_is_coil,
                                address.inner_address as int,
                                i as int,
                            ),
                        decreases len as u32 - i,
                    {
                        push_header(&mut body, address.inner_address_header.as_str());
                        push_field(&mut body, address.inner_is_coil, address.inner_address + i);
                        i = i + 1;
                        proof {
                            assert(body@ =~= base + spec_nt_points(
                                hb,
                                address.inner_is_coil,
                                address.inner_address as int,
                                i as int,
                            ));
                        }
                    }
                }
            }
        },
        DataType::Word => {
            if address.inner_is_coil {
                body.push(82);
                body.push(67);
                body.push(67);
                push_header(&mut body, address.inner_address_header.as_str());
                let start = address.inner_address / 16;
                push_hex_pad(&mut body, start, 4);
                push_hex_pad(&mut body, start + (len as u32) - 1, 4);
            } else {
                body.push(82);
                body.push(68);
                push_header(&mut body, address.inner_address_header.as_str());
                push_dec_pad(&mut body, address.inner_address, 5);
                push_dec_pad(&mut body, address.inner_address + (len as u32), 5);
            }
        },
    }
    proof {
        assert(body@ =~= spec_nt_read_body(
            hb,
            address.inner_is_coil,
            address.inner_address,
            address.data_type,
            len,
            station,
        ));
    }
    seal_frame(&mut body);
    Ok(body)
}

/// Builds the write request for the values in `datas` at `address`, for
/// the given station. A bit-kind write of more than eight points is out
/// of range for the enumerating command and is rejected.
pub fn create_write_buf(address: &NewtocolAddress, datas: &[u16], station: u8) -> (r: Result<
    Vec<u8>,
    PlcError,
>)
    requires
        1 <= datas@.len(),
        address.inner_address + datas@.len() <= u32::MAX,
    ensures
        r is Ok <==> !(address.data_type == DataType::Bit && datas@.len() > 8),
        r matches Ok(b) ==> b@ == spec_nt_frame(
            spec_nt_write_body(
                spec_chars_bytes(address.inner_address_header@),
                address.inner_is_coil,
                address.inner_address,
                address.data_type,
                datas@,
                station,
            ),
        ),
        r matches Err(e) ==> e matches PlcError::Param(_),
{
    let ghost hb = spec_chars_bytes(address.inner_address_header@);
    let n = datas.len();
    if matches!(address.data_type, DataType::Bit) && n > 8 {
        return Err(PlcError::Param(String::from_str("coil write length must be 1 to 8")));
    }
    let mut body: Vec<u8> = Vec::new();
    push_prefix(&mut body, station);
    match address.data_type {
        DataType::Bit => {
            if n == 1 {
                body.push(87);
                body.push(67);
                body.push(83);
                push_header(&mut body, address.inner_address_header.as_str());
                push_field(&mut body, address.inner_is_coil, address.inner_address);
            } else {
                body.push(87);
                body.push(67);
                body.push(80);
                push_dec(&mut body, n as u32);
                let ghost base = body@;
                let mut i: usize = 0;
                while i < n
                    invariant
                        i <= n == datas@.len(),
                        n <= 8,
                        hb == spec_chars_bytes(address.inner_address_header@),
                        address.inner_address + n <= u32::MAX,
                        body@ == base + spec_nt_value_points(
                            hb,
                            address.inner_is_coil,
                            address.inner_address as int,
                            datas@.take(i as int),
                        ),
                    decreases n - i,
                {
                    push_header(&mut body, address.inner_address_header.as_str());
                    push_field(
                        &mut body,
                        address.inner_is_coil,
                        address.inner_address + (i as u32),
                    );
                    body.push(if datas[i] == 0 {
                        48
                    } else {
                        49
                    });
                    i = i + 1;
                    proof {
                        assert(datas@.take(i as int).drop_last() =~= datas@.take(i - 1));
                        assert(body@ =~= base + spec_nt_value_points(
                            hb,
                            address.inner_is_coil,
                            address.inner_address as int,
                            datas@.take(i as int),
                        ));
                    }
                }
                proof {
                    assert(datas@.take(n as int) =~= datas@);
                }
            }
        },
        DataType::Word => {
            if address.inner_is_coil {
                body.push(87);
                body.push(67);
                body.push(67);
                push_header(&mut body, address.inner_address_header.as_str());
                let start = address.inner_address / 16;
                push_hex_pad(&mut body, start, 4);
                push_hex_pad(&mut body, start + (n as u32) - 1, 4);
            } else {
                body.push(87);
                body.push(68);
                push_header(&mut body, address.inner_address_header.as_str());
                push_dec_pad(&mut body, address.inner_address, 5);
                push_dec_pad(&mut body, address.inner_address + (n as u32) - 1, 5);
            }
            let ghost base = body@;
            let mut k: usize = 0;
            while k < n
                invariant
                    k <= n == datas@.len(),
                    body@ == base + spec_nt_word_values(datas@.take(k as int)),
                decreases n - k,
            {
                let d = to_dcba(&datas[k]);
                push_hex_pad(&mut body, d as u32, 4);
                k = k + 1;
                proof {
                    assert(datas@.take(k as int).drop_last() =~= datas@.take(k - 1));
                    assert(body@ =~= base + spec_nt_word_values(datas@.take(k as int)));
                }
            }
            proof {
                assert(datas@.take(n as int) =~= datas@);
            }
        },
    }
    proof {
        assert(body@ =~= spec_nt_write_body(
            hb,
            address.inner_is_coil,
            address.inner_address,
            address.data_type,
            datas@,
            station,
        ));
    }
    seal_frame(&mut body);
    Ok(body)
}

/// Device error code carried by the two digit bytes after the error
/// marker; anything else maps to code 0, the unknown error.
pub open spec fn spec_nt_err_code(d1: u8, d2: u8) -> u16 {
    if 48 <= d1 <= 57 && 48 <= d2 <= 57 {
        ((d1 - 48) * 10 + (d2 - 48)) as u16
    } else {
        0
    }
}

/// The fast pass over a reply buffer: locate the start and end markers
/// and, between arrivals, the success or error marker. Only marker
/// presence is judged here; the checksum is the slow pass's business.
pub open spec fn spec_nt_quick(b: Seq<u8>) -> SpecOutcome {
    match (spec_find(b, seq![0x25u8], 0), spec_find(b, seq![0x0Du8], 0)) {
        (Some(s), Some(e)) => {
            if s < e {
                if spec_find(b, seq![0x24u8], 0) is Some {
                    SpecOutcome::Valid(b.subrange(s, e + 1))
                } else {
                    match spec_find(b, seq![0x21u8], 0) {
                        Some(er) => {
                            if er + 3 <= b.len() {
                                SpecOutcome::DeviceError(spec_nt_err_code(b[er + 1], b[er + 2]))
                            } else {
                                SpecOutcome::Incomplete
                            }
                        },
                        None => SpecOutcome::Incomplete,
                    }
                }
            } else {
                SpecOutcome::Incomplete
            }
        },
        _ => SpecOutcome::Incomplete,
    }
}

/// The slow pass over a candidate frame: recompute the checksum over the
/// body and compare it with the received digits. A mismatch is reported
/// as still-incomplete, never as corruption: during live reassembly it
/// most often means a torn fragment.
pub open spec fn spec_nt_slow(b: Seq<u8>) -> SpecOutcome {
    match (spec_find(b, seq![0x25u8], 0), spec_find(b, seq![0x0Du8], 0)) {
        (Some(s), Some(e)) => {
            if s + 2 <= e {
                let digits = spec_hex2(spec_xor_all(b.subrange(s, e - 2)));
                if b[e - 2] == digits[0] && b[e - 1] == digits[1] {
                    SpecOutcome::Valid(b.subrange(s, e))
                } else {
                    SpecOutcome::Incomplete
                }
            } else {
                SpecOutcome::Incomplete
            }
        },
        _ => SpecOutcome::Incomplete,
    }
}

/// Both passes: a buffer is a clean frame when the fast pass accepts it
/// and the checksum of the extracted frame matches.
pub open spec fn spec_classify_nt(b: Seq<u8>) -> SpecOutcome {
    match spec_nt_quick(b) {
        SpecOutcome::Valid(frame) => spec_nt_slow(frame),
        outcome => outcome,
    }
}

/// Finds the first occurrence of one byte, `usize::MAX` when absent.
fn find_byte(buf: &[u8], x: u8) -> (r: usize)
    ensures
        match spec_find(buf@, seq![x], 0) {
            Some(i) => r == i,
            None => r == usize::MAX,
        },
{
    let pat: Vec<u8> = vec![x];
    proof {
        assert(pat@ =~= seq![x]);
    }
    match find_sub(buf, pat.as_slice(), 0) {
        Some(i) => {
            proof {
                crate::scan::lemma_find_some(buf@, pat@, 0, i as int);
            }
            i
        },
        None => usize::MAX,
    }
}

/// First index of each marker in the buffer: start, terminator, success,
/// error; `usize::MAX` stands for an absent marker.
pub fn find_cmd_indexs(buf: &[u8]) -> (r: (usize, usize, usize, usize))
    ensures
        match spec_find(buf@, seq![0x25u8], 0) {
            Some(i) => r.0 == i,
            None => r.0 == usize::MAX,
        },
        match spec_find(buf@, seq![0x0Du8], 0) {
            Some(i) => r.1 == i,
            None => r.1 == usize::MAX,
        },
        match spec_find(buf@, seq![0x24u8], 0) {
            Some(i) => r.2 == i,
            None => r.2 == usize::MAX,
        },
        match spec_find(buf@, seq![0x21u8], 0) {
            Some(i) => r.3 == i,
            None => r.3 == usize::MAX,
        },
{
    (find_byte(buf, 0x25), find_byte(buf, 0x0D), find_byte(buf, 0x24), find_byte(buf, 0x21))
}

/// The fast pass: classifies the bytes received so far by marker
/// presence alone. A `Valid` outcome carries the candidate frame from the
/// start marker through the terminator, still to be checksum-checked by
/// [`slow_check`].
pub fn quick_check(buf: &[u8]) -> (r: ProtocolOutcome)
    ensures
        r@ == spec_nt_quick(buf@),
{
    let pat_s: Vec<u8> = vec![0x25];
    let pat_e: Vec<u8> = vec![0x0D];
    let pat_ok: Vec<u8> = vec![0x24];
    let pat_er: Vec<u8> = vec![0x21];
    proof {
        assert(pat_s@ =~= seq![0x25u8]);
        assert(pat_e@ =~= seq![0x0Du8]);
        assert(pat_ok@ =~= seq![0x24u8]);
        assert(pat_er@ =~= seq![0x21u8]);
    }
    let s = match find_sub(buf, pat_s.as_slice(), 0) {
        Some(i) => i,
        None => {
            return ProtocolOutcome::Incomplete;
        },
    };
    let e = match find_sub(buf, pat_e.as_slice(), 0) {
        Some(i) => i,
        None => {
            return ProtocolOutcome::Incomplete;
        },
    };
    if s >= e {
        return ProtocolOutcome::Incomplete;
    }
    proof {
        crate::scan::lemma_find_some(buf@, pat_e@, 0, e as int);
    }
    let n = buf.len();
    match find_sub(buf, pat_ok.as_slice(), 0) {
        Some(_) => {
            proof {
                assert(e + 1 <= n);
            }
            let frame = vstd::slice::slice_to_vec(vstd::slice::slice_subrange(buf, s, e + 1));
            ProtocolOutcome::Valid(frame)
        },
        None => {
            match find_sub(buf, pat_er.as_slice(), 0) {
                Some(er) => {
                    proof {
                        crate::scan::lemma_find_some(buf@, pat_er@, 0, er as int);
                    }
                    if buf.len() - er < 3 {
                        return ProtocolOutcome::Incomplete;
                    }
                    let d1 = buf[er + 1];
                    let d2 = buf[er + 2];
                    let code: u16 = if 48 <= d1 && d1 <= 57 && 48 <= d2 && d2 <= 57 {
                        (d1 - 48) as u16 * 10 + (d2 - 48) as u16
                    } else {
                        0
                    };
                    ProtocolOutcome::DeviceError(code)
                },
                None => ProtocolOutcome::Incomplete,
            }
        },
    }
}

/// The slow pass: recomputes the XOR checksum over the body of a
/// candidate frame and compares it with the received digits. The `Valid`
/// outcome carries the frame from the start marker up to (and without)
/// the terminator, as the payload decoder expects it.
pub fn slow_check(buf: &[u8]) -> (r: ProtocolOutcome)
    ensures
        r@ == spec_nt_slow(buf@),
{
    let pat_s: Vec<u8> = vec![0x25];
    let pat_e: Vec<u8> = vec![0x0D];
    proof {
        assert(pat_s@ =~= seq![0x25u8]);
        assert(pat_e@ =~= seq![0x0Du8]);
    }
    let s = match find_sub(buf, pat_s.as_slice(), 0) {
        Some(i) => i,
        None => {
            return ProtocolOutcome::Incomplete;
        },
    };
    let e = match find_sub(buf, pat_e.as_slice(), 0) {
        Some(i) => i,
        None => {
            return ProtocolOutcome::Incomplete;
        },
    };
    proof {
        crate::scan::lemma_find_some(buf@, pat_s@, 0, s as int);
        crate::scan::lemma_find_some(buf@, pat_e@, 0, e as int);
    }
    if e < 2 || e - 2 < s {
        return ProtocolOutcome::Incomplete;
    }
    let x = xor_all(vstd::slice::slice_subrange(buf, s, e - 2));
    let d_hi = hex_digit_byte(x / 16);
    let d_lo = hex_digit_byte(x % 16);
    proof {
        lemma_hex2_digits(x);
    }
    if buf[e - 2] == d_hi && buf[e - 1] == d_lo {
        ProtocolOutcome::Valid(vstd::slice::slice_to_vec(vstd::slice::slice_subrange(buf, s, e)))
    } else {
        ProtocolOutcome::Incomplete
    }
}

/// Classifies the reply bytes received so far: the fast pass locates a
/// candidate frame, the slow pass validates its checksum.
pub fn classify(buf: &[u8]) -> (r: ProtocolOutcome)
    ensures
        r@ == spec_classify_nt(buf@),
{
    let q = quick_check(buf);
    match q {
        ProtocolOutcome::Valid(frame) => slow_check(frame.as_slice()),
        outcome => outcome,
    }
}

/// Numeric value of one hexadecimal digit byte, upper or lower case.
pub open spec fn spec_hex_val(b: u8) -> Option<u8> {
    if 48 <= b <= 57 {
        Some((b - 48) as u8)
    } else if 65 <= b <= 70 {
        Some((b - 55) as u8)
    } else if 97 <= b <= 102 {
        Some((b - 87) as u8)
    } else {
        None
    }
}

/// Whether a frame carries `count` word values as hexadecimal digits from
/// offset 6 on.
pub open spec fn spec_nt_word_ok(b: Seq<u8>, count: int) -> bool {
    &&& b.len() >= 6 + 4 * count
    &&& forall|i: int| 0 <= i < 4 * count ==> #[trigger] spec_hex_val(b[6 + i]) is Some
}

/// The decoded word values: the first digit pair is the low byte, the
/// second the high byte, undoing the encoder's byte swap.
pub open spec fn spec_nt_word_vals(b: Seq<u8>, count: int) -> Seq<u16> {
    Seq::new(
        count as nat,
        |i: int|
            {
                let lo = spec_hex_val(b[6 + 4 * i])->0 * 16 + spec_hex_val(b[6 + 4 * i + 1])->0;
                let hi = spec_hex_val(b[6 + 4 * i + 2])->0 * 16 + spec_hex_val(
                    b[6 + 4 * i + 3],
                )->0;
                (lo + 256 * hi) as u16
            },
    )
}

/// What decoding a checksum-clean frame yields: word replies decode their
/// hexadecimal data; a bit reply read across a word boundary hands its
/// raw digit bytes through (the unpacking rule for that fallback is not
/// settled); other bit replies and foreign commands decode to nothing.
pub open spec fn spec_nt_parse(b: Seq<u8>, len: u16, addr: u32, kind: DataType) -> Result<
    Seq<u16>,
    (),
> {
    if b.len() < 6 {
        Err(())
    } else {
        let rc = b[4] == 82 && b[5] == 67;
        let rd = b[4] == 82 && b[5] == 68;
        if !rc && !rd {
            Ok(Seq::empty())
        } else if kind == DataType::Bit {
            if addr % 16 + len > 8 {
                if b.len() >= 6 + len {
                    Ok(Seq::new(len as nat, |i: int| b[6 + i] as u16))
                } else {
                    Err(())
                }
            } else {
                Ok(Seq::empty())
            }
        } else {
            if spec_nt_word_ok(b, len as int) {
                Ok(spec_nt_word_vals(b, len as int))
            } else {
                Err(())
            }
        }
    }
}

/// Numeric value of one hexadecimal digit byte.
fn hex_val(b: u8) -> (r: Option<u8>)
    ensures
        r == spec_hex_val(b),
{
    if 48 <= b && b <= 57 {
        Some(b - 48)
    } else if 65 <= b && b <= 70 {
        Some(b - 55)
    } else if 97 <= b && b <= 102 {
        Some(b - 87)
    } else {
        None
    }
}

/// Decodes the data of a checksum-clean reply frame (as [`slow_check`]
/// hands it out) into `len` values for the given address.
pub fn parse_reply_data(buf: &[u8], len: u16, address: &NewtocolAddress) -> (r: Result<
    Vec<u16>,
    PlcError,
>)
    ensures
        r is Ok <==> spec_nt_parse(buf@, len, address.inner_address, address.data_type) is Ok,
        r matches Ok(vals) ==> Ok::<Seq<u16>, ()>(vals@) == spec_nt_parse(
            buf@,
            len,
            address.inner_address,
            address.data_type,
        ),
        r matches Err(e) ==> e matches PlcError::Comm(_),
{
    if buf.len() < 6 {
        return Err(PlcError::Comm(String::from_str("reply frame is too short")));
    }
    let rc = buf[4] == 82 && buf[5] == 67;
    let rd = buf[4] == 82 && buf[5] == 68;
    let mut datas: Vec<u16> = Vec::new();
    if !rc && !rd {
        proof {
            assert(datas@ =~= Seq::<u16>::empty());
        }
        return Ok(datas);
    }
    match address.data_type {
        DataType::Bit => {
            let offset = address.inner_address % 16;
            if offset + (len as u32) > 8 {
                if buf.len() < 6 + len as usize {
                    return Err(PlcError::Comm(String::from_str("reply data is truncated")));
                }
                let ghost raw = Seq::new(len as nat, |i: int| buf@[6 + i] as u16);
                let count = len as usize;
                let mut i: usize = 0;
                while i < count
                    invariant
                        count == len,
                        buf@.len() >= 6 + len,
                        i <= count,
                        raw == Seq::new(len as nat, |j: int| buf@[6 + j] as u16),
                        datas@ == raw.take(i as int),
                    decreases count - i,
                {
                    datas.push(buf[6 + i] as u16);
                    i = i + 1;
                    proof {
                        assert(datas@ =~= raw.take(i as int));
                    }
                }
                proof {
                    assert(datas@ =~= raw);
                }
                Ok(datas)
            } else {
                proof {
                    assert(datas@ =~= Seq::<u16>::empty());
                }
                Ok(datas)
            }
        },
        DataType::Word => {
            if (buf.len() - 6) / 4 < len as usize {
                proof {
                    assert(buf@.len() < 6 + 4 * (len as int));
                }
                return Err(PlcError::Comm(String::from_str("reply data is truncated")));
            }
            let count = len as usize;
            let mut i: usize = 0;
            while i < count
                invariant
                    count == len,
                    buf@.len() >= 6 + 4 * (len as int),
                    i <= count,
                    address.data_type == DataType::Word,
                    buf@[4] == 82,
                    buf@[5] == 67 || buf@[5] == 68,
                    forall|j: int| 0 <= j < 4 * i ==> #[trigger] spec_hex_val(buf@[6 + j]) is Some,
                    datas@ == spec_nt_word_vals(buf@, len as int).take(i as int),
                decreases count - i,
            {
                let base = 6 + 4 * i;
                let d0 = match hex_val(buf[base]) {
                    Some(d) => d,
                    None => {
                        proof {
                            assert(spec_hex_val(buf@[6 + (4 * (i as int) + 0)]) is None);
                            assert(!spec_nt_word_ok(buf@, len as int));
                        }
                        return Err(PlcError::Comm(String::from_str("reply data is not hex")));
                    },
                };
                let d1 = match hex_val(buf[base + 1]) {
                    Some(d) => d,
                    None => {
                        proof {
                            assert(spec_hex_val(buf@[6 + (4 * (i as int) + 1)]) is None);
                            assert(!spec_nt_word_ok(buf@, len as int));
                        }
                        return Err(PlcError::Comm(String::from_str("reply data is not hex")));
                    },
                };
                let d2 = match hex_val(buf[base + 2]) {
                    Some(d) => d,
                    None => {
                        proof {
                            assert(spec_hex_val(buf@[6 + (4 * (i as int) + 2)]) is None);
                            assert(!spec_nt_word_ok(buf@, len as int));
                        }
                        return Err(PlcError::Comm(String::from_str("reply data is not hex")));
                    },
                };
                let d3 = match hex_val(buf[base + 3]) {
                    Some(d) => d,
                    None => {
                        proof {
                            assert(spec_hex_val(buf@[6 + (4 * (i as int) + 3)]) is None);
                            assert(!spec_nt_word_ok(buf@, len as int));
                        }
                        return Err(PlcError::Comm(String::from_str("reply data is not hex")));
                    },
                };
                let lo = d0 as u16 * 16 + d1 as u16;
                let hi = d2 as u16 * 16 + d3 as u16;
                datas.push(lo + 256 * hi);
                i = i + 1;
                proof {
                    assert forall|j: int| 0 <= j < 4 * i implies #[trigger] spec_hex_val(buf@[6 + j])
                        is Some by {
                        if j >= 4 * (i - 1) {
                            assert(j == 4 * (i - 1) || j == 4 * (i - 1) + 1 || j == 4 * (i - 1) + 2
                                || j == 4 * (i - 1) + 3);
                        }
                    }
                    assert(datas@ =~= spec_nt_word_vals(buf@, len as int).take(i as int));
                }
            }
            proof {
                assert(datas@ =~= spec_nt_word_vals(buf@, len as int));
            }
            Ok(datas)
        },
    }
}

/// Documented cause of a device error code; unknown codes map to a
/// generic text rather than failing.
pub open spec fn spec_nt_error_message(code: u16) -> Seq<char> {
    if code == 20 {
        "undefined error"@
    } else if code == 21 {
        "negative acknowledgement"@
    } else if code == 22 {
        "wait acknowledgement"@
    } else if code == 23 {
        "multiple port error"@
    } else if code == 24 {
        "transmission format error"@
    } else if code == 25 {
        "hardware error"@
    } else if code == 26 {
        "unit number error"@
    } else if code == 27 {
        "unsupported operation"@
    } else if code == 28 {
        "no answer from the unit"@
    } else if code == 29 {
        "buffer closed"@
    } else if code == 30 {
        "device timeout"@
    } else if code == 40 {
        "checksum error"@
    } else if code == 41 {
        "format error"@
    } else if code == 42 {
        "invalid command"@
    } else if code == 43 {
        "processing step error"@
    } else if code == 50 {
        "link setting error"@
    } else if code == 51 {
        "simultaneous operation error"@
    } else if code == 52 {
        "transmission disabled"@
    } else if code == 53 {
        "device busy"@
    } else if code == 60 {
        "parameter error"@
    } else if code == 61 {
        "data error"@
    } else if code == 62 {
        "register error"@
    } else if code == 63 {
        "mode error"@
    } else if code == 65 {
        "protection error"@
    } else if code == 66 {
        "address error"@
    } else if code == 67 {
        "missing data error"@
    } else {
        "unknown device error"@
    }
}

/// Documented cause of a device error code.
pub fn newtocol_error_message(code: u16) -> (r: &'static str)
    ensures
        r@ == spec_nt_error_message(code),
{
    if code == 20 {
        "undefined error"
    } else if code == 21 {
        "negative acknowledgement"
    } else if code == 22 {
        "wait acknowledgement"
    } else if code == 23 {
        "multiple port error"
    } else if code == 24 {
        "transmission format error"
    } else if code == 25 {
        "hardware error"
    } else if code == 26 {
        "unit number error"
    } else if code == 27 {
        "unsupported operation"
    } else if code == 28 {
        "no answer from the unit"
    } else if code == 29 {
        "buffer closed"
    } else if code == 30 {
        "device timeout"
    } else if code == 40 {
        "checksum error"
    } else if code == 41 {
        "format error"
    } else if code == 42 {
        "invalid command"
    } else if code == 43 {
        "processing step error"
    } else if code == 50 {
        "link setting error"
    } else if code == 51 {
        "simultaneous operation error"
    } else if code == 52 {
        "transmission disabled"
    } else if code == 53 {
        "device busy"
    } else if code == 60 {
        "parameter error"
    } else if code == 61 {
        "data error"
    } else if code == 62 {
        "register error"
    } else if code == 63 {
        "mode error"
    } else if code == 65 {
        "protection error"
    } else if code == 66 {
        "address error"
    } else if code == 67 {
        "missing data error"
    } else {
        "unknown device error"
    }
}

/// Folds a device error code into the uniform error type, with its
/// documented cause.
pub fn newtocol_device_error(code: u16) -> (e: PlcError)
    ensures
        e matches PlcError::Device(c, m) && c == code && m@ == spec_nt_error_message(code),
{
    PlcError::Device(code, String::from_str(newtocol_error_message(code)))
}

/// Builds the whole read request for `len` points of `data_type` at the
/// register named `address_name`, for the given station, rejecting a zero
/// or oversized count, an unresolvable name and an address range past the
/// category's end before any byte is sent.
pub fn newtocol_read_request(
    address_name: &str,
    data_type: DataType,
    len: u16,
    station: u8,
) -> (r: Result<Vec<u8>, PlcError>)
    ensures
        (len == 0 || len > 960) ==> r matches Err(PlcError::Param(_)),
        (1 <= len <= 960 && !spec_nt_valid(address_name@, data_type)) ==> r matches Err(
            PlcError::Addr(_),
        ),
        (1 <= len <= 960 && spec_nt_valid(address_name@, data_type) && spec_nt_addr_val(
            address_name@,
        ) + len > u32::MAX) ==> r matches Err(PlcError::Param(_)),
        (1 <= len <= 960 && spec_nt_valid(address_name@, data_type) && spec_nt_addr_val(
            address_name@,
        ) + len <= u32::MAX) ==> (r matches Ok(b) && b@ == spec_nt_frame(
            spec_nt_read_body(
                spec_chars_bytes(
                    address_name@.subrange(0, spec_nt_header_len(address_name@)),
                ),
                spec_nt_is_coil(address_name@),
                spec_nt_addr_val(address_name@) as u32,
                data_type,
                len,
                station,
            ),
        )),
{
    if len == 0 {
        return Err(PlcError::Param(String::from_str("read length must not be 0")));
    }
    if len > 960 {
        return Err(PlcError::Param(String::from_str("read length must not exceed 960")));
    }
    let address = match NewtocolAddress::new(address_name, data_type) {
        Ok(a) => a,
        Err(e) => {
            return Err(e);
        },
    };
    if address.inner_address > u32::MAX - len as u32 {
        return Err(PlcError::Param(String::from_str("address range exceeds the category")));
    }
    create_read_buf(&address, len, station)
}

/// Builds the whole write request for the values in `datas` at the
/// register named `address_name`, for the given station, rejecting an
/// empty value list, an unresolvable name, an address range past the
/// category's end, and a bit-kind write of more than eight points before
/// any byte is sent.
pub fn newtocol_write_request(
    address_name: &str,
    data_type: DataType,
    datas: &[u16],
    station: u8,
) -> (r: Result<Vec<u8>, PlcError>)
    ensures
        datas@.len() == 0 ==> r matches Err(PlcError::Param(_)),
        (datas@.len() >= 1 && !spec_nt_valid(address_name@, data_type)) ==> r matches Err(
            PlcError::Addr(_),
        ),
        (datas@.len() >= 1 && spec_nt_valid(address_name@, data_type) && spec_nt_addr_val(
            address_name@,
        ) + datas@.len() > u32::MAX) ==> r matches Err(PlcError::Param(_)),
        (datas@.len() >= 1 && spec_nt_valid(address_name@, data_type) && spec_nt_addr_val(
            address_name@,
        ) + datas@.len() <= u32::MAX && data_type == DataType::Bit && datas@.len() > 8)
            ==> r matches Err(PlcError::Param(_)),
        (datas@.len() >= 1 && spec_nt_valid(address_name@, data_type) && spec_nt_addr_val(
            address_name@,
        ) + datas@.len() <= u32::MAX && !(data_type == DataType::Bit && datas@.len() > 8))
            ==> (r matches Ok(b) && b@ == spec_nt_frame(
            spec_nt_write_body(
                spec_chars_bytes(
                    address_name@.subrange(0, spec_nt_header_len(address_name@)),
                ),
                spec_nt_is_coil(address_name@),
                spec_nt_addr_val(address_name@) as u32,
                data_type,
                datas@,
                station,
            ),
        )),
{
    if datas.len() == 0 {
        return Err(PlcError::Param(String::from_str("write length must not be 0")));
    }
    let address = match NewtocolAddress::new(address_name, data_type) {
        Ok(a) => a,
        Err(e) => {
            return Err(e);
        },
    };
    if datas.len() > u32::MAX as usize || address.inner_address > u32::MAX - datas.len() as u32 {
        return Err(PlcError::Param(String::from_str("address range exceeds the category")));
    }
    create_write_buf(&address, datas, station)
}

/// Resolution followed by encoding is deterministic: one name, kind,
/// count and station admit exactly one read frame, and one name, kind,
/// value sequence and station admit exactly one write frame.
pub proof fn lemma_nt_request_deterministic(
    name: Seq<char>,
    kind: DataType,
    len: u16,
    vals: Seq<u16>,
    station: u8,
    r1: Seq<u8>,
    r2: Seq<u8>,
    w1: Seq<u8>,
    w2: Seq<u8>,
)
    requires
        spec_nt_valid(name, kind),
        r1 == spec_nt_frame(
            spec_nt_read_body(
                spec_chars_bytes(name.subrange(0, spec_nt_header_len(name))),
                spec_nt_is_coil(name),
                spec_nt_addr_val(name) as u32,
                kind,
                len,
                station,
            ),
        ),
        r2 == spec_nt_frame(
            spec_nt_read_body(
                spec_chars_bytes(name.subrange(0, spec_nt_header_len(name))),
                spec_nt_is_coil(name),
                spec_nt_addr_val(name) as u32,
                kind,
                len,
                station,
            ),
        ),
        w1 == spec_nt_frame(
            spec_nt_write_body(
                spec_chars_bytes(name.subrange(0, spec_nt_header_len(name))),
                spec_nt_is_coil(name),
                spec_nt_addr_val(name) as u32,
                kind,
                vals,
                station,
            ),
        ),
        w2 == spec_nt_frame(
            spec_nt_write_body(
                spec_chars_bytes(name.subrange(0, spec_nt_header_len(name))),
                spec_nt_is_coil(name),
                spec_nt_addr_val(name) as u32,
                kind,
                vals,
                station,
            ),
        ),
    ensures
        r1 == r2,
        w1 == w2,
{
}

/// XOR over a sequence changes by exactly the mask that one byte was
/// flipped by.
proof fn lemma_xor_all_single_flip(b1: Seq<u8>, b2: Seq<u8>, i: int, m: u8)
    requires
        b1.len() == b2.len(),
        0 <= i < b1.len(),
        b2[i] == b1[i] ^ m,
        forall|j: int| 0 <= j < b1.len() && j != i ==> b1[j] == b2[j],
    ensures
        spec_xor_all(b2) == spec_xor_all(b1) ^ m,
    decreases b1.len(),
{
    assert(forall|a: u8, x: u8, mm: u8| #[trigger] (a ^ (x ^ mm)) == (a ^ x) ^ mm)
        by (bit_vector);
    assert(forall|a: u8, x: u8, mm: u8| #[trigger] ((a ^ mm) ^ x) == (a ^ x) ^ mm)
        by (bit_vector);
    if i == b1.len() - 1 {
        assert(b1.drop_last() =~= b2.drop_last());
    } else {
        assert(b2.drop_last()[i] == b1.drop_last()[i] ^ m);
        lemma_xor_all_single_flip(b1.drop_last(), b2.drop_last(), i, m);
        assert(b1.last() == b2.last());
    }
}

/// Different checksum values render as different digit pairs.
proof fn lemma_hex2_injective(x: u8, y: u8)
    requires
        x != y,
    ensures
        spec_hex2(x) != spec_hex2(y),
{
    lemma_hex2_digits(x);
    lemma_hex2_digits(y);
    vstd::arithmetic::div_mod::lemma_fundamental_div_mod(x as int, 16);
    vstd::arithmetic::div_mod::lemma_fundamental_div_mod(y as int, 16);
    if x as int / 16 == y as int / 16 {
        assert(x as int % 16 != y as int % 16);
        assert(spec_hex2(x)[1] != spec_hex2(y)[1]);
    } else {
        assert(spec_hex2(x)[0] != spec_hex2(y)[0]);
    }
}

/// Single-bit corruption of a frame body, anywhere outside the checksum
/// field, changes the recomputed checksum and its digit rendering: the
/// slow pass can never validate such a frame against the stored digits.
pub proof fn lemma_nt_bcc_detects_single_bit(body1: Seq<u8>, body2: Seq<u8>, i: int, k: u8)
    requires
        body1.len() == body2.len(),
        0 <= i < body1.len(),
        k < 8,
        body2[i] == body1[i] ^ (1u8 << k),
        forall|j: int| 0 <= j < body1.len() && j != i ==> body1[j] == body2[j],
    ensures
        spec_xor_all(body2) != spec_xor_all(body1),
        spec_hex2(spec_xor_all(body2)) != spec_hex2(spec_xor_all(body1)),
{
    let m = 1u8 << k;
    assert(m != 0) by (bit_vector)
        requires
            m == 1u8 << k,
            k < 8,
    ;
    lemma_xor_all_single_flip(body1, body2, i, m);
    assert(forall|a: u8, mm: u8| mm != 0 ==> #[trigger] (a ^ mm) != a) by (bit_vector);
    lemma_hex2_injective(spec_xor_all(body2), spec_xor_all(body1));
}

/// A digit byte decodes back to the digit it renders.
proof fn lemma_hex_digit_inverse(d: int)
    requires
        0 <= d < 16,
    ensures
        spec_hex_val(spec_hex_digit(d)) == Some(d as u8),
{
}

/// The four padded hexadecimal digits of a 16-bit value, spelled out.
proof fn lemma_hex_pad4(x: int)
    requires
        0 <= x < 65536,
    ensures
        spec_hex_pad(x, 4) =~= seq![
            spec_hex_digit(x / 4096),
            spec_hex_digit(x / 256 % 16),
            spec_hex_digit(x / 16 % 16),
            spec_hex_digit(x % 16),
        ],
{
    vstd::arithmetic::div_mod::lemma_div_denominator(x, 16, 16);
    vstd::arithmetic::div_mod::lemma_div_denominator(x, 256, 16);
    assert(x / 16 / 16 == x / 256);
    assert(x / 256 / 16 == x / 4096);
    if x < 16 {
        assert(crate::radix::spec_hex_digits(x) =~= seq![spec_hex_digit(x)]);
        assert(spec_hex_pad(x, 4) =~= seq![48u8, 48u8, 48u8] + seq![spec_hex_digit(x)]);
    } else if x < 256 {
        assert(crate::radix::spec_hex_digits(x / 16) =~= seq![spec_hex_digit(x / 16)]);
        assert(crate::radix::spec_hex_digits(x) =~= seq![
            spec_hex_digit(x / 16),
            spec_hex_digit(x % 16),
        ]);
        assert(spec_hex_pad(x, 4) =~= seq![48u8, 48u8] + crate::radix::spec_hex_digits(x));
    } else if x < 4096 {
        assert(crate::radix::spec_hex_digits(x / 256) =~= seq![spec_hex_digit(x / 256)]);
        assert(crate::radix::spec_hex_digits(x / 16) =~= seq![
            spec_hex_digit(x / 256),
            spec_hex_digit(x / 16 % 16),
        ]);
        assert(crate::radix::spec_hex_digits(x) =~= seq![
            spec_hex_digit(x / 256),
            spec_hex_digit(x / 16 % 16),
            spec_hex_digit(x % 16),
        ]);
        assert(spec_hex_pad(x, 4) =~= seq![48u8] + crate::radix::spec_hex_digits(x));
    } else {
        assert(crate::radix::spec_hex_digits(x / 4096) =~= seq![spec_hex_digit(x / 4096)]);
        assert(crate::radix::spec_hex_digits(x / 256) =~= seq![
            spec_hex_digit(x / 4096),
            spec_hex_digit(x / 256 % 16),
        ]);
        assert(crate::radix::spec_hex_digits(x / 16) =~= seq![
            spec_hex_digit(x / 4096),
            spec_hex_digit(x / 256 % 16),
            spec_hex_digit(x / 16 % 16),
        ]);
        assert(crate::radix::spec_hex_digits(x) =~= seq![
            spec_hex_digit(x / 4096),
            spec_hex_digit(x / 256 % 16),
            spec_hex_digit(x / 16 % 16),
            spec_hex_digit(x % 16),
        ]);
        assert(spec_hex_pad(x, 4) =~= crate::radix::spec_hex_digits(x));
    }
}

/// Decoding the two digit pairs of a four-digit field recovers the high
/// and low byte of the rendered value.
proof fn lemma_hex4_decode(x: int)
    requires
        0 <= x < 65536,
    ensures
        spec_hex_pad(x, 4).len() == 4,
        forall|k: int| 0 <= k < 4 ==> #[trigger] spec_hex_val(spec_hex_pad(x, 4)[k]) is Some,
        spec_hex_val(spec_hex_pad(x, 4)[0])->0 * 16 + spec_hex_val(spec_hex_pad(x, 4)[1])->0 == x
            / 256,
        spec_hex_val(spec_hex_pad(x, 4)[2])->0 * 16 + spec_hex_val(spec_hex_pad(x, 4)[3])->0 == x
            % 256,
{
    lemma_hex_pad4(x);
    lemma_hex_digit_inverse(x / 4096);
    lemma_hex_digit_inverse(x / 256 % 16);
    lemma_hex_digit_inverse(x / 16 % 16);
    lemma_hex_digit_inverse(x % 16);
    vstd::arithmetic::div_mod::lemma_div_denominator(x, 256, 16);
    vstd::arithmetic::div_mod::lemma_fundamental_div_mod(x / 256, 16);
    assert((x / 4096) * 16 + x / 256 % 16 == x / 256);
    assert((x / 16 % 16) * 16 + x % 16 == x % 256) by (nonlinear_arith)
        requires
            0 <= x < 65536,
    ;
}

/// The rendered data of a word-range write is four bytes per value.
proof fn lemma_nt_word_values_len(vals: Seq<u16>)
    ensures
        spec_nt_word_values(vals).len() == 4 * vals.len(),
    decreases vals.len(),
{
    if vals.len() > 0 {
        lemma_nt_word_values_len(vals.drop_last());
        lemma_hex4_decode(spec_dcba(vals.last()));
    }
}

/// Each value's field in the rendered data is its byte-swapped four-digit
/// rendering.
proof fn lemma_nt_word_values_bytes(vals: Seq<u16>, i: int)
    requires
        0 <= i < vals.len(),
    ensures
        spec_nt_word_values(vals).len() == 4 * vals.len(),
        spec_nt_word_values(vals).subrange(4 * i, 4 * i + 4) =~= spec_hex_pad(
            spec_dcba(vals[i]),
            4,
        ),
    decreases vals.len(),
{
    lemma_nt_word_values_len(vals);
    if i == vals.len() - 1 {
        lemma_hex4_decode(spec_dcba(vals[i]));
        lemma_nt_word_values_len(vals.drop_last());
        assert(spec_nt_word_values(vals).subrange(4 * i, 4 * i + 4) =~= spec_hex_pad(
            spec_dcba(vals[i]),
            4,
        ));
    } else {
        lemma_nt_word_values_bytes(vals.drop_last(), i);
        assert(vals.drop_last()[i] == vals[i]);
        lemma_nt_word_values_len(vals.drop_last());
        assert(spec_nt_word_values(vals).subrange(4 * i, 4 * i + 4) =~= spec_nt_word_values(
            vals.drop_last(),
        ).subrange(4 * i, 4 * i + 4));
    }
}

/// Word-kind round trip: a reply whose data section carries the encoder's
/// byte-swapped hexadecimal rendering of any values decodes back to
/// exactly those values, across the full 16-bit range.
pub proof fn lemma_nt_word_round_trip(head: Seq<u8>, vals: Seq<u16>, addr: u32)
    requires
        head.len() == 6,
        head[4] == 82,
        head[5] == 68 || head[5] == 67,
        vals.len() <= 65535,
    ensures
        spec_nt_parse(head + spec_nt_word_values(vals), vals.len() as u16, addr, DataType::Word)
            == Ok::<Seq<u16>, ()>(vals),
{
    let b = head + spec_nt_word_values(vals);
    let n = vals.len() as int;
    lemma_nt_word_values_len(vals);
    assert(b.len() == 6 + 4 * n);
    assert forall|j: int| 0 <= j < 4 * n implies #[trigger] spec_hex_val(b[6 + j]) is Some by {
        let i = j / 4;
        let x = spec_dcba(vals[i]);
        lemma_nt_word_values_bytes(vals, i);
        lemma_hex4_decode(x);
        assert(0 <= j - 4 * i < 4) by (nonlinear_arith)
            requires
                i == j / 4,
                0 <= j,
        ;
        assert(spec_nt_word_values(vals).subrange(4 * i, 4 * i + 4)[j - 4 * i] == b[6 + j]);
    }
    assert(spec_nt_word_ok(b, n));
    let dec = spec_nt_word_vals(b, n);
    assert forall|i: int| 0 <= i < n implies dec[i] == vals[i] by {
        let x = spec_dcba(vals[i]);
        lemma_nt_word_values_bytes(vals, i);
        lemma_hex4_decode(x);
        assert(spec_nt_word_values(vals).subrange(4 * i, 4 * i + 4)[0] == b[6 + 4 * i]);
        assert(spec_nt_word_values(vals).subrange(4 * i, 4 * i + 4)[1] == b[6 + 4 * i + 1]);
        assert(spec_nt_word_values(vals).subrange(4 * i, 4 * i + 4)[2] == b[6 + 4 * i + 2]);
        assert(spec_nt_word_values(vals).subrange(4 * i, 4 * i + 4)[3] == b[6 + 4 * i + 3]);
        let lo = spec_hex_val(b[6 + 4 * i])->0 * 16 + spec_hex_val(b[6 + 4 * i + 1])->0;
        let hi = spec_hex_val(b[6 + 4 * i + 2])->0 * 16 + spec_hex_val(b[6 + 4 * i + 3])->0;
        assert(lo == x / 256);
        assert(hi == x % 256);
        let v = vals[i];
        assert(x / 256 == v % 256 && x % 256 == v / 256) by (nonlinear_arith)
            requires
                x == (v % 256) * 256 + v / 256,
                v <= 65535,
        ;
        vstd::arithmetic::div_mod::lemma_fundamental_div_mod(v as int, 256);
    }
    assert(dec =~= vals);
}

/// A well-formed success reply frame: it begins at the start marker,
/// carries the success marker, ends in its only terminator, and its
/// stored checksum digits match its body.
pub open spec fn spec_nt_wf_ok_frame(f: Seq<u8>) -> bool {
    &&& f.len() >= 8
    &&& f[0] == 0x25
    &&& f[3] == 0x24
    &&& f[f.len() - 1] == 0x0D
    &&& (forall|i: int| 0 <= i < f.len() - 1 ==> f[i] != 0x0D)
    &&& seq![f[f.len() - 3], f[f.len() - 2]] == spec_hex2(
        spec_xor_all(f.subrange(0, f.len() - 3)),
    )
}

/// A well-formed device error reply frame: it begins at the start marker,
/// carries the error marker and two status digits, ends in its only
/// terminator, and carries no success marker.
pub open spec fn spec_nt_wf_err_frame(f: Seq<u8>) -> bool {
    &&& f.len() >= 6
    &&& f[0] == 0x25
    &&& f[1] != 0x21
    &&& f[2] != 0x21
    &&& f[3] == 0x21
    &&& f[f.len() - 1] == 0x0D
    &&& (forall|i: int| 0 <= i < f.len() - 1 ==> f[i] != 0x0D)
    &&& (forall|i: int| 0 <= i < f.len() ==> f[i] != 0x24)
}

/// No proper prefix of a frame contains the terminator, so it classifies
/// as incomplete.
proof fn lemma_nt_prefix_incomplete(f: Seq<u8>, k: int)
    requires
        0 <= k < f.len(),
        f[f.len() - 1] == 0x0D,
        forall|i: int| 0 <= i < f.len() - 1 ==> f[i] != 0x0D,
    ensures
        spec_classify_nt(f.take(k)) == SpecOutcome::Incomplete,
{
    let p = f.take(k);
    assert forall|j: int| 0 <= j implies !crate::scan::spec_match_at(p, seq![0x0Du8], j) by {
        if j + 1 <= p.len() {
            assert(p[j] == f[j]);
            if p.subrange(j, j + 1) == seq![0x0Du8] {
                assert(p.subrange(j, j + 1)[0] == p[j]);
            }
        }
    }
    crate::scan::lemma_find_absent(p, seq![0x0Du8], 0);
}

/// Splitting a well-formed success frame at every byte boundary: each
/// proper prefix classifies as incomplete, and the whole frame as exactly
/// one valid outcome, the frame without its terminator.
pub proof fn lemma_nt_classify_frame_split(f: Seq<u8>, k: int)
    requires
        spec_nt_wf_ok_frame(f),
        0 <= k <= f.len(),
    ensures
        k < f.len() ==> spec_classify_nt(f.take(k)) == SpecOutcome::Incomplete,
        k == f.len() ==> spec_classify_nt(f.take(k)) == SpecOutcome::Valid(
            f.subrange(0, f.len() - 1),
        ),
{
    if k < f.len() {
        lemma_nt_prefix_incomplete(f, k);
    } else {
        let n = f.len() as int;
        assert(f.take(k) =~= f);
        assert(f.subrange(0, 1) =~= seq![0x25u8]);
        assert(crate::scan::spec_match_at(f, seq![0x25u8], 0));
        crate::scan::lemma_find_exact(f, seq![0x25u8], 0, 0);
        assert(f.subrange(n - 1, n) =~= seq![0x0Du8]);
        assert(crate::scan::spec_match_at(f, seq![0x0Du8], n - 1));
        assert forall|j: int| 0 <= j < n - 1 implies !crate::scan::spec_match_at(
            f,
            seq![0x0Du8],
            j,
        ) by {
            if f.subrange(j, j + 1) == seq![0x0Du8] {
                assert(f.subrange(j, j + 1)[0] == f[j]);
            }
        }
        crate::scan::lemma_find_exact(f, seq![0x0Du8], 0, n - 1);
        assert(f.subrange(3, 4) =~= seq![0x24u8]);
        assert(crate::scan::spec_match_at(f, seq![0x24u8], 3));
        crate::scan::lemma_find_present(f, seq![0x24u8], 0, 3);
        assert(f.subrange(0, n) =~= f);
        assert(spec_nt_quick(f) == SpecOutcome::Valid(f));
        let digits = spec_hex2(spec_xor_all(f.subrange(0, n - 3)));
        assert(seq![f[n - 3], f[n - 2]][0] == f[n - 3]);
        assert(seq![f[n - 3], f[n - 2]][1] == f[n - 2]);
        assert(f[n - 3] == digits[0] && f[n - 2] == digits[1]);
        assert(spec_nt_slow(f) == SpecOutcome::Valid(f.subrange(0, n - 1)));
    }
}

/// Splitting a well-formed device error frame at every byte boundary:
/// each proper prefix classifies as incomplete, and the whole frame as
/// exactly one device error, carrying the code of its two status digits.
pub proof fn lemma_nt_classify_err_frame_split(f: Seq<u8>, k: int)
    requires
        spec_nt_wf_err_frame(f),
        0 <= k <= f.len(),
    ensures
        k < f.len() ==> spec_classify_nt(f.take(k)) == SpecOutcome::Incomplete,
        k == f.len() ==> spec_classify_nt(f.take(k)) == SpecOutcome::DeviceError(
            spec_nt_err_code(f[4], f[5]),
        ),
{
    if k < f.len() {
        lemma_nt_prefix_incomplete(f, k);
    } else {
        let n = f.len() as int;
        assert(f.take(k) =~= f);
        assert(f.subrange(0, 1) =~= seq![0x25u8]);
        assert(crate::scan::spec_match_at(f, seq![0x25u8], 0));
        crate::scan::lemma_find_exact(f, seq![0x25u8], 0, 0);
        assert(f.subrange(n - 1, n) =~= seq![0x0Du8]);
        assert(crate::scan::spec_match_at(f, seq![0x0Du8], n - 1));
        assert forall|j: int| 0 <= j < n - 1 implies !crate::scan::spec_match_at(
            f,
            seq![0x0Du8],
            j,
        ) by {
            if f.subrange(j, j + 1) == seq![0x0Du8] {
                assert(f.subrange(j, j + 1)[0] == f[j]);
            }
        }
        crate::scan::lemma_find_exact(f, seq![0x0Du8], 0, n - 1);
        assert forall|j: int| 0 <= j implies !crate::scan::spec_match_at(f, seq![0x24u8], j) by {
            if j + 1 <= n {
                if f.subrange(j, j + 1) == seq![0x24u8] {
                    assert(f.subrange(j, j + 1)[0] == f[j]);
                }
            }
        }
        crate::scan::lemma_find_absent(f, seq![0x24u8], 0);
        assert(f.subrange(3, 4) =~= seq![0x21u8]);
        assert(crate::scan::spec_match_at(f, seq![0x21u8], 3));
        assert forall|j: int| 0 <= j < 3 implies !crate::scan::spec_match_at(
            f,
            seq![0x21u8],
            j,
        ) by {
            if f.subrange(j, j + 1) == seq![0x21u8] {
                assert(f.subrange(j, j + 1)[0] == f[j]);
            }
        }
        crate::scan::lemma_find_exact(f, seq![0x21u8], 0, 3);
        assert(spec_nt_quick(f) == SpecOutcome::DeviceError(spec_nt_err_code(f[4], f[5])));
    }
}

} // verus!
