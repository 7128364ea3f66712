//! The binary frame protocol: request encoding, reply classification and
//! payload decoding.
//!
//! A request frame is a fixed routing header (with a little-endian body
//! length), a four-byte command, a three-byte little-endian start address,
//! the category's device code and a two-byte little-endian point count,
//! followed for writes by the packed payload. A reply starts with a
//! two-byte magic header, repeats the routing fields, and carries a
//! little-endian body length and status code ahead of the data.

use vstd::prelude::*;
use vstd::string::*;

use crate::DataType;
use crate::error::PlcError;
use crate::mc::{McAddress, spec_mc_addr_val, spec_mc_code_of, spec_mc_valid};
use crate::outcome::{ProtocolOutcome, SpecOutcome};
use crate::scan::{find_sub, spec_find};

verus! {

/// Two little-endian bytes of `v`.
pub open spec fn spec_le2(v: int) -> Seq<u8> {
    seq![(v % 256) as u8, (v / 256 % 256) as u8]
}

/// Three little-endian bytes of `v`.
pub open spec fn spec_le3(v: int) -> Seq<u8> {
    seq![(v % 256) as u8, (v / 256 % 256) as u8, (v / 65536 % 256) as u8]
}

/// The request subheader: magic, network number, unit id, module IO
/// number, station number, the declared body length, and the monitoring
/// timer.
pub open spec fn spec_mc_subheader(body_len: int) -> Seq<u8> {
    seq![0x50u8, 0x00u8, 0x00u8, 0xFFu8, 0xFFu8, 0x03u8, 0x00u8] + spec_le2(body_len) + seq![
        0x0Au8,
        0x00u8,
    ]
}

/// The four command bytes for a read or write of the given kind, low byte
/// first.
pub open spec fn spec_mc_cmd(kind: DataType, write: bool) -> Seq<u8> {
    if write {
        if kind == DataType::Bit {
            seq![0x01u8, 0x14u8, 0x01u8, 0x00u8]
        } else {
            seq![0x01u8, 0x14u8, 0x00u8, 0x00u8]
        }
    } else {
        if kind == DataType::Bit {
            seq![0x01u8, 0x04u8, 0x01u8, 0x00u8]
        } else {
            seq![0x01u8, 0x04u8, 0x00u8, 0x00u8]
        }
    }
}

/// Write payload for the bit kind: two values per byte, the first in the
/// high nibble, a final odd value padded with a zero low nibble.
pub open spec fn spec_mc_bit_payload(vals: Seq<u16>) -> Seq<u8> {
    Seq::new(
        ((vals.len() + 1) / 2) as nat,
        |i: int|
            (((vals[2 * i] % 16) * 16) + (if 2 * i + 1 < vals.len() {
                (vals[2 * i + 1] % 16) as int
            } else {
                0
            })) as u8,
    )
}

/// Write payload for the word kind: two little-endian bytes per value.
pub open spec fn spec_mc_word_payload(vals: Seq<u16>) -> Seq<u8> {
    Seq::new(
        (2 * vals.len()) as nat,
        |i: int|
            if i % 2 == 0 {
                (vals[i / 2] % 256) as u8
            } else {
                (vals[i / 2] / 256) as u8
            },
    )
}

/// Write payload for either kind.
pub open spec fn spec_mc_payload(kind: DataType, vals: Seq<u16>) -> Seq<u8> {
    if kind == DataType::Bit {
        spec_mc_bit_payload(vals)
    } else {
        spec_mc_word_payload(vals)
    }
}

/// The read request frame: subheader with the fixed body length, command,
/// start address, device code and point count.
pub open spec fn spec_mc_read_frame(code: u8, addr: u32, kind: DataType, len: u16) -> Seq<u8> {
    spec_mc_subheader(0x0C) + spec_mc_cmd(kind, false) + spec_le3(addr as int) + seq![code]
        + spec_le2(len as int)
}

/// The write request frame: as the read frame, with the body length grown
/// by the payload and the payload appended.
pub open spec fn spec_mc_write_frame(code: u8, addr: u32, kind: DataType, vals: Seq<u16>) -> Seq<
    u8,
> {
    spec_mc_subheader(0x0C + spec_mc_payload(kind, vals).len() as int) + spec_mc_cmd(kind, true)
        + spec_le3(addr as int) + seq![code] + spec_le2(vals.len() as int) + spec_mc_payload(
        kind,
        vals,
    )
}

/// Builds the read request for `len` points at `address`.
pub fn create_read_buf(address: &McAddress, len: u16) -> (r: Result<Vec<u8>, PlcError>)
    ensures
        r matches Ok(buf) && buf@ == spec_mc_read_frame(
            address.component_code,
            address.inner_address,
            address.data_type,
            len,
        ),
{
    let mut buf: Vec<u8> = Vec::new();
    buf.push(0x50);
    buf.push(0x00);
    buf.push(0x00);
    buf.push(0xFF);
    buf.push(0xFF);
    buf.push(0x03);
    buf.push(0x00);
    buf.push(0x0C);
    buf.push(0x00);
    buf.push(0x0A);
    buf.push(0x00);
    push_mc_cmd(&mut buf, &address.data_type, false);
    push_le3(&mut buf, address.inner_address);
    buf.push(address.component_code);
    push_le2(&mut buf, len);
    proof {
        assert(buf@ =~= spec_mc_read_frame(
            address.component_code,
            address.inner_address,
            address.data_type,
            len,
        ));
    }
    Ok(buf)
}

/// Builds the write request for the values in `datas` starting at
/// `address`.
pub fn create_write_buf(address: &McAddress, datas: &[u16]) -> (r: Result<Vec<u8>, PlcError>)
    requires
        0 < datas@.len() <= 720,
    ensures
        r matches Ok(buf) && buf@ == spec_mc_write_frame(
            address.component_code,
            address.inner_address,
            address.data_type,
            datas@,
        ),
{
    let mut payload: Vec<u8> = match address.data_type {
        DataType::Bit => mc_bit_payload(datas),
        DataType::Word => mc_word_payload(datas),
    };
    let body_len: u16 = 12 + payload.len() as u16;
    let mut buf: Vec<u8> = Vec::new();
    buf.push(0x50);
    buf.push(0x00);
    buf.push(0x00);
    buf.push(0xFF);
    buf.push(0xFF);
    buf.push(0x03);
    buf.push(0x00);
    push_le2(&mut buf, body_len);
    buf.push(0x0A);
    buf.push(0x00);
    push_mc_cmd(&mut buf, &address.data_type, true);
    push_le3(&mut buf, address.inner_address);
    buf.push(address.component_code);
    push_le2(&mut buf, datas.len() as u16);
    buf.append(&mut payload);
    proof {
        assert(buf@ =~= spec_mc_write_frame(
            address.component_code,
            address.inner_address,
            address.data_type,
            datas@,
        ));
    }
    Ok(buf)
}

/// Appends the two little-endian bytes of `v`.
fn push_le2(buf: &mut Vec<u8>, v: u16)
    ensures
        final(buf)@ == old(buf)@ + spec_le2(v as int),
{
    buf.push((v % 256) as u8);
    buf.push((v / 256) as u8);
    proof {
        assert(final(buf)@ =~= old(buf)@ + spec_le2(v as int));
    }
}

/// Appends the three little-endian bytes of `v`.
fn push_le3(buf: &mut Vec<u8>, v: u32)
    ensures
        final(buf)@ == old(buf)@ + spec_le3(v as int),
{
    buf.push((v % 256) as u8);
    buf.push((v / 256 % 256) as u8);
    buf.push((v / 65536 % 256) as u8);
    proof {
        assert(final(buf)@ =~= old(buf)@ + spec_le3(v as int));
    }
}

/// Appends the four command bytes.
fn push_mc_cmd(buf: &mut Vec<u8>, kind: &DataType, write: bool)
    ensures
        final(buf)@ == old(buf)@ + spec_mc_cmd(*kind, write),
{
    buf.push(0x01);
    buf.push(if write {
        0x14
    } else {
        0x04
    });
    buf.push(match kind {
        DataType::Bit => 0x01,
        DataType::Word => 0x00,
    });
    buf.push(0x00);
    proof {
        assert(final(buf)@ =~= old(buf)@ + spec_mc_cmd(*kind, write));
    }
}

/// Packs bit values two per byte, first value in the high nibble.
fn mc_bit_payload(datas: &[u16]) -> (r: Vec<u8>)
    ensures
        r@ == spec_mc_bit_payload(datas@),
{
    let n = datas.len();
    let mut payload: Vec<u8> = Vec::new();
    let mut i: usize = 0;
    while i < n
        invariant
            n == datas@.len(),
            i <= n,
            i % 2 == 0 || i == n,
            payload@ == spec_mc_bit_payload(datas@).take(((i + 1) / 2) as int),
        decreases n - i,
    {
        let hi = (datas[i] % 16) as u8;
        if i + 1 < n {
            let lo = (datas[i + 1] % 16) as u8;
            payload.push(hi * 16 + lo);
            i = i + 2;
        } else {
            payload.push(hi * 16);
            i = i + 1;
        }
        proof {
            assert(payload@ =~= spec_mc_bit_payload(datas@).take(((i + 1) / 2) as int));
        }
    }
    proof {
        assert(payload@ =~= spec_mc_bit_payload(datas@));
    }
    payload
}

/// What a reply buffer holds so far: the first magic header is located,
/// the declared body length read, and once the whole frame is present the
/// status code decides between a clean frame and a device error.
pub open spec fn spec_classify_mc(b: Seq<u8>) -> SpecOutcome {
    if b.len() < 11 {
        SpecOutcome::Incomplete
    } else {
        match spec_find(b, seq![0xD0u8, 0x00u8], 0) {
            None => SpecOutcome::Incomplete,
            Some(h) => {
                if b.len() < h + 9 {
                    SpecOutcome::Incomplete
                } else {
                    let l = b[h + 7] + 256 * (b[h + 8] as int);
                    if l < 2 {
                        SpecOutcome::Incomplete
                    } else if b.len() < h + 9 + l {
                        SpecOutcome::Incomplete
                    } else {
                        let code = b[h + 9] + 256 * (b[h + 10] as int);
                        if code == 0 {
                            SpecOutcome::Valid(b.subrange(h, h + 9 + l))
                        } else {
                            SpecOutcome::DeviceError(code as u16)
                        }
                    }
                }
            },
        }
    }
}

/// Classifies the reply bytes received so far.
///
/// The caller appends every transport read to one buffer and reclassifies;
/// missing bytes are never confused with corruption.
pub fn check_mc_3e_binary(buf: &[u8]) -> (r: ProtocolOutcome)
    ensures
        r@ == spec_classify_mc(buf@),
{
    if buf.len() < 11 {
        return ProtocolOutcome::Incomplete;
    }
    let pat: Vec<u8> = vec![0xD0, 0x00];
    proof {
        assert(pat@ =~= seq![0xD0u8, 0x00u8]);
    }
    match find_sub(buf, pat.as_slice(), 0) {
        None => ProtocolOutcome::Incomplete,
        Some(h) => {
            proof {
                crate::scan::lemma_find_some(buf@, pat@, 0, h as int);
            }
            if buf.len() - h < 9 {
                return ProtocolOutcome::Incomplete;
            }
            let l: usize = buf[h + 7] as usize + 256 * (buf[h + 8] as usize);
            if l < 2 {
                return ProtocolOutcome::Incomplete;
            }
            if buf.len() - h - 9 < l {
                return ProtocolOutcome::Incomplete;
            }
            let code: u16 = buf[h + 9] as u16 + 256 * (buf[h + 10] as u16);
            if code == 0 {
                let frame = vstd::slice::slice_to_vec(vstd::slice::slice_subrange(
                    buf,
                    h,
                    h + 9 + l,
                ));
                ProtocolOutcome::Valid(frame)
            } else {
                ProtocolOutcome::DeviceError(code)
            }
        },
    }
}

/// Values decoded from a reply's data section for the bit kind: two per
/// byte, high nibble first, reported as 0 or 1.
pub open spec fn spec_mc_bit_decoded(data: Seq<u8>, len: int) -> Seq<u16> {
    Seq::new(
        len as nat,
        |i: int|
            {
                let v = if i % 2 == 0 {
                    data[i / 2] / 16
                } else {
                    data[i / 2] % 16
                };
                if v > 0 {
                    1u16
                } else {
                    0u16
                }
            },
    )
}

/// Values decoded from a reply's data section for the word kind: two
/// little-endian bytes each.
pub open spec fn spec_mc_word_decoded(data: Seq<u8>, len: int) -> Seq<u16> {
    Seq::new(len as nat, |i: int| (data[2 * i] + 256 * (data[2 * i + 1] as int)) as u16)
}

/// Bytes of reply data the decoder needs past the routing and status
/// header.
pub open spec fn spec_mc_data_need(kind: DataType, len: u16) -> int {
    if kind == DataType::Bit {
        (len + 1) / 2
    } else {
        2 * len
    }
}

/// Decodes the data section of a complete, status-clean reply frame into
/// `len` values of the given kind.
pub fn parse_mc_3e_binary(buf: &[u8], data_type: &DataType, len: u16) -> (r: Result<
    Vec<u16>,
    PlcError,
>)
    ensures
        r is Ok <==> buf@.len() >= 11 + spec_mc_data_need(*data_type, len),
        r matches Ok(vals) ==> vals@ == (if *data_type == DataType::Bit {
            spec_mc_bit_decoded(buf@.skip(11), len as int)
        } else {
            spec_mc_word_decoded(buf@.skip(11), len as int)
        }),
        r matches Err(e) ==> e matches PlcError::Comm(_),
{
    let need: usize = match data_type {
        DataType::Bit => (len as usize + 1) / 2,
        DataType::Word => 2 * len as usize,
    };
    if buf.len() < 11 || buf.len() - 11 < need {
        return Err(PlcError::Comm(String::from_str("reply data is truncated")));
    }
    let data = vstd::slice::slice_subrange(buf, 11, buf.len());
    let mut datas: Vec<u16> = Vec::new();
    let count = len as usize;
    match data_type {
        DataType::Bit => {
            let mut i: usize = 0;
            while i < count
                invariant
                    count == len,
                    data@.len() >= (len + 1) / 2,
                    i <= count,
                    datas@ == spec_mc_bit_decoded(data@, len as int).take(i as int),
                decreases count - i,
            {
                let byte = data[i / 2];
                let v = if i % 2 == 0 {
                    byte / 16
                } else {
                    byte % 16
                };
                datas.push(if v > 0 {
                    1
                } else {
                    0
                });
                i = i + 1;
                proof {
                    assert(datas@ =~= spec_mc_bit_decoded(data@, len as int).take(i as int));
                }
            }
            proof {
                assert(datas@ =~= spec_mc_bit_decoded(data@, len as int));
            }
        },
        DataType::Word => {
            let mut i: usize = 0;
            while i < count
                invariant
                    count == len,
                    data@.len() >= 2 * len,
                    i <= count,
                    datas@ == spec_mc_word_decoded(data@, len as int).take(i as int),
                decreases count - i,
            {
                datas.push(data[2 * i] as u16 + 256 * (data[2 * i + 1] as u16));
                i = i + 1;
                proof {
                    assert(datas@ =~= spec_mc_word_decoded(data@, len as int).take(i as int));
                }
            }
            proof {
                assert(datas@ =~= spec_mc_word_decoded(data@, len as int));
            }
        },
    }
    Ok(datas)
}

/// Renders word values as two little-endian bytes each.
fn mc_word_payload(datas: &[u16]) -> (r: Vec<u8>)
    ensures
        r@ == spec_mc_word_payload(datas@),
{
    let n = datas.len();
    let mut payload: Vec<u8> = Vec::new();
    let mut k: usize = 0;
    while k < n
        invariant
            n == datas@.len(),
            k <= n,
            payload@ == spec_mc_word_payload(datas@).take(2 * k),
        decreases n - k,
    {
        payload.push((datas[k] % 256) as u8);
        payload.push((datas[k] / 256) as u8);
        k = k + 1;
        proof {
            assert(payload@ =~= spec_mc_word_payload(datas@).take(2 * k));
        }
    }
    proof {
        assert(payload@ =~= spec_mc_word_payload(datas@));
    }
    payload
}

/// Documented cause of a nonzero reply status code; unknown codes map to a
/// generic text rather than failing.
pub open spec fn spec_mc_error_message(code: u16) -> Seq<char> {
    if code == 0x0055 {
        "write refused: run-time writes are not enabled on the CPU"@
    } else if code == 0xC050 {
        "received ASCII data that cannot be converted to binary"@
    } else if code == 0xC056 {
        "the read or write request exceeds the largest address"@
    } else if code == 0xC058 {
        "the request length does not match the character data count"@
    } else if code == 0xC059 {
        "unsupported command or subcommand"@
    } else if code == 0xC05B {
        "the CPU cannot read or write the specified device category"@
    } else if code == 0xC05C {
        "the request content is wrong"@
    } else if code == 0xC05D {
        "no monitor registration"@
    } else if code == 0xC05F {
        "the request cannot be executed for the target CPU"@
    } else if code == 0xC060 {
        "the request content is wrong for a bit device"@
    } else if code == 0xC061 {
        "the request length does not match the data count"@
    } else if code == 0xC06F {
        "the frame does not match the configured exchange format"@
    } else if code == 0xC070 {
        "device memory extension cannot be specified for the target station"@
    } else if code == 0xC0B5 {
        "the CPU cannot handle the specified data"@
    } else if code == 0xC200 {
        "wrong remote password"@
    } else if code == 0xC201 {
        "the port is locked by the remote password"@
    } else if code == 0xC204 {
        "the device differs from the one that unlocked the remote password"@
    } else {
        "unknown device error"@
    }
}

/// Documented cause of a nonzero reply status code.
pub fn mc_error_message(code: u16) -> (r: &'static str)
    ensures
        r@ == spec_mc_error_message(code),
{
    if code == 0x0055 {
        "write refused: run-time writes are not enabled on the CPU"
    } else if code == 0xC050 {
        "received ASCII data that cannot be converted to binary"
    } else if code == 0xC056 {
        "the read or write request exceeds the largest address"
    } else if code == 0xC058 {
        "the request length does not match the character data count"
    } else if code == 0xC059 {
        "unsupported command or subcommand"
    } else if code == 0xC05B {
        "the CPU cannot read or write the specified device category"
    } else if code == 0xC05C {
        "the request content is wrong"
    } else if code == 0xC05D {
        "no monitor registration"
    } else if code == 0xC05F {
        "the request cannot be executed for the target CPU"
    } else if code == 0xC060 {
        "the request content is wrong for a bit device"
    } else if code == 0xC061 {
        "the request length does not match the data count"
    } else if code == 0xC06F {
        "the frame does not match the configured exchange format"
    } else if code == 0xC070 {
        "device memory extension cannot be specified for the target station"
    } else if code == 0xC0B5 {
        "the CPU cannot handle the specified data"
    } else if code == 0xC200 {
        "wrong remote password"
    } else if code == 0xC201 {
        "the port is locked by the remote password"
    } else if code == 0xC204 {
        "the device differs from the one that unlocked the remote password"
    } else {
        "unknown device error"
    }
}

/// Folds a device error code into the uniform error type, with its
/// documented cause.
pub fn mc_device_error(code: u16) -> (e: PlcError)
    ensures
        e matches PlcError::Device(c, m) && c == code && m@ == spec_mc_error_message(code),
{
    PlcError::Device(code, String::from_str(mc_error_message(code)))
}

/// Builds the whole read request for `len` points of `data_type` at the
/// register named `address_name`, rejecting a zero or oversized count and
/// an unresolvable name before any byte is sent.
pub fn mc_read_request(address_name: &str, data_type: DataType, len: u16) -> (r: Result<
    Vec<u8>,
    PlcError,
>)
    ensures
        r is Ok <==> (1 <= len <= 960 && spec_mc_valid(address_name@)),
        r matches Ok(buf) ==> buf@ == spec_mc_read_frame(
            spec_mc_code_of(address_name@)->0,
            spec_mc_addr_val(address_name@) as u32,
            data_type,
            len,
        ),
        (len == 0 || len > 960) ==> r matches Err(PlcError::Param(_)),
        (1 <= len <= 960 && !spec_mc_valid(address_name@)) ==> r matches Err(PlcError::Addr(_)),
{
    if len == 0 {
        return Err(PlcError::Param(String::from_str("read length must not be 0")));
    }
    if len > 960 {
        return Err(PlcError::Param(String::from_str("read length must not exceed 960")));
    }
    let address = match McAddress::new(address_name, data_type) {
        Ok(a) => a,
        Err(e) => {
            return Err(e);
        },
    };
    create_read_buf(&address, len)
}

/// Builds the whole write request for the values in `datas` at the
/// register named `address_name`, rejecting a zero or oversized count and
/// an unresolvable name before any byte is sent.
pub fn mc_write_request(address_name: &str, data_type: DataType, datas: &[u16]) -> (r: Result<
    Vec<u8>,
    PlcError,
>)
    ensures
        r is Ok <==> (1 <= datas@.len() <= 720 && spec_mc_valid(address_name@)),
        r matches Ok(buf) ==> buf@ == spec_mc_write_frame(
            spec_mc_code_of(address_name@)->0,
            spec_mc_addr_val(address_name@) as u32,
            data_type,
            datas@,
        ),
        (datas@.len() == 0 || datas@.len() > 720) ==> r matches Err(PlcError::Param(_)),
        (1 <= datas@.len() <= 720 && !spec_mc_valid(address_name@)) ==> r matches Err(
            PlcError::Addr(_),
        ),
{
    if datas.len() == 0 {
        return Err(PlcError::Param(String::from_str("write length must not be 0")));
    }
    if datas.len() > 720 {
        return Err(PlcError::Param(String::from_str("write length must not exceed 720")));
    }
    let address = match McAddress::new(address_name, data_type) {
        Ok(a) => a,
        Err(e) => {
            return Err(e);
        },
    };
    create_write_buf(&address, datas)
}

/// Resolution followed by encoding is deterministic: one name, kind and
/// count admit exactly one read frame, and one name, kind and value
/// sequence admit exactly one write frame.
pub proof fn lemma_mc_request_deterministic(
    name: Seq<char>,
    kind: DataType,
    len: u16,
    vals: Seq<u16>,
    r1: Seq<u8>,
    r2: Seq<u8>,
    w1: Seq<u8>,
    w2: Seq<u8>,
)
    requires
        spec_mc_valid(name),
        r1 == spec_mc_read_frame(
            spec_mc_code_of(name)->0,
            spec_mc_addr_val(name) as u32,
            kind,
            len,
        ),
        r2 == spec_mc_read_frame(
            spec_mc_code_of(name)->0,
            spec_mc_addr_val(name) as u32,
            kind,
            len,
        ),
        w1 == spec_mc_write_frame(
            spec_mc_code_of(name)->0,
            spec_mc_addr_val(name) as u32,
            kind,
            vals,
        ),
        w2 == spec_mc_write_frame(
            spec_mc_code_of(name)->0,
            spec_mc_addr_val(name) as u32,
            kind,
            vals,
        ),
    ensures
        r1 == r2,
        w1 == w2,
{
}

/// Word-kind round trip: the data section written for any values decodes
/// back to exactly those values, across the full 16-bit range.
pub proof fn lemma_mc_word_round_trip(vals: Seq<u16>)
    ensures
        spec_mc_word_decoded(spec_mc_word_payload(vals), vals.len() as int) == vals,
{
    let dec = spec_mc_word_decoded(spec_mc_word_payload(vals), vals.len() as int);
    assert forall|i: int| 0 <= i < vals.len() implies dec[i] == vals[i] by {
        vstd::arithmetic::div_mod::lemma_fundamental_div_mod(vals[i] as int, 256);
    }
    assert(dec =~= vals);
}

/// Bit-kind round trip: the packed data section written for values that
/// are each 0 or 1 decodes back to exactly those values.
pub proof fn lemma_mc_bit_round_trip(vals: Seq<u16>)
    requires
        forall|i: int| 0 <= i < vals.len() ==> vals[i] == 0 || vals[i] == 1,
    ensures
        spec_mc_bit_decoded(spec_mc_bit_payload(vals), vals.len() as int) == vals,
{
    let data = spec_mc_bit_payload(vals);
    let dec = spec_mc_bit_decoded(data, vals.len() as int);
    assert forall|i: int| 0 <= i < vals.len() implies dec[i] == vals[i] by {
        let a = (vals[2 * (i / 2)] % 16) as int;
        let b: int = if 2 * (i / 2) + 1 < vals.len() {
            (vals[2 * (i / 2) + 1] % 16) as int
        } else {
            0
        };
        assert((a * 16 + b) / 16 == a && (a * 16 + b) % 16 == b) by (nonlinear_arith)
            requires
                0 <= a < 16,
                0 <= b < 16,
        ;
        if i % 2 == 0 {
            assert(2 * (i / 2) == i);
        } else {
            assert(2 * (i / 2) + 1 == i);
        }
    }
    assert(dec =~= vals);
}

/// Classification is monotonic: once a buffer classifies as a clean frame
/// or a device error, appending more bytes does not change the outcome.
pub proof fn lemma_mc_classify_monotonic(b1: Seq<u8>, b2: Seq<u8>)
    requires
        b1.len() <= b2.len(),
        b2.subrange(0, b1.len() as int) == b1,
        !(spec_classify_mc(b1) is Incomplete),
    ensures
        spec_classify_mc(b2) == spec_classify_mc(b1),
{
    let pat = seq![0xD0u8, 0x00u8];
    assert forall|k: int| 0 <= k < b1.len() implies b2[k] == b1[k] by {
        assert(b2.subrange(0, b1.len() as int)[k] == b2[k]);
    }
    match spec_find(b1, pat, 0) {
        Some(h) => {
            crate::scan::lemma_find_some(b1, pat, 0, h);
            crate::scan::lemma_find_prefix_stable(b1, b2, pat, 0, h);
            let l = b1[h + 7] + 256 * (b1[h + 8] as int);
            if 2 <= l && b1.len() >= h + 9 + l {
                let code = b1[h + 9] + 256 * (b1[h + 10] as int);
                if code == 0 {
                    assert(b2.subrange(h, h + 9 + l) =~= b1.subrange(h, h + 9 + l));
                }
            }
        },
        None => {},
    }
}

} // verus!
