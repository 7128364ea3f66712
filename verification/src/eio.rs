//! The line-oriented ASCII command protocol of the 16-point IO module.
//!
//! A read request is the fixed command word `IOGETALL`; the reply is
//! sixteen digit bytes, one per point, closed by a carriage return and
//! line feed. A write request is an `OPEN` or `CLOSE` verb followed by a
//! comma-separated list of 1-based point numbers; the module acknowledges
//! with the literal `OK` and the same terminator.

use vstd::prelude::*;
use vstd::string::*;

use crate::DataType;
use crate::error::PlcError;
use crate::outcome::{ProtocolOutcome, SpecOutcome};
use crate::radix::{parse_radix, push_dec, spec_dec_digits, spec_parse_val, spec_parses};
use crate::scan::{find_sub, spec_find};

verus! {

/// What a read-reply buffer holds so far: sixteen status bytes are
/// complete once the terminator follows them.
pub open spec fn spec_classify_eio_read(b: Seq<u8>) -> SpecOutcome {
    if b.len() < 18 {
        SpecOutcome::Incomplete
    } else {
        match spec_find(b, seq![0x0Du8, 0x0Au8], 16) {
            Some(q) => SpecOutcome::Valid(b.subrange(q - 16, q + 2)),
            None => SpecOutcome::Incomplete,
        }
    }
}

/// What a write-reply buffer holds so far: the acknowledgement is the
/// literal `OK` with the terminator.
pub open spec fn spec_classify_eio_write(b: Seq<u8>) -> SpecOutcome {
    if b.len() < 4 {
        SpecOutcome::Incomplete
    } else {
        match spec_find(b, seq![0x4Fu8, 0x4Bu8, 0x0Du8, 0x0Au8], 0) {
            Some(p) => SpecOutcome::Valid(b.subrange(p, p + 4)),
            None => SpecOutcome::Incomplete,
        }
    }
}

/// Classifies the read-reply bytes received so far.
pub fn check_eio_read(buf: &[u8]) -> (r: ProtocolOutcome)
    ensures
        r@ == spec_classify_eio_read(buf@),
{
    if buf.len() < 18 {
        return ProtocolOutcome::Incomplete;
    }
    let pat: Vec<u8> = vec![0x0D, 0x0A];
    proof {
        assert(pat@ =~= seq![0x0Du8, 0x0Au8]);
    }
    match find_sub(buf, pat.as_slice(), 16) {
        Some(q) => {
            proof {
                crate::scan::lemma_find_some(buf@, pat@, 16, q as int);
            }
            ProtocolOutcome::Valid(
                vstd::slice::slice_to_vec(vstd::slice::slice_subrange(buf, q - 16, q + 2)),
            )
        },
        None => ProtocolOutcome::Incomplete,
    }
}

/// Classifies the write-reply bytes received so far.
pub fn check_eio_write(buf: &[u8]) -> (r: ProtocolOutcome)
    ensures
        r@ == spec_classify_eio_write(buf@),
{
    if buf.len() < 4 {
        return ProtocolOutcome::Incomplete;
    }
    let pat: Vec<u8> = vec![0x4F, 0x4B, 0x0D, 0x0A];
    proof {
        assert(pat@ =~= seq![0x4Fu8, 0x4Bu8, 0x0Du8, 0x0Au8]);
    }
    match find_sub(buf, pat.as_slice(), 0) {
        Some(p) => {
            proof {
                crate::scan::lemma_find_some(buf@, pat@, 0, p as int);
            }
            ProtocolOutcome::Valid(
                vstd::slice::slice_to_vec(vstd::slice::slice_subrange(buf, p, p + 4)),
            )
        },
        None => ProtocolOutcome::Incomplete,
    }
}

/// Whether the first `len` reply bytes are all status digits.
pub open spec fn spec_eio_bits_ok(b: Seq<u8>, len: int) -> bool {
    forall|i: int| 0 <= i < len ==> (b[i] == 48 || b[i] == 49)
}

/// The decoded points: the module reports an active point with the digit
/// 0 and an inactive one with the digit 1, so the sense is inverted here.
pub open spec fn spec_eio_bits(b: Seq<u8>, len: int) -> Seq<u16> {
    Seq::new(
        len as nat,
        |i: int|
            if b[i] == 48 {
                1u16
            } else {
                0u16
            },
    )
}

/// Decodes `len` points from a complete read reply (sliced to start at
/// the wanted point). Only the bit kind is supported.
pub fn parse_eio_read(buf: &[u8], data_type: &DataType, len: u16) -> (r: Result<
    Vec<u16>,
    PlcError,
>)
    ensures
        r is Ok <==> (*data_type == DataType::Bit && buf@.len() >= len && spec_eio_bits_ok(
            buf@,
            len as int,
        )),
        r matches Ok(vals) ==> vals@ == spec_eio_bits(buf@, len as int),
        *data_type == DataType::Word ==> r matches Err(PlcError::Param(_)),
        (*data_type == DataType::Bit && !(buf@.len() >= len && spec_eio_bits_ok(
            buf@,
            len as int,
        ))) ==> r matches Err(PlcError::Comm(_)),
{
    match data_type {
        DataType::Word => Err(
            PlcError::Param(String::from_str("only the bit kind can be read from this module")),
        ),
        DataType::Bit => {
            if buf.len() < len as usize {
                return Err(PlcError::Comm(String::from_str("reply data is truncated")));
            }
            let count = len as usize;
            let mut datas: Vec<u16> = Vec::new();
            let mut i: usize = 0;
            while i < count
                invariant
                    count == len,
                    buf@.len() >= len,
                    i <= count,
                    *data_type == DataType::Bit,
                    forall|j: int| 0 <= j < i ==> (buf@[j] == 48 || buf@[j] == 49),
                    datas@ == spec_eio_bits(buf@, len as int).take(i as int),
                decreases count - i,
            {
                let b = buf[i];
                if b == 48 {
                    datas.push(1);
                } else if b == 49 {
                    datas.push(0);
                } else {
                    return Err(PlcError::Comm(String::from_str("reply holds no status digit")));
                }
                i = i + 1;
                proof {
                    assert(datas@ =~= spec_eio_bits(buf@, len as int).take(i as int));
                }
            }
            proof {
                assert(datas@ =~= spec_eio_bits(buf@, len as int));
            }
            Ok(datas)
        },
    }
}

/// The fixed read command word with its terminator.
pub open spec fn spec_eio_read_cmd() -> Seq<u8> {
    seq![73u8, 79u8, 71u8, 69u8, 84u8, 65u8, 76u8, 76u8, 13u8, 10u8]
}

/// The verb of a write: `CLOSE` switches points off, `OPEN` switches them
/// on.
pub open spec fn spec_eio_verb(first: u16) -> Seq<u8> {
    if first == 0 {
        seq![67u8, 76u8, 79u8, 83u8, 69u8]
    } else {
        seq![79u8, 80u8, 69u8, 78u8]
    }
}

/// The 1-based point numbers of a write, each followed by a comma.
pub open spec fn spec_eio_points(start0: int, count: int) -> Seq<u8>
    decreases count,
{
    if count <= 0 {
        Seq::empty()
    } else {
        spec_eio_points(start0, count - 1) + spec_dec_digits(start0 + count) + seq![44u8]
    }
}

/// The whole write command for `count` equal values starting at 0-based
/// point `start0`.
pub open spec fn spec_eio_write_cmd(first: u16, start0: int, count: int) -> Seq<u8> {
    spec_eio_verb(first) + spec_eio_points(start0, count) + seq![13u8, 10u8]
}

/// Whether a register name names a point in `lo..=hi`.
pub open spec fn spec_eio_addr_ok(s: Seq<char>, lo: int, hi: int) -> bool {
    spec_parses(s, 10) && lo <= spec_parse_val(s, 10) <= hi
}

/// Validates a read of `len` points starting at the named point and
/// returns the command to send together with the 0-based start offset.
/// The count, the kind and the address are all rejected before any byte
/// is sent.
pub fn eio_read_request(address_name: &str, data_type: &DataType, len: u16) -> (r: Result<
    (Vec<u8>, u8),
    PlcError,
>)
    ensures
        (len == 0 || len > 16) ==> r matches Err(PlcError::Param(_)),
        (1 <= len <= 16 && *data_type == DataType::Word) ==> r matches Err(PlcError::Param(_)),
        (1 <= len <= 16 && *data_type == DataType::Bit && !spec_eio_addr_ok(address_name@, 1, 16))
            ==> r matches Err(PlcError::Addr(_)),
        (1 <= len <= 16 && *data_type == DataType::Bit && spec_eio_addr_ok(address_name@, 1, 16))
            ==> (r matches Ok(p) && p.0@ == spec_eio_read_cmd() && p.1 == spec_parse_val(
            address_name@,
            10,
        ) - 1),
{
    if len == 0 || len > 16 {
        return Err(PlcError::Param(String::from_str("read length must be 1 to 16")));
    }
    if matches!(data_type, DataType::Word) {
        return Err(PlcError::Param(String::from_str("only the bit kind can be read")));
    }
    proof {
        assert(address_name@.skip(0) =~= address_name@);
    }
    let v = match parse_radix(address_name, 0, 10) {
        Some(v) => v,
        None => {
            return Err(PlcError::Addr(String::from_str("the point must be 1 to 16")));
        },
    };
    if v < 1 || v > 16 {
        return Err(PlcError::Addr(String::from_str("the point must be 1 to 16")));
    }
    let mut cmd: Vec<u8> = Vec::new();
    cmd.push(73);
    cmd.push(79);
    cmd.push(71);
    cmd.push(69);
    cmd.push(84);
    cmd.push(65);
    cmd.push(76);
    cmd.push(76);
    cmd.push(13);
    cmd.push(10);
    proof {
        assert(cmd@ =~= spec_eio_read_cmd());
        assert(address_name@.skip(0) =~= address_name@);
    }
    Ok((cmd, (v - 1) as u8))
}

/// Validates a write of the values in `datas` starting at the named point
/// and returns the command to send. The count, the kind, the address and
/// the value shape (all values equal, each 0 or 1) are rejected before
/// any byte is sent.
pub fn eio_write_request(address_name: &str, data_type: &DataType, datas: &[u16]) -> (r: Result<
    Vec<u8>,
    PlcError,
>)
    ensures
        (datas@.len() == 0 || datas@.len() > 8) ==> r matches Err(PlcError::Param(_)),
        (1 <= datas@.len() <= 8 && *data_type == DataType::Word) ==> r matches Err(
            PlcError::Param(_),
        ),
        (1 <= datas@.len() <= 8 && *data_type == DataType::Bit && !spec_eio_addr_ok(
            address_name@,
            1,
            9,
        )) ==> r matches Err(PlcError::Addr(_)),
        (1 <= datas@.len() <= 8 && *data_type == DataType::Bit && spec_eio_addr_ok(
            address_name@,
            1,
            9,
        ) && (datas@[0] > 1 || exists|j: int| 0 <= j < datas@.len() && #[trigger] datas@[j] != datas@[0]))
            ==> r matches Err(PlcError::Param(_)),
        (1 <= datas@.len() <= 8 && *data_type == DataType::Bit && spec_eio_addr_ok(
            address_name@,
            1,
            9,
        ) && datas@[0] <= 1 && (forall|j: int| 0 <= j < datas@.len() ==> #[trigger] datas@[j] == datas@[0]))
            ==> (r matches Ok(cmd) && cmd@ == spec_eio_write_cmd(
            datas@[0],
            spec_parse_val(address_name@, 10) - 1,
            datas@.len() as int,
        )),
{
    let n = datas.len();
    if n == 0 || n > 8 {
        return Err(PlcError::Param(String::from_str("write length must be 1 to 8")));
    }
    if matches!(data_type, DataType::Word) {
        return Err(PlcError::Param(String::from_str("only the bit kind can be written")));
    }
    proof {
        assert(address_name@.skip(0) =~= address_name@);
    }
    let v = match parse_radix(address_name, 0, 10) {
        Some(v) => v,
        None => {
            return Err(PlcError::Addr(String::from_str("the point must be 1 to 9")));
        },
    };
    if v < 1 || v > 9 {
        return Err(PlcError::Addr(String::from_str("the point must be 1 to 9")));
    }
    let first = datas[0];
    let mut cmd: Vec<u8> = Vec::new();
    if first == 0 {
        cmd.push(67);
        cmd.push(76);
        cmd.push(79);
        cmd.push(83);
        cmd.push(69);
    } else if first == 1 {
        cmd.push(79);
        cmd.push(80);
        cmd.push(69);
        cmd.push(78);
    } else {
        return Err(PlcError::Param(String::from_str("values must all be 0 or all be 1")));
    }
    proof {
        assert(cmd@ =~= spec_eio_verb(first));
    }
    let ghost base = cmd@;
    let start0 = v - 1;
    let mut i: usize = 0;
    while i < n
        invariant
            i <= n == datas@.len(),
            1 <= n <= 8,
            start0 == v - 1,
            1 <= v <= 9,
            *data_type == DataType::Bit,
            spec_eio_addr_ok(address_name@, 1, 9),
            v == spec_parse_val(address_name@, 10),
            first <= 1,
            forall|j: int| 0 <= j < i ==> #[trigger] datas@[j] == datas@[0],
            datas@[0] == first,
            cmd@ == base + spec_eio_points(start0 as int, i as int),
        decreases n - i,
    {
        if datas[i] != first {
            return Err(PlcError::Param(String::from_str("values must all be 0 or all be 1")));
        }
        push_dec(&mut cmd, start0 + (i as u32) + 1);
        cmd.push(44);
        i = i + 1;
        proof {
            assert(cmd@ =~= base + spec_eio_points(start0 as int, i as int));
        }
    }
    cmd.push(13);
    cmd.push(10);
    proof {
        assert(cmd@ =~= spec_eio_write_cmd(first, start0 as int, n as int));
    }
    Ok(cmd)
}

/// Classification of a read reply is monotonic: once terminal, appending
/// more bytes does not change the outcome.
pub proof fn lemma_eio_read_classify_monotonic(b1: Seq<u8>, b2: Seq<u8>)
    requires
        b1.len() <= b2.len(),
        b2.subrange(0, b1.len() as int) == b1,
        !(spec_classify_eio_read(b1) is Incomplete),
    ensures
        spec_classify_eio_read(b2) == spec_classify_eio_read(b1),
{
    let pat = seq![0x0Du8, 0x0Au8];
    assert forall|k: int| 0 <= k < b1.len() implies b2[k] == b1[k] by {
        assert(b2.subrange(0, b1.len() as int)[k] == b2[k]);
    }
    match spec_find(b1, pat, 16) {
        Some(q) => {
            crate::scan::lemma_find_some(b1, pat, 16, q);
            crate::scan::lemma_find_prefix_stable(b1, b2, pat, 16, q);
            assert(b2.subrange(q - 16, q + 2) =~= b1.subrange(q - 16, q + 2));
        },
        None => {},
    }
}

/// Classification of a write reply is monotonic in the same way.
pub proof fn lemma_eio_write_classify_monotonic(b1: Seq<u8>, b2: Seq<u8>)
    requires
        b1.len() <= b2.len(),
        b2.subrange(0, b1.len() as int) == b1,
        !(spec_classify_eio_write(b1) is Incomplete),
    ensures
        spec_classify_eio_write(b2) == spec_classify_eio_write(b1),
{
    let pat = seq![0x4Fu8, 0x4Bu8, 0x0Du8, 0x0Au8];
    assert forall|k: int| 0 <= k < b1.len() implies b2[k] == b1[k] by {
        assert(b2.subrange(0, b1.len() as int)[k] == b2[k]);
    }
    match spec_find(b1, pat, 0) {
        Some(p) => {
            crate::scan::lemma_find_some(b1, pat, 0, p);
            crate::scan::lemma_find_prefix_stable(b1, b2, pat, 0, p);
            assert(b2.subrange(p, p + 4) =~= b1.subrange(p, p + 4));
        },
        None => {},
    }
}

} // verus!
