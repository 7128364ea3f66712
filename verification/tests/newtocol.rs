use plclink::DataType;
use plclink::error::PlcError;
use plclink::newtocol::{Cmd, NewtocolAddress};
use plclink::newtocol_codec::{
    bcc, classify, create_read_buf, create_write_buf, find_cmd_indexs, newtocol_error_message,
    newtocol_read_request, newtocol_write_request, parse_reply_data, quick_check, slow_check,
    to_dcba,
};
use plclink::outcome::ProtocolOutcome;

#[test]
fn newtocol_tcp_test_create_read_buf() {
    let address = NewtocolAddress::new("D0", DataType::Word).unwrap();
    let buf = create_read_buf(&address, 10, 1).unwrap();
    assert_eq!(
        buf,
        [37, 48, 49, 35, 82, 68, 68, 48, 48, 48, 48, 48, 48, 48, 48, 49, 48, 53, 52, 13]
    );
}

#[test]
fn test_create_write_buf() {
    let address = NewtocolAddress::new("D0", DataType::Word).unwrap();
    let buf = create_write_buf(&address, &[0x01u16, 0x02u16, 0x03u16], 1).unwrap();
    assert_eq!(
        buf,
        [
            37, 48, 49, 35, 87, 68, 68, 48, 48, 48, 48, 48, 48, 48, 48, 48, 50, 48, 49, 48, 48,
            48, 50, 48, 48, 48, 51, 48, 48, 53, 50, 13
        ]
    );
}

#[test]
fn test_to_dcba() {
    let value = 0x1234u16;
    let dcba = to_dcba(&value);
    assert_eq!(dcba, 0x3412u16);

    let dcba = value.rotate_left(8);
    assert_eq!(dcba, 0x3412u16);
}

#[test]
fn cmd_tokens() {
    assert_eq!(Cmd::RCS.to_str(), "RCS");
    assert_eq!(Cmd::WCC.to_str(), "WCC");
    assert_eq!(Cmd::RD.to_str(), "RD");
    assert_eq!(Cmd::WD.to_str(), "WD");
}

#[test]
fn bcc_renders_two_hex_digits() {
    // XOR of "%01#RDD0000000010" is 0x54
    let body = b"%01#RDD0000000010";
    assert_eq!(bcc(body), "54");
    assert_eq!(bcc(&[]), "00");
}

#[test]
fn resolve_coil_and_alignment() {
    let coil = NewtocolAddress::new("R001F", DataType::Bit).unwrap();
    assert!(coil.is_coil());
    assert_eq!(coil.inner_address, 0x1F);
    // word access to a coil must start on a 16-bit boundary
    assert!(matches!(
        NewtocolAddress::new("R001F", DataType::Word),
        Err(PlcError::Addr(_))
    ));
    assert!(NewtocolAddress::new("R0020", DataType::Word).is_ok());
    // L is consulted as a word category first
    let l = NewtocolAddress::new("L15", DataType::Word).unwrap();
    assert!(!l.is_coil());
    assert_eq!(l.inner_address, 15);
}

#[test]
fn nt_read_request_boundaries() {
    assert!(matches!(
        newtocol_read_request("D0", DataType::Word, 0, 1),
        Err(PlcError::Param(_))
    ));
    assert!(matches!(
        newtocol_read_request("D0", DataType::Word, 961, 1),
        Err(PlcError::Param(_))
    ));
    assert!(matches!(
        newtocol_read_request("QQ", DataType::Word, 1, 1),
        Err(PlcError::Addr(_))
    ));
    let direct = create_read_buf(
        &NewtocolAddress::new("D0", DataType::Word).unwrap(),
        10,
        1,
    )
    .unwrap();
    let through = newtocol_read_request("D0", DataType::Word, 10, 1).unwrap();
    assert_eq!(direct, through);
}

#[test]
fn nt_write_request_boundaries() {
    assert!(matches!(
        newtocol_write_request("D0", DataType::Word, &[], 1),
        Err(PlcError::Param(_))
    ));
    // a bit write of more than eight points cannot be enumerated
    assert!(matches!(
        newtocol_write_request("R0000", DataType::Bit, &[1u16; 9], 1),
        Err(PlcError::Param(_))
    ));
    assert!(newtocol_write_request("R0000", DataType::Bit, &[1u16; 8], 1).is_ok());
}

#[test]
fn marker_indexes() {
    let buf = b"xx%01$RC1..\r";
    let (s, e, ok, er) = find_cmd_indexs(buf);
    assert_eq!(s, 2);
    assert_eq!(e, 11);
    assert_eq!(ok, 5);
    assert_eq!(er, usize::MAX);
    let empty = find_cmd_indexs(b"");
    assert_eq!(empty, (usize::MAX, usize::MAX, usize::MAX, usize::MAX));
}

/// A success reply carrying the given body bytes after `%01$`, closed
/// with its checksum and terminator.
fn ok_reply(payload: &[u8]) -> Vec<u8> {
    let mut frame: Vec<u8> = b"%01$".to_vec();
    frame.extend_from_slice(payload);
    let digits = bcc(&frame);
    frame.extend_from_slice(digits.as_bytes());
    frame.push(0x0D);
    frame
}

#[test]
fn nt_classify_accepts_clean_reply() {
    let frame = ok_reply(b"RD3412");
    match classify(&frame) {
        ProtocolOutcome::Valid(inner) => {
            // the frame handed on stops before the terminator
            assert_eq!(&inner[..], &frame[..frame.len() - 1]);
        }
        other => panic!("expected a valid frame, got {:?}", other),
    }
}

#[test]
fn nt_classify_is_monotonic_over_splits() {
    let frame = ok_reply(b"RD3412");
    for k in 0..frame.len() {
        assert_eq!(classify(&frame[..k]), ProtocolOutcome::Incomplete);
    }
    assert!(matches!(classify(&frame), ProtocolOutcome::Valid(_)));
}

#[test]
fn corruption_never_validates() {
    let frame = ok_reply(b"RD3412");
    // flip each bit of each body byte (outside the checksum field): the
    // slow check must never validate the corrupted frame
    for i in 0..frame.len() - 3 {
        for k in 0..8 {
            let mut bad = frame.clone();
            bad[i] ^= 1u8 << k;
            assert!(!matches!(classify(&bad), ProtocolOutcome::Valid(_)));
        }
    }
}

#[test]
fn nt_classify_reports_device_error() {
    let frame = b"%01!42xx\r";
    assert_eq!(classify(frame), ProtocolOutcome::DeviceError(42));
    assert_eq!(newtocol_error_message(42), "invalid command");
    assert_eq!(newtocol_error_message(99), "unknown device error");
}

#[test]
fn quick_then_slow_checksum_mismatch_stays_incomplete() {
    let mut frame = ok_reply(b"RD3412");
    let n = frame.len();
    frame[n - 2] ^= 0x01; // corrupt one checksum digit
    match quick_check(&frame) {
        ProtocolOutcome::Valid(candidate) => {
            assert_eq!(slow_check(&candidate), ProtocolOutcome::Incomplete);
        }
        other => panic!("expected a candidate frame, got {:?}", other),
    }
}

#[test]
fn nt_word_round_trip_through_reply() {
    // the reply to a word read carries the same byte-swapped hex data the
    // encoder writes
    let vals: Vec<u16> = vec![0, 1, 0x1234, 0x7FFF, 0x8000, 0xFFFF];
    let mut payload: Vec<u8> = b"RD".to_vec();
    for v in &vals {
        payload.extend_from_slice(format!("{:04X}", to_dcba(v)).as_bytes());
    }
    let frame = ok_reply(&payload);
    let address = NewtocolAddress::new("D0", DataType::Word).unwrap();
    match classify(&frame) {
        ProtocolOutcome::Valid(inner) => {
            let decoded = parse_reply_data(&inner, vals.len() as u16, &address).unwrap();
            assert_eq!(decoded, vals);
        }
        other => panic!("expected a valid frame, got {:?}", other),
    }
}

#[test]
fn nt_encoding_is_deterministic() {
    let a = newtocol_read_request("D0", DataType::Word, 10, 1).unwrap();
    let b = newtocol_read_request("D0", DataType::Word, 10, 1).unwrap();
    assert_eq!(a, b);
    let w1 = newtocol_write_request("D0", DataType::Word, &[1, 2, 3], 1).unwrap();
    let w2 = newtocol_write_request("D0", DataType::Word, &[1, 2, 3], 1).unwrap();
    assert_eq!(w1, w2);
}

#[test]
fn bit_read_single_and_multi_point() {
    // one point: the single-contact command with a hex coil field
    let buf = newtocol_read_request("R0001", DataType::Bit, 1, 1).unwrap();
    let body = b"%01#RCSR0001";
    assert_eq!(&buf[..body.len()], body);
    assert_eq!(&buf[body.len()..body.len() + 2], bcc(body).as_bytes());
    assert_eq!(buf[buf.len() - 1], 0x0D);
    // three points: the enumerating command lists each address
    let buf = newtocol_read_request("R0001", DataType::Bit, 3, 1).unwrap();
    let body = b"%01#RCP3R0001R0002R0003";
    assert_eq!(&buf[..body.len()], body);
    // a word-category register read as bits uses a decimal field
    let buf = newtocol_read_request("D2", DataType::Bit, 1, 1).unwrap();
    let body = b"%01#RCSD0002";
    assert_eq!(&buf[..body.len()], body);
}

#[test]
fn bit_read_past_word_boundary_has_no_command() {
    // offset plus count over eight would need the word-range fallback,
    // which is not supported: the body stays empty after the prefix
    let buf = newtocol_read_request("R000F", DataType::Bit, 8, 1).unwrap();
    let body = b"%01#";
    assert_eq!(&buf[..body.len()], body);
    assert_eq!(buf.len(), body.len() + 3);
}

#[test]
fn bit_write_single_and_multi_point() {
    let buf = newtocol_write_request("R0000", DataType::Bit, &[1], 1).unwrap();
    let body = b"%01#WCSR0000";
    assert_eq!(&buf[..body.len()], body);
    // each enumerated point carries its value digit
    let buf = newtocol_write_request("R0000", DataType::Bit, &[1, 0], 1).unwrap();
    let body = b"%01#WCP2R00001R00010";
    assert_eq!(&buf[..body.len()], body);
}

#[test]
fn word_write_to_coil_uses_word_aligned_range() {
    // the coil offset is shifted to a word index, values byte-swapped
    let buf = newtocol_write_request("R0020", DataType::Word, &[0x1234], 1).unwrap();
    let body = b"%01#WCCR000200023412";
    assert_eq!(&buf[..body.len()], body);
}
