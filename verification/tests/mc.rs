use plclink::DataType;
use plclink::error::PlcError;
use plclink::mc::McAddress;
use plclink::mc_3e_binary::{
    check_mc_3e_binary, create_read_buf, create_write_buf, mc_error_message, mc_read_request,
    mc_write_request, parse_mc_3e_binary,
};
use plclink::outcome::ProtocolOutcome;

#[test]
fn mc_3e_binary_tcp_test_create_read_buf() {
    let address = McAddress::new("D10", DataType::Word).unwrap();
    let buf = create_read_buf(&address, 10).unwrap();
    assert_eq!(
        buf,
        [80, 0, 0, 255, 255, 3, 0, 12, 0, 10, 0, 1, 4, 0, 0, 10, 0, 0, 168, 10, 0]
    );
}

#[test]
fn move_bit() {
    let value: u32 = 0x102030;
    let v1 = (value >> 16) as u8;
    assert_eq!(v1, 0x10);
    let v2 = (value >> 8) as u8;
    assert_eq!(v2, 0x20);
    let v3 = value as u8;
    assert_eq!(v3, 0x30);
}

#[test]
fn resolve_radix_per_category() {
    // X addresses parse in octal, W in hexadecimal, D in decimal.
    let x = McAddress::new("X17", DataType::Bit).unwrap();
    assert_eq!(x.inner_address, 0o17);
    assert_eq!(x.component_code, 0x9C);
    let w = McAddress::new("W1F", DataType::Word).unwrap();
    assert_eq!(w.inner_address, 0x1F);
    assert_eq!(w.component_code, 0xB4);
    let zr = McAddress::new("ZR10", DataType::Word).unwrap();
    assert_eq!(zr.inner_address, 0x10);
    assert_eq!(zr.component_code, 0xB0);
}

#[test]
fn resolve_rejects_bad_names() {
    assert!(matches!(
        McAddress::new("D", DataType::Word),
        Err(PlcError::Addr(_))
    ));
    assert!(matches!(
        McAddress::new("Q10", DataType::Word),
        Err(PlcError::Addr(_))
    ));
    assert!(matches!(
        McAddress::new("X9", DataType::Bit),
        Err(PlcError::Addr(_))
    ));
    assert!(matches!(
        McAddress::new("SM", DataType::Bit),
        Err(PlcError::Addr(_))
    ));
}

#[test]
fn mc_read_request_boundaries() {
    assert!(matches!(
        mc_read_request("D10", DataType::Word, 0),
        Err(PlcError::Param(_))
    ));
    assert!(matches!(
        mc_read_request("D10", DataType::Word, 961),
        Err(PlcError::Param(_))
    ));
    assert!(mc_read_request("D10", DataType::Word, 960).is_ok());
    let direct = create_read_buf(&McAddress::new("D10", DataType::Word).unwrap(), 10).unwrap();
    let through = mc_read_request("D10", DataType::Word, 10).unwrap();
    assert_eq!(direct, through);
}

#[test]
fn mc_write_request_boundaries() {
    let vals = [1u16; 721];
    assert!(matches!(
        mc_write_request("D0", DataType::Word, &vals),
        Err(PlcError::Param(_))
    ));
    assert!(matches!(
        mc_write_request("D0", DataType::Word, &[]),
        Err(PlcError::Param(_))
    ));
    assert!(mc_write_request("D0", DataType::Word, &vals[..720]).is_ok());
}

#[test]
fn write_buf_word_layout() {
    let address = McAddress::new("D0", DataType::Word).unwrap();
    let buf = create_write_buf(&address, &[0x1234, 0xABCD]).unwrap();
    // body length = 12 + 4 data bytes
    assert_eq!(
        buf,
        [
            80, 0, 0, 255, 255, 3, 0, 16, 0, 10, 0, 1, 20, 0, 0, 0, 0, 0, 168, 2, 0, 0x34, 0x12,
            0xCD, 0xAB
        ]
    );
}

#[test]
fn write_buf_bit_packing() {
    let address = McAddress::new("M0", DataType::Bit).unwrap();
    let buf = create_write_buf(&address, &[1, 0, 1]).unwrap();
    // three bits pack into two bytes, odd value padded with a zero nibble
    assert_eq!(buf[buf.len() - 2..], [0x10, 0x10]);
    // body length = 12 + 2 payload bytes
    assert_eq!(buf[7], 14);
}

#[test]
fn mc_classify_accepts_clean_reply() {
    let reply = [
        0xD0u8, 0, 0, 0xFF, 0xFF, 3, 0, 6, 0, 0, 0, 0x34, 0x12, 0xCD, 0xAB,
    ];
    match check_mc_3e_binary(&reply) {
        ProtocolOutcome::Valid(frame) => {
            assert_eq!(frame, reply);
            let vals = parse_mc_3e_binary(&frame, &DataType::Word, 2).unwrap();
            assert_eq!(vals, [0x1234, 0xABCD]);
        }
        other => panic!("expected a valid frame, got {:?}", other),
    }
}

#[test]
fn mc_classify_is_monotonic_over_splits() {
    let reply = [
        0xD0u8, 0, 0, 0xFF, 0xFF, 3, 0, 6, 0, 0, 0, 0x34, 0x12, 0xCD, 0xAB,
    ];
    for k in 0..reply.len() {
        assert_eq!(check_mc_3e_binary(&reply[..k]), ProtocolOutcome::Incomplete);
    }
    assert!(matches!(
        check_mc_3e_binary(&reply),
        ProtocolOutcome::Valid(_)
    ));
}

#[test]
fn mc_classify_reports_device_error() {
    let reply = [0xD0u8, 0, 0, 0xFF, 0xFF, 3, 0, 2, 0, 0x59, 0xC0];
    assert_eq!(
        check_mc_3e_binary(&reply),
        ProtocolOutcome::DeviceError(0xC059)
    );
    assert_eq!(mc_error_message(0xC059), "unsupported command or subcommand");
    assert_eq!(mc_error_message(0x1234), "unknown device error");
}

#[test]
fn mc_word_round_trip_through_reply() {
    // encode a write, let the reply echo the data section, decode it back
    let address = McAddress::new("D0", DataType::Word).unwrap();
    let vals: Vec<u16> = vec![0, 1, 0x7FFF, 0x8000, 0xFFFF];
    let request = create_write_buf(&address, &vals).unwrap();
    let data = &request[21..];
    let mut reply: Vec<u8> = vec![0xD0, 0, 0, 0xFF, 0xFF, 3, 0];
    let l = (2 + data.len()) as u16;
    reply.push((l % 256) as u8);
    reply.push((l / 256) as u8);
    reply.push(0);
    reply.push(0);
    reply.extend_from_slice(data);
    match check_mc_3e_binary(&reply) {
        ProtocolOutcome::Valid(frame) => {
            let decoded = parse_mc_3e_binary(&frame, &DataType::Word, vals.len() as u16).unwrap();
            assert_eq!(decoded, vals);
        }
        other => panic!("expected a valid frame, got {:?}", other),
    }
}

#[test]
fn bit_round_trip_through_reply() {
    let address = McAddress::new("M0", DataType::Bit).unwrap();
    let vals: Vec<u16> = vec![1, 0, 0, 1, 1];
    let request = create_write_buf(&address, &vals).unwrap();
    let data = &request[21..];
    let mut reply: Vec<u8> = vec![0xD0, 0, 0, 0xFF, 0xFF, 3, 0];
    let l = (2 + data.len()) as u16;
    reply.push((l % 256) as u8);
    reply.push((l / 256) as u8);
    reply.push(0);
    reply.push(0);
    reply.extend_from_slice(data);
    match check_mc_3e_binary(&reply) {
        ProtocolOutcome::Valid(frame) => {
            let decoded = parse_mc_3e_binary(&frame, &DataType::Bit, vals.len() as u16).unwrap();
            assert_eq!(decoded, vals);
        }
        other => panic!("expected a valid frame, got {:?}", other),
    }
}

#[test]
fn mc_encoding_is_deterministic() {
    let a = mc_read_request("D10", DataType::Word, 10).unwrap();
    let b = mc_read_request("D10", DataType::Word, 10).unwrap();
    assert_eq!(a, b);
    let w1 = mc_write_request("M0", DataType::Bit, &[1, 0, 1]).unwrap();
    let w2 = mc_write_request("M0", DataType::Bit, &[1, 0, 1]).unwrap();
    assert_eq!(w1, w2);
}
