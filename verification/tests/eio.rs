use plclink::DataType;
use plclink::eio::{
    check_eio_read, check_eio_write, eio_read_request, eio_write_request, parse_eio_read,
};
use plclink::error::PlcError;
use plclink::outcome::ProtocolOutcome;

#[test]
fn read_request_command_and_offset() {
    let (cmd, start) = eio_read_request("1", &DataType::Bit, 16).unwrap();
    assert_eq!(cmd, b"IOGETALL\r\n");
    assert_eq!(start, 0);
    let (_, start) = eio_read_request("16", &DataType::Bit, 1).unwrap();
    assert_eq!(start, 15);
}

#[test]
fn read_request_boundaries() {
    assert!(matches!(
        eio_read_request("1", &DataType::Bit, 0),
        Err(PlcError::Param(_))
    ));
    assert!(matches!(
        eio_read_request("1", &DataType::Bit, 17),
        Err(PlcError::Param(_))
    ));
    assert!(matches!(
        eio_read_request("1", &DataType::Word, 8),
        Err(PlcError::Param(_))
    ));
    assert!(matches!(
        eio_read_request("17", &DataType::Bit, 1),
        Err(PlcError::Addr(_))
    ));
    assert!(matches!(
        eio_read_request("zero", &DataType::Bit, 1),
        Err(PlcError::Addr(_))
    ));
}

#[test]
fn write_request_command() {
    let cmd = eio_write_request("1", &DataType::Bit, &[1u16; 8]).unwrap();
    assert_eq!(cmd, b"OPEN1,2,3,4,5,6,7,8,\r\n");
    let cmd = eio_write_request("3", &DataType::Bit, &[0u16; 2]).unwrap();
    assert_eq!(cmd, b"CLOSE3,4,\r\n");
}

#[test]
fn write_request_boundaries() {
    assert!(matches!(
        eio_write_request("1", &DataType::Bit, &[]),
        Err(PlcError::Param(_))
    ));
    assert!(matches!(
        eio_write_request("1", &DataType::Bit, &[1u16; 9]),
        Err(PlcError::Param(_))
    ));
    assert!(matches!(
        eio_write_request("1", &DataType::Word, &[1]),
        Err(PlcError::Param(_))
    ));
    assert!(matches!(
        eio_write_request("10", &DataType::Bit, &[1]),
        Err(PlcError::Addr(_))
    ));
    // the value vector must be uniform, all 0 or all 1
    assert!(matches!(
        eio_write_request("1", &DataType::Bit, &[1, 0]),
        Err(PlcError::Param(_))
    ));
    assert!(matches!(
        eio_write_request("1", &DataType::Bit, &[2]),
        Err(PlcError::Param(_))
    ));
}

#[test]
fn write_then_read_round_trip() {
    // writing eight 1s to points 1 through 8, the device acknowledges and
    // a later read of all 16 points reports the first 8 on, the rest
    // untouched
    let cmd = eio_write_request("1", &DataType::Bit, &[1u16; 8]).unwrap();
    assert_eq!(cmd, b"OPEN1,2,3,4,5,6,7,8,\r\n");
    assert_eq!(
        check_eio_write(b"OK\r\n"),
        ProtocolOutcome::Valid(b"OK\r\n".to_vec())
    );
    // the device reports an active point as digit 0, an inactive one as 1
    let status = b"0000000011111111\r\n";
    let (_, start) = eio_read_request("1", &DataType::Bit, 16).unwrap();
    match check_eio_read(status) {
        ProtocolOutcome::Valid(frame) => {
            let vals = parse_eio_read(&frame[start as usize..16], &DataType::Bit, 16).unwrap();
            assert_eq!(vals[..8], [1u16; 8]);
            assert_eq!(vals[8..], [0u16; 8]);
        }
        other => panic!("expected a valid frame, got {:?}", other),
    }
}

#[test]
fn classify_read_waits_for_terminator() {
    let status = b"0000000011111111\r\n";
    for k in 0..status.len() {
        assert_eq!(check_eio_read(&status[..k]), ProtocolOutcome::Incomplete);
    }
    assert!(matches!(
        check_eio_read(status),
        ProtocolOutcome::Valid(_)
    ));
}

#[test]
fn classify_write_waits_for_acknowledgement() {
    let reply = b"OK\r\n";
    for k in 0..reply.len() {
        assert_eq!(check_eio_write(&reply[..k]), ProtocolOutcome::Incomplete);
    }
    assert_eq!(
        check_eio_write(b"xxOK\r\nyy"),
        ProtocolOutcome::Valid(b"OK\r\n".to_vec())
    );
}

#[test]
fn parse_rejects_bad_digits() {
    assert!(matches!(
        parse_eio_read(b"0a01", &DataType::Bit, 4),
        Err(PlcError::Comm(_))
    ));
    assert!(matches!(
        parse_eio_read(b"00", &DataType::Bit, 4),
        Err(PlcError::Comm(_))
    ));
    assert!(matches!(
        parse_eio_read(b"0000", &DataType::Word, 4),
        Err(PlcError::Param(_))
    ));
}
