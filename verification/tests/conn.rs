use plclink::conn::{Network, PlcConnector, SerailPort};

#[test]
fn test_clone() {
    let conn: PlcConnector = Network::default().into();
    let conn_clone = conn.clone();
    assert_eq!(conn.to_string(), conn_clone.to_string())
}

#[test]
fn network_to_string() {
    let conn = PlcConnector::new_network("192.168.1.5", 502);
    assert_eq!(conn.to_string(), "192.168.1.5:502");
}

#[test]
fn network_default_values() {
    let network = Network::default();
    assert_eq!(network.ip_address, "192.168.1.100");
    assert_eq!(network.ip_port, 6000);
}

#[test]
fn serial_to_string() {
    let mut serial = SerailPort::default();
    serial.port_name.push_str("COM3");
    assert_eq!(serial.baud_rate, 9600);
    assert_eq!(serial.data_bits, 8);
    assert_eq!(serial.stop_bits, 1);
    assert_eq!(serial.parity, 1);
    let conn = PlcConnector::new_serial(serial);
    assert_eq!(conn.to_string(), "COM3");
}
