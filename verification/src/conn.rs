//! Connection parameters for a controller: a serial line or a network
//! endpoint. The codec never opens a connection itself; these values are
//! carried for the caller that owns the transport.

use vstd::prelude::*;
use vstd::string::*;

use crate::radix::{append_dec_chars, spec_dec_chars};

verus! {

/// Parameters of a serial-line connection.
#[derive(Debug, Clone)]
pub struct SerailPort {
    pub port_name: String,
    pub baud_rate: u32,
    pub data_bits: u8,
    pub stop_bits: u8,
    pub parity: u8,
}

impl Default for SerailPort {
    /// An unnamed port at 9600 baud, 8 data bits, 1 stop bit, parity 1.
    fn default() -> (r: Self)
        ensures
            r.port_name@ == Seq::<char>::empty(),
            r.baud_rate == 9600,
            r.data_bits == 8,
            r.stop_bits == 1,
            r.parity == 1,
    {
        SerailPort {
            port_name: String::new(),
            baud_rate: 9600,
            data_bits: 8,
            stop_bits: 1,
            parity: 1,
        }
    }
}

/// Parameters of a network connection.
#[derive(Debug, Clone)]
pub struct Network {
    pub ip_address: String,
    pub ip_port: u16,
}

impl Default for Network {
    /// The address 192.168.1.100 on port 6000.
    fn default() -> (r: Self)
        ensures
            r.ip_address@ == "192.168.1.100"@,
            r.ip_port == 6000,
    {
        Network { ip_address: String::from_str("192.168.1.100"), ip_port: 6000 }
    }
}

impl Network {
    /// A network endpoint from an address and a port.
    pub fn new(ip: &str, port: u16) -> (r: Self)
        ensures
            r.ip_address@ == ip@,
            r.ip_port == port,
    {
        Network { ip_address: String::from_str(ip), ip_port: port }
    }
}

/// How to reach a controller: over a serial line or over the network.
#[derive(Debug, Clone)]
pub enum PlcConnector {
    SerialPort(SerailPort),
    Network(Network),
}

impl PlcConnector {
    /// Wraps serial-line parameters.
    pub fn new_serial(serial: SerailPort) -> (r: Self)
        ensures
            r == PlcConnector::SerialPort(serial),
    {
        PlcConnector::SerialPort(serial)
    }

    /// Wraps a network endpoint built from an address and a port.
    pub fn new_network(ip: &str, port: u16) -> (r: Self)
        ensures
            r matches PlcConnector::Network(n) && n.ip_address@ == ip@ && n.ip_port == port,
    {
        PlcConnector::Network(Network::new(ip, port))
    }

    /// A short display form: the port name, or `address:port`.
    pub fn to_string(&self) -> (r: String)
        ensures
            match self {
                PlcConnector::SerialPort(s) => r@ == s.port_name@,
                PlcConnector::Network(n) => r@ == n.ip_address@ + seq![':']
                    + spec_dec_chars(n.ip_port as int),
            },
    {
        match self {
            PlcConnector::SerialPort(serial) => serial.port_name.clone(),
            PlcConnector::Network(network) => {
                let mut out = network.ip_address.clone();
                proof {
                    reveal_strlit(":");
                    assert(":"@ =~= seq![':']);
                }
                out.append(":");
                append_dec_chars(&mut out, network.ip_port as u32);
                out
            },
        }
    }
}

impl From<Network> for PlcConnector {
    fn from(value: Network) -> (r: Self) {
        PlcConnector::Network(value)
    }
}

impl vstd::std_specs::convert::FromSpecImpl<Network> for PlcConnector {
    open spec fn obeys_from_spec() -> bool {
        true
    }

    open spec fn from_spec(v: Network) -> Self {
        PlcConnector::Network(v)
    }
}

impl From<SerailPort> for PlcConnector {
    fn from(value: SerailPort) -> (r: Self) {
        PlcConnector::SerialPort(value)
    }
}

impl vstd::std_specs::convert::FromSpecImpl<SerailPort> for PlcConnector {
    open spec fn obeys_from_spec() -> bool {
        true
    }

    open spec fn from_spec(v: SerailPort) -> Self {
        PlcConnector::SerialPort(v)
    }
}

} // verus!
