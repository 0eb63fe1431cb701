//! The rows of the two tables of the relational store.

use crate::errors::ErrorKind;
use crate::types::{Port, Protocol};
use vstd::prelude::*;
use vstd::string::*;

verus! {

/// A row of the table of devices.
#[derive(Clone, Debug)]
pub struct MacAddresses {
    pub address_mac: String,
    pub ssh_key: String,
}

/// A row of the table of port assignments.
#[derive(Clone, Debug)]
pub struct Ports {
    /// The row of the device that owns the port.
    pub mac_id: i32,
    pub port: i32,
    /// The name of the protocol.
    pub protocol: String,
    /// Whether the port has been provisioned; nothing reads it yet.
    pub created: bool,
}

/// A row of the table of devices as a mathematical value.
pub ghost struct MacAddressesView {
    pub address_mac: Seq<char>,
    pub ssh_key: Seq<char>,
}

/// A row of the table of port assignments as a mathematical value.
pub ghost struct PortsView {
    pub mac_id: int,
    pub port: int,
    pub protocol: Seq<char>,
    pub created: bool,
}

impl View for MacAddresses {
    type V = MacAddressesView;

    open spec fn view(&self) -> MacAddressesView {
        MacAddressesView { address_mac: self.address_mac@, ssh_key: self.ssh_key@ }
    }
}

impl View for Ports {
    type V = PortsView;

    open spec fn view(&self) -> PortsView {
        PortsView {
            mac_id: self.mac_id as int,
            port: self.port as int,
            protocol: self.protocol@,
            created: self.created,
        }
    }
}

/// The number that a column of 32-bit signed integers holds for the port
/// `port`: the port itself where it fits, else the number that has the same
/// 32 bits.
pub open spec fn column_of_port(port: u32) -> int {
    if port <= i32::MAX {
        port as int
    } else {
        port - 0x1_0000_0000
    }
}

/// The port that the number `column` of a column of 32-bit signed integers
/// stands for: the inverse of `column_of_port`.
pub open spec fn port_of_column(column: i32) -> int {
    if column >= 0 {
        column as int
    } else {
        column + 0x1_0000_0000
    }
}

/// The number under which a port is stored.
pub fn port_to_column(port: u32) -> (column: i32)
    ensures
        column == column_of_port(port),
        port_of_column(column) == port,
{
    if port <= 0x7fff_ffff {
        port as i32
    } else {
        let low: u32 = port - 0x8000_0000;
        let shifted: i64 = low as i64 - 0x8000_0000;
        shifted as i32
    }
}

/// The port that a stored number stands for.
pub fn port_from_column(column: i32) -> (port: u32)
    ensures
        port == port_of_column(column),
        column_of_port(port) == column,
{
    if column >= 0 {
        column as u32
    } else {
        let lifted: i64 = column as i64 + 0x1_0000_0000;
        lifted as u32
    }
}

/// The ports that a column of stored numbers stands for, row by row.
pub fn ports_from_columns(columns: &Vec<i32>) -> (ports: Vec<u32>)
    ensures
        ports@.len() == columns@.len(),
        forall|i: int| 0 <= i < columns@.len() ==> #[trigger] ports@[i] == port_of_column(columns@[i]),
{
    let mut ports: Vec<u32> = Vec::new();
    let mut i: usize = 0;
    while i < columns.len()
        invariant
            i <= columns.len(),
            ports@.len() == i,
            forall|j: int| 0 <= j < i ==> #[trigger] ports@[j] == port_of_column(columns@[j]),
        decreases columns.len() - i,
    {
        ports.push(port_from_column(columns[i]));
        i = i + 1;
    }
    ports
}

/// The port that a stored number and the name of a protocol stand for, where
/// the protocol is known.
pub open spec fn read_port(row: (i32, Seq<char>)) -> Port {
    Port { port: port_of_column(row.0) as u32, protocol: Protocol::named(row.1)->Some_0 }
}

/// The ports that rows of stored number and protocol name stand for, row by
/// row.
///
/// The rows are refused, with `ErrorKind::NotFound`, if and only if one of
/// them names a protocol that is not known.
pub fn ports_from_rows(rows: &Vec<(i32, String)>) -> (res: Result<Vec<Port>, ErrorKind>)
    ensures
        res is Ok <==> forall|i: int|
            0 <= i < rows@.len() ==> Protocol::named((#[trigger] rows@[i]).1@) is Some,
        res matches Ok(ports) ==> ports@.len() == rows@.len() && forall|i: int|
            0 <= i < rows@.len() ==> #[trigger] ports@[i] == read_port((rows@[i].0, rows@[i].1@)),
        res matches Err(kind) ==> kind == ErrorKind::NotFound,
{
    let mut ports: Vec<Port> = Vec::new();
    let mut i: usize = 0;
    while i < rows.len()
        invariant
            i <= rows.len(),
            ports@.len() == i,
            forall|j: int| 0 <= j < i ==> Protocol::named((#[trigger] rows@[j]).1@) is Some,
            forall|j: int|
                0 <= j < i ==> #[trigger] ports@[j] == read_port((rows@[j].0, rows@[j].1@)),
        decreases rows.len() - i,
    {
        match Protocol::from_str(rows[i].1.as_str()) {
            Ok(protocol) => {
                ports.push(Port { port: port_from_column(rows[i].0), protocol });
            },
            Err(_) => {
                proof {
                    assert(Protocol::named(rows@[i as int].1@) is None);
                }
                return Err(ErrorKind::NotFound);
            },
        }
        i = i + 1;
    }
    Ok(ports)
}

impl MacAddresses {
    /// The row of a device.
    pub fn new(address_mac: String, ssh_key: String) -> (row: MacAddresses)
        ensures
            row@.address_mac == address_mac@,
            row@.ssh_key == ssh_key@,
    {
        MacAddresses { address_mac, ssh_key }
    }
}

impl Ports {
    /// The row that assigns `port` to the device of row `mac_id`. A new
    /// assignment is not provisioned.
    pub fn new(mac_id: i32, port: &Port) -> (row: Ports)
        ensures
            row@.mac_id == mac_id,
            row@.port == column_of_port(port.port),
            row@.protocol == port.protocol.name(),
            !row@.created,
    {
        Ports {
            mac_id,
            port: port_to_column(port.port),
            protocol: port.protocol.to_string(),
            created: false,
        }
    }
}

/// The row that assigns `port` to the device of row `mac_id`.
pub open spec fn port_row(mac_id: i32, port: Port) -> PortsView {
    PortsView {
        mac_id: mac_id as int,
        port: column_of_port(port.port),
        protocol: port.protocol.name(),
        created: false,
    }
}

/// The rows that assign `ports` to the device of row `mac_id`, in the order
/// of the ports.
pub fn port_rows(mac_id: i32, ports: &Vec<Port>) -> (rows: Vec<Ports>)
    ensures
        rows@.len() == ports@.len(),
        forall|i: int| 0 <= i < ports@.len() ==> (#[trigger] rows@[i])@ == port_row(mac_id, ports@[i]),
{
    let mut rows: Vec<Ports> = Vec::new();
    let mut i: usize = 0;
    while i < ports.len()
        invariant
            i <= ports.len(),
            rows@.len() == i,
            forall|j: int| 0 <= j < i ==> (#[trigger] rows@[j])@ == port_row(mac_id, ports@[j]),
        decreases ports.len() - i,
    {
        rows.push(Ports::new(mac_id, &ports[i]));
        i = i + 1;
    }
    rows
}

/// The rows that assign `ports` to a device, given the row of the device as
/// far as the store holds one. Ports cannot be assigned to a device that the
/// store does not hold: that fails with `ErrorKind::NotFound`.
pub fn port_rows_for(mac_id: Option<i32>, ports: &Vec<Port>) -> (res: Result<Vec<Ports>, ErrorKind>)
    ensures
        match mac_id {
            Some(id) => res matches Ok(rows) && rows@.len() == ports@.len() && forall|i: int|
                0 <= i < ports@.len() ==> (#[trigger] rows@[i])@ == port_row(id, ports@[i]),
            None => res matches Err(kind) && kind == ErrorKind::NotFound,
        },
{
    match mac_id {
        Some(id) => Ok(port_rows(id, ports)),
        None => Err(ErrorKind::NotFound),
    }
}

} // verus!
