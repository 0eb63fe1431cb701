//! The values that a registration and a routing snapshot are made of.

use crate::allocation::{first_fit, first_fit_picks, free_ports, is_first_fit, START_PORT};
use crate::errors::ErrorKind;
use crate::text::same_text;
use vstd::prelude::*;
use vstd::string::*;

verus! {

/// The protocol that a port is routed by.
#[derive(Clone, Copy, Debug, PartialEq, Eq, Structural)]
pub enum Protocol {
    Tcp,
    Udp,
    Http,
    Https,
}

/// A port together with its protocol.
#[derive(Clone, Copy, Debug, PartialEq, Eq, Structural)]
pub struct Port {
    pub port: u32,
    pub protocol: Protocol,
}

/// The ports of one registration, in the order in which they were requested.
#[derive(Clone, Debug)]
pub struct Ports(pub Vec<Port>);

/// A request to register a device.
#[derive(Clone, Debug)]
pub struct Register {
    pub address_mac: String,
    pub ports: Ports,
    pub ssh_key: String,
}

/// What the key service is sent when a device registers for the first time.
#[derive(Clone, Debug)]
pub struct RegisterAuthorizeKey {
    pub ssh_key: String,
}

/// A port of a device in a routing snapshot.
#[derive(Clone, Copy, Debug, PartialEq, Eq, Structural)]
pub struct NetworkPortConfig {
    pub port: u32,
    pub protocol: Protocol,
}

/// A device in a routing snapshot: its hardware address and its ports.
#[derive(Clone, Debug)]
pub struct DeviceConfig {
    pub mac_address: String,
    pub network_ports: Vec<NetworkPortConfig>,
}

/// A routing snapshot: the devices and the ports that each of them holds.
#[derive(Clone, Debug)]
pub struct TraefikDynamicConfig {
    pub devices: Vec<DeviceConfig>,
}

/// A device of a routing snapshot as a mathematical value.
pub ghost struct DeviceView {
    pub mac_address: Seq<char>,
    pub network_ports: Seq<NetworkPortConfig>,
}

/// A registration as a mathematical value.
pub ghost struct RegisterView {
    pub address_mac: Seq<char>,
    pub ports: Seq<Port>,
    pub ssh_key: Seq<char>,
}

/// The port numbers of `ports`, in the same order.
pub open spec fn port_numbers(ports: Seq<Port>) -> Seq<u32> {
    ports.map_values(|p: Port| p.port)
}

/// The protocols of `ports`, in the same order.
pub open spec fn protocols(ports: Seq<Port>) -> Seq<Protocol> {
    ports.map_values(|p: Port| p.protocol)
}

/// The ports `ports` with the numbers `numbers` in place of their own.
pub open spec fn with_numbers(ports: Seq<Port>, numbers: Seq<u32>) -> Seq<Port> {
    Seq::new(ports.len(), |i: int| Port { port: numbers[i], protocol: ports[i].protocol })
}

impl View for Ports {
    type V = Seq<Port>;

    open spec fn view(&self) -> Seq<Port> {
        self.0@
    }
}

impl View for Register {
    type V = RegisterView;

    open spec fn view(&self) -> RegisterView {
        RegisterView {
            address_mac: self.address_mac@,
            ports: self.ports@,
            ssh_key: self.ssh_key@,
        }
    }
}

impl View for DeviceConfig {
    type V = DeviceView;

    open spec fn view(&self) -> DeviceView {
        DeviceView { mac_address: self.mac_address@, network_ports: self.network_ports@ }
    }
}

/// The devices as mathematical values.
pub open spec fn device_views(devices: Seq<DeviceConfig>) -> Seq<DeviceView> {
    devices.map_values(|d: DeviceConfig| d@)
}

impl View for TraefikDynamicConfig {
    type V = Seq<DeviceView>;

    open spec fn view(&self) -> Seq<DeviceView> {
        device_views(self.devices@)
    }
}

impl Protocol {
    /// The name of the protocol.
    pub open spec fn name(self) -> Seq<char> {
        match self {
            Protocol::Tcp => "Tcp"@,
            Protocol::Udp => "Udp"@,
            Protocol::Http => "Http"@,
            Protocol::Https => "Https"@,
        }
    }

    /// The protocol that is named `text`, if there is one.
    pub open spec fn named(text: Seq<char>) -> Option<Protocol> {
        if text == "Tcp"@ {
            Some(Protocol::Tcp)
        } else if text == "Udp"@ {
            Some(Protocol::Udp)
        } else if text == "Http"@ {
            Some(Protocol::Http)
        } else if text == "Https"@ {
            Some(Protocol::Https)
        } else {
            None
        }
    }

    /// The name of the protocol.
    pub fn to_string(&self) -> (text: String)
        ensures
            text@ == self.name(),
    {
        match self {
            Protocol::Tcp => String::from_str("Tcp"),
            Protocol::Udp => String::from_str("Udp"),
            Protocol::Http => String::from_str("Http"),
            Protocol::Https => String::from_str("Https"),
        }
    }

    /// Reads the name of a protocol. The names are those that `to_string`
    /// gives, letter for letter; any other text is refused with a message
    /// that quotes it.
    pub fn from_str(s: &str) -> (res: Result<Protocol, String>)
        ensures
            match res {
                Ok(protocol) => Protocol::named(s@) == Some(protocol),
                Err(message) => Protocol::named(s@) is None && message@ == "Invalid protocol: "@
                    + s@,
            },
    {
        if same_text(s, "Tcp") {
            Ok(Protocol::Tcp)
        } else if same_text(s, "Udp") {
            Ok(Protocol::Udp)
        } else if same_text(s, "Http") {
            Ok(Protocol::Http)
        } else if same_text(s, "Https") {
            Ok(Protocol::Https)
        } else {
            Err(String::from_str("Invalid protocol: ").concat(s))
        }
    }
}

/// Every protocol is read back from its name.
pub proof fn lemma_protocol_name_round_trip(protocol: Protocol)
    ensures
        Protocol::named(protocol.name()) == Some(protocol),
{
    reveal_strlit("Tcp");
    reveal_strlit("Udp");
    reveal_strlit("Http");
    reveal_strlit("Https");
    assert("Tcp"@.len() == 3 && "Udp"@.len() == 3 && "Http"@.len() == 4 && "Https"@.len() == 5);
    assert("Tcp"@[0] == 'T' && "Udp"@[0] == 'U');
}

impl Ports {
    /// The port numbers, in order.
    pub fn get_ports(&self) -> (numbers: Vec<u32>)
        ensures
            numbers@ == port_numbers(self@),
    {
        let mut numbers: Vec<u32> = Vec::new();
        let mut i: usize = 0;
        while i < self.0.len()
            invariant
                i <= self.0.len(),
                numbers@ == port_numbers(self@.take(i as int)),
            decreases self.0.len() - i,
        {
            numbers.push(self.0[i].port);
            proof {
                assert(self@.take(i + 1) =~= self@.take(i as int).push(self@[i as int]));
                assert(numbers@ =~= port_numbers(self@.take(i + 1)));
            }
            i = i + 1;
        }
        proof {
            assert(self@.take(self.0.len() as int) =~= self@);
        }
        numbers
    }

    /// A copy of the ports.
    pub fn get(&self) -> (ports: Vec<Port>)
        ensures
            ports@ == self@,
    {
        let mut ports: Vec<Port> = Vec::new();
        let mut i: usize = 0;
        while i < self.0.len()
            invariant
                i <= self.0.len(),
                ports@ == self@.take(i as int),
            decreases self.0.len() - i,
        {
            ports.push(self.0[i]);
            proof {
                assert(self@.take(i + 1) =~= self@.take(i as int).push(self@[i as int]));
            }
            i = i + 1;
        }
        proof {
            assert(self@.take(self.0.len() as int) =~= self@);
        }
        ports
    }

    /// Gives every port its number, by first fit from `start_port` over the
    /// ports in `used_ports`.
    ///
    /// The protocols and their order stay as they are. Where the pool holds
    /// fewer free ports than there are ports to number, the call fails with
    /// `ErrorKind::ResourceExhausted` and the ports stay as they were.
    pub fn assign(&mut self, used_ports: &Vec<u32>, start_port: u32) -> (res: Result<
        (),
        ErrorKind,
    >)
        ensures
            res is Ok <==> old(self)@.len() <= free_ports(used_ports@, start_port).len(),
            res is Ok ==> {
                &&& final(self)@ == with_numbers(
                    old(self)@,
                    first_fit_picks(used_ports@, old(self)@.len(), start_port),
                )
                &&& protocols(final(self)@) == protocols(old(self)@)
                &&& port_numbers(final(self)@) == first_fit_picks(
                    used_ports@,
                    old(self)@.len(),
                    start_port,
                )
                &&& is_first_fit(used_ports@, start_port, port_numbers(final(self)@))
            },
            res matches Err(kind) ==> kind == ErrorKind::ResourceExhausted && *final(self) == *old(
                self,
            ),
    {
        let picked = first_fit(used_ports, self.0.len(), start_port);
        match picked {
            Err(kind) => Err(kind),
            Ok(picks) => {
                let ghost requested = self@;
                let mut i: usize = 0;
                while i < picks.len()
                    invariant
                        i <= picks.len(),
                        picks.len() == requested.len(),
                        self@.len() == requested.len(),
                        forall|j: int|
                            0 <= j < requested.len() ==> (#[trigger] self@[j]).protocol
                                == requested[j].protocol,
                        forall|j: int| 0 <= j < i ==> (#[trigger] self@[j]).port == picks[j],
                    decreases picks.len() - i,
                {
                    self.0[i].port = picks[i];
                    i = i + 1;
                }
                proof {
                    assert(self@ =~= with_numbers(requested, picks@));
                    assert(protocols(self@) =~= protocols(requested));
                    assert(port_numbers(self@) =~= picks@);
                }
                Ok(())
            },
        }
    }
}

impl Register {
    /// Gives every requested port its number, by first fit from `START_PORT`
    /// over the ports in `used_ports`.
    ///
    /// The protocols and their order stay as requested. Where the pool holds
    /// fewer free ports than were requested, the call fails with
    /// `ErrorKind::ResourceExhausted` and the request stays as it was.
    pub fn get_ports(&mut self, used_ports: Vec<u32>) -> (res: Result<(), ErrorKind>)
        ensures
            res is Ok <==> old(self)@.ports.len() <= free_ports(used_ports@, START_PORT).len(),
            res is Ok ==> {
                &&& final(self)@.address_mac == old(self)@.address_mac
                &&& final(self)@.ssh_key == old(self)@.ssh_key
                &&& final(self)@.ports == with_numbers(
                    old(self)@.ports,
                    first_fit_picks(used_ports@, old(self)@.ports.len(), START_PORT),
                )
                &&& protocols(final(self)@.ports) == protocols(old(self)@.ports)
                &&& is_first_fit(used_ports@, START_PORT, port_numbers(final(self)@.ports))
            },
            res matches Err(kind) ==> kind == ErrorKind::ResourceExhausted && *final(self) == *old(
                self,
            ),
    {
        self.ports.assign(&used_ports, START_PORT)
    }
}

} // verus!
