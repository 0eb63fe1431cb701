//! The store of devices and port assignments.
//!
//! The store here is kept in memory. It keeps the rules of a relational
//! store with two tables: a hardware address names one device, a port number
//! is assigned once, and nothing that was stored is changed or removed but by
//! rolling back an open transaction.

pub mod failure;
pub mod grouping;
pub mod models;

use crate::allocation::{MAX_PORT, MIN_PORT};
use crate::db::grouping::{
    distinct_ports, group_by_device, is_grouping, joined_rows, lemma_ascending_distinct,
    lemma_ports_of_distinct, lemma_ports_of_member, lemma_ports_of_occurs, lemma_ports_of_push,
    ports_of, JoinedRow,
};
use crate::db::models::{MacAddresses, MacAddressesView};
use crate::errors::ErrorKind;
use crate::text::same_text;
use crate::types::{DeviceView, NetworkPortConfig, Port, Protocol, TraefikDynamicConfig};
use vstd::prelude::*;

verus! {

/// The assignment of a port to a device.
#[derive(Clone, Copy, Debug, PartialEq, Eq, Structural)]
pub struct PortAssignment {
    /// The place of the owning device among the devices of the store.
    pub owner: usize,
    pub port: u32,
    pub protocol: Protocol,
    /// Whether the port has been provisioned; nothing reads it yet.
    pub provisioned: bool,
}

/// The assignment of a port to a device as a mathematical value.
pub ghost struct PortAssignmentView {
    /// The place of the owning device among the devices of the store.
    pub owner: int,
    pub port: u32,
    pub protocol: Protocol,
    pub provisioned: bool,
}

impl View for PortAssignment {
    type V = PortAssignmentView;

    open spec fn view(&self) -> PortAssignmentView {
        PortAssignmentView {
            owner: self.owner as int,
            port: self.port,
            protocol: self.protocol,
            provisioned: self.provisioned,
        }
    }
}

/// The contents of a store as a mathematical value.
pub ghost struct StoreView {
    pub devices: Seq<MacAddressesView>,
    pub assignments: Seq<PortAssignmentView>,
}

/// Whether a port number lies in the range of port numbers.
pub open spec fn valid_port(port: u32) -> bool {
    MIN_PORT <= port <= MAX_PORT
}

/// Whether the store holds a device with the hardware address `mac`.
pub open spec fn knows(s: StoreView, mac: Seq<char>) -> bool {
    exists|i: int| 0 <= i < s.devices.len() && #[trigger] s.devices[i].address_mac == mac
}

/// The place of the device `mac` among the devices of a store that holds it.
pub open spec fn device_index(s: StoreView, mac: Seq<char>) -> int {
    choose|i: int| 0 <= i < s.devices.len() && #[trigger] s.devices[i].address_mac == mac
}

/// The rules that the contents of a store keep.
pub open spec fn well_formed(s: StoreView) -> bool {
    // A hardware address names one device.
    &&& forall|i: int, j: int|
        0 <= i < j < s.devices.len() ==> #[trigger] s.devices[i].address_mac
            != #[trigger] s.devices[j].address_mac
    // A port number is assigned once, whatever the device.
    &&& forall|i: int, j: int|
        0 <= i < j < s.assignments.len() ==> #[trigger] s.assignments[i].port
            != #[trigger] s.assignments[j].port
    // Every assignment belongs to a device of the store, and its port exists.
    &&& forall|i: int|
        0 <= i < s.assignments.len() ==> 0 <= (#[trigger] s.assignments[i]).owner
            < s.devices.len() && valid_port(s.assignments[i].port)
}

/// The ports that are assigned, in the order in which they were stored.
pub open spec fn used_ports(s: StoreView) -> Seq<u32> {
    s.assignments.map_values(|a: PortAssignmentView| a.port)
}

/// The row that joins an assignment with its owner: the hardware address of
/// the owner, and the port.
pub open spec fn joined_row(devices: Seq<MacAddressesView>, a: PortAssignmentView) -> JoinedRow {
    (devices[a.owner].address_mac, NetworkPortConfig { port: a.port, protocol: a.protocol })
}

/// The join of devices and ports: the rows of the assignments in the order in
/// which they were stored.
pub open spec fn joined(s: StoreView) -> Seq<JoinedRow> {
    s.assignments.map_values(|a: PortAssignmentView| joined_row(s.devices, a))
}

/// The ports of the device `mac`, in the order in which they were stored;
/// none where the store does not hold the device.
pub open spec fn owned_ports(s: StoreView, mac: Seq<char>) -> Seq<Port> {
    ports_of(joined(s), mac).map_values(
        |p: NetworkPortConfig| Port { port: p.port, protocol: p.protocol },
    )
}

/// The assignments that give the device at the place `owner` the ports
/// `ports`. A new assignment is not provisioned.
pub open spec fn new_assignments(owner: int, ports: Seq<Port>) -> Seq<PortAssignmentView> {
    ports.map_values(
        |p: Port|
            PortAssignmentView { owner, port: p.port, protocol: p.protocol, provisioned: false },
    )
}

/// Whether one of `ports` is assigned already or occurs twice among them.
pub open spec fn clashes(s: StoreView, ports: Seq<Port>) -> bool {
    ||| exists|i: int|
        0 <= i < ports.len() && used_ports(s).contains((#[trigger] ports[i]).port)
    ||| exists|i: int, j: int|
        0 <= i < j < ports.len() && (#[trigger] ports[i]).port == (#[trigger] ports[j]).port
}

/// How the store answers the request to assign `ports` to the device `mac`:
/// it refuses a device that it does not hold, then a port number that does
/// not exist, then a port that would be assigned twice.
pub open spec fn insert_ports_outcome(s: StoreView, mac: Seq<char>, ports: Seq<Port>) -> Result<
    (),
    ErrorKind,
> {
    if !knows(s, mac) {
        Err(ErrorKind::NotFound)
    } else if exists|i: int| 0 <= i < ports.len() && !valid_port((#[trigger] ports[i]).port) {
        Err(ErrorKind::InvalidInput)
    } else if clashes(s, ports) {
        Err(ErrorKind::Conflict)
    } else {
        Ok(())
    }
}

/// In a store that keeps the rules no port is assigned twice: the used ports
/// are as many as the assignments.
pub proof fn lemma_used_ports_distinct(s: StoreView)
    requires
        well_formed(s),
    ensures
        used_ports(s).no_duplicates(),
        used_ports(s).len() == s.assignments.len(),
{
    assert forall|i: int, j: int|
        0 <= i < used_ports(s).len() && 0 <= j < used_ports(s).len() && i != j implies used_ports(
        s,
    )[i] != used_ports(s)[j] by {
        if i < j {
            assert(s.assignments[i].port != s.assignments[j].port);
        } else {
            assert(s.assignments[j].port != s.assignments[i].port);
        }
    }
}

/// Every port of a device stands in an assignment whose owner is that device.
pub proof fn lemma_owned_port_assigned(s: StoreView, mac: Seq<char>, port: Port)
    requires
        owned_ports(s, mac).contains(port),
    ensures
        exists|k: int|
            0 <= k < s.assignments.len() && (#[trigger] s.assignments[k]).port == port.port
                && s.assignments[k].protocol == port.protocol
                && s.devices[s.assignments[k].owner].address_mac == mac,
{
    let listed = ports_of(joined(s), mac);
    let i = choose|i: int| 0 <= i < owned_ports(s, mac).len() && owned_ports(s, mac)[i] == port;
    assert(listed[i].port == port.port);
    assert(listed.contains(listed[i]));
    lemma_ports_of_member(joined(s), mac, listed[i]);
    let k = choose|k: int| 0 <= k < joined(s).len() && #[trigger] joined(s)[k] == (mac, listed[i]);
    assert(s.assignments[k].port == port.port);
}

/// In a store that keeps the rules two devices share no port.
pub proof fn lemma_owned_ports_disjoint(s: StoreView, a: Seq<char>, b: Seq<char>)
    requires
        well_formed(s),
        a != b,
    ensures
        forall|p: Port, q: Port|
            owned_ports(s, a).contains(p) && owned_ports(s, b).contains(q) ==> p.port != q.port,
{
    assert forall|p: Port, q: Port|
        owned_ports(s, a).contains(p) && owned_ports(s, b).contains(q) implies p.port
        != q.port by {
        lemma_owned_port_assigned(s, a, p);
        lemma_owned_port_assigned(s, b, q);
        let i = choose|k: int|
            0 <= k < s.assignments.len() && (#[trigger] s.assignments[k]).port == p.port
                && s.assignments[k].protocol == p.protocol
                && s.devices[s.assignments[k].owner].address_mac == a;
        let j = choose|k: int|
            0 <= k < s.assignments.len() && (#[trigger] s.assignments[k]).port == q.port
                && s.assignments[k].protocol == q.protocol
                && s.devices[s.assignments[k].owner].address_mac == b;
        if i < j {
            assert(s.assignments[i].port != s.assignments[j].port);
        } else if j < i {
            assert(s.assignments[j].port != s.assignments[i].port);
        }
    }
}

/// In the snapshot of a store that keeps the rules no port number occurs
/// twice. The names of routers and services, which are made of the port
/// number alone, are therefore never given twice.
pub proof fn lemma_snapshot_ports_distinct(s: StoreView, devices: Seq<DeviceView>)
    requires
        well_formed(s),
        is_grouping(joined(s), devices),
    ensures
        distinct_ports(devices),
{
    let rows = joined(s);
    assert forall|k: int, l: int| 0 <= k < l < rows.len() implies (#[trigger] rows[k]).1.port != (
    #[trigger] rows[l]).1.port by {
        assert(s.assignments[k].port != s.assignments[l].port);
    }
    assert forall|i: int, a: int, j: int, b: int|
        0 <= i < devices.len() && 0 <= a < devices[i].network_ports.len() && 0 <= j < devices.len()
            && 0 <= b < devices[j].network_ports.len() && (i != j || a != b) implies (
    #[trigger] devices[i].network_ports[a]).port != (#[trigger] devices[j].network_ports[b]).port by {
        let first = devices[i].mac_address;
        let second = devices[j].mac_address;
        assert(devices[i].network_ports == ports_of(rows, first));
        assert(devices[j].network_ports == ports_of(rows, second));
        if i == j {
            lemma_ports_of_distinct(rows, first);
            if a < b {
                assert(ports_of(rows, first)[a].port != ports_of(rows, first)[b].port);
            } else {
                assert(ports_of(rows, first)[b].port != ports_of(rows, first)[a].port);
            }
        } else {
            lemma_ascending_distinct(devices, i, j);
            lemma_owned_ports_disjoint(s, first, second);
            let p = owned_ports(s, first)[a];
            let q = owned_ports(s, second)[b];
            assert(owned_ports(s, first).contains(p));
            assert(owned_ports(s, second).contains(q));
        }
    }
}

/// A device that a store does not hold has no ports in it.
pub proof fn lemma_unknown_device_owns_nothing(s: StoreView, mac: Seq<char>)
    requires
        well_formed(s),
        !knows(s, mac),
    ensures
        owned_ports(s, mac) == Seq::<Port>::empty(),
{
    lemma_ports_of_occurs(joined(s), mac);
    if ports_of(joined(s), mac).len() > 0 {
        let k = choose|k: int| 0 <= k < joined(s).len() && (#[trigger] joined(s)[k]).0 == mac;
        assert(s.assignments[k].owner < s.devices.len());
        assert(s.devices[s.assignments[k].owner].address_mac == mac);
    }
    assert(owned_ports(s, mac) =~= Seq::<Port>::empty());
}

/// The store.
pub struct Store {
    devices: Vec<MacAddresses>,
    assignments: Vec<PortAssignment>,
    /// How many devices and assignments the store held when the open
    /// transaction began.
    mark: Option<(usize, usize)>,
}

impl View for Store {
    type V = StoreView;

    closed spec fn view(&self) -> StoreView {
        StoreView {
            devices: self.devices@.map_values(|d: MacAddresses| d@),
            assignments: self.assignments@.map_values(|a: PortAssignment| a@),
        }
    }
}

impl Store {
    #[verifier::type_invariant]
    spec fn inv(self) -> bool {
        &&& well_formed(self@)
        &&& self.mark matches Some((d, a)) ==> {
            &&& d <= self.devices.len()
            &&& a <= self.assignments.len()
            &&& forall|i: int| 0 <= i < a ==> (#[trigger] self.assignments[i]).owner < d
        }
    }

    /// The contents to which rolling back returns, while a transaction is
    /// open.
    pub closed spec fn saved(&self) -> Option<StoreView> {
        match self.mark {
            Some((d, a)) => Some(
                StoreView {
                    devices: self@.devices.take(d as int),
                    assignments: self@.assignments.take(a as int),
                },
            ),
            None => None,
        }
    }

    /// An empty store.
    pub fn new() -> (store: Store)
        ensures
            store@.devices.len() == 0,
            store@.assignments.len() == 0,
            store.saved() is None,
    {
        Store { devices: Vec::new(), assignments: Vec::new(), mark: None }
    }

    /// The place of the device `mac` among the devices, if the store holds it.
    fn find_device(&self, mac: &str) -> (place: Option<usize>)
        ensures
            place matches Some(i) ==> i < self@.devices.len() && self@.devices[i as int].address_mac
                == mac@,
            place is None ==> !knows(self@, mac@),
    {
        let mut i: usize = 0;
        while i < self.devices.len()
            invariant
                i <= self.devices.len(),
                forall|j: int| 0 <= j < i ==> #[trigger] self@.devices[j].address_mac != mac@,
            decreases self.devices.len() - i,
        {
            if same_text(self.devices[i].address_mac.as_str(), mac) {
                return Some(i);
            }
            i = i + 1;
        }
        None
    }
}

/// The ports that are assigned, over all devices.
pub fn get_used_ports(store: &Store) -> (res: Result<Vec<u32>, ErrorKind>)
    ensures
        res matches Ok(ports) && ports@ == used_ports(store@),
        well_formed(store@),
{
    proof {
        use_type_invariant(store);
    }
    let mut ports: Vec<u32> = Vec::new();
    let mut k: usize = 0;
    while k < store.assignments.len()
        invariant
            k <= store.assignments.len(),
            ports@ == used_ports(store@).take(k as int),
        decreases store.assignments.len() - k,
    {
        ports.push(store.assignments[k].port);
        proof {
            assert(ports@ =~= used_ports(store@).take(k + 1));
        }
        k = k + 1;
    }
    proof {
        assert(ports@ =~= used_ports(store@));
    }
    Ok(ports)
}

/// The ports of the device `address_mac`, in the order in which they were
/// stored. A device that the store does not hold has no ports.
pub fn get_ports_by_mac(store: &Store, address_mac: String) -> (res: Result<Vec<Port>, ErrorKind>)
    ensures
        res matches Ok(ports) && ports@ == owned_ports(store@, address_mac@),
        well_formed(store@),
{
    proof {
        use_type_invariant(store);
    }
    let ghost rows = joined(store@);
    let ghost mac = address_mac@;
    let mut ports: Vec<Port> = Vec::new();
    let place = store.find_device(address_mac.as_str());
    let mut k: usize = 0;
    proof {
        assert(rows.take(0) =~= Seq::<JoinedRow>::empty());
        assert(ports@ =~= ports_of(rows.take(0), mac).map_values(
            |p: NetworkPortConfig| Port { port: p.port, protocol: p.protocol },
        ));
    }
    while k < store.assignments.len()
        invariant
            k <= store.assignments.len(),
            rows == joined(store@),
            mac == address_mac@,
            well_formed(store@),
            place matches Some(i) ==> i < store@.devices.len() && store@.devices[i as int].address_mac
                == mac,
            place is None ==> !knows(store@, mac),
            ports@ == ports_of(rows.take(k as int), mac).map_values(
                |p: NetworkPortConfig| Port { port: p.port, protocol: p.protocol },
            ),
        decreases store.assignments.len() - k,
    {
        let assignment = store.assignments[k];
        let owned = match place {
            Some(i) => assignment.owner == i,
            None => false,
        };
        proof {
            let row = rows[k as int];
            assert(rows.take(k + 1) =~= rows.take(k as int).push(row));
            lemma_ports_of_push(rows.take(k as int), row, mac);
            assert(store@.assignments[k as int].owner < store@.devices.len());
            assert(owned <==> row.0 == mac) by {
                let o = assignment.owner as int;
                assert(row.0 == store@.devices[o].address_mac);
                match place {
                    Some(i) => {
                        if o < i {
                            assert(store@.devices[o].address_mac != store@.devices[i as int].address_mac);
                        } else if o > i {
                            assert(store@.devices[i as int].address_mac != store@.devices[o].address_mac);
                        }
                    },
                    None => {},
                }
            }
        }
        if owned {
            ports.push(Port { port: assignment.port, protocol: assignment.protocol });
        }
        proof {
            assert(ports@ =~= ports_of(rows.take(k + 1), mac).map_values(
                |p: NetworkPortConfig| Port { port: p.port, protocol: p.protocol },
            ));
        }
        k = k + 1;
    }
    proof {
        assert(rows.take(rows.len() as int) =~= rows);
    }
    Ok(ports)
}

/// Stores the device `address_mac` with its key.
///
/// A device that the store holds already is refused with
/// `ErrorKind::Conflict`, and the store stays as it was.
pub fn insert_mac_address(store: &mut Store, address_mac: String, ssh_key: String) -> (res: Result<
    (),
    ErrorKind,
>)
    ensures
        well_formed(old(store)@),
        well_formed(final(store)@),
        final(store).saved() == old(store).saved(),
        knows(old(store)@, address_mac@) ==> res == Err::<(), ErrorKind>(ErrorKind::Conflict)
            && final(store)@ == old(store)@,
        !knows(old(store)@, address_mac@) ==> res == Ok::<(), ErrorKind>(()) && final(store)@
            == (StoreView {
            devices: old(store)@.devices.push(
                MacAddressesView { address_mac: address_mac@, ssh_key: ssh_key@ },
            ),
            assignments: old(store)@.assignments,
        }),
{
    proof {
        use_type_invariant(&*store);
    }
    match store.find_device(address_mac.as_str()) {
        Some(_) => Err(ErrorKind::Conflict),
        None => {
            let ghost before = store@;
            let ghost row = MacAddressesView { address_mac: address_mac@, ssh_key: ssh_key@ };
            proof {
                let after = StoreView {
                    devices: before.devices.push(row),
                    assignments: before.assignments,
                };
                assert(well_formed(after));
            }
            let mut taken = Store::new();
            std::mem::swap(store, &mut taken);
            let Store { mut devices, assignments, mark } = taken;
            devices.push(MacAddresses::new(address_mac, ssh_key));
            proof {
                assert(devices@.map_values(|d: MacAddresses| d@) =~= before.devices.push(row));
                match mark {
                    Some((d, a)) => {
                        assert(before.devices.push(row).take(d as int) =~= before.devices.take(
                            d as int,
                        ));
                    },
                    None => {},
                }
            }
            *store = Store { devices, assignments, mark };
            Ok(())
        },
    }
}

/// Tells whether `port` is among the ports of `assignments`.
fn is_assigned(assignments: &Vec<PortAssignment>, port: u32) -> (found: bool)
    ensures
        found == exists|j: int| 0 <= j < assignments.len() && (#[trigger] assignments[j]).port == port,
{
    let mut k: usize = 0;
    while k < assignments.len()
        invariant
            k <= assignments.len(),
            forall|j: int| 0 <= j < k ==> (#[trigger] assignments[j]).port != port,
        decreases assignments.len() - k,
    {
        if assignments[k].port == port {
            return true;
        }
        k = k + 1;
    }
    false
}

/// Tells whether `port` is among the first `n` of `ports`.
fn is_repeated(ports: &Vec<Port>, n: usize, port: u32) -> (found: bool)
    requires
        n <= ports.len(),
    ensures
        found == exists|j: int| 0 <= j < n && (#[trigger] ports[j]).port == port,
{
    let mut k: usize = 0;
    while k < n
        invariant
            k <= n <= ports.len(),
            forall|j: int| 0 <= j < k ==> (#[trigger] ports[j]).port != port,
        decreases n - k,
    {
        if ports[k].port == port {
            return true;
        }
        k = k + 1;
    }
    false
}

/// Assigns `ports` to the device `address_mac`, all of them or none.
///
/// The store refuses a device that it does not hold with
/// `ErrorKind::NotFound`, a port number that does not exist with
/// `ErrorKind::InvalidInput`, and a port that is assigned already or occurs
/// twice with `ErrorKind::Conflict`. Where it refuses, it stays as it was.
pub fn insert_ports(store: &mut Store, address_mac: String, ports: &Vec<Port>) -> (res: Result<
    (),
    ErrorKind,
>)
    ensures
        well_formed(old(store)@),
        well_formed(final(store)@),
        final(store).saved() == old(store).saved(),
        res == insert_ports_outcome(old(store)@, address_mac@, ports@),
        res is Err ==> final(store)@ == old(store)@,
        res is Ok ==> final(store)@ == (StoreView {
            devices: old(store)@.devices,
            assignments: old(store)@.assignments + new_assignments(
                device_index(old(store)@, address_mac@),
                ports@,
            ),
        }),
{
    proof {
        use_type_invariant(&*store);
    }
    let ghost before = store@;
    let owner = match store.find_device(address_mac.as_str()) {
        Some(i) => i,
        None => {
            return Err(ErrorKind::NotFound);
        },
    };
    proof {
        let chosen = device_index(before, address_mac@);
        if chosen < owner {
            assert(before.devices[chosen].address_mac != before.devices[owner as int].address_mac);
        } else if owner < chosen {
            assert(before.devices[owner as int].address_mac != before.devices[chosen].address_mac);
        }
    }
    let mut i: usize = 0;
    while i < ports.len()
        invariant
            i <= ports.len(),
            *store == *old(store),
            well_formed(store@),
            knows(store@, address_mac@),
            forall|j: int| 0 <= j < i ==> valid_port((#[trigger] ports[j]).port),
        decreases ports.len() - i,
    {
        if ports[i].port < MIN_PORT || ports[i].port > MAX_PORT {
            return Err(ErrorKind::InvalidInput);
        }
        i = i + 1;
    }
    i = 0;
    while i < ports.len()
        invariant
            i <= ports.len(),
            *store == *old(store),
            before == store@,
            well_formed(store@),
            knows(store@, address_mac@),
            forall|j: int| 0 <= j < ports.len() ==> valid_port((#[trigger] ports[j]).port),
            forall|j: int| 0 <= j < i ==> !used_ports(before).contains((#[trigger] ports[j]).port),
            forall|a: int, b: int|
                0 <= a < b < i ==> (#[trigger] ports[a]).port != (#[trigger] ports[b]).port,
        decreases ports.len() - i,
    {
        let assigned = is_assigned(&store.assignments, ports[i].port);
        proof {
            let port = ports[i as int].port;
            if assigned {
                let j = choose|j: int|
                    0 <= j < store.assignments.len() && (#[trigger] store.assignments[j]).port
                        == port;
                assert(used_ports(before)[j] == port);
            }
            if used_ports(before).contains(port) {
                let j = choose|j: int|
                    0 <= j < used_ports(before).len() && used_ports(before)[j] == port;
                assert(store.assignments[j].port == port);
            }
        }
        if assigned || is_repeated(ports, i, ports[i].port) {
            proof {
                if !used_ports(before).contains(ports[i as int].port) {
                    let a = choose|a: int|
                        0 <= a < i && (#[trigger] ports[a]).port == ports[i as int].port;
                    assert(ports@[a].port == ports@[i as int].port);
                }
            }
            return Err(ErrorKind::Conflict);
        }
        i = i + 1;
    }
    let mut taken = Store::new();
    std::mem::swap(store, &mut taken);
    let Store { devices, mut assignments, mark } = taken;
    i = 0;
    proof {
        assert(assignments@.map_values(|a: PortAssignment| a@) =~= before.assignments
            + new_assignments(owner as int, ports@.take(0)));
    }
    while i < ports.len()
        invariant
            i <= ports.len(),
            assignments@.map_values(|a: PortAssignment| a@) == before.assignments
                + new_assignments(owner as int, ports@.take(i as int)),
        decreases ports.len() - i,
    {
        let ghost stored = assignments@;
        let assignment = PortAssignment {
            owner,
            port: ports[i].port,
            protocol: ports[i].protocol,
            provisioned: false,
        };
        assignments.push(assignment);
        proof {
            assert(ports@.take(i + 1) =~= ports@.take(i as int).push(ports@[i as int]));
            assert(new_assignments(owner as int, ports@.take(i + 1)) =~= new_assignments(
                owner as int,
                ports@.take(i as int),
            ).push(assignment@));
            assert(assignments@.map_values(|a: PortAssignment| a@) =~= stored.map_values(
                |a: PortAssignment| a@,
            ).push(assignment@));
            assert(assignments@.map_values(|a: PortAssignment| a@) =~= before.assignments
                + new_assignments(owner as int, ports@.take(i + 1)));
        }
        i = i + 1;
    }
    proof {
        assert(ports@.take(ports.len() as int) =~= ports@);
        let added = new_assignments(owner as int, ports@);
        let after = StoreView { devices: before.devices, assignments: before.assignments + added };
        assert forall|a: int, b: int| 0 <= a < b < after.assignments.len() implies #[trigger]
            after.assignments[a].port != #[trigger] after.assignments[b].port by {
            let n = before.assignments.len() as int;
            if b < n {
            } else if a < n {
                assert(used_ports(before)[a] == before.assignments[a].port);
                assert(after.assignments[b].port == ports@[b - n].port);
            } else {
                assert(after.assignments[a].port == ports@[a - n].port);
                assert(after.assignments[b].port == ports@[b - n].port);
            }
        }
        assert forall|a: int| 0 <= a < after.assignments.len() implies (
        #[trigger] after.assignments[a]).owner < after.devices.len() && valid_port(
            after.assignments[a].port,
        ) by {
            let n = before.assignments.len() as int;
            if a >= n {
                assert(after.assignments[a].port == ports@[a - n].port);
            }
        }
        assert(well_formed(after));
        match mark {
            Some((d, a)) => {
                assert(after.assignments.take(a as int) =~= before.assignments.take(a as int));
                let stored = assignments@.map_values(|x: PortAssignment| x@);
                assert forall|i: int| 0 <= i < a implies (#[trigger] assignments[i]).owner < d by {
                    assert(stored[i] == before.assignments[i]);
                    assert(old(store).assignments[i]@ == before.assignments[i]);
                }
            },
            None => {},
        }
    }
    *store = Store { devices, assignments, mark };
    Ok(())
}

/// The routing snapshot of the store: every device that holds a port, in
/// ascending order of the hardware addresses, with its ports in the order in
/// which they were stored.
pub fn get_traefik_dynamic_config(store: &Store) -> (res: Result<TraefikDynamicConfig, ErrorKind>)
    ensures
        res matches Ok(config) && is_grouping(joined(store@), config@) && distinct_ports(config@),
        well_formed(store@),
{
    proof {
        use_type_invariant(store);
    }
    let mut rows: Vec<(String, NetworkPortConfig)> = Vec::new();
    let mut k: usize = 0;
    while k < store.assignments.len()
        invariant
            k <= store.assignments.len(),
            well_formed(store@),
            joined_rows(rows@) == joined(store@).take(k as int),
        decreases store.assignments.len() - k,
    {
        let assignment = store.assignments[k];
        proof {
            assert(store@.assignments[k as int].owner < store@.devices.len());
        }
        let mac = store.devices[assignment.owner].address_mac.clone();
        let port = NetworkPortConfig { port: assignment.port, protocol: assignment.protocol };
        let ghost listed = rows@;
        rows.push((mac, port));
        proof {
            let row = joined(store@)[k as int];
            assert(row == joined_row(store@.devices, store@.assignments[k as int]));
            assert(store@.devices[assignment.owner as int].address_mac == mac@);
            assert(joined_rows(rows@) =~= joined_rows(listed).push((mac@, port)));
            assert(joined(store@).take(k + 1) =~= joined(store@).take(k as int).push(row));
        }
        k = k + 1;
    }
    proof {
        assert(joined(store@).take(store@.assignments.len() as int) =~= joined(store@));
    }
    let config = group_by_device(&rows);
    proof {
        lemma_snapshot_ports_distinct(store@, config@);
    }
    Ok(config)
}

/// Opens a transaction: what is stored from now on can be rolled back. A
/// transaction that was open is thereby committed.
pub fn begin(store: &mut Store)
    ensures
        final(store)@ == old(store)@,
        final(store).saved() == Some(old(store)@),
        well_formed(final(store)@),
{
    proof {
        use_type_invariant(&*store);
    }
    let mark = Some((store.devices.len(), store.assignments.len()));
    proof {
        assert forall|i: int| 0 <= i < store.assignments.len() implies (
        #[trigger] store.assignments[i]).owner < store.devices.len() by {
            assert(store@.assignments[i].owner < store@.devices.len());
        }
    }
    store.mark = mark;
    proof {
        assert(store@.devices.take(store@.devices.len() as int) =~= store@.devices);
        assert(store@.assignments.take(store@.assignments.len() as int) =~= store@.assignments);
    }
}

/// Closes the open transaction and keeps what was stored in it.
pub fn commit(store: &mut Store)
    ensures
        final(store)@ == old(store)@,
        final(store).saved() is None,
        well_formed(final(store)@),
{
    proof {
        use_type_invariant(&*store);
    }
    store.mark = None;
}

/// Closes the open transaction and removes what was stored in it. Without an
/// open transaction nothing changes.
pub fn rollback(store: &mut Store)
    ensures
        final(store).saved() is None,
        final(store)@ == (match old(store).saved() {
            Some(saved) => saved,
            None => old(store)@,
        }),
        well_formed(final(store)@),
{
    proof {
        use_type_invariant(&*store);
    }
    let ghost before = store@;
    let mut taken = Store::new();
    std::mem::swap(store, &mut taken);
    let Store { mut devices, mut assignments, mark } = taken;
    match mark {
        Some((d, a)) => {
            devices.truncate(d);
            assignments.truncate(a);
            proof {
                assert(devices@.map_values(|x: MacAddresses| x@) =~= before.devices.take(d as int));
                assert(assignments@.map_values(|x: PortAssignment| x@)
                    =~= before.assignments.take(a as int));
            }
        },
        None => {},
    }
    *store = Store { devices, assignments, mark: None };
}

} // verus!
