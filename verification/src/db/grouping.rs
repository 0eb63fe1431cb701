//! Grouping the rows that join devices and ports into a routing snapshot.
//!
//! A snapshot lists every device once, in ascending order of the hardware
//! addresses, and gives each device its ports in the order of the rows.

use crate::text::{compare, lemma_precedes_asymmetric, lemma_precedes_transitive, precedes, Order};
use crate::db::models::{port_from_column, port_of_column};
use crate::errors::ErrorKind;
use crate::types::{
    device_views, DeviceConfig, DeviceView, NetworkPortConfig, Protocol, TraefikDynamicConfig,
};
use vstd::prelude::*;
use vstd::string::*;

verus! {

/// A row of the join of devices and ports as a mathematical value: the
/// hardware address of the device, and the port.
pub type JoinedRow = (Seq<char>, NetworkPortConfig);

/// The rows as mathematical values.
pub open spec fn joined_rows(rows: Seq<(String, NetworkPortConfig)>) -> Seq<JoinedRow> {
    rows.map_values(|row: (String, NetworkPortConfig)| (row.0@, row.1))
}

/// The ports that the rows give the device `mac`, in the order of the rows.
pub open spec fn ports_of(rows: Seq<JoinedRow>, mac: Seq<char>) -> Seq<NetworkPortConfig>
    decreases rows.len(),
{
    if rows.len() == 0 {
        Seq::empty()
    } else if rows.last().0 == mac {
        ports_of(rows.drop_last(), mac).push(rows.last().1)
    } else {
        ports_of(rows.drop_last(), mac)
    }
}

/// Whether the hardware addresses of `devices` ascend strictly.
pub open spec fn ascending(devices: Seq<DeviceView>) -> bool {
    forall|i: int, j: int|
        0 <= i < j < devices.len() ==> precedes(
            #[trigger] devices[i].mac_address,
            #[trigger] devices[j].mac_address,
        )
}

/// Whether no port number occurs twice in a snapshot, neither with one device
/// nor with two.
pub open spec fn distinct_ports(devices: Seq<DeviceView>) -> bool {
    forall|i: int, a: int, j: int, b: int|
        0 <= i < devices.len() && 0 <= a < devices[i].network_ports.len() && 0 <= j < devices.len()
            && 0 <= b < devices[j].network_ports.len() && (i != j || a != b) ==> (
        #[trigger] devices[i].network_ports[a]).port != (#[trigger] devices[j].network_ports[b]).port
}

/// Whether one of `devices` has the hardware address `mac`.
pub open spec fn holds_device(devices: Seq<DeviceView>, mac: Seq<char>) -> bool {
    exists|i: int| 0 <= i < devices.len() && #[trigger] devices[i].mac_address == mac
}

/// Whether `devices` is the snapshot of `rows`: the devices ascend by
/// hardware address, each holds the ports that the rows give it, and these
/// are the devices that occur in the rows.
pub open spec fn is_grouping(rows: Seq<JoinedRow>, devices: Seq<DeviceView>) -> bool {
    &&& ascending(devices)
    &&& forall|i: int|
        0 <= i < devices.len() ==> (#[trigger] devices[i]).network_ports.len() > 0
            && devices[i].network_ports == ports_of(rows, devices[i].mac_address)
    &&& forall|k: int| 0 <= k < rows.len() ==> holds_device(devices, (#[trigger] rows[k]).0)
}

/// What one more row adds to the ports of a device.
pub proof fn lemma_ports_of_push(rows: Seq<JoinedRow>, row: JoinedRow, mac: Seq<char>)
    ensures
        ports_of(rows.push(row), mac) == if row.0 == mac {
            ports_of(rows, mac).push(row.1)
        } else {
            ports_of(rows, mac)
        },
{
    assert(rows.push(row).drop_last() =~= rows);
}

/// A device has ports if and only if it occurs in the rows.
pub proof fn lemma_ports_of_occurs(rows: Seq<JoinedRow>, mac: Seq<char>)
    ensures
        ports_of(rows, mac).len() > 0 <==> exists|k: int|
            0 <= k < rows.len() && (#[trigger] rows[k]).0 == mac,
    decreases rows.len(),
{
    if rows.len() > 0 {
        let rest = rows.drop_last();
        lemma_ports_of_occurs(rest, mac);
        if rows.last().0 == mac {
            assert(rows[rows.len() - 1].0 == mac);
        } else if ports_of(rows, mac).len() > 0 {
            let k = choose|k: int| 0 <= k < rest.len() && (#[trigger] rest[k]).0 == mac;
            assert(rows[k].0 == mac);
        } else if exists|k: int| 0 <= k < rows.len() && (#[trigger] rows[k]).0 == mac {
            let k = choose|k: int| 0 <= k < rows.len() && (#[trigger] rows[k]).0 == mac;
            assert(rest[k].0 == mac);
        }
    }
}

/// The ports that two runs of rows give a device, one run after the other.
pub proof fn lemma_ports_of_concat(a: Seq<JoinedRow>, b: Seq<JoinedRow>, mac: Seq<char>)
    ensures
        ports_of(a + b, mac) == ports_of(a, mac) + ports_of(b, mac),
    decreases b.len(),
{
    if b.len() == 0 {
        assert(a + b =~= a);
        assert(ports_of(a, mac) + ports_of(b, mac) =~= ports_of(a, mac));
    } else {
        lemma_ports_of_concat(a, b.drop_last(), mac);
        assert((a + b).drop_last() =~= a + b.drop_last());
        assert((a + b).last() == b.last());
        if b.last().0 == mac {
            assert(ports_of(a + b, mac) =~= ports_of(a, mac) + ports_of(b, mac));
        }
    }
}

/// Rows that all belong to one device give it all their ports.
pub proof fn lemma_ports_of_own_rows(rows: Seq<JoinedRow>, mac: Seq<char>)
    requires
        forall|k: int| 0 <= k < rows.len() ==> (#[trigger] rows[k]).0 == mac,
    ensures
        ports_of(rows, mac) == rows.map_values(|row: JoinedRow| row.1),
    decreases rows.len(),
{
    if rows.len() == 0 {
        assert(ports_of(rows, mac) =~= rows.map_values(|row: JoinedRow| row.1));
    } else {
        let rest = rows.drop_last();
        assert forall|k: int| 0 <= k < rest.len() implies (#[trigger] rest[k]).0 == mac by {
            assert(rest[k] == rows[k]);
        }
        lemma_ports_of_own_rows(rest, mac);
        assert(rows[rows.len() - 1].0 == mac);
        assert(ports_of(rows, mac) =~= rows.map_values(|row: JoinedRow| row.1));
    }
}

/// Every port that the rows give a device stands in a row of that device.
pub proof fn lemma_ports_of_member(rows: Seq<JoinedRow>, mac: Seq<char>, port: NetworkPortConfig)
    requires
        ports_of(rows, mac).contains(port),
    ensures
        exists|k: int| 0 <= k < rows.len() && #[trigger] rows[k] == (mac, port),
    decreases rows.len(),
{
    if rows.len() > 0 {
        let rest = rows.drop_last();
        let i = choose|i: int|
            0 <= i < ports_of(rows, mac).len() && ports_of(rows, mac)[i] == port;
        if rows.last().0 == mac && i == ports_of(rest, mac).len() {
            assert(rows[rows.len() - 1] == (mac, port));
        } else {
            assert(ports_of(rest, mac)[i] == port);
            lemma_ports_of_member(rest, mac, port);
            let k = choose|k: int| 0 <= k < rest.len() && #[trigger] rest[k] == (mac, port);
            assert(rows[k] == (mac, port));
        }
    }
}

/// Rows whose port numbers all differ give a device ports whose numbers all
/// differ.
pub proof fn lemma_ports_of_distinct(rows: Seq<JoinedRow>, mac: Seq<char>)
    requires
        forall|k: int, l: int|
            0 <= k < l < rows.len() ==> (#[trigger] rows[k]).1.port != (#[trigger] rows[l]).1.port,
    ensures
        forall|a: int, b: int|
            0 <= a < b < ports_of(rows, mac).len() ==> (#[trigger] ports_of(rows, mac)[a]).port != (
            #[trigger] ports_of(rows, mac)[b]).port,
    decreases rows.len(),
{
    if rows.len() > 0 {
        let rest = rows.drop_last();
        assert forall|k: int, l: int| 0 <= k < l < rest.len() implies (#[trigger] rest[k]).1.port
            != (#[trigger] rest[l]).1.port by {
            assert(rest[k] == rows[k] && rest[l] == rows[l]);
        }
        lemma_ports_of_distinct(rest, mac);
        let listed = ports_of(rows, mac);
        assert forall|a: int, b: int| 0 <= a < b < listed.len() implies (#[trigger] listed[a]).port
            != (#[trigger] listed[b]).port by {
            if rows.last().0 == mac && b == ports_of(rest, mac).len() {
                let earlier = ports_of(rest, mac)[a];
                assert(ports_of(rest, mac).contains(earlier));
                lemma_ports_of_member(rest, mac, earlier);
                let k = choose|k: int| 0 <= k < rest.len() && #[trigger] rest[k] == (mac, earlier);
                assert(rows[k] == rest[k]);
                assert(rows[k].1.port != rows[rows.len() - 1].1.port);
            } else {
                assert(listed[a] == ports_of(rest, mac)[a]);
                assert(listed[b] == ports_of(rest, mac)[b]);
            }
        }
    }
}

/// Devices whose addresses ascend strictly have different addresses.
pub proof fn lemma_ascending_distinct(devices: Seq<DeviceView>, i: int, j: int)
    requires
        ascending(devices),
        0 <= i < devices.len(),
        0 <= j < devices.len(),
        i != j,
    ensures
        devices[i].mac_address != devices[j].mac_address,
{
    if i < j {
        lemma_precedes_asymmetric(devices[i].mac_address, devices[j].mac_address);
    } else {
        lemma_precedes_asymmetric(devices[j].mac_address, devices[i].mac_address);
    }
}

/// A row of a device that the snapshot holds adds its port to that device.
proof fn lemma_grouping_extend(
    rows: Seq<JoinedRow>,
    devices: Seq<DeviceView>,
    row: JoinedRow,
    i: int,
)
    requires
        is_grouping(rows, devices),
        0 <= i < devices.len(),
        devices[i].mac_address == row.0,
    ensures
        is_grouping(
            rows.push(row),
            devices.update(
                i,
                DeviceView {
                    mac_address: row.0,
                    network_ports: devices[i].network_ports.push(row.1),
                },
            ),
        ),
{
    let more = rows.push(row);
    let grown = devices.update(
        i,
        DeviceView { mac_address: row.0, network_ports: devices[i].network_ports.push(row.1) },
    );
    assert forall|a: int, b: int| 0 <= a < b < grown.len() implies precedes(
        #[trigger] grown[a].mac_address,
        #[trigger] grown[b].mac_address,
    ) by {
        assert(grown[a].mac_address == devices[a].mac_address);
        assert(grown[b].mac_address == devices[b].mac_address);
    }
    assert forall|a: int| 0 <= a < grown.len() implies (#[trigger] grown[a]).network_ports.len() > 0
        && grown[a].network_ports == ports_of(more, grown[a].mac_address) by {
        lemma_ports_of_push(rows, row, grown[a].mac_address);
        assert(devices[a].network_ports == ports_of(rows, devices[a].mac_address));
        if a != i {
            lemma_ascending_distinct(devices, a, i);
        }
    }
    assert forall|k: int| 0 <= k < more.len() implies holds_device(
        grown,
        (#[trigger] more[k]).0,
    ) by {
        if k < rows.len() {
            assert(holds_device(devices, rows[k].0));
            let a = choose|a: int|
                0 <= a < devices.len() && #[trigger] devices[a].mac_address == rows[k].0;
            assert(grown[a].mac_address == more[k].0);
        } else {
            assert(grown[i].mac_address == more[k].0);
        }
    }
}

/// A row of a device that the snapshot does not hold adds that device, with
/// the one port, at its place in the order.
proof fn lemma_grouping_insert(
    rows: Seq<JoinedRow>,
    devices: Seq<DeviceView>,
    row: JoinedRow,
    i: int,
)
    requires
        is_grouping(rows, devices),
        0 <= i <= devices.len(),
        forall|j: int| 0 <= j < i ==> precedes(#[trigger] devices[j].mac_address, row.0),
        i < devices.len() ==> precedes(row.0, devices[i].mac_address),
    ensures
        is_grouping(
            rows.push(row),
            devices.insert(i, DeviceView { mac_address: row.0, network_ports: seq![row.1] }),
        ),
{
    let more = rows.push(row);
    let added = DeviceView { mac_address: row.0, network_ports: seq![row.1] };
    let grown = devices.insert(i, added);
    assert forall|j: int| i <= j < devices.len() implies precedes(
        row.0,
        #[trigger] devices[j].mac_address,
    ) by {
        if i < j {
            lemma_precedes_transitive(row.0, devices[i].mac_address, devices[j].mac_address);
        }
    }
    assert forall|j: int| 0 <= j < devices.len() implies #[trigger] devices[j].mac_address
        != row.0 by {
        if j < i {
            lemma_precedes_asymmetric(devices[j].mac_address, row.0);
        } else {
            lemma_precedes_asymmetric(row.0, devices[j].mac_address);
        }
    }
    assert forall|a: int, b: int| 0 <= a < b < grown.len() implies precedes(
        #[trigger] grown[a].mac_address,
        #[trigger] grown[b].mac_address,
    ) by {
        if b < i {
            assert(grown[a] == devices[a] && grown[b] == devices[b]);
        } else if b == i {
            assert(grown[a] == devices[a]);
        } else if a < i {
            assert(grown[a] == devices[a] && grown[b] == devices[b - 1]);
        } else if a == i {
            assert(grown[b] == devices[b - 1]);
        } else {
            assert(grown[a] == devices[a - 1] && grown[b] == devices[b - 1]);
        }
    }
    assert forall|a: int| 0 <= a < grown.len() implies (#[trigger] grown[a]).network_ports.len() > 0
        && grown[a].network_ports == ports_of(more, grown[a].mac_address) by {
        lemma_ports_of_push(rows, row, grown[a].mac_address);
        if a < i {
            assert(grown[a] == devices[a]);
        } else if a > i {
            assert(grown[a] == devices[a - 1]);
        } else {
            lemma_ports_of_occurs(rows, row.0);
            if ports_of(rows, row.0).len() > 0 {
                let k = choose|k: int| 0 <= k < rows.len() && (#[trigger] rows[k]).0 == row.0;
                assert(holds_device(devices, rows[k].0));
                let j = choose|j: int|
                    0 <= j < devices.len() && #[trigger] devices[j].mac_address == rows[k].0;
                assert(false);
            }
            assert(ports_of(rows, row.0).push(row.1) =~= seq![row.1]);
        }
    }
    assert forall|k: int| 0 <= k < more.len() implies holds_device(
        grown,
        (#[trigger] more[k]).0,
    ) by {
        if k < rows.len() {
            assert(holds_device(devices, rows[k].0));
            let j = choose|j: int|
                0 <= j < devices.len() && #[trigger] devices[j].mac_address == rows[k].0;
            if j < i {
                assert(grown[j].mac_address == more[k].0);
            } else {
                assert(grown[j + 1].mac_address == more[k].0);
            }
        } else {
            assert(grown[i].mac_address == more[k].0);
        }
    }
}

/// Devices that ascend and have the same addresses have them at the same
/// places.
proof fn lemma_same_addresses(a: Seq<DeviceView>, b: Seq<DeviceView>)
    requires
        ascending(a),
        ascending(b),
        forall|i: int| 0 <= i < a.len() ==> holds_device(b, (#[trigger] a[i]).mac_address),
        forall|j: int| 0 <= j < b.len() ==> holds_device(a, (#[trigger] b[j]).mac_address),
    ensures
        a.len() == b.len(),
        forall|i: int| 0 <= i < a.len() ==> (#[trigger] a[i]).mac_address == b[i].mac_address,
    decreases a.len(),
{
    if a.len() == 0 {
        if b.len() > 0 {
            assert(holds_device(a, b[0].mac_address));
        }
    } else {
        let top = a.last().mac_address;
        assert(holds_device(b, a[a.len() - 1].mac_address));
        let j = choose|j: int| 0 <= j < b.len() && #[trigger] b[j].mac_address == top;
        assert(holds_device(a, b[b.len() - 1].mac_address));
        let i = choose|i: int|
            0 <= i < a.len() && #[trigger] a[i].mac_address == b.last().mac_address;
        // The highest address of each side occurs on the other side, so the
        // two are the same address.
        if j < b.len() - 1 {
            if i < a.len() - 1 {
                lemma_precedes_transitive(top, b.last().mac_address, top);
                lemma_precedes_asymmetric(top, top);
            }
        }
        assert(b.last().mac_address == top);
        let a0 = a.drop_last();
        let b0 = b.drop_last();
        assert forall|x: int| 0 <= x < a0.len() implies holds_device(
            b0,
            (#[trigger] a0[x]).mac_address,
        ) by {
            assert(holds_device(b, a[x].mac_address));
            let y = choose|y: int|
                0 <= y < b.len() && #[trigger] b[y].mac_address == a[x].mac_address;
            lemma_ascending_distinct(a, x, a.len() - 1);
            assert(b0[y].mac_address == a0[x].mac_address);
        }
        assert forall|y: int| 0 <= y < b0.len() implies holds_device(
            a0,
            (#[trigger] b0[y]).mac_address,
        ) by {
            assert(holds_device(a, b[y].mac_address));
            let x = choose|x: int|
                0 <= x < a.len() && #[trigger] a[x].mac_address == b[y].mac_address;
            lemma_ascending_distinct(b, y, b.len() - 1);
            assert(a0[x].mac_address == b0[y].mac_address);
        }
        assert forall|x: int, y: int| 0 <= x < y < a0.len() implies precedes(
            #[trigger] a0[x].mac_address,
            #[trigger] a0[y].mac_address,
        ) by {
            assert(a0[x] == a[x] && a0[y] == a[y]);
        }
        assert forall|x: int, y: int| 0 <= x < y < b0.len() implies precedes(
            #[trigger] b0[x].mac_address,
            #[trigger] b0[y].mac_address,
        ) by {
            assert(b0[x] == b[x] && b0[y] == b[y]);
        }
        lemma_same_addresses(a0, b0);
        assert forall|x: int| 0 <= x < a.len() implies (#[trigger] a[x]).mac_address
            == b[x].mac_address by {
            if x < a.len() - 1 {
                assert(a0[x].mac_address == b0[x].mac_address);
            }
        }
    }
}

/// The snapshot is determined by the ports that the rows give each device:
/// rows that give every device the same ports in the same order have the same
/// snapshot, in whatever order the rows of different devices come.
pub proof fn lemma_grouping_determined(
    rows_a: Seq<JoinedRow>,
    rows_b: Seq<JoinedRow>,
    a: Seq<DeviceView>,
    b: Seq<DeviceView>,
)
    requires
        is_grouping(rows_a, a),
        is_grouping(rows_b, b),
        forall|mac: Seq<char>| #[trigger] ports_of(rows_a, mac) == ports_of(rows_b, mac),
    ensures
        a == b,
{
    assert forall|i: int| 0 <= i < a.len() implies holds_device(
        b,
        (#[trigger] a[i]).mac_address,
    ) by {
        let mac = a[i].mac_address;
        assert(ports_of(rows_a, mac) == ports_of(rows_b, mac));
        lemma_ports_of_occurs(rows_b, mac);
        let k = choose|k: int| 0 <= k < rows_b.len() && (#[trigger] rows_b[k]).0 == mac;
        assert(holds_device(b, rows_b[k].0));
    }
    assert forall|j: int| 0 <= j < b.len() implies holds_device(
        a,
        (#[trigger] b[j]).mac_address,
    ) by {
        let mac = b[j].mac_address;
        assert(ports_of(rows_a, mac) == ports_of(rows_b, mac));
        lemma_ports_of_occurs(rows_a, mac);
        let k = choose|k: int| 0 <= k < rows_a.len() && (#[trigger] rows_a[k]).0 == mac;
        assert(holds_device(a, rows_a[k].0));
    }
    lemma_same_addresses(a, b);
    assert forall|i: int| 0 <= i < a.len() implies a[i] == b[i] by {
        assert(a[i].mac_address == b[i].mac_address);
        assert(ports_of(rows_a, a[i].mac_address) == ports_of(rows_b, a[i].mac_address));
    }
    assert(a =~= b);
}

/// Finds the place of the device `mac` among devices that ascend: the index
/// of the device if it is there, else the index at which it belongs.
fn locate(devices: &Vec<DeviceConfig>, mac: &str) -> (place: (usize, bool))
    ensures
        place.0 <= devices.len(),
        forall|j: int| 0 <= j < place.0 ==> precedes(#[trigger] devices[j].mac_address@, mac@),
        place.1 ==> place.0 < devices.len() && devices[place.0 as int].mac_address@ == mac@,
        !place.1 && place.0 < devices.len() ==> precedes(
            mac@,
            devices[place.0 as int].mac_address@,
        ),
{
    let mut i: usize = 0;
    while i < devices.len()
        invariant
            i <= devices.len(),
            forall|j: int| 0 <= j < i ==> precedes(#[trigger] devices[j].mac_address@, mac@),
        decreases devices.len() - i,
    {
        match compare(devices[i].mac_address.as_str(), mac) {
            Order::Before => {
                i = i + 1;
            },
            Order::Same => {
                return (i, true);
            },
            Order::After => {
                proof {
                    crate::text::lemma_precedes_total(devices[i as int].mac_address@, mac@);
                }
                return (i, false);
            },
        }
    }
    (i, false)
}

/// Groups the rows that join devices and ports into a snapshot.
pub fn group_by_device(rows: &Vec<(String, NetworkPortConfig)>) -> (config: TraefikDynamicConfig)
    ensures
        is_grouping(joined_rows(rows@), config@),
{
    let mut devices: Vec<DeviceConfig> = Vec::new();
    let mut k: usize = 0;
    while k < rows.len()
        invariant
            k <= rows.len(),
            is_grouping(joined_rows(rows@).take(k as int), device_views(devices@)),
        decreases rows.len() - k,
    {
        let port = rows[k].1;
        let place = locate(&devices, rows[k].0.as_str());
        let ghost seen = joined_rows(rows@).take(k as int);
        let ghost row = joined_rows(rows@)[k as int];
        let ghost before = device_views(devices@);
        if place.1 {
            devices[place.0].network_ports.push(port);
            proof {
                lemma_grouping_extend(seen, before, row, place.0 as int);
                assert(device_views(devices@) =~= before.update(
                    place.0 as int,
                    DeviceView {
                        mac_address: row.0,
                        network_ports: before[place.0 as int].network_ports.push(row.1),
                    },
                ));
            }
        } else {
            let mut ports: Vec<NetworkPortConfig> = Vec::new();
            ports.push(port);
            let device = DeviceConfig { mac_address: rows[k].0.clone(), network_ports: ports };
            devices.insert(place.0, device);
            proof {
                lemma_grouping_insert(seen, before, row, place.0 as int);
                assert(device_views(devices@) =~= before.insert(
                    place.0 as int,
                    DeviceView { mac_address: row.0, network_ports: seq![row.1] },
                ));
            }
        }
        proof {
            assert(joined_rows(rows@).take(k + 1) =~= seen.push(row));
        }
        k = k + 1;
    }
    proof {
        assert(joined_rows(rows@).take(rows@.len() as int) =~= joined_rows(rows@));
    }
    TraefikDynamicConfig { devices }
}

/// A row of the join as the relational store hands it out, as a mathematical
/// value: the hardware address, the stored number of the port, and the name
/// of the protocol.
pub type StoredRow = (Seq<char>, i32, Seq<char>);

/// The rows of the relational store as mathematical values.
pub open spec fn stored_rows(rows: Seq<(String, i32, String)>) -> Seq<StoredRow> {
    rows.map_values(|row: (String, i32, String)| (row.0@, row.1, row.2@))
}

/// Whether the protocol of every row has a name that is known.
pub open spec fn readable(rows: Seq<StoredRow>) -> bool {
    forall|k: int| 0 <= k < rows.len() ==> Protocol::named((#[trigger] rows[k]).2) is Some
}

/// What a row of the relational store says, where its protocol is known.
pub open spec fn read_row(row: StoredRow) -> JoinedRow {
    (
        row.0,
        NetworkPortConfig {
            port: port_of_column(row.1) as u32,
            protocol: Protocol::named(row.2)->Some_0,
        },
    )
}

/// Groups the rows of the relational store into a snapshot.
///
/// The rows are refused, with `ErrorKind::NotFound`, if and only if one of
/// them names a protocol that is not known.
pub fn traefik_dynamic_config_from_rows(rows: &Vec<(String, i32, String)>) -> (res: Result<
    TraefikDynamicConfig,
    ErrorKind,
>)
    ensures
        res is Ok <==> readable(stored_rows(rows@)),
        res matches Ok(config) ==> is_grouping(
            stored_rows(rows@).map_values(|row: StoredRow| read_row(row)),
            config@,
        ),
        res matches Err(kind) ==> kind == ErrorKind::NotFound,
{
    let mut read: Vec<(String, NetworkPortConfig)> = Vec::new();
    let mut k: usize = 0;
    while k < rows.len()
        invariant
            k <= rows.len(),
            readable(stored_rows(rows@).take(k as int)),
            joined_rows(read@) == stored_rows(rows@).take(k as int).map_values(
                |row: StoredRow| read_row(row),
            ),
        decreases rows.len() - k,
    {
        let ghost row = stored_rows(rows@)[k as int];
        let protocol = match Protocol::from_str(rows[k].2.as_str()) {
            Ok(protocol) => protocol,
            Err(_) => {
                proof {
                    assert(Protocol::named(row.2) is None);
                }
                return Err(ErrorKind::NotFound);
            },
        };
        let port = NetworkPortConfig { port: port_from_column(rows[k].1), protocol };
        let ghost listed = read@;
        read.push((rows[k].0.clone(), port));
        proof {
            let seen = stored_rows(rows@).take(k as int);
            assert(stored_rows(rows@).take(k + 1) =~= seen.push(row));
            assert(joined_rows(read@) =~= joined_rows(listed).push(read_row(row)));
            assert(joined_rows(read@) =~= seen.push(row).map_values(|r: StoredRow| read_row(r)));
            assert forall|j: int| 0 <= j < k + 1 implies Protocol::named(
                (#[trigger] seen.push(row)[j]).2,
            ) is Some by {
                if j < k {
                    assert(Protocol::named(seen[j].2) is Some);
                }
            }
        }
        k = k + 1;
    }
    proof {
        assert(stored_rows(rows@).take(rows@.len() as int) =~= stored_rows(rows@));
    }
    Ok(group_by_device(&read))
}

} // verus!
