//! What holds of every registration.

use crate::allocation::{
    first_fit_picks, free_ports, in_pool, lemma_first_fit_ascends, lemma_first_fit_picks,
};
use crate::db::grouping::{
    lemma_ports_of_concat, lemma_ports_of_occurs, lemma_ports_of_own_rows, ports_of, JoinedRow,
};
use crate::db::{
    device_index, insert_ports_outcome, joined, knows, lemma_owned_ports_disjoint,
    lemma_unknown_device_owns_nothing, new_assignments, owned_ports, used_ports, valid_port,
    well_formed, StoreView,
};
use crate::errors::ErrorKind;
use crate::registration::{
    failed, perform_model, register_model, step_model, with_device, CommandView, Engine,
    ReplyView, StateView,
};
use crate::types::{with_numbers, NetworkPortConfig, Port, RegisterView};
use vstd::prelude::*;

verus! {

/// The rows that join the ports `ports` with the device `mac`.
pub open spec fn own_rows(mac: Seq<char>, ports: Seq<Port>) -> Seq<JoinedRow> {
    ports.map_values(
        |p: Port| (mac, NetworkPortConfig { port: p.port, protocol: p.protocol }),
    )
}

/// The contents of a store after it has stored a new device with its ports.
pub open spec fn with_registration(s: StoreView, request: RegisterView, ports: Seq<Port>) -> StoreView {
    StoreView {
        devices: with_device(s, request).devices,
        assignments: s.assignments + new_assignments(s.devices.len() as int, ports),
    }
}

/// Storing a new device with its ports adds the rows of that device to the
/// join and leaves the rows of the other devices as they are.
pub proof fn lemma_joined_with_registration(s: StoreView, request: RegisterView, ports: Seq<Port>)
    requires
        well_formed(s),
    ensures
        joined(with_registration(s, request, ports)) == joined(s) + own_rows(
            request.address_mac,
            ports,
        ),
{
    let after = with_registration(s, request, ports);
    let rows = joined(s) + own_rows(request.address_mac, ports);
    assert(joined(after).len() == rows.len());
    assert forall|k: int| 0 <= k < rows.len() implies joined(after)[k] == rows[k] by {
        if k < s.assignments.len() {
            assert(s.assignments[k].owner < s.devices.len());
            assert(after.assignments[k] == s.assignments[k]);
        } else {
            assert(after.assignments[k].owner == s.devices.len());
            assert(after.devices[after.assignments[k].owner].address_mac == request.address_mac);
        }
    }
    assert(joined(after) =~= rows);
}

/// After a new device has been stored with its ports, it owns these ports,
/// in their order, and every other device owns what it did.
pub proof fn lemma_owned_with_registration(
    s: StoreView,
    request: RegisterView,
    ports: Seq<Port>,
    mac: Seq<char>,
)
    requires
        well_formed(s),
        !knows(s, request.address_mac),
    ensures
        owned_ports(with_registration(s, request, ports), mac) == if mac == request.address_mac {
            ports
        } else {
            owned_ports(s, mac)
        },
{
    let after = with_registration(s, request, ports);
    let fresh = own_rows(request.address_mac, ports);
    lemma_joined_with_registration(s, request, ports);
    lemma_ports_of_concat(joined(s), fresh, mac);
    if mac == request.address_mac {
        lemma_unknown_device_owns_nothing(s, mac);
        lemma_ports_of_occurs(joined(s), mac);
        assert(ports_of(joined(s), mac) =~= Seq::<NetworkPortConfig>::empty());
        lemma_ports_of_own_rows(fresh, mac);
        assert(owned_ports(after, mac) =~= ports);
    } else {
        lemma_ports_of_occurs(fresh, mac);
        assert(ports_of(fresh, mac) =~= Seq::<NetworkPortConfig>::empty());
        assert(ports_of(joined(after), mac) =~= ports_of(joined(s), mac));
    }
}

/// Whatever call reaches the store, and in whatever order the calls of
/// several registrations reach it, the store keeps its rules: no port is
/// assigned twice, no device is stored twice, and nothing that was stored is
/// changed or removed.
pub proof fn lemma_perform_keeps_rules(s: StoreView, request: RegisterView, command: CommandView)
    requires
        well_formed(s),
    ensures
        well_formed(perform_model(s, request, command).0),
        s.devices.is_prefix_of(perform_model(s, request, command).0.devices),
        s.assignments.is_prefix_of(perform_model(s, request, command).0.assignments),
{
    let after = perform_model(s, request, command).0;
    let mac = request.address_mac;
    match command {
        CommandView::InsertMacAddress => {
            if !knows(s, mac) {
                assert forall|i: int, j: int| 0 <= i < j < after.devices.len() implies #[trigger]
                    after.devices[i].address_mac != #[trigger] after.devices[j].address_mac by {
                    if j == s.devices.len() {
                        assert(s.devices[i].address_mac != mac);
                    }
                }
            }
        },
        CommandView::InsertPorts(ports) => {
            if insert_ports_outcome(s, mac, ports) is Ok {
                let n = s.assignments.len() as int;
                let owner = device_index(s, mac);
                assert forall|a: int, b: int| 0 <= a < b < after.assignments.len() implies #[trigger]
                    after.assignments[a].port != #[trigger] after.assignments[b].port by {
                    if b < n {
                    } else if a < n {
                        assert(used_ports(s)[a] == s.assignments[a].port);
                        assert(after.assignments[b].port == ports[b - n].port);
                    } else {
                        assert(after.assignments[a].port == ports[a - n].port);
                        assert(after.assignments[b].port == ports[b - n].port);
                    }
                }
                assert forall|a: int| 0 <= a < after.assignments.len() implies (
                #[trigger] after.assignments[a]).owner < after.devices.len() && valid_port(
                    after.assignments[a].port,
                ) by {
                    if a >= n {
                        assert(after.assignments[a].port == ports[a - n].port);
                    }
                }
            }
        },
        _ => {},
    }
}

/// A call on the store, with the registration that it is made for.
pub type Call = (RegisterView, CommandView);

/// The contents of a store after calls have been made on it one after the
/// other, by whatever registrations and in whatever order.
pub open spec fn after_calls(s: StoreView, calls: Seq<Call>) -> StoreView
    decreases calls.len(),
{
    if calls.len() == 0 {
        s
    } else {
        perform_model(after_calls(s, calls.drop_last()), calls.last().0, calls.last().1).0
    }
}

/// Whether the call at the place `i` asked the store to assign `ports`, and
/// the store did.
pub open spec fn accepted(s: StoreView, calls: Seq<Call>, i: int, ports: Seq<Port>) -> bool {
    &&& 0 <= i < calls.len()
    &&& calls[i].1 == CommandView::InsertPorts(ports)
    &&& insert_ports_outcome(after_calls(s, calls.take(i)), calls[i].0.address_mac, ports) is Ok
}

/// Calls leave the store keeping its rules, and the store only grows.
pub proof fn lemma_calls_keep_rules(s: StoreView, calls: Seq<Call>, n: int)
    requires
        well_formed(s),
        0 <= n <= calls.len(),
    ensures
        well_formed(after_calls(s, calls)),
        after_calls(s, calls.take(n)).devices.is_prefix_of(after_calls(s, calls).devices),
        after_calls(s, calls.take(n)).assignments.is_prefix_of(after_calls(s, calls).assignments),
    decreases calls.len(),
{
    if n == calls.len() {
        assert(calls.take(n) =~= calls);
        if calls.len() > 0 {
            lemma_calls_keep_rules(s, calls.drop_last(), 0);
            lemma_perform_keeps_rules(
                after_calls(s, calls.drop_last()),
                calls.last().0,
                calls.last().1,
            );
        }
    } else {
        let earlier = calls.drop_last();
        lemma_calls_keep_rules(s, earlier, n);
        assert(earlier.take(n) =~= calls.take(n));
        lemma_perform_keeps_rules(after_calls(s, earlier), calls.last().0, calls.last().1);
    }
}

/// Ports are unique under every interleaving: whatever calls reach the store
/// and in whatever order, two lists of ports that the store accepted have no
/// port number in common. So registrations that run at the same time never
/// return the same port.
pub proof fn lemma_accepted_ports_disjoint(
    s: StoreView,
    calls: Seq<Call>,
    i: int,
    j: int,
    first: Seq<Port>,
    second: Seq<Port>,
)
    requires
        well_formed(s),
        i < j,
        accepted(s, calls, i, first),
        accepted(s, calls, j, second),
    ensures
        forall|p: Port, q: Port| first.contains(p) && second.contains(q) ==> p.port != q.port,
{
    let before_first = after_calls(s, calls.take(i));
    let after_first = after_calls(s, calls.take(i + 1));
    let before_second = after_calls(s, calls.take(j));
    assert(calls.take(i + 1).drop_last() =~= calls.take(i));
    assert(calls.take(i + 1).last() == calls[i]);
    assert(calls.take(j).take(i + 1) =~= calls.take(i + 1));
    lemma_calls_keep_rules(s, calls.take(j), i + 1);
    assert forall|p: Port, q: Port| first.contains(p) && second.contains(q) implies p.port
        != q.port by {
        let a = choose|a: int| 0 <= a < first.len() && first[a] == p;
        let b = choose|b: int| 0 <= b < second.len() && second[b] == q;
        let place = before_first.assignments.len() + a;
        assert(after_first.assignments[place].port == p.port);
        assert(before_second.assignments[place] == after_first.assignments[place]);
        assert(used_ports(before_second)[place] == p.port);
        assert(!used_ports(before_second).contains(second[b].port));
    }
}

/// A registration leaves the store keeping its rules, and changes or removes
/// nothing that was stored.
pub proof fn lemma_register_keeps_rules(engine: Engine, s: StoreView, request: RegisterView)
    requires
        well_formed(s),
    ensures
        well_formed(register_model(engine, s, request).0),
        s.devices.is_prefix_of(register_model(engine, s, request).0.devices),
        s.assignments.is_prefix_of(register_model(engine, s, request).0.assignments),
{
    let mac = request.address_mac;
    if mac.len() > 0 && !knows(s, mac) && request.ports.len() <= free_ports(
        used_ports(s),
        engine.start_port,
    ).len() {
        let picks = first_fit_picks(used_ports(s), request.ports.len(), engine.start_port);
        let ports = with_numbers(request.ports, picks);
        let stored = with_device(s, request);
        lemma_perform_keeps_rules(s, request, CommandView::InsertMacAddress);
        assert(stored.devices[s.devices.len() as int].address_mac == mac);
        assert(knows(stored, mac));
        let chosen = device_index(stored, mac);
        if chosen < s.devices.len() {
            assert(s.devices[chosen].address_mac == mac);
        }
        lemma_first_fit_picks(used_ports(s), request.ports.len(), engine.start_port);
        lemma_first_fit_ascends(used_ports(s), engine.start_port, picks);
        assert(used_ports(stored) == used_ports(s));
        assert forall|i: int| 0 <= i < ports.len() implies in_pool(
            engine.start_port,
            (#[trigger] ports[i]).port,
        ) && !used_ports(s).contains(ports[i].port) by {
            assert(free_ports(used_ports(s), engine.start_port).contains(picks[i]));
        }
        assert forall|i: int, j: int| 0 <= i < j < ports.len() implies (#[trigger] ports[i]).port
            != (#[trigger] ports[j]).port by {
            assert(picks[i] < picks[j]);
        }
        assert(insert_ports_outcome(stored, mac, ports) is Ok);
        lemma_perform_keeps_rules(stored, request, CommandView::InsertPorts(ports));
        assert(perform_model(stored, request, CommandView::InsertPorts(ports)).0
            == register_model(engine, s, request).0);
    }
}

/// A new device is answered in the order of its request: the ports that are
/// returned have the requested protocols, one for one, and their numbers are
/// free ports of the pool that ascend.
pub proof fn lemma_new_device_answered_in_order(engine: Engine, s: StoreView, request: RegisterView)
    requires
        register_model(engine, s, request).1 matches Ok(registered) && registered.forward_key,
    ensures
        ({
            let ports = register_model(engine, s, request).1->Ok_0.ports;
            &&& ports.len() == request.ports.len()
            &&& forall|i: int|
                0 <= i < ports.len() ==> (#[trigger] ports[i]).protocol == request.ports[i].protocol
            &&& forall|i: int|
                0 <= i < ports.len() ==> in_pool(engine.start_port, (#[trigger] ports[i]).port)
                    && !used_ports(s).contains(ports[i].port)
            &&& forall|i: int, j: int|
                0 <= i < j < ports.len() ==> (#[trigger] ports[i]).port < (#[trigger] ports[j]).port
        }),
{
    let picks = first_fit_picks(used_ports(s), request.ports.len(), engine.start_port);
    let ports = with_numbers(request.ports, picks);
    lemma_first_fit_picks(used_ports(s), request.ports.len(), engine.start_port);
    lemma_first_fit_ascends(used_ports(s), engine.start_port, picks);
    assert forall|i: int| 0 <= i < ports.len() implies in_pool(
        engine.start_port,
        (#[trigger] ports[i]).port,
    ) && !used_ports(s).contains(ports[i].port) by {
        assert(free_ports(used_ports(s), engine.start_port).contains(picks[i]));
    }
    assert forall|i: int, j: int| 0 <= i < j < ports.len() implies (#[trigger] ports[i]).port < (
    #[trigger] ports[j]).port by {
        assert(picks[i] < picks[j]);
    }
}

/// No failure of the store is swallowed: whatever the store fails with ends
/// the registration with that failure. The two exceptions are the conflicts
/// that the engine recovers from, a device that is stored already and, while
/// retries are left, a port that was taken in the meantime.
pub proof fn lemma_store_failures_surface(
    engine: Engine,
    requested: Seq<Port>,
    ports: Seq<Port>,
    retries: u32,
    kind: ErrorKind,
)
    ensures
        kind != ErrorKind::Conflict ==> step_model(
            engine,
            StateView::AwaitingDevice,
            requested,
            ReplyView::MacAddressInserted(Err(kind)),
        ) == failed(kind),
        step_model(
            engine,
            StateView::AwaitingOwnPorts,
            requested,
            ReplyView::PortsByMac(Err(kind)),
        ) == failed(kind),
        step_model(
            engine,
            StateView::AwaitingUsedPorts { retries },
            requested,
            ReplyView::UsedPorts(Err(kind)),
        ) == failed(kind),
        kind != ErrorKind::Conflict || retries == 0 ==> step_model(
            engine,
            StateView::AwaitingInsert { ports, retries },
            requested,
            ReplyView::PortsInserted(Err(kind)),
        ) == failed(kind),
{
}

/// After a registration has succeeded the store holds the device, and the
/// ports of the device in the store are the ports that were returned.
pub proof fn lemma_registered_ports_owned(engine: Engine, s: StoreView, request: RegisterView)
    requires
        well_formed(s),
        register_model(engine, s, request).1 is Ok,
    ensures
        knows(register_model(engine, s, request).0, request.address_mac),
        owned_ports(register_model(engine, s, request).0, request.address_mac) == register_model(
            engine,
            s,
            request,
        ).1->Ok_0.ports,
{
    let mac = request.address_mac;
    let after = register_model(engine, s, request).0;
    if !knows(s, mac) {
        let picks = first_fit_picks(used_ports(s), request.ports.len(), engine.start_port);
        let ports = with_numbers(request.ports, picks);
        lemma_first_fit_picks(used_ports(s), request.ports.len(), engine.start_port);
        assert(after == with_registration(s, request, ports));
        lemma_owned_with_registration(s, request, ports, mac);
        assert(after.devices[s.devices.len() as int].address_mac == mac);
    }
}

/// Registration is idempotent: once a device has been registered, registering
/// it again, with the same request or another one and however the engine is
/// configured by then, returns the same ports and stores nothing.
pub proof fn lemma_register_idempotent(
    engine: Engine,
    later: Engine,
    s: StoreView,
    first: RegisterView,
    second: RegisterView,
)
    requires
        well_formed(s),
        first.address_mac == second.address_mac,
        register_model(engine, s, first).1 is Ok,
    ensures
        ({
            let (stored, registered) = register_model(engine, s, first);
            let (again, repeated) = register_model(later, stored, second);
            &&& again == stored
            &&& repeated is Ok
            &&& repeated->Ok_0.ports == registered->Ok_0.ports
            &&& !repeated->Ok_0.forward_key
        }),
{
    lemma_registered_ports_owned(engine, s, first);
}

/// A registration leaves the ports of every other device as they are.
pub proof fn lemma_register_leaves_others(
    engine: Engine,
    s: StoreView,
    request: RegisterView,
    other: Seq<char>,
)
    requires
        well_formed(s),
        other != request.address_mac,
    ensures
        owned_ports(register_model(engine, s, request).0, other) == owned_ports(s, other),
{
    let mac = request.address_mac;
    if mac.len() > 0 && !knows(s, mac) && request.ports.len() <= free_ports(
        used_ports(s),
        engine.start_port,
    ).len() {
        let picks = first_fit_picks(used_ports(s), request.ports.len(), engine.start_port);
        let ports = with_numbers(request.ports, picks);
        assert(register_model(engine, s, request).0 == with_registration(s, request, ports));
        lemma_owned_with_registration(s, request, ports, other);
    }
}

/// Ports are unique over all devices: the ports that two registrations of
/// different devices return have no port in common, however the engine is
/// configured for each.
pub proof fn lemma_registrations_disjoint(
    engine: Engine,
    later: Engine,
    s: StoreView,
    first: RegisterView,
    second: RegisterView,
)
    requires
        well_formed(s),
        first.address_mac != second.address_mac,
        register_model(engine, s, first).1 is Ok,
        register_model(later, register_model(engine, s, first).0, second).1 is Ok,
    ensures
        ({
            let (stored, a) = register_model(engine, s, first);
            let (_, b) = register_model(later, stored, second);
            forall|p: Port, q: Port|
                a->Ok_0.ports.contains(p) && b->Ok_0.ports.contains(q) ==> p.port != q.port
        }),
{
    let (stored, a) = register_model(engine, s, first);
    let (last, b) = register_model(later, stored, second);
    lemma_register_keeps_rules(engine, s, first);
    lemma_register_keeps_rules(later, stored, second);
    lemma_registered_ports_owned(engine, s, first);
    lemma_registered_ports_owned(later, stored, second);
    lemma_register_leaves_others(later, stored, second, first.address_mac);
    lemma_owned_ports_disjoint(last, first.address_mac, second.address_mac);
}

} // verus!
