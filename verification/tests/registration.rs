use port_registry::db::{
    get_ports_by_mac, get_traefik_dynamic_config, get_used_ports, insert_mac_address,
    insert_ports, Store,
};
use port_registry::errors::ErrorKind;
use port_registry::registration::{
    perform, register, Action, Command, Engine, Registered, Reply, State,
};
use port_registry::types::{Port, Ports, Protocol, Register};

const ENGINE: Engine = Engine { start_port: 8000, max_retries: 3 };

#[test]
fn the_default_engine_begins_at_port_8000() {
    assert_eq!(Engine::default(), ENGINE);
    assert_eq!(Engine::default().start_port, port_registry::allocation::START_PORT);
    assert_eq!(Engine::default().max_retries, port_registry::registration::DEFAULT_RETRIES);
}

fn request(mac: &str, protocols: &[Protocol]) -> Register {
    Register {
        address_mac: String::from(mac),
        ports: Ports(protocols.iter().map(|p| Port { port: 0, protocol: *p }).collect()),
        ssh_key: format!("ssh-rsa AAAA {}", mac),
    }
}

fn outcome(res: Result<Registered, ErrorKind>) -> Result<(Vec<u32>, bool), ErrorKind> {
    res.map(|r| (Ports(r.ports).get_ports(), r.forward_key))
}

fn numbers(ports: Vec<Port>) -> Vec<u32> {
    ports.iter().map(|p| p.port).collect()
}

fn finished(action: Action) -> Result<(Vec<u32>, bool), ErrorKind> {
    match action {
        Action::Finish(res) => outcome(res),
        Action::Ask(command) => panic!("the engine asks for {:?}", command),
    }
}

#[test]
fn a_new_device_gets_the_first_ports_and_keeps_them() {
    let mut store = Store::new();
    let first = request("aa:bb:cc:dd:ee:ff", &[Protocol::Http, Protocol::Tcp]);
    assert_eq!(outcome(register(&ENGINE, &mut store, &first)), Ok((vec![8000, 8001], true)));
    let again = request("aa:bb:cc:dd:ee:ff", &[Protocol::Udp]);
    assert_eq!(outcome(register(&ENGINE, &mut store, &again)), Ok((vec![8000, 8001], false)));
    assert_eq!(get_used_ports(&store), Ok(vec![8000, 8001]));
}

#[test]
fn registering_twice_returns_the_same_ports_and_stores_nothing() {
    let mut store = Store::new();
    register(&ENGINE, &mut store, &request("11", &[Protocol::Tcp])).unwrap();
    let protocols = [Protocol::Https, Protocol::Udp, Protocol::Tcp];
    let first = register(&ENGINE, &mut store, &request("22", &protocols)).unwrap();
    assert_eq!(
        first.ports,
        vec![
            Port { port: 8001, protocol: Protocol::Https },
            Port { port: 8002, protocol: Protocol::Udp },
            Port { port: 8003, protocol: Protocol::Tcp },
        ]
    );
    let used = get_used_ports(&store).unwrap();
    for other in [&protocols[..], &[Protocol::Http][..], &[][..], &[Protocol::Tcp; 5][..]] {
        let again = register(&ENGINE, &mut store, &request("22", other)).unwrap();
        assert_eq!(again.ports, first.ports);
        assert!(!again.forward_key);
        assert_eq!(get_used_ports(&store).unwrap(), used);
    }
    assert_eq!(get_traefik_dynamic_config(&store).unwrap().devices.len(), 2);
}

#[test]
fn the_stored_protocols_are_those_of_the_first_request() {
    let mut store = Store::new();
    register(&ENGINE, &mut store, &request("aa", &[Protocol::Http, Protocol::Tcp])).unwrap();
    register(&ENGINE, &mut store, &request("aa", &[Protocol::Udp])).unwrap();
    let config = get_traefik_dynamic_config(&store).unwrap();
    let ports: Vec<(u32, Protocol)> =
        config.devices[0].network_ports.iter().map(|p| (p.port, p.protocol)).collect();
    assert_eq!(ports, vec![(8000, Protocol::Http), (8001, Protocol::Tcp)]);
}

#[test]
fn many_devices_share_no_port() {
    let mut store = Store::new();
    let protocols = [Protocol::Tcp, Protocol::Udp, Protocol::Http, Protocol::Https, Protocol::Tcp];
    let mut all: Vec<u32> = Vec::new();
    let mut count = 0;
    for device in 0..40 {
        let wanted = &protocols[..device % 6 % 5 + 1];
        let res = register(&ENGINE, &mut store, &request(&format!("dev-{}", device), wanted));
        let ports = numbers(res.unwrap().ports);
        assert_eq!(ports.len(), wanted.len());
        count += ports.len();
        all.extend(ports);
    }
    let mut distinct = all.clone();
    distinct.sort();
    distinct.dedup();
    assert_eq!(distinct.len(), count);
    assert_eq!(distinct, (8000..8000 + count as u32).collect::<Vec<u32>>());
    assert_eq!(get_used_ports(&store).unwrap(), all);
    let config = get_traefik_dynamic_config(&store).unwrap();
    assert_eq!(config.devices.len(), 40);
    let mut listed: Vec<u32> =
        config.devices.iter().flat_map(|d| d.network_ports.iter().map(|p| p.port)).collect();
    listed.sort();
    assert_eq!(listed, distinct);
}

#[test]
fn a_new_device_fills_the_lowest_gaps() {
    let mut store = Store::new();
    insert_mac_address(&mut store, String::from("old"), String::from("key")).unwrap();
    let held: Vec<Port> =
        [8000, 8001, 8003].iter().map(|p| Port { port: *p, protocol: Protocol::Tcp }).collect();
    insert_ports(&mut store, String::from("old"), &held).unwrap();
    let res = register(&ENGINE, &mut store, &request("new", &[Protocol::Udp]));
    assert_eq!(outcome(res), Ok((vec![8002], true)));
    let res = register(&ENGINE, &mut store, &request("newer", &[Protocol::Udp, Protocol::Tcp]));
    assert_eq!(outcome(res), Ok((vec![8004, 8005], true)));
}

#[test]
fn a_registration_without_ports_stores_the_device() {
    let mut store = Store::new();
    assert_eq!(outcome(register(&ENGINE, &mut store, &request("aa", &[]))), Ok((vec![], true)));
    let again = request("aa", &[Protocol::Tcp]);
    assert_eq!(outcome(register(&ENGINE, &mut store, &again)), Ok((vec![], false)));
    assert_eq!(get_used_ports(&store), Ok(Vec::new()));
}

#[test]
fn an_exhausted_pool_fails_the_registration_and_stores_nothing() {
    let engine = Engine { start_port: 65534, max_retries: 3 };
    let mut store = Store::new();
    let greedy = request("aa", &[Protocol::Tcp, Protocol::Udp, Protocol::Http]);
    assert_eq!(
        outcome(register(&engine, &mut store, &greedy)),
        Err(ErrorKind::ResourceExhausted)
    );
    assert_eq!(get_used_ports(&store), Ok(Vec::new()));
    assert_eq!(get_ports_by_mac(&store, String::from("aa")), Ok(Vec::new()));
    let modest = request("aa", &[Protocol::Tcp, Protocol::Udp]);
    assert_eq!(outcome(register(&engine, &mut store, &modest)), Ok((vec![65534, 65535], true)));
    let late = request("bb", &[Protocol::Tcp]);
    assert_eq!(outcome(register(&engine, &mut store, &late)), Err(ErrorKind::ResourceExhausted));
    assert_eq!(insert_mac_address(&mut store, String::from("bb"), String::from("k")), Ok(()));
}

#[test]
fn the_engine_begins_by_storing_the_device() {
    let req = request("aa", &[Protocol::Tcp]);
    let (state, action) = ENGINE.start(&req);
    assert!(matches!(state, State::AwaitingDevice));
    assert!(matches!(action, Action::Ask(Command::InsertMacAddress)));
}

#[test]
fn a_request_without_an_address_is_refused_before_the_store_is_asked() {
    let req = request("", &[Protocol::Tcp]);
    let (state, action) = ENGINE.start(&req);
    assert!(matches!(state, State::Done));
    assert_eq!(finished(action), Err(ErrorKind::InvalidInput));
    let mut store = Store::new();
    assert_eq!(outcome(register(&ENGINE, &mut store, &req)), Err(ErrorKind::InvalidInput));
    assert_eq!(get_used_ports(&store), Ok(Vec::new()));
    assert_eq!(insert_mac_address(&mut store, String::new(), String::from("k")), Ok(()));
}

#[test]
fn the_engine_walks_a_new_device_through_the_store() {
    let req = request("aa", &[Protocol::Http, Protocol::Tcp]);
    let (state, _) = ENGINE.start(&req);
    let (state, action) = ENGINE.step(state, &req, Reply::MacAddressInserted(Ok(())));
    assert!(matches!(state, State::AwaitingUsedPorts { retries: 3 }));
    assert!(matches!(action, Action::Ask(Command::GetUsedPorts)));
    let (state, action) = ENGINE.step(state, &req, Reply::UsedPorts(Ok(vec![8001, 8000, 8003])));
    let expected = vec![
        Port { port: 8002, protocol: Protocol::Http },
        Port { port: 8004, protocol: Protocol::Tcp },
    ];
    match (&state, &action) {
        (State::AwaitingInsert { ports, retries: 3 }, Action::Ask(Command::InsertPorts(asked))) => {
            assert_eq!(ports, &expected);
            assert_eq!(asked, &expected);
        }
        other => panic!("unexpected {:?}", other),
    }
    let (state, action) = ENGINE.step(state, &req, Reply::PortsInserted(Ok(())));
    assert!(matches!(state, State::Done));
    assert_eq!(finished(action), Ok((vec![8002, 8004], true)));
}

#[test]
fn the_engine_answers_a_known_device_with_its_ports() {
    let req = request("aa", &[Protocol::Udp]);
    let (state, _) = ENGINE.start(&req);
    let reply = Reply::MacAddressInserted(Err(ErrorKind::Conflict));
    let (state, action) = ENGINE.step(state, &req, reply);
    assert!(matches!(state, State::AwaitingOwnPorts));
    assert!(matches!(action, Action::Ask(Command::GetPortsByMac)));
    let held = vec![
        Port { port: 8000, protocol: Protocol::Http },
        Port { port: 8001, protocol: Protocol::Tcp },
    ];
    let (state, action) = ENGINE.step(state, &req, Reply::PortsByMac(Ok(held.clone())));
    assert!(matches!(state, State::Done));
    match action {
        Action::Finish(Ok(registered)) => {
            assert_eq!(registered.ports, held);
            assert!(!registered.forward_key);
        }
        other => panic!("unexpected {:?}", other),
    }
}

#[test]
fn the_engine_allocates_anew_when_a_port_was_taken_meanwhile() {
    let engine = Engine { start_port: 8000, max_retries: 1 };
    let req = request("aa", &[Protocol::Tcp]);
    let state = State::AwaitingInsert {
        ports: vec![Port { port: 8000, protocol: Protocol::Tcp }],
        retries: 1,
    };
    let (state, action) = engine.step(state, &req, Reply::PortsInserted(Err(ErrorKind::Conflict)));
    assert!(matches!(state, State::AwaitingUsedPorts { retries: 0 }));
    assert!(matches!(action, Action::Ask(Command::GetUsedPorts)));
    let (state, action) = engine.step(state, &req, Reply::UsedPorts(Ok(vec![8000])));
    match (&state, &action) {
        (State::AwaitingInsert { ports, retries: 0 }, Action::Ask(Command::InsertPorts(asked))) => {
            assert_eq!(ports, &vec![Port { port: 8001, protocol: Protocol::Tcp }]);
            assert_eq!(asked, ports);
        }
        other => panic!("unexpected {:?}", other),
    }
    let (state, action) = engine.step(state, &req, Reply::PortsInserted(Err(ErrorKind::Conflict)));
    assert!(matches!(state, State::Done));
    assert_eq!(finished(action), Err(ErrorKind::Conflict));
}

#[test]
fn the_engine_reports_an_exhausted_pool() {
    let engine = Engine { start_port: 65535, max_retries: 3 };
    let req = request("aa", &[Protocol::Tcp]);
    let state = State::AwaitingUsedPorts { retries: 3 };
    let (state, action) = engine.step(state, &req, Reply::UsedPorts(Ok(vec![65535])));
    assert!(matches!(state, State::Done));
    assert_eq!(finished(action), Err(ErrorKind::ResourceExhausted));
}

#[test]
fn the_engine_hands_on_the_failures_of_the_store() {
    let req = request("aa", &[Protocol::Tcp]);
    for kind in [ErrorKind::Unavailable, ErrorKind::NotFound, ErrorKind::InvalidInput] {
        let (state, action) =
            ENGINE.step(State::AwaitingDevice, &req, Reply::MacAddressInserted(Err(kind)));
        assert!(matches!(state, State::Done));
        assert_eq!(finished(action), Err(kind));
        let (_, action) = ENGINE.step(State::AwaitingOwnPorts, &req, Reply::PortsByMac(Err(kind)));
        assert_eq!(finished(action), Err(kind));
        let state = State::AwaitingUsedPorts { retries: 3 };
        let (_, action) = ENGINE.step(state, &req, Reply::UsedPorts(Err(kind)));
        assert_eq!(finished(action), Err(kind));
        let state = State::AwaitingInsert { ports: Vec::new(), retries: 3 };
        let (_, action) = ENGINE.step(state, &req, Reply::PortsInserted(Err(kind)));
        assert_eq!(finished(action), Err(kind));
    }
    let (_, action) =
        ENGINE.step(State::AwaitingOwnPorts, &req, Reply::PortsByMac(Err(ErrorKind::Conflict)));
    assert_eq!(finished(action), Err(ErrorKind::Conflict));
}

#[test]
fn the_engine_refuses_a_reply_that_answers_another_call() {
    let req = request("aa", &[Protocol::Tcp]);
    let (state, action) = ENGINE.step(State::AwaitingDevice, &req, Reply::UsedPorts(Ok(vec![])));
    assert!(matches!(state, State::Done));
    assert_eq!(finished(action), Err(ErrorKind::InvalidInput));
    let (_, action) = ENGINE.step(State::Done, &req, Reply::PortsInserted(Ok(())));
    assert_eq!(finished(action), Err(ErrorKind::InvalidInput));
    let state = State::AwaitingUsedPorts { retries: 3 };
    let (_, action) = ENGINE.step(state, &req, Reply::PortsByMac(Ok(Vec::new())));
    assert_eq!(finished(action), Err(ErrorKind::InvalidInput));
    let state = State::AwaitingInsert { ports: Vec::new(), retries: 3 };
    let (_, action) = ENGINE.step(state, &req, Reply::MacAddressInserted(Ok(())));
    assert_eq!(finished(action), Err(ErrorKind::InvalidInput));
}

#[test]
fn perform_makes_the_call_on_the_store() {
    let mut store = Store::new();
    let req = request("aa", &[Protocol::Tcp]);
    let reply = perform(&mut store, &req, &Command::InsertMacAddress);
    assert!(matches!(reply, Reply::MacAddressInserted(Ok(()))));
    let reply = perform(&mut store, &req, &Command::InsertMacAddress);
    assert!(matches!(reply, Reply::MacAddressInserted(Err(ErrorKind::Conflict))));
    let ports = vec![Port { port: 8000, protocol: Protocol::Tcp }];
    let reply = perform(&mut store, &req, &Command::InsertPorts(ports.clone()));
    assert!(matches!(reply, Reply::PortsInserted(Ok(()))));
    let reply = perform(&mut store, &req, &Command::InsertPorts(ports));
    assert!(matches!(reply, Reply::PortsInserted(Err(ErrorKind::Conflict))));
    match perform(&mut store, &req, &Command::GetUsedPorts) {
        Reply::UsedPorts(res) => assert_eq!(res, Ok(vec![8000])),
        other => panic!("unexpected {:?}", other),
    }
    match perform(&mut store, &req, &Command::GetPortsByMac) {
        Reply::PortsByMac(res) => {
            assert_eq!(res, Ok(vec![Port { port: 8000, protocol: Protocol::Tcp }]))
        }
        other => panic!("unexpected {:?}", other),
    }
    let stranger = request("bb", &[]);
    let reply = perform(&mut store, &stranger, &Command::InsertPorts(Vec::new()));
    assert!(matches!(reply, Reply::PortsInserted(Err(ErrorKind::NotFound))));
}

/// Drives one registration by one call on the store.
fn advance(store: &mut Store, req: &Register, state: State, action: Action) -> (State, Action) {
    match action {
        Action::Ask(command) => {
            let reply = perform(store, req, &command);
            ENGINE.step(state, req, reply)
        }
        done => (state, done),
    }
}

#[test]
fn interleaved_registrations_share_no_port() {
    let mut store = Store::new();
    let one = request("one", &[Protocol::Tcp, Protocol::Udp]);
    let two = request("two", &[Protocol::Http, Protocol::Https]);
    let (s1, a1) = ENGINE.start(&one);
    let (s2, a2) = ENGINE.start(&two);
    // Both store their device and read the used ports before either stores a port.
    let (s1, a1) = advance(&mut store, &one, s1, a1);
    let (s2, a2) = advance(&mut store, &two, s2, a2);
    let (s1, a1) = advance(&mut store, &one, s1, a1);
    let (s2, a2) = advance(&mut store, &two, s2, a2);
    assert!(matches!(&a1, Action::Ask(Command::InsertPorts(p)) if p[0].port == 8000));
    assert!(matches!(&a2, Action::Ask(Command::InsertPorts(p)) if p[0].port == 8000));
    // The first to store its ports has them; the second is refused and allocates anew.
    let (_, a1) = advance(&mut store, &one, s1, a1);
    assert_eq!(finished(a1), Ok((vec![8000, 8001], true)));
    let (s2, a2) = advance(&mut store, &two, s2, a2);
    assert!(matches!(s2, State::AwaitingUsedPorts { retries: 2 }));
    let (s2, a2) = advance(&mut store, &two, s2, a2);
    let (_, a2) = advance(&mut store, &two, s2, a2);
    assert_eq!(finished(a2), Ok((vec![8002, 8003], true)));
    assert_eq!(get_used_ports(&store), Ok(vec![8000, 8001, 8002, 8003]));
    assert_eq!(
        get_ports_by_mac(&store, String::from("one")).map(numbers),
        Ok(vec![8000, 8001])
    );
    assert_eq!(
        get_ports_by_mac(&store, String::from("two")),
        Ok(vec![
            Port { port: 8002, protocol: Protocol::Http },
            Port { port: 8003, protocol: Protocol::Https },
        ])
    );
}
