use port_registry::allocation::{first_fit, MAX_PORT, MIN_PORT, START_PORT};
use port_registry::errors::ErrorKind;
use port_registry::types::{Port, Ports, Protocol, Register};

fn request(protocols: &[Protocol]) -> Register {
    Register {
        address_mac: String::from("aa:bb:cc:dd:ee:ff"),
        ports: Ports(protocols.iter().map(|p| Port { port: 0, protocol: *p }).collect()),
        ssh_key: String::from("ssh-rsa AAAA"),
    }
}

#[test]
fn constants_have_their_values() {
    assert_eq!(START_PORT, 8000);
    assert_eq!(MIN_PORT, 1);
    assert_eq!(MAX_PORT, 65535);
}

#[test]
fn first_fit_fills_the_gap() {
    let used = vec![8000, 8001, 8003];
    assert_eq!(first_fit(&used, 1, 8000), Ok(vec![8002]));
}

#[test]
fn first_fit_goes_on_after_the_gap() {
    let used = vec![8000, 8001, 8003];
    assert_eq!(first_fit(&used, 3, 8000), Ok(vec![8002, 8004, 8005]));
}

#[test]
fn first_fit_on_an_unused_pool_counts_up_from_the_baseline() {
    assert_eq!(first_fit(&Vec::new(), 4, 8000), Ok(vec![8000, 8001, 8002, 8003]));
}

#[test]
fn first_fit_ignores_order_and_repeats_of_used_ports() {
    let used = vec![8003, 8000, 8003, 8001, 8000];
    assert_eq!(first_fit(&used, 2, 8000), Ok(vec![8002, 8004]));
}

#[test]
fn first_fit_ignores_used_ports_outside_the_pool() {
    let used = vec![0, 1, 7999, 65536, 4_000_000_000];
    assert_eq!(first_fit(&used, 2, 8000), Ok(vec![8000, 8001]));
}

#[test]
fn first_fit_of_no_ports_is_empty() {
    assert_eq!(first_fit(&vec![8000], 0, 8000), Ok(Vec::new()));
    assert_eq!(first_fit(&vec![65535], 0, 65535), Ok(Vec::new()));
}

#[test]
fn first_fit_uses_the_configured_baseline() {
    assert_eq!(first_fit(&vec![9000], 2, 9000), Ok(vec![9001, 9002]));
}

#[test]
fn first_fit_never_picks_port_zero() {
    assert_eq!(first_fit(&Vec::new(), 2, 0), Ok(vec![1, 2]));
}

#[test]
fn first_fit_hands_out_the_last_port() {
    assert_eq!(first_fit(&Vec::new(), 1, 65535), Ok(vec![65535]));
    assert_eq!(first_fit(&vec![65534], 1, 65534), Ok(vec![65535]));
}

#[test]
fn first_fit_fails_when_the_pool_is_exhausted() {
    assert_eq!(first_fit(&vec![65535], 1, 65535), Err(ErrorKind::ResourceExhausted));
    assert_eq!(first_fit(&vec![65534], 2, 65534), Err(ErrorKind::ResourceExhausted));
    assert_eq!(first_fit(&Vec::new(), 3, 65534), Err(ErrorKind::ResourceExhausted));
}

#[test]
fn first_fit_fails_beyond_the_last_port() {
    assert_eq!(first_fit(&Vec::new(), 1, 65536), Err(ErrorKind::ResourceExhausted));
    assert_eq!(first_fit(&Vec::new(), 1, u32::MAX), Err(ErrorKind::ResourceExhausted));
}

#[test]
fn first_fit_serves_the_whole_pool_and_no_more() {
    let all = first_fit(&Vec::new(), 57536, 8000).unwrap();
    assert_eq!(all.len(), 57536);
    assert_eq!(all[0], 8000);
    assert_eq!(all[57535], 65535);
    assert!(all.windows(2).all(|w| w[0] + 1 == w[1]));
    assert_eq!(first_fit(&Vec::new(), 57537, 8000), Err(ErrorKind::ResourceExhausted));
    assert_eq!(first_fit(&all, 1, 8000), Err(ErrorKind::ResourceExhausted));
}

#[test]
fn get_ports_numbers_the_request_in_order() {
    let mut register = request(&[Protocol::Http, Protocol::Tcp, Protocol::Udp]);
    assert_eq!(register.get_ports(vec![8000, 8001, 8003]), Ok(()));
    assert_eq!(
        register.ports.get(),
        vec![
            Port { port: 8002, protocol: Protocol::Http },
            Port { port: 8004, protocol: Protocol::Tcp },
            Port { port: 8005, protocol: Protocol::Udp },
        ]
    );
    assert_eq!(register.ports.get_ports(), vec![8002, 8004, 8005]);
    assert_eq!(register.address_mac, "aa:bb:cc:dd:ee:ff");
    assert_eq!(register.ssh_key, "ssh-rsa AAAA");
}

#[test]
fn get_ports_overwrites_the_numbers_that_were_sent() {
    let mut register = request(&[Protocol::Https]);
    register.ports.0[0].port = 22;
    assert_eq!(register.get_ports(Vec::new()), Ok(()));
    assert_eq!(register.ports.get_ports(), vec![8000]);
}

#[test]
fn get_ports_leaves_the_request_alone_when_the_pool_is_exhausted() {
    let used: Vec<u32> = (8000..=65535).collect();
    let mut register = request(&[Protocol::Tcp]);
    register.ports.0[0].port = 17;
    assert_eq!(register.get_ports(used), Err(ErrorKind::ResourceExhausted));
    assert_eq!(register.ports.get(), vec![Port { port: 17, protocol: Protocol::Tcp }]);
}

#[test]
fn get_ports_of_an_empty_request_succeeds() {
    let used: Vec<u32> = (8000..=65535).collect();
    let mut register = request(&[]);
    assert_eq!(register.get_ports(used), Ok(()));
    assert_eq!(register.ports.get_ports(), Vec::<u32>::new());
}

#[test]
fn assign_starts_at_the_given_baseline() {
    let mut ports = Ports(vec![
        Port { port: 0, protocol: Protocol::Udp },
        Port { port: 0, protocol: Protocol::Udp },
    ]);
    assert_eq!(ports.assign(&vec![100, 102], 100), Ok(()));
    assert_eq!(ports.get_ports(), vec![101, 103]);
    assert_eq!(ports.assign(&vec![65535], 65535), Err(ErrorKind::ResourceExhausted));
    assert_eq!(ports.get_ports(), vec![101, 103]);
}

#[test]
fn ports_get_copies_the_ports() {
    let ports = Ports(vec![
        Port { port: 1, protocol: Protocol::Tcp },
        Port { port: 2, protocol: Protocol::Https },
    ]);
    assert_eq!(ports.get(), ports.0);
    assert_eq!(ports.get_ports(), vec![1, 2]);
    assert_eq!(Ports(Vec::new()).get(), Vec::<Port>::new());
}
