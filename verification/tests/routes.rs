use port_registry::db::Store;
use port_registry::db::get_traefik_dynamic_config;
use port_registry::errors::ErrorKind;
use port_registry::registration::{register, Engine};
use port_registry::routes::{
    bucket, empty_traefik_config, generate_traefik_config, render_traefik_config, Bucket,
};
use port_registry::types::{
    DeviceConfig, NetworkPortConfig, Port, Ports, Protocol, Register, TraefikDynamicConfig,
};

const EMPTY: &str = "http:\n  routers:\n  services:\n  middlewares:\n    redirect:\n      redirectScheme:\n        scheme: https\ntcp:\n  routers:\n  services:\nudp:\n  routers:\n  services:\n";

fn device(mac: &str, ports: &[(u32, Protocol)]) -> DeviceConfig {
    DeviceConfig {
        mac_address: String::from(mac),
        network_ports: ports
            .iter()
            .map(|(port, protocol)| NetworkPortConfig { port: *port, protocol: *protocol })
            .collect(),
    }
}

fn http_router(port: u32, mac: &str, domain: &str) -> String {
    format!(
        "    router-{port}:\n      rule: \"Host(`{port}.{mac}.{domain}`)\"\n      service: service-{port}\n      entryPoints:\n        - websecure\n      tls:\n        certResolver: myresolver\n",
        port = port,
        mac = mac,
        domain = domain
    )
}

fn http_service(port: u32) -> String {
    format!(
        "    service-{port}:\n      loadBalancer:\n        servers:\n          - url: \"https://ssh_reverse_proxy:{port}\"\n",
        port = port
    )
}

fn stream_router(port: u32, mac: &str, domain: &str) -> String {
    format!(
        "    router-{port}:\n      rule: \"HostSNI(`{port}.{mac}.{domain}`)\"\n      service: service-{port}\n      entryPoints:\n        - websecure\n",
        port = port,
        mac = mac,
        domain = domain
    )
}

fn stream_service(port: u32) -> String {
    format!(
        "    service-{port}:\n      loadBalancer:\n        servers:\n          - address: \"ssh_reverse_proxy:{port}\"\n            tls: true\n",
        port = port
    )
}

/// The document with the given entries in its six lists.
fn document(lists: [&str; 6]) -> String {
    format!(
        "http:\n  routers:\n{}  services:\n{}  middlewares:\n    redirect:\n      redirectScheme:\n        scheme: https\ntcp:\n  routers:\n{}  services:\n{}udp:\n  routers:\n{}  services:\n{}",
        lists[0], lists[1], lists[2], lists[3], lists[4], lists[5]
    )
}

#[test]
fn protocols_fall_into_three_parts() {
    assert_eq!(bucket(Protocol::Http), Bucket::Http);
    assert_eq!(bucket(Protocol::Https), Bucket::Http);
    assert_eq!(bucket(Protocol::Tcp), Bucket::Tcp);
    assert_eq!(bucket(Protocol::Udp), Bucket::Udp);
}

#[test]
fn an_empty_snapshot_gives_every_part_and_no_entry() {
    let config = TraefikDynamicConfig { devices: Vec::new() };
    assert_eq!(render_traefik_config(&config, "example.com"), EMPTY);
    assert_eq!(render_traefik_config(&config, ""), EMPTY);
    assert_eq!(empty_traefik_config(), EMPTY);
    assert_eq!(document(["", "", "", "", "", ""]), EMPTY);
    let store = Store::new();
    let snapshot = get_traefik_dynamic_config(&store);
    assert_eq!(generate_traefik_config(Some("example.com"), snapshot), Ok(String::from(EMPTY)));
}

#[test]
fn a_device_without_ports_adds_no_entry() {
    let config = TraefikDynamicConfig { devices: vec![device("aa", &[])] };
    assert_eq!(render_traefik_config(&config, "example.com"), EMPTY);
}

#[test]
fn one_http_and_one_tcp_port_make_one_entry_each_and_none_for_udp() {
    let mac = "aa:bb:cc:dd:ee:ff";
    let config = TraefikDynamicConfig {
        devices: vec![device(mac, &[(8000, Protocol::Http), (8001, Protocol::Tcp)])],
    };
    let text = render_traefik_config(&config, "example.com");
    let expected = "http:\n  routers:\n    router-8000:\n      rule: \"Host(`8000.aa:bb:cc:dd:ee:ff.example.com`)\"\n      service: service-8000\n      entryPoints:\n        - websecure\n      tls:\n        certResolver: myresolver\n  services:\n    service-8000:\n      loadBalancer:\n        servers:\n          - url: \"https://ssh_reverse_proxy:8000\"\n  middlewares:\n    redirect:\n      redirectScheme:\n        scheme: https\ntcp:\n  routers:\n    router-8001:\n      rule: \"HostSNI(`8001.aa:bb:cc:dd:ee:ff.example.com`)\"\n      service: service-8001\n      entryPoints:\n        - websecure\n  services:\n    service-8001:\n      loadBalancer:\n        servers:\n          - address: \"ssh_reverse_proxy:8001\"\n            tls: true\nudp:\n  routers:\n  services:\n";
    assert_eq!(text, expected);
    let (http, rest) = text.split_once("tcp:\n").unwrap();
    let (tcp, udp) = rest.split_once("udp:\n").unwrap();
    assert_eq!(http.matches("    router-").count(), 1);
    assert_eq!(http.matches("    service-").count(), 1);
    assert_eq!(tcp.matches("    router-").count(), 1);
    assert_eq!(tcp.matches("    service-").count(), 1);
    assert_eq!(udp, "  routers:\n  services:\n");
}

#[test]
fn every_protocol_is_listed_in_its_part() {
    let config = TraefikDynamicConfig {
        devices: vec![
            device("aa", &[(8003, Protocol::Udp), (8000, Protocol::Https), (8001, Protocol::Tcp)]),
            device("bb", &[(8002, Protocol::Http), (8004, Protocol::Udp)]),
        ],
    };
    let d = "box.example.org";
    let expected = document([
        &(http_router(8000, "aa", d) + &http_router(8002, "bb", d)),
        &(http_service(8000) + &http_service(8002)),
        &stream_router(8001, "aa", d),
        &stream_service(8001),
        &(stream_router(8003, "aa", d) + &stream_router(8004, "bb", d)),
        &(stream_service(8003) + &stream_service(8004)),
    ]);
    assert_eq!(render_traefik_config(&config, d), expected);
}

#[test]
fn entries_follow_the_order_of_the_snapshot() {
    let config = TraefikDynamicConfig {
        devices: vec![
            device("bb", &[(9, Protocol::Tcp), (7, Protocol::Tcp)]),
            device("aa", &[(8, Protocol::Tcp)]),
        ],
    };
    let d = "d";
    let expected = document([
        "",
        "",
        &(stream_router(9, "bb", d) + &stream_router(7, "bb", d) + &stream_router(8, "aa", d)),
        &(stream_service(9) + &stream_service(7) + &stream_service(8)),
        "",
        "",
    ]);
    assert_eq!(render_traefik_config(&config, d), expected);
}

#[test]
fn without_a_domain_no_document_is_made() {
    let config = TraefikDynamicConfig { devices: vec![device("aa", &[(8000, Protocol::Http)])] };
    assert_eq!(generate_traefik_config(None, Ok(config)), Err(ErrorKind::InvalidInput));
    assert_eq!(
        generate_traefik_config(None, Err(ErrorKind::Unavailable)),
        Err(ErrorKind::InvalidInput)
    );
}

#[test]
fn a_store_that_cannot_be_read_gives_the_empty_document() {
    for kind in [ErrorKind::Unavailable, ErrorKind::NotFound, ErrorKind::Conflict] {
        assert_eq!(generate_traefik_config(Some("example.com"), Err(kind)), Ok(EMPTY.to_string()));
    }
}

#[test]
fn the_document_of_a_snapshot_is_rendered() {
    let config = TraefikDynamicConfig { devices: vec![device("aa", &[(8000, Protocol::Http)])] };
    let expected = document([&http_router(8000, "aa", "x.io"), &http_service(8000), "", "", "", ""]);
    assert_eq!(generate_traefik_config(Some("x.io"), Ok(config)), Ok(expected));
}

fn request(mac: &str, protocols: &[Protocol]) -> Register {
    Register {
        address_mac: String::from(mac),
        ports: Ports(protocols.iter().map(|p| Port { port: 0, protocol: *p }).collect()),
        ssh_key: String::from("key"),
    }
}

#[test]
fn reading_an_unchanged_store_twice_gives_the_same_document() {
    let engine = Engine { start_port: 8000, max_retries: 3 };
    let mut store = Store::new();
    register(&engine, &mut store, &request("cc", &[Protocol::Http, Protocol::Udp])).unwrap();
    register(&engine, &mut store, &request("aa", &[Protocol::Tcp])).unwrap();
    register(&engine, &mut store, &request("bb", &[Protocol::Https, Protocol::Tcp])).unwrap();
    let first = generate_traefik_config(Some("example.com"), get_traefik_dynamic_config(&store));
    let second = generate_traefik_config(Some("example.com"), get_traefik_dynamic_config(&store));
    assert_eq!(first, second);
    let d = "example.com";
    let expected = document([
        &(http_router(8003, "bb", d) + &http_router(8000, "cc", d)),
        &(http_service(8003) + &http_service(8000)),
        &(stream_router(8002, "aa", d) + &stream_router(8004, "bb", d)),
        &(stream_service(8002) + &stream_service(8004)),
        &stream_router(8001, "cc", d),
        &stream_service(8001),
    ]);
    assert_eq!(first, Ok(expected));
}

#[test]
fn the_document_does_not_depend_on_the_order_of_registration() {
    let engine = Engine { start_port: 8000, max_retries: 3 };
    let mut one = Store::new();
    let mut two = Store::new();
    for mac in ["aa", "bb", "cc"] {
        register(&engine, &mut one, &request(mac, &[Protocol::Http])).unwrap();
    }
    // The same devices with the same ports, stored in another order.
    for (mac, port) in [("cc", 8002), ("aa", 8000), ("bb", 8001)] {
        port_registry::db::insert_mac_address(&mut two, mac.to_string(), "key".to_string()).unwrap();
        let ports = vec![Port { port, protocol: Protocol::Http }];
        port_registry::db::insert_ports(&mut two, mac.to_string(), &ports).unwrap();
    }
    let first = generate_traefik_config(Some("d"), get_traefik_dynamic_config(&one));
    let second = generate_traefik_config(Some("d"), get_traefik_dynamic_config(&two));
    assert_eq!(first, second);
}
