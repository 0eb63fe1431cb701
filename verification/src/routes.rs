//! The routing document that a reverse proxy reads.
//!
//! The document has an `http`, a `tcp` and a `udp` part. Each part lists a
//! router and a service for every port of its protocols, device by device and
//! port by port in the order of the snapshot.

use crate::db::grouping::{is_grouping, lemma_grouping_determined, ports_of, JoinedRow};
use crate::errors::ErrorKind;
use crate::text::{decimal, push_decimal};
use crate::types::{DeviceView, NetworkPortConfig, Protocol, TraefikDynamicConfig};
use vstd::prelude::*;
use vstd::string::*;

verus! {

/// The part of the document that a port is listed in.
#[derive(Clone, Copy, Debug, PartialEq, Eq, Structural)]
pub enum Bucket {
    Http,
    Tcp,
    Udp,
}

/// The two entries that every port has in its part of the document.
#[derive(Clone, Copy, Debug, PartialEq, Eq, Structural)]
pub enum Entry {
    Router,
    Service,
}

/// The part that lists the ports of `protocol`.
pub open spec fn bucket_of(protocol: Protocol) -> Bucket {
    match protocol {
        Protocol::Http => Bucket::Http,
        Protocol::Https => Bucket::Http,
        Protocol::Tcp => Bucket::Tcp,
        Protocol::Udp => Bucket::Udp,
    }
}

/// The host name under which a port of a device is reached.
pub open spec fn host_name(port: u32, mac: Seq<char>, domain: Seq<char>) -> Seq<char> {
    decimal(port as nat) + "."@ + mac + "."@ + domain
}

/// The router of a port.
pub open spec fn router_block(bucket: Bucket, port: u32, mac: Seq<char>, domain: Seq<char>) -> Seq<
    char,
> {
    match bucket {
        Bucket::Http => "    router-"@ + decimal(port as nat) + ":\n      rule: \"Host(`"@
            + host_name(port, mac, domain) + "`)\"\n      service: service-"@ + decimal(
            port as nat,
        )
            + "\n      entryPoints:\n        - websecure\n      tls:\n        certResolver: myresolver\n"@,
        _ => "    router-"@ + decimal(port as nat) + ":\n      rule: \"HostSNI(`"@ + host_name(
            port,
            mac,
            domain,
        ) + "`)\"\n      service: service-"@ + decimal(port as nat)
            + "\n      entryPoints:\n        - websecure\n"@,
    }
}

/// The service of a port.
pub open spec fn service_block(bucket: Bucket, port: u32) -> Seq<char> {
    match bucket {
        Bucket::Http => "    service-"@ + decimal(port as nat)
            + ":\n      loadBalancer:\n        servers:\n          - url: \"https://ssh_reverse_proxy:"@
            + decimal(port as nat) + "\"\n"@,
        _ => "    service-"@ + decimal(port as nat)
            + ":\n      loadBalancer:\n        servers:\n          - address: \"ssh_reverse_proxy:"@
            + decimal(port as nat) + "\"\n            tls: true\n"@,
    }
}

/// The entry of kind `entry` that a port has in the part `bucket`: nothing
/// where the port belongs to another part.
pub open spec fn port_entry(
    port: NetworkPortConfig,
    mac: Seq<char>,
    domain: Seq<char>,
    bucket: Bucket,
    entry: Entry,
) -> Seq<char> {
    if bucket_of(port.protocol) != bucket {
        Seq::empty()
    } else {
        match entry {
            Entry::Router => router_block(bucket, port.port, mac, domain),
            Entry::Service => service_block(bucket, port.port),
        }
    }
}

/// The entries of the ports of one device, in the order of the ports.
pub open spec fn device_entries(
    ports: Seq<NetworkPortConfig>,
    mac: Seq<char>,
    domain: Seq<char>,
    bucket: Bucket,
    entry: Entry,
) -> Seq<char>
    decreases ports.len(),
{
    if ports.len() == 0 {
        Seq::empty()
    } else {
        device_entries(ports.drop_last(), mac, domain, bucket, entry) + port_entry(
            ports.last(),
            mac,
            domain,
            bucket,
            entry,
        )
    }
}

/// The entries of all devices, in the order of the devices.
pub open spec fn entries(
    devices: Seq<DeviceView>,
    domain: Seq<char>,
    bucket: Bucket,
    entry: Entry,
) -> Seq<char>
    decreases devices.len(),
{
    if devices.len() == 0 {
        Seq::empty()
    } else {
        entries(devices.drop_last(), domain, bucket, entry) + device_entries(
            devices.last().network_ports,
            devices.last().mac_address,
            domain,
            bucket,
            entry,
        )
    }
}

/// The rule that sends plain HTTP on to HTTPS; it closes the `http` part.
pub open spec fn middlewares() -> Seq<char> {
    "  middlewares:\n    redirect:\n      redirectScheme:\n        scheme: https\n"@
}

/// The routing document of a snapshot.
pub open spec fn document(devices: Seq<DeviceView>, domain: Seq<char>) -> Seq<char> {
    "http:\n  routers:\n"@ + entries(devices, domain, Bucket::Http, Entry::Router)
        + "  services:\n"@ + entries(devices, domain, Bucket::Http, Entry::Service)
        + middlewares() + "tcp:\n  routers:\n"@ + entries(
        devices,
        domain,
        Bucket::Tcp,
        Entry::Router,
    ) + "  services:\n"@ + entries(devices, domain, Bucket::Tcp, Entry::Service)
        + "udp:\n  routers:\n"@ + entries(devices, domain, Bucket::Udp, Entry::Router)
        + "  services:\n"@ + entries(devices, domain, Bucket::Udp, Entry::Service)
}

/// The document without any entry: every part and the redirect rule.
pub open spec fn empty_document() -> Seq<char> {
    "http:\n  routers:\n"@ + "  services:\n"@ + middlewares() + "tcp:\n  routers:\n"@
        + "  services:\n"@ + "udp:\n  routers:\n"@ + "  services:\n"@
}

/// The document of a snapshot without devices is the empty document,
/// whatever the domain.
pub proof fn lemma_no_devices_empty_document(domain: Seq<char>)
    ensures
        document(Seq::empty(), domain) == empty_document(),
{
    assert(document(Seq::empty(), domain) =~= empty_document());
}

/// Every port is listed in one part of the document: it has a router and a
/// service in the part of its protocol, and no entry in the other two.
pub proof fn lemma_port_listed_in_its_part(
    port: NetworkPortConfig,
    mac: Seq<char>,
    domain: Seq<char>,
    part: Bucket,
    entry: Entry,
)
    ensures
        port_entry(port, mac, domain, part, entry).len() > 0 <==> part == bucket_of(port.protocol),
{
    reveal_strlit("    router-");
    reveal_strlit("    service-");
}

/// The document is determined by the ports that the store gives each device.
///
/// Two readings of a store that has not changed give the same document,
/// character for character, also where the store hands out the rows of
/// different devices in another order: the devices are listed in ascending
/// order of their hardware addresses, each with its ports in the order of its
/// own rows.
pub proof fn lemma_document_determined(
    rows_a: Seq<JoinedRow>,
    rows_b: Seq<JoinedRow>,
    a: Seq<DeviceView>,
    b: Seq<DeviceView>,
    domain: Seq<char>,
)
    requires
        is_grouping(rows_a, a),
        is_grouping(rows_b, b),
        forall|mac: Seq<char>| #[trigger] ports_of(rows_a, mac) == ports_of(rows_b, mac),
    ensures
        document(a, domain) == document(b, domain),
{
    lemma_grouping_determined(rows_a, rows_b, a, b);
}

/// The part that lists the ports of `protocol`.
pub fn bucket(protocol: Protocol) -> (b: Bucket)
    ensures
        b == bucket_of(protocol),
{
    match protocol {
        Protocol::Http => Bucket::Http,
        Protocol::Https => Bucket::Http,
        Protocol::Tcp => Bucket::Tcp,
        Protocol::Udp => Bucket::Udp,
    }
}

/// Appends the host name of a port of a device.
fn push_host(out: &mut String, port: u32, mac: &str, domain: &str)
    ensures
        final(out)@ == old(out)@ + host_name(port, mac@, domain@),
{
    push_decimal(out, port);
    out.append(".");
    out.append(mac);
    out.append(".");
    out.append(domain);
    proof {
        assert(out@ =~= old(out)@ + host_name(port, mac@, domain@));
    }
}

/// Appends the router of a port.
fn push_router(out: &mut String, bucket: Bucket, port: u32, mac: &str, domain: &str)
    ensures
        final(out)@ == old(out)@ + router_block(bucket, port, mac@, domain@),
{
    out.append("    router-");
    push_decimal(out, port);
    match bucket {
        Bucket::Http => {
            out.append(":\n      rule: \"Host(`");
        },
        _ => {
            out.append(":\n      rule: \"HostSNI(`");
        },
    }
    push_host(out, port, mac, domain);
    out.append("`)\"\n      service: service-");
    push_decimal(out, port);
    match bucket {
        Bucket::Http => {
            out.append(
                "\n      entryPoints:\n        - websecure\n      tls:\n        certResolver: myresolver\n",
            );
        },
        _ => {
            out.append("\n      entryPoints:\n        - websecure\n");
        },
    }
    proof {
        assert(out@ =~= old(out)@ + router_block(bucket, port, mac@, domain@));
    }
}

/// Appends the service of a port.
fn push_service(out: &mut String, bucket: Bucket, port: u32)
    ensures
        final(out)@ == old(out)@ + service_block(bucket, port),
{
    out.append("    service-");
    push_decimal(out, port);
    match bucket {
        Bucket::Http => {
            out.append(
                ":\n      loadBalancer:\n        servers:\n          - url: \"https://ssh_reverse_proxy:",
            );
            push_decimal(out, port);
            out.append("\"\n");
        },
        _ => {
            out.append(
                ":\n      loadBalancer:\n        servers:\n          - address: \"ssh_reverse_proxy:",
            );
            push_decimal(out, port);
            out.append("\"\n            tls: true\n");
        },
    }
    proof {
        assert(out@ =~= old(out)@ + service_block(bucket, port));
    }
}

/// Appends the entries of kind `entry` that the ports of the part `part` have.
fn push_entries(
    out: &mut String,
    config: &TraefikDynamicConfig,
    domain: &str,
    part: Bucket,
    entry: Entry,
)
    ensures
        final(out)@ == old(out)@ + entries(config@, domain@, part, entry),
{
    let mut i: usize = 0;
    proof {
        assert(out@ =~= old(out)@ + entries(config@.take(0), domain@, part, entry));
    }
    while i < config.devices.len()
        invariant
            i <= config.devices.len(),
            out@ == old(out)@ + entries(config@.take(i as int), domain@, part, entry),
        decreases config.devices.len() - i,
    {
        let device = &config.devices[i];
        let ghost before = out@;
        let mut j: usize = 0;
        proof {
            assert(out@ =~= before + device_entries(
                device@.network_ports.take(0),
                device@.mac_address,
                domain@,
                part,
                entry,
            ));
        }
        while j < device.network_ports.len()
            invariant
                j <= device.network_ports.len(),
                out@ == before + device_entries(
                    device@.network_ports.take(j as int),
                    device@.mac_address,
                    domain@,
                    part,
                    entry,
                ),
            decreases device.network_ports.len() - j,
        {
            let port = device.network_ports[j];
            let ghost listed = out@;
            if bucket(port.protocol) == part {
                match entry {
                    Entry::Router => {
                        push_router(out, part, port.port, device.mac_address.as_str(), domain);
                    },
                    Entry::Service => {
                        push_service(out, part, port.port);
                    },
                }
            }
            proof {
                let ports = device@.network_ports;
                assert(ports.take(j + 1).drop_last() =~= ports.take(j as int));
                assert(ports.take(j + 1).last() == port);
                assert(out@ =~= listed + port_entry(
                    port,
                    device@.mac_address,
                    domain@,
                    part,
                    entry,
                ));
                assert(out@ =~= before + device_entries(
                    ports.take(j + 1),
                    device@.mac_address,
                    domain@,
                    part,
                    entry,
                ));
            }
            j = j + 1;
        }
        proof {
            let ports = device@.network_ports;
            assert(ports.take(ports.len() as int) =~= ports);
            assert(config@.take(i + 1).drop_last() =~= config@.take(i as int));
            assert(config@.take(i + 1).last() == device@);
            assert(out@ =~= old(out)@ + entries(config@.take(i + 1), domain@, part, entry));
        }
        i = i + 1;
    }
    proof {
        assert(config@.take(config@.len() as int) =~= config@);
    }
}

/// Renders the routing document of a snapshot for the domain `domain_name`.
pub fn render_traefik_config(config: &TraefikDynamicConfig, domain_name: &str) -> (text: String)
    ensures
        text@ == document(config@, domain_name@),
{
    let mut text = String::from_str("http:\n  routers:\n");
    push_entries(&mut text, config, domain_name, Bucket::Http, Entry::Router);
    text.append("  services:\n");
    push_entries(&mut text, config, domain_name, Bucket::Http, Entry::Service);
    text.append("  middlewares:\n    redirect:\n      redirectScheme:\n        scheme: https\n");
    text.append("tcp:\n  routers:\n");
    push_entries(&mut text, config, domain_name, Bucket::Tcp, Entry::Router);
    text.append("  services:\n");
    push_entries(&mut text, config, domain_name, Bucket::Tcp, Entry::Service);
    text.append("udp:\n  routers:\n");
    push_entries(&mut text, config, domain_name, Bucket::Udp, Entry::Router);
    text.append("  services:\n");
    push_entries(&mut text, config, domain_name, Bucket::Udp, Entry::Service);
    proof {
        assert(text@ =~= document(config@, domain_name@));
    }
    text
}

/// Renders the document without any entry.
pub fn empty_traefik_config() -> (text: String)
    ensures
        text@ == empty_document(),
{
    let mut text = String::from_str("http:\n  routers:\n");
    text.append("  services:\n");
    text.append("  middlewares:\n    redirect:\n      redirectScheme:\n        scheme: https\n");
    text.append("tcp:\n  routers:\n");
    text.append("  services:\n");
    text.append("udp:\n  routers:\n");
    text.append("  services:\n");
    proof {
        assert(text@ =~= empty_document());
    }
    text
}

/// Produces the routing document from what was read: the configured domain
/// and the snapshot of the store.
///
/// Without a domain no document is made and the call fails with
/// `ErrorKind::InvalidInput`. Where the store could not be read the result is
/// the empty document, so that the proxy that polls it is always given a
/// document that it can parse.
pub fn generate_traefik_config(
    domain_name: Option<&str>,
    snapshot: Result<TraefikDynamicConfig, ErrorKind>,
) -> (res: Result<String, ErrorKind>)
    ensures
        domain_name is None ==> res == Err::<String, ErrorKind>(ErrorKind::InvalidInput),
        domain_name matches Some(domain) ==> res is Ok && res->Ok_0@ == (match snapshot {
            Ok(config) => document(config@, domain@),
            Err(_) => empty_document(),
        }),
{
    match domain_name {
        None => Err(ErrorKind::InvalidInput),
        Some(domain) => match snapshot {
            Ok(config) => Ok(render_traefik_config(&config, domain)),
            Err(_) => Ok(empty_traefik_config()),
        },
    }
}

} // verus!
