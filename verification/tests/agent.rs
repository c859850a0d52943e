use std::collections::HashSet;

use arachne::agent::endpoints::{
    allocated_ips, endpoints_gc, live_ifindexes, parse_ifindex, reconcile, report, EndpointStats,
};
use arachne::agent::routes::{
    on_node_event, route_matches_net, InvalidPodCidr, Node, NodeAddress, NodeCondition,
    NodeStatus, RouteAction, RouteAttribute, RouteMessage,
};
use arachne::agent::startup::{
    conflist, pod_cidr_step, PodCidr, CNI_CONF_PATH, CNI_VERSION, POD_CIDR_RETRY_SECS,
};
use arachne::agent::watch::Event;
use arachne::bpf::MapOp;
use arachne::common::{endpoint_key, Endpoint};
use arachne::net::{Ipv4Addr, Ipv4Net};

fn s(x: &str) -> String {
    x.to_string()
}

fn strings(xs: &[&str]) -> Vec<String> {
    xs.iter().map(|x| s(x)).collect()
}

fn ip(a: u8, b: u8, c: u8, d: u8) -> u32 {
    endpoint_key(Ipv4Addr::new(a, b, c, d))
}

fn endpoint(ifindex: u32) -> Endpoint {
    Endpoint { ifindex, mac: [0; 6] }
}

#[test]
fn addresses_and_interfaces_in_use() {
    let got = allocated_ips(&strings(&["10.0.0.2", "x", "fd00::1", "10.0.0.3", "10.0.0.2"]));
    assert_eq!(got, HashSet::from([ip(10, 0, 0, 2), ip(10, 0, 0, 3)]));
    assert_eq!(parse_ifindex(" 12\n"), Some(12));
    assert_eq!(parse_ifindex("4294967295"), Some(u32::MAX));
    assert_eq!(parse_ifindex("4294967296"), None);
    assert_eq!(parse_ifindex("-1"), None);
    assert_eq!(parse_ifindex(""), None);
    assert_eq!(live_ifindexes(&strings(&["1\n", "x", "7\n"])), HashSet::from([1, 7]));
}

#[test]
fn endpoints_left_behind_are_swept() {
    let entries = vec![
        (ip(10, 0, 0, 2), endpoint(5)),
        (ip(10, 0, 0, 3), endpoint(6)),
        (ip(10, 0, 0, 4), endpoint(5)),
        (ip(10, 0, 0, 5), endpoint(9)),
    ];
    let allocated = HashSet::from([ip(10, 0, 0, 2), ip(10, 0, 0, 3)]);
    let live = HashSet::from([1, 5]);
    let sweep = endpoints_gc(&entries, &allocated, &live);
    assert_eq!(
        sweep.removals,
        vec![
            MapOp::EndpointsRemove(ip(10, 0, 0, 3)),
            MapOp::EndpointsRemove(ip(10, 0, 0, 4)),
            MapOp::EndpointsRemove(ip(10, 0, 0, 5)),
        ]
    );
    assert_eq!(sweep.stats, EndpointStats { scanned: 4, removed: 3 });
    let same = reconcile(
        &Ok(strings(&["10.0.0.2", "10.0.0.3"])),
        &Ok(strings(&["1\n", "5\n"])),
        &Ok(entries),
    );
    match same {
        Ok(got) => assert_eq!(got.removals, sweep.removals),
        Err(e) => panic!("{}", e),
    }
}

#[test]
fn what_cannot_be_read_stops_the_sweep_of_endpoints() {
    let names = || Ok(strings(&["10.0.0.2"]));
    let error = |r: Result<arachne::agent::endpoints::EndpointSweep, String>| match r {
        Ok(_) => panic!("it goes on"),
        Err(e) => e,
    };
    assert_eq!(
        error(reconcile(&Err(s("a")), &Err(s("b")), &Err(s("c")))),
        "endpoints gc: read IPAM store failed: a"
    );
    assert_eq!(
        error(reconcile(&names(), &Err(s("b")), &Err(s("c")))),
        "endpoints gc: list interfaces failed: b"
    );
    assert_eq!(error(reconcile(&names(), &names(), &Err(s("c")))), "endpoints gc: failed: c");
}

#[test]
fn sweeps_of_endpoints_are_reported_where_there_is_something_to_say() {
    assert_eq!(report(&Ok(EndpointStats { scanned: 3, removed: 0 })), None);
    assert_eq!(
        report(&Ok(EndpointStats { scanned: 30, removed: 2 })),
        Some(s("endpoints gc: scanned=30 removed=2"))
    );
    assert_eq!(report(&Err(s("x"))), Some(s("endpoints gc: failed: x")));
}

fn node(name: &str, cidr: &str, ready: &str, addresses: &[(&str, &str)]) -> Node {
    Node {
        name: Some(s(name)),
        pod_cidr: Some(s(cidr)),
        status: Some(NodeStatus {
            conditions: Some(vec![
                NodeCondition { type_: s("MemoryPressure"), status: s("True") },
                NodeCondition { type_: s("Ready"), status: s(ready) },
            ]),
            addresses: Some(
                addresses
                    .iter()
                    .map(|(t, a)| NodeAddress { type_: s(t), address: s(a) })
                    .collect(),
            ),
        }),
    }
}

fn good() -> Node {
    node("n2", "10.244.2.9/24", "True", &[("Hostname", "n2"), ("InternalIP", "172.18.0.3")])
}

fn net(a: u8, b: u8, c: u8, d: u8, prefix_len: u8) -> Ipv4Net {
    Ipv4Net { addr: Ipv4Addr::new(a, b, c, d), prefix_len }
}

#[test]
fn ready_nodes_get_a_route() {
    let want = Ok(RouteAction::Upsert {
        dest: Ipv4Addr::new(10, 244, 2, 0),
        prefix_len: 24,
        via: Ipv4Addr::new(172, 18, 0, 3),
    });
    assert_eq!(on_node_event(&Event::Apply(good()), "n1"), want);
    assert_eq!(on_node_event(&Event::InitApply(good()), "n1"), want);
    assert_eq!(on_node_event(&Event::Apply(good()), "n2"), Ok(RouteAction::Skip));
}

#[test]
fn nodes_that_are_not_ready_or_gone_lose_their_route() {
    let want = Ok(RouteAction::Delete(net(10, 244, 2, 9, 24)));
    let addresses = [("InternalIP", "172.18.0.3")];
    for status in ["False", "Unknown"] {
        let n = node("n2", "10.244.2.9/24", status, &addresses);
        assert_eq!(on_node_event(&Event::Apply(n), "n1"), want);
    }
    let mut silent = good();
    silent.status = None;
    assert_eq!(on_node_event(&Event::Apply(silent), "n1"), want);
    assert_eq!(on_node_event(&Event::Delete(good()), "n1"), want);
    assert_eq!(on_node_event(&Event::Delete(good()), "n2"), want);
    let mut nameless = good();
    nameless.name = None;
    assert_eq!(on_node_event(&Event::Delete(nameless), "n1"), want);
}

#[test]
fn nodes_that_say_too_little_are_passed_over() {
    let skip = Ok(RouteAction::Skip);
    let mut nameless = good();
    nameless.name = None;
    assert_eq!(on_node_event(&Event::Apply(nameless), "n1"), skip);
    let mut no_cidr = good();
    no_cidr.pod_cidr = None;
    assert_eq!(on_node_event(&Event::Apply(no_cidr), "n1"), skip);
    let mut no_cidr = good();
    no_cidr.pod_cidr = None;
    assert_eq!(on_node_event(&Event::Delete(no_cidr), "n1"), skip);
    let far = node("n2", "10.244.2.0/24", "True", &[("ExternalIP", "1.2.3.4")]);
    assert_eq!(on_node_event(&Event::Apply(far), "n1"), skip);
    let six_first = node(
        "n2",
        "10.244.2.0/24",
        "True",
        &[("InternalIP", "fd00::3"), ("InternalIP", "172.18.0.3")],
    );
    assert_eq!(on_node_event(&Event::Apply(six_first), "n1"), skip);
    assert_eq!(on_node_event(&Event::Init, "n1"), skip);
    assert_eq!(on_node_event(&Event::InitDone, "n1"), skip);
}

#[test]
fn a_pod_network_that_is_not_one_is_an_error() {
    let bad = || node("n2", "fd00::/64", "False", &[]);
    assert_eq!(on_node_event(&Event::Apply(bad()), "n1"), Err(InvalidPodCidr));
    assert_eq!(on_node_event(&Event::Delete(bad()), "n1"), Err(InvalidPodCidr));
    assert_eq!(on_node_event(&Event::Apply(bad()), "n2"), Ok(RouteAction::Skip));
}

#[test]
fn routes_are_told_by_prefix_and_destination() {
    let route = |len: u8, attributes: Vec<RouteAttribute>| RouteMessage {
        destination_prefix_length: len,
        attributes,
    };
    let dest = |d: u8| RouteAttribute::Destination(Ipv4Addr::new(10, 244, 2, d));
    let n = net(10, 244, 2, 9, 24);
    assert!(route_matches_net(&route(24, vec![RouteAttribute::Other, dest(0)]), n));
    assert!(!route_matches_net(&route(25, vec![dest(0)]), n));
    assert!(!route_matches_net(&route(24, vec![dest(9)]), n));
    assert!(!route_matches_net(&route(24, vec![RouteAttribute::Other]), n));
    assert!(!route_matches_net(&route(24, vec![]), n));
}

#[test]
fn the_configuration_names_the_pod_network() {
    let c = conflist("10.244.1.0/24");
    assert_eq!(c.cni_version, "1.1.0");
    assert_eq!(CNI_VERSION, "1.1.0");
    assert_eq!(CNI_CONF_PATH, "/etc/cni/net.d/10-arachne.conflist");
    assert_eq!(c.name, "arachne");
    assert_eq!(c.plugins.len(), 1);
    assert_eq!(c.plugins[0].type_, "arachne");
    assert_eq!(c.plugins[0].subnet, "10.244.1.0/24");
}

#[test]
fn the_pod_network_is_asked_for_again() {
    assert!(matches!(pod_cidr_step(Some(s("10.0.0.0/8"))), PodCidr::Known(c) if c == "10.0.0.0/8"));
    assert!(matches!(pod_cidr_step(None), PodCidr::AskAgain(2)));
    assert_eq!(POD_CIDR_RETRY_SECS, 2);
}
