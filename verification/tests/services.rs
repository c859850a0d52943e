use std::collections::HashMap;

use arachne::agent::services::{
    proto_byte, EndpointSlice, IntOrString, Label, Service, ServicePort, ServiceSpec,
    SliceEndpoint, SlicePort, SvcOrSlice, SvcState,
};
use arachne::agent::watch::Event;
use arachne::bpf::MapOp;
use arachne::common::{
    endpoint_key, port_key, BackendKey, BackendVal, ServiceKey, ServiceVal,
};
use arachne::net::Ipv4Addr;

fn s(x: &str) -> String {
    x.to_string()
}

fn port(port: i32, target: Option<IntOrString>, protocol: Option<&str>) -> ServicePort {
    ServicePort { port, target_port: target, protocol: protocol.map(s) }
}

fn service(name: &str, ip: &str, ports: Vec<ServicePort>) -> Service {
    Service {
        namespace: Some(s("shop")),
        name: Some(s(name)),
        spec: Some(ServiceSpec { cluster_ip: Some(s(ip)), ports: Some(ports) }),
    }
}

fn slice(uid: &str, name: &str, endpoints: Vec<SliceEndpoint>, ports: Vec<SlicePort>) -> EndpointSlice {
    EndpointSlice {
        namespace: Some(s("shop")),
        labels: Some(vec![
            Label { name: s("app"), value: s("x") },
            Label { name: s("kubernetes.io/service-name"), value: s(name) },
        ]),
        uid: Some(s(uid)),
        ports: Some(ports),
        endpoints,
    }
}

fn ep(addresses: &[&str], ready: Option<bool>) -> SliceEndpoint {
    SliceEndpoint { addresses: addresses.iter().map(|a| s(a)).collect(), ready }
}

fn tcp(port: i32) -> SlicePort {
    SlicePort { port: Some(port), protocol: Some(s("TCP")) }
}

fn key(ip: [u8; 4], port: u16, proto: u8) -> ServiceKey {
    ServiceKey {
        vip: endpoint_key(Ipv4Addr::new(ip[0], ip[1], ip[2], ip[3])),
        port: port_key(port),
        proto,
        _pad: 0,
    }
}

fn upsert(ip: [u8; 4], port: u16, proto: u8, service_id: u32, backend_count: u32) -> MapOp {
    MapOp::ServicesUpsert(key(ip, port, proto), ServiceVal { service_id, backend_count })
}

fn backend(service_id: u32, index: u32, port: u16, proto: u8, pod: [u8; 4], pod_port: u16) -> MapOp {
    MapOp::BackendsUpsert(
        BackendKey { service_id, index, port: port_key(port), proto, _pad: 0 },
        BackendVal {
            pod_ip: endpoint_key(Ipv4Addr::new(pod[0], pod[1], pod[2], pod[3])),
            pod_port: port_key(pod_port),
            _pad: [0, 0],
        },
    )
}

const VIP: [u8; 4] = [10, 96, 0, 10];

#[test]
fn protocols_have_numbers() {
    assert_eq!(proto_byte("TCP"), Some(6));
    assert_eq!(proto_byte("UDP"), Some(17));
    assert_eq!(proto_byte("SCTP"), None);
    assert_eq!(proto_byte("tcp"), None);
    assert_eq!(proto_byte(""), None);
}

#[test]
fn a_service_and_its_slices_fill_the_maps() {
    let mut st = SvcState::new();
    let svc = service("web", "10.96.0.10", vec![port(80, Some(IntOrString::Int(8080)), None)]);
    assert!(st.can_apply(&svc));
    assert_eq!(st.handle_service_apply(&svc), vec![upsert(VIP, 80, 6, 1, 0)]);
    let first = slice("u1", "web", vec![ep(&["10.244.1.2", "10.244.1.3"], None)], vec![tcp(8080)]);
    assert_eq!(
        st.handle_slice_apply(&first),
        vec![
            upsert(VIP, 80, 6, 1, 2),
            backend(1, 0, 80, 6, [10, 244, 1, 2], 8080),
            backend(1, 1, 80, 6, [10, 244, 1, 3], 8080),
        ]
    );
    let second = slice("u2", "web", vec![ep(&["10.244.2.2"], Some(true))], vec![tcp(8080)]);
    assert_eq!(st.handle_slice_apply(&second).len(), 4);
    let changed = slice("u1", "web", vec![ep(&["10.244.1.9"], None)], vec![tcp(8080)]);
    assert_eq!(
        st.handle_slice_apply(&changed),
        vec![
            upsert(VIP, 80, 6, 1, 2),
            backend(1, 0, 80, 6, [10, 244, 1, 9], 8080),
            backend(1, 1, 80, 6, [10, 244, 2, 2], 8080),
        ]
    );
    assert_eq!(
        st.handle_slice_delete(&changed),
        vec![upsert(VIP, 80, 6, 1, 1), backend(1, 0, 80, 6, [10, 244, 2, 2], 8080)]
    );
    assert_eq!(st.reconcile("shop/web").len(), 2);
    assert_eq!(st.reconcile("shop/other"), vec![]);
}

#[test]
fn slices_may_come_before_their_service() {
    let mut st = SvcState::new();
    let sl = slice("u1", "web", vec![ep(&["10.244.1.2"], None)], vec![tcp(80)]);
    assert_eq!(st.handle_slice_apply(&sl), vec![]);
    let svc = service("web", "10.96.0.10", vec![port(80, None, Some("TCP"))]);
    assert_eq!(
        st.handle_service_apply(&svc),
        vec![upsert(VIP, 80, 6, 1, 1), backend(1, 0, 80, 6, [10, 244, 1, 2], 80)]
    );
}

#[test]
fn ports_of_one_service_keep_their_backends_apart() {
    let mut st = SvcState::new();
    let dns = service(
        "dns",
        "10.96.0.10",
        vec![
            port(53, Some(IntOrString::String(s("53"))), Some("UDP")),
            port(53, None, Some("TCP")),
            port(9153, None, None),
        ],
    );
    st.handle_service_apply(&dns);
    let ports = vec![
        SlicePort { port: Some(53), protocol: Some(s("UDP")) },
        SlicePort { port: Some(53), protocol: None },
        SlicePort { port: Some(9153), protocol: Some(s("TCP")) },
        SlicePort { port: None, protocol: None },
        SlicePort { port: Some(53), protocol: Some(s("SCTP")) },
    ];
    let ops = st.handle_slice_apply(&slice("u", "dns", vec![ep(&["10.244.0.3"], None)], ports));
    assert_eq!(
        ops,
        vec![
            upsert(VIP, 53, 17, 1, 1),
            backend(1, 0, 53, 17, [10, 244, 0, 3], 53),
            upsert(VIP, 53, 6, 1, 1),
            backend(1, 0, 53, 6, [10, 244, 0, 3], 53),
            upsert(VIP, 9153, 6, 1, 1),
            backend(1, 0, 9153, 6, [10, 244, 0, 3], 9153),
        ]
    );
}

#[test]
fn what_is_not_ready_or_no_address_is_no_backend() {
    let mut st = SvcState::new();
    st.handle_service_apply(&service("web", "10.96.0.10", vec![port(80, None, None)]));
    let ops = st.handle_slice_apply(&slice(
        "u",
        "web",
        vec![
            ep(&["10.244.1.2"], Some(false)),
            ep(&["fd00::1", "nonsense", "10.244.1.3"], Some(true)),
        ],
        vec![tcp(80), tcp(81)],
    ));
    assert_eq!(
        ops,
        vec![upsert(VIP, 80, 6, 1, 1), backend(1, 0, 80, 6, [10, 244, 1, 3], 80)]
    );
}

#[test]
fn services_without_an_address_write_nothing() {
    let mut st = SvcState::new();
    for ip in ["None", "", "fd00::1"] {
        assert_eq!(st.handle_service_apply(&service("h", ip, vec![port(80, None, None)])), vec![]);
    }
    let bare = Service { namespace: None, name: Some(s("bare")), spec: None };
    assert_eq!(st.handle_service_apply(&bare), vec![]);
    let nameless = Service { namespace: None, name: None, spec: None };
    assert_eq!(st.handle_service_apply(&nameless), vec![]);
}

#[test]
fn ports_that_cannot_be_served_are_left_out() {
    let mut st = SvcState::new();
    let svc = service(
        "web",
        "10.96.0.10",
        vec![
            port(80, Some(IntOrString::String(s("http"))), None),
            port(81, None, Some("SCTP")),
            port(82, Some(IntOrString::String(s("65536"))), None),
            port(65536 + 83, Some(IntOrString::Int(-1)), None),
        ],
    );
    assert_eq!(st.handle_service_apply(&svc), vec![upsert(VIP, 83, 6, 1, 0)]);
    let ops = st.handle_slice_apply(&slice(
        "u",
        "web",
        vec![ep(&["10.244.1.3"], None)],
        vec![tcp(65535)],
    ));
    assert_eq!(
        ops,
        vec![upsert(VIP, 83, 6, 1, 1), backend(1, 0, 83, 6, [10, 244, 1, 3], 65535)]
    );
}

#[test]
fn services_keep_their_numbers() {
    let mut st = SvcState::new();
    st.handle_service_apply(&service("a", "10.96.0.1", vec![port(80, None, None)]));
    st.handle_service_apply(&service("b", "10.96.0.2", vec![port(80, None, None)]));
    let again = st.handle_service_apply(&service("a", "10.96.0.1", vec![port(81, None, None)]));
    assert_eq!(again, vec![upsert([10, 96, 0, 1], 81, 6, 1, 0)]);
    st.handle_service_delete("shop", "a");
    st.service_deleted("shop", "a", &Ok(()));
    let anew = st.handle_service_apply(&service("a", "10.96.0.1", vec![port(80, None, None)]));
    assert_eq!(anew, vec![upsert([10, 96, 0, 1], 80, 6, 3, 0)]);
}

#[test]
fn a_deleted_service_is_removed_with_its_slices() {
    let mut st = SvcState::new();
    st.handle_service_apply(&service(
        "web",
        "10.96.0.10",
        vec![port(80, None, None), port(53, None, Some("UDP"))],
    ));
    st.handle_slice_apply(&slice("u", "web", vec![ep(&["10.244.1.3"], None)], vec![tcp(80)]));
    assert_eq!(
        st.handle_service_delete("shop", "web"),
        vec![MapOp::ServicesRemove(key(VIP, 80, 6)), MapOp::ServicesRemove(key(VIP, 53, 17))]
    );
    st.service_deleted("shop", "web", &Ok(()));
    assert_eq!(st.handle_service_delete("shop", "web"), vec![]);
    let anew = st.handle_service_apply(&service("web", "10.96.0.10", vec![port(80, None, None)]));
    assert_eq!(anew, vec![upsert(VIP, 80, 6, 2, 0)]);
}

#[test]
fn a_failed_deletion_keeps_the_slices() {
    let mut st = SvcState::new();
    let web = || service("web", "10.96.0.10", vec![port(80, None, None)]);
    st.handle_service_apply(&web());
    st.handle_slice_apply(&slice("u", "web", vec![ep(&["10.244.1.3"], None)], vec![tcp(80)]));
    assert_eq!(
        st.handle_service_delete("shop", "web"),
        vec![MapOp::ServicesRemove(key(VIP, 80, 6))]
    );
    st.service_deleted("shop", "web", &Err(s("remove SERVICES entry: boom")));
    assert_eq!(st.reconcile("shop/web"), vec![]);
    assert_eq!(
        st.handle_service_apply(&web()),
        vec![upsert(VIP, 80, 6, 2, 1), backend(2, 0, 80, 6, [10, 244, 1, 3], 80)]
    );
}

#[test]
fn deletions_settle_once_their_writes_ended() {
    let web = || service("web", "10.96.0.10", vec![port(80, None, None)]);
    let sl = || slice("u", "web", vec![ep(&["10.244.1.3"], None)], vec![tcp(80)]);
    for (written, left) in [(Ok(()), 1), (Err(s("boom")), 2)] {
        let mut st = SvcState::new();
        let events = [
            SvcOrSlice::Service(Event::Apply(web())),
            SvcOrSlice::Slice(Event::Apply(sl())),
        ];
        for event in &events {
            st.handle(event);
            st.settle(event, &Ok(()));
        }
        assert_eq!(st.reconcile("shop/web").len(), 2);
        let delete = SvcOrSlice::Service(Event::Delete(web()));
        assert_eq!(st.handle(&delete).len(), 1);
        st.settle(&delete, &written);
        assert_eq!(st.handle(&SvcOrSlice::Service(Event::Apply(web()))).len(), left);
    }
    // Slices of a service that is not known are forgotten too.
    let mut st = SvcState::new();
    st.handle_slice_apply(&sl());
    let delete = SvcOrSlice::Service(Event::Delete(web()));
    assert_eq!(st.handle(&delete), vec![]);
    st.settle(&delete, &Ok(()));
    assert_eq!(st.handle_service_apply(&web()), vec![upsert(VIP, 80, 6, 1, 0)]);
}

#[test]
fn events_are_about_a_service() {
    let web = || service("web", "10.96.0.10", vec![]);
    let nameless = || Service { namespace: None, name: None, spec: None };
    let sl = || slice("u", "web", vec![], vec![]);
    let mut loose = sl();
    loose.labels = None;
    let mut homeless = sl();
    homeless.namespace = None;
    assert_eq!(SvcOrSlice::Service(Event::Apply(web())).key(), Some(s("shop/web")));
    assert_eq!(SvcOrSlice::Service(Event::InitApply(nameless())).key(), None);
    assert_eq!(SvcOrSlice::Service(Event::Delete(nameless())).key(), Some(s("default/")));
    assert_eq!(SvcOrSlice::Slice(Event::Delete(sl())).key(), Some(s("shop/web")));
    assert_eq!(SvcOrSlice::Slice(Event::Apply(homeless)).key(), Some(s("default/web")));
    assert_eq!(SvcOrSlice::Slice(Event::InitApply(loose)).key(), None);
    assert_eq!(SvcOrSlice::Slice(Event::Init).key(), None);
}

#[test]
fn wherever_writes_end_other_services_are_spared() {
    let mut st = SvcState::new();
    let mut maps = Maps::default();
    maps.apply(&st.handle_service_apply(&service("a", "10.96.0.1", vec![port(80, None, None)])));
    let eps = vec![ep(&["10.244.1.1"], None)];
    maps.apply(&st.handle_slice_apply(&slice("u", "a", eps, vec![tcp(80)])));
    let ports = vec![port(80, None, None), port(81, None, None)];
    st.handle_service_apply(&service("b", "10.96.0.2", ports));
    let eps = vec![ep(&["10.244.2.1", "10.244.2.2"], None)];
    let ops = st.handle_slice_apply(&slice("v", "b", eps, vec![tcp(80)]));
    assert_eq!(ops.len(), 4);
    let a = (endpoint_key(Ipv4Addr::new(10, 96, 0, 1)), port_key(80), 6);
    for n in 0..=ops.len() {
        let mut now = Maps::default();
        now.services.clone_from(&maps.services);
        now.backends.clone_from(&maps.backends);
        now.apply(&ops[..n]);
        assert_eq!(now.services[&a], ServiceVal { service_id: 1, backend_count: 1 });
        assert_eq!(
            now.backends[&(1, 0, port_key(80), 6)].pod_ip,
            endpoint_key(Ipv4Addr::new(10, 244, 1, 1))
        );
        assert_eq!(now.services.len() + now.backends.len(), 2 + n);
    }
}

#[test]
fn slices_that_say_too_little_are_nothing() {
    let mut st = SvcState::new();
    st.handle_service_apply(&service("web", "10.96.0.10", vec![port(80, None, None)]));
    let whole = || slice("u", "web", vec![ep(&["10.244.1.3"], None)], vec![tcp(80)]);
    let mut no_uid = whole();
    no_uid.uid = None;
    let mut no_labels = whole();
    no_labels.labels = None;
    let mut other_labels = whole();
    other_labels.labels = Some(vec![Label { name: s("app"), value: s("web") }]);
    let mut no_ports = whole();
    no_ports.ports = None;
    for sl in [&no_uid, &no_labels, &other_labels, &no_ports] {
        assert_eq!(st.handle_slice_apply(sl), vec![]);
    }
    assert_eq!(st.reconcile("shop/web"), vec![upsert(VIP, 80, 6, 1, 0)]);
    assert_eq!(st.handle_slice_delete(&no_uid), vec![]);
    assert_eq!(st.handle_slice_delete(&no_labels), vec![]);
    assert_eq!(st.handle_slice_delete(&no_ports).len(), 1);
}

#[test]
fn events_lead_to_the_right_handler() {
    let mut st = SvcState::new();
    let mut svc = service("web", "10.96.0.10", vec![port(80, None, None)]);
    svc.namespace = None;
    let mut sl = slice("u", "web", vec![ep(&["10.244.1.3"], None)], vec![tcp(80)]);
    sl.namespace = None;
    assert_eq!(st.handle(&SvcOrSlice::Service(Event::Init)), vec![]);
    let apply = SvcOrSlice::Service(Event::InitApply(svc));
    assert!(st.can_handle(&apply));
    assert_eq!(st.handle(&apply).len(), 1);
    assert_eq!(st.handle(&SvcOrSlice::Service(Event::InitDone)), vec![]);
    let SvcOrSlice::Service(Event::InitApply(svc)) = apply else { panic!() };
    assert_eq!(st.handle(&SvcOrSlice::Slice(Event::Init)), vec![]);
    let apply = SvcOrSlice::Slice(Event::Apply(sl));
    assert_eq!(st.handle(&apply).len(), 2);
    let SvcOrSlice::Slice(Event::Apply(sl)) = apply else { panic!() };
    assert_eq!(st.handle(&SvcOrSlice::Slice(Event::Delete(sl))).len(), 1);
    assert_eq!(st.reconcile("default/web").len(), 1);
    assert_eq!(
        st.handle(&SvcOrSlice::Service(Event::Delete(svc))),
        vec![MapOp::ServicesRemove(key(VIP, 80, 6))]
    );
    let nameless = Service { namespace: None, name: None, spec: None };
    assert_eq!(st.handle(&SvcOrSlice::Service(Event::Delete(nameless))), vec![]);
}

/// The maps, keyed by what is in the keys.
#[derive(Default)]
struct Maps {
    services: HashMap<(u32, u16, u8), ServiceVal>,
    backends: HashMap<(u32, u32, u16, u8), BackendVal>,
}

impl Maps {
    fn apply(&mut self, ops: &[MapOp]) {
        for op in ops {
            match op {
                MapOp::ServicesUpsert(k, v) => {
                    self.services.insert((k.vip, k.port, k.proto), *v);
                }
                MapOp::ServicesRemove(k) => {
                    self.services.remove(&(k.vip, k.port, k.proto));
                }
                MapOp::BackendsUpsert(k, v) => {
                    self.backends.insert((k.service_id, k.index, k.port, k.proto), *v);
                }
                _ => panic!("not a write of services"),
            }
        }
    }
}

#[test]
fn the_maps_stay_in_line_with_what_is_known() {
    let mut st = SvcState::new();
    let mut maps = Maps::default();
    maps.apply(&st.handle_service_apply(&service("a", "10.96.0.1", vec![port(80, None, None)])));
    maps.apply(&st.handle_service_apply(&service("b", "10.96.0.2", vec![port(80, None, None)])));
    let eps = vec![ep(&["10.244.1.1", "10.244.1.2", "10.244.1.3"], None)];
    maps.apply(&st.handle_slice_apply(&slice("u", "a", eps, vec![tcp(80)])));
    let eps = vec![ep(&["10.244.2.1"], None)];
    maps.apply(&st.handle_slice_apply(&slice("v", "b", eps, vec![tcp(80)])));
    let eps = vec![ep(&["10.244.1.2"], None)];
    maps.apply(&st.handle_slice_apply(&slice("u", "a", eps, vec![tcp(80)])));
    let a = maps.services[&(endpoint_key(Ipv4Addr::new(10, 96, 0, 1)), port_key(80), 6)];
    assert_eq!(a, ServiceVal { service_id: 1, backend_count: 1 });
    let a0 = maps.backends[&(1, 0, port_key(80), 6)];
    assert_eq!(a0.pod_ip, endpoint_key(Ipv4Addr::new(10, 244, 1, 2)));
    maps.apply(&st.handle_service_delete("shop", "a"));
    st.service_deleted("shop", "a", &Ok(()));
    let b = maps.services[&(endpoint_key(Ipv4Addr::new(10, 96, 0, 2)), port_key(80), 6)];
    assert_eq!(b, ServiceVal { service_id: 2, backend_count: 1 });
    assert_eq!(maps.services.len(), 1);
    let b0 = maps.backends[&(2, 0, port_key(80), 6)];
    assert_eq!(b0.pod_ip, endpoint_key(Ipv4Addr::new(10, 244, 2, 1)));
}

#[test]
fn of_two_ports_that_look_the_same_the_later_counts() {
    let mut st = SvcState::new();
    let mut maps = Maps::default();
    let svc = service(
        "web",
        "10.96.0.10",
        vec![
            port(80, Some(IntOrString::Int(8080)), None),
            port(80, Some(IntOrString::Int(9090)), None),
        ],
    );
    maps.apply(&st.handle_service_apply(&svc));
    let eps = vec![ep(&["10.244.1.1"], None)];
    let sl = slice("u", "web", eps, vec![tcp(8080), tcp(9090)]);
    maps.apply(&st.handle_slice_apply(&sl));
    assert_eq!(maps.backends[&(1, 0, port_key(80), 6)].pod_port, port_key(9090));
}
