//! Services and their backends: what the cluster says of them, and what is written to the maps.
use vstd::prelude::*;

use crate::agent::watch::Event;
use crate::bpf::{backends_upsert, services_remove, services_upsert, MapOp};
use crate::common::{
    endpoint_key, key_of, port_key, port_key_of, BackendKey, BackendVal, ServiceKey, ServiceVal,
};
use crate::net::{addr_of, Ipv4Addr};
use crate::strmap::StrMap;
use crate::text::{join2, parse_unsigned, same_text, text_or, text_or_spec, unsigned_value};

verus! {

// ── What the cluster says ────────────────────────────────────────────────────

/// A number or a text.
pub enum IntOrString {
    Int(i32),
    String(String),
}

/// A port of a service as the cluster describes it.
pub struct ServicePort {
    pub port: i32,
    pub target_port: Option<IntOrString>,
    pub protocol: Option<String>,
}

/// The part of a service's description that matters here.
pub struct ServiceSpec {
    pub cluster_ip: Option<String>,
    pub ports: Option<Vec<ServicePort>>,
}

/// A service as the cluster describes it.
pub struct Service {
    pub namespace: Option<String>,
    pub name: Option<String>,
    pub spec: Option<ServiceSpec>,
}

/// A label of an object.
pub struct Label {
    pub name: String,
    pub value: String,
}

/// A port of an endpoint slice.
pub struct SlicePort {
    pub port: Option<i32>,
    pub protocol: Option<String>,
}

/// The addresses of one endpoint, and whether it is ready.
pub struct SliceEndpoint {
    pub addresses: Vec<String>,
    pub ready: Option<bool>,
}

/// A slice of the endpoints of a service.
pub struct EndpointSlice {
    pub namespace: Option<String>,
    pub labels: Option<Vec<Label>>,
    pub uid: Option<String>,
    pub ports: Option<Vec<SlicePort>>,
    pub endpoints: Vec<SliceEndpoint>,
}

/// What the two watches together report.
pub enum SvcOrSlice {
    Service(Event<Service>),
    Slice(Event<EndpointSlice>),
}

/// The label that names the service of a slice.
pub const SERVICE_NAME_LABEL: &'static str = "kubernetes.io/service-name";

/// The namespace of objects that name none.
pub const DEFAULT_NAMESPACE: &'static str = "default";

// ── What is kept of it ───────────────────────────────────────────────────────

/// A port of a service: the port that clients send to, the port of the backends, the protocol.
#[derive(Clone, Copy, Debug, PartialEq, Eq, Structural)]
pub struct PortInfo {
    pub svc_port: u16,
    pub target_port: u16,
    pub proto: u8,
}

/// A backend: an address, a port and a protocol.
#[derive(Clone, Copy, Debug, PartialEq, Eq, Structural)]
pub struct BackendEntry {
    pub pod_ip: Ipv4Addr,
    pub port: u16,
    pub proto: u8,
}

/// A service that is known: its number, its address and its ports.
pub struct SvcInfo {
    pub id: u32,
    pub cluster_ip: Option<Ipv4Addr>,
    pub ports: Vec<PortInfo>,
}

/// What a `SvcInfo` holds.
#[verifier::ext_equal]
pub struct ServiceRecord {
    pub id: u32,
    pub cluster_ip: Option<Ipv4Addr>,
    pub ports: Seq<PortInfo>,
}

impl View for SvcInfo {
    type V = ServiceRecord;

    open spec fn view(&self) -> ServiceRecord {
        ServiceRecord { id: self.id, cluster_ip: self.cluster_ip, ports: self.ports@ }
    }
}

/// The slices of a service in the order in which they came: the id of each and its backends.
pub type Slices = Seq<(Seq<char>, Seq<BackendEntry>)>;

/// What is known of the services: the next number to give out, each service under its key, and the
/// slices of each service under its key.
#[verifier::ext_equal]
pub struct SvcModel {
    pub next_id: u32,
    pub services: Map<Seq<char>, ServiceRecord>,
    pub slices: Map<Seq<char>, Slices>,
}

/// The IP protocol number of a protocol's name.
pub open spec fn proto_of(name: Seq<char>) -> Option<u8> {
    if name == "TCP"@ {
        Some(6u8)
    } else if name == "UDP"@ {
        Some(17u8)
    } else {
        None
    }
}

/// The IP protocol number of a protocol's name.
pub fn proto_byte(s: &str) -> (r: Option<u8>)
    ensures
        r == proto_of(s@),
{
    if same_text(s, "TCP") {
        Some(6)
    } else if same_text(s, "UDP") {
        Some(17)
    } else {
        None
    }
}

/// The key under which a service is known.
pub open spec fn service_key(ns: Seq<char>, name: Seq<char>) -> Seq<char> {
    ns + "/"@ + name
}

/// The port of the backends behind a service port: a number as it is, a text that is a numeral of
/// 16 bits, or the service port itself. Other texts name no port.
pub open spec fn target_port_of(p: ServicePort) -> Option<u16> {
    match p.target_port {
        Some(IntOrString::Int(n)) => Some(n as u16),
        Some(IntOrString::String(s)) => match unsigned_value(s@) {
            Some(v) => if v <= u16::MAX {
                Some(v as u16)
            } else {
                None
            },
            None => None,
        },
        None => Some(p.port as u16),
    }
}

/// What is kept of a service port: nothing where its target or its protocol is not understood.
pub open spec fn port_info_of(p: ServicePort) -> Option<PortInfo> {
    match (target_port_of(p), proto_of(text_or_spec(p.protocol, "TCP"@))) {
        (Some(target_port), Some(proto)) => Some(
            PortInfo { svc_port: p.port as u16, target_port, proto },
        ),
        _ => None,
    }
}

/// What is kept of the ports of a service, in order.
pub open spec fn port_infos_of(ps: Seq<ServicePort>) -> Seq<PortInfo>
    decreases ps.len(),
{
    if ps.len() == 0 {
        Seq::empty()
    } else {
        match port_info_of(ps.last()) {
            Some(info) => port_infos_of(ps.drop_last()).push(info),
            None => port_infos_of(ps.drop_last()),
        }
    }
}

/// The ports of a service.
pub open spec fn service_ports(svc: Service) -> Seq<PortInfo> {
    match svc.spec {
        Some(spec) => match spec.ports {
            Some(ps) => port_infos_of(ps@),
            None => Seq::empty(),
        },
        None => Seq::empty(),
    }
}

/// The address of a service: none where it is headless or not IPv4.
pub open spec fn service_ip(svc: Service) -> Option<Ipv4Addr> {
    match svc.spec {
        Some(spec) => match spec.cluster_ip {
            Some(ip) => if ip@ == "None"@ || ip@.len() == 0 {
                None
            } else {
                addr_of(ip@)
            },
            None => None,
        },
        None => None,
    }
}

fn port_info(p: &ServicePort) -> (r: Option<PortInfo>)
    ensures
        r == port_info_of(*p),
{
    let svc_port: u16 = #[verifier::truncate] (p.port as u16);
    let target: Option<u16> = match &p.target_port {
        Some(IntOrString::Int(n)) => {
            let port: u16 = #[verifier::truncate] (*n as u16);
            Some(port)
        },
        Some(IntOrString::String(s)) => match parse_unsigned(s.as_str(), 65535) {
            Some(v) => Some(v as u16),
            None => None,
        },
        None => Some(svc_port),
    };
    let proto: Option<u8> = proto_byte(text_or(&p.protocol, "TCP"));
    match (target, proto) {
        (Some(target_port), Some(proto)) => Some(PortInfo { svc_port, target_port, proto }),
        _ => None,
    }
}

fn port_infos(ps: &Vec<ServicePort>) -> (r: Vec<PortInfo>)
    ensures
        r@ == port_infos_of(ps@),
{
    let mut out: Vec<PortInfo> = Vec::new();
    let mut i: usize = 0;
    assert(ps@.take(0) == Seq::<ServicePort>::empty());
    while i < ps.len()
        invariant
            i <= ps.len(),
            out@ == port_infos_of(ps@.take(i as int)),
        decreases ps.len() - i,
    {
        assert(ps@.take(i + 1).drop_last() == ps@.take(i as int));
        assert(ps@.take(i + 1).last() == ps@[i as int]);
        match port_info(&ps[i]) {
            Some(info) => out.push(info),
            None => {},
        }
        i = i + 1;
    }
    assert(ps@.take(i as int) == ps@);
    out
}

fn ports_of_service(svc: &Service) -> (r: Vec<PortInfo>)
    ensures
        r@ == service_ports(*svc),
{
    match &svc.spec {
        Some(spec) => match &spec.ports {
            Some(ps) => port_infos(ps),
            None => Vec::new(),
        },
        None => Vec::new(),
    }
}

fn ip_of_service(svc: &Service) -> (r: Option<Ipv4Addr>)
    ensures
        r == service_ip(*svc),
{
    match &svc.spec {
        Some(spec) => match &spec.cluster_ip {
            Some(ip) => {
                if same_text(ip.as_str(), "None") || ip.as_str().is_empty() {
                    None
                } else {
                    Ipv4Addr::parse(ip.as_str())
                }
            },
            None => None,
        },
        None => None,
    }
}

/// The service that a slice belongs to, by its label.
pub open spec fn labelled_service(labels: Seq<Label>) -> Option<Seq<char>>
    decreases labels.len(),
{
    if labels.len() == 0 {
        None
    } else if labels.first().name@ == SERVICE_NAME_LABEL@ {
        Some(labels.first().value@)
    } else {
        labelled_service(labels.drop_first())
    }
}

/// The service that a slice belongs to.
pub open spec fn slice_service(slice: EndpointSlice) -> Option<Seq<char>> {
    match slice.labels {
        Some(labels) => labelled_service(labels@),
        None => None,
    }
}

fn find_service_label(labels: &Vec<Label>) -> (r: Option<&str>)
    ensures
        match r {
            Some(s) => labelled_service(labels@) == Some(s@),
            None => labelled_service(labels@) is None,
        },
{
    let mut i: usize = 0;
    assert(labels@.skip(0) == labels@);
    while i < labels.len()
        invariant
            i <= labels.len(),
            labelled_service(labels@) == labelled_service(labels@.skip(i as int)),
        decreases labels.len() - i,
    {
        assert(labels@.skip(i as int).first() == labels@[i as int]);
        assert(labels@.skip(i as int).drop_first() == labels@.skip(i + 1));
        if same_text(labels[i].name.as_str(), SERVICE_NAME_LABEL) {
            return Some(labels[i].value.as_str());
        }
        i = i + 1;
    }
    None
}

fn service_of_slice(slice: &EndpointSlice) -> (r: Option<&str>)
    ensures
        match r {
            Some(s) => slice_service(*slice) == Some(s@),
            None => slice_service(*slice) is None,
        },
{
    match &slice.labels {
        Some(labels) => find_service_label(labels),
        None => None,
    }
}

/// The key of the service that an event is about: none where it is about none.
pub open spec fn event_key(event: SvcOrSlice) -> Option<Seq<char>> {
    match event {
        SvcOrSlice::Service(Event::Apply(s)) => named_service_key(s),
        SvcOrSlice::Service(Event::InitApply(s)) => named_service_key(s),
        SvcOrSlice::Service(Event::Delete(s)) => Some(
            service_key(
                text_or_spec(s.namespace, DEFAULT_NAMESPACE@),
                text_or_spec(s.name, ""@),
            ),
        ),
        SvcOrSlice::Slice(Event::Apply(s)) => slice_service_key(s),
        SvcOrSlice::Slice(Event::InitApply(s)) => slice_service_key(s),
        SvcOrSlice::Slice(Event::Delete(s)) => slice_service_key(s),
        _ => None,
    }
}

/// The key of a service that has a name.
pub open spec fn named_service_key(svc: Service) -> Option<Seq<char>> {
    match svc.name {
        Some(name) => Some(
            service_key(text_or_spec(svc.namespace, DEFAULT_NAMESPACE@), name@),
        ),
        None => None,
    }
}

/// The key of the service that a slice belongs to.
pub open spec fn slice_service_key(slice: EndpointSlice) -> Option<Seq<char>> {
    match slice_service(slice) {
        Some(name) => Some(service_key(text_or_spec(slice.namespace, DEFAULT_NAMESPACE@), name)),
        None => None,
    }
}

/// The backend that a slice port gives at an address: none where the port has no number or a
/// protocol that is not understood.
pub open spec fn backend_at(ip: Ipv4Addr, sp: SlicePort) -> Option<BackendEntry> {
    match (sp.port, proto_of(text_or_spec(sp.protocol, "TCP"@))) {
        (Some(n), Some(proto)) => Some(BackendEntry { pod_ip: ip, port: n as u16, proto }),
        _ => None,
    }
}

/// The backends that the ports of a slice give at an address, in order.
pub open spec fn backends_at(ip: Ipv4Addr, sps: Seq<SlicePort>) -> Seq<BackendEntry>
    decreases sps.len(),
{
    if sps.len() == 0 {
        Seq::empty()
    } else {
        match backend_at(ip, sps.last()) {
            Some(b) => backends_at(ip, sps.drop_last()).push(b),
            None => backends_at(ip, sps.drop_last()),
        }
    }
}

/// The backends that the addresses of an endpoint give. What is not an IPv4 address gives none.
pub open spec fn backends_of_addresses(
    addrs: Seq<String>,
    sps: Seq<SlicePort>,
) -> Seq<BackendEntry>
    decreases addrs.len(),
{
    if addrs.len() == 0 {
        Seq::empty()
    } else {
        backends_of_addresses(addrs.drop_last(), sps) + match addr_of(addrs.last()@) {
            Some(ip) => backends_at(ip, sps),
            None => Seq::empty(),
        }
    }
}

/// Whether an endpoint takes traffic: where nothing is said, it does.
pub open spec fn is_ready(ep: SliceEndpoint) -> bool {
    ep.ready != Some(false)
}

/// The backends that the endpoints of a slice give: those of the ready endpoints, in order.
pub open spec fn backends_of_endpoints(
    eps: Seq<SliceEndpoint>,
    sps: Seq<SlicePort>,
) -> Seq<BackendEntry>
    decreases eps.len(),
{
    if eps.len() == 0 {
        Seq::empty()
    } else {
        backends_of_endpoints(eps.drop_last(), sps) + if is_ready(eps.last()) {
            backends_of_addresses(eps.last().addresses@, sps)
        } else {
            Seq::empty()
        }
    }
}

fn push_backends_at(out: &mut Vec<BackendEntry>, ip: Ipv4Addr, sps: &Vec<SlicePort>)
    ensures
        final(out)@ == old(out)@ + backends_at(ip, sps@),
{
    let ghost before = out@;
    let mut i: usize = 0;
    assert(sps@.take(0) == Seq::<SlicePort>::empty());
    assert(before + Seq::<BackendEntry>::empty() == before);
    while i < sps.len()
        invariant
            i <= sps.len(),
            out@ == before + backends_at(ip, sps@.take(i as int)),
        decreases sps.len() - i,
    {
        assert(sps@.take(i + 1).drop_last() == sps@.take(i as int));
        assert(sps@.take(i + 1).last() == sps@[i as int]);
        let ghost so_far = backends_at(ip, sps@.take(i as int));
        let sp: &SlicePort = &sps[i];
        match (sp.port, proto_byte(text_or(&sp.protocol, "TCP"))) {
            (Some(n), Some(proto)) => {
                let port: u16 = #[verifier::truncate] (n as u16);
                let b: BackendEntry = BackendEntry { pod_ip: ip, port, proto };
                out.push(b);
                assert((before + so_far).push(b) == before + so_far.push(b));
            },
            _ => {},
        }
        i = i + 1;
    }
    assert(sps@.take(i as int) == sps@);
}

fn push_backends_of_addresses(
    out: &mut Vec<BackendEntry>,
    addrs: &Vec<String>,
    sps: &Vec<SlicePort>,
)
    ensures
        final(out)@ == old(out)@ + backends_of_addresses(addrs@, sps@),
{
    let ghost before = out@;
    let mut i: usize = 0;
    assert(addrs@.take(0) == Seq::<String>::empty());
    assert(before + Seq::<BackendEntry>::empty() == before);
    while i < addrs.len()
        invariant
            i <= addrs.len(),
            out@ == before + backends_of_addresses(addrs@.take(i as int), sps@),
        decreases addrs.len() - i,
    {
        assert(addrs@.take(i + 1).drop_last() == addrs@.take(i as int));
        assert(addrs@.take(i + 1).last() == addrs@[i as int]);
        let ghost so_far = backends_of_addresses(addrs@.take(i as int), sps@);
        match Ipv4Addr::parse(addrs[i].as_str()) {
            Some(ip) => {
                push_backends_at(out, ip, sps);
                assert((before + so_far) + backends_at(ip, sps@) == before + (so_far + backends_at(
                    ip,
                    sps@,
                )));
            },
            None => {
                assert(so_far + Seq::<BackendEntry>::empty() == so_far);
            },
        }
        i = i + 1;
    }
    assert(addrs@.take(i as int) == addrs@);
}

fn backends_of_slice(eps: &Vec<SliceEndpoint>, sps: &Vec<SlicePort>) -> (r: Vec<BackendEntry>)
    ensures
        r@ == backends_of_endpoints(eps@, sps@),
{
    let mut out: Vec<BackendEntry> = Vec::new();
    let mut i: usize = 0;
    assert(eps@.take(0) == Seq::<SliceEndpoint>::empty());
    while i < eps.len()
        invariant
            i <= eps.len(),
            out@ == backends_of_endpoints(eps@.take(i as int), sps@),
        decreases eps.len() - i,
    {
        assert(eps@.take(i + 1).drop_last() == eps@.take(i as int));
        assert(eps@.take(i + 1).last() == eps@[i as int]);
        let ready: bool = match eps[i].ready {
            Some(ready) => ready,
            None => true,
        };
        if ready {
            push_backends_of_addresses(&mut out, &eps[i].addresses, sps);
        } else {
            assert(out@ + Seq::<BackendEntry>::empty() == out@);
        }
        i = i + 1;
    }
    assert(eps@.take(i as int) == eps@);
    out
}

impl SvcOrSlice {
    /// The key of the service that this event is about: none where it is about none.
    pub fn key(&self) -> (r: Option<String>)
        ensures
            match r {
                Some(key) => event_key(*self) == Some(key@),
                None => event_key(*self) is None,
            },
    {
        match self {
            SvcOrSlice::Service(Event::Apply(s)) => key_of_named(s),
            SvcOrSlice::Service(Event::InitApply(s)) => key_of_named(s),
            SvcOrSlice::Service(Event::Delete(s)) => Some(
                SvcState::svc_key(
                    text_or(&s.namespace, DEFAULT_NAMESPACE),
                    text_or(&s.name, ""),
                ),
            ),
            SvcOrSlice::Slice(Event::Apply(s)) => key_of_slice(s),
            SvcOrSlice::Slice(Event::InitApply(s)) => key_of_slice(s),
            SvcOrSlice::Slice(Event::Delete(s)) => key_of_slice(s),
            _ => None,
        }
    }
}

fn key_of_named(svc: &Service) -> (r: Option<String>)
    ensures
        match r {
            Some(key) => named_service_key(*svc) == Some(key@),
            None => named_service_key(*svc) is None,
        },
{
    match &svc.name {
        Some(name) => Some(
            SvcState::svc_key(text_or(&svc.namespace, DEFAULT_NAMESPACE), name.as_str()),
        ),
        None => None,
    }
}

fn key_of_slice(slice: &EndpointSlice) -> (r: Option<String>)
    ensures
        match r {
            Some(key) => slice_service_key(*slice) == Some(key@),
            None => slice_service_key(*slice) is None,
        },
{
    match service_of_slice(slice) {
        Some(name) => Some(
            SvcState::svc_key(text_or(&slice.namespace, DEFAULT_NAMESPACE), name),
        ),
        None => None,
    }
}

// ── What is written to the maps ──────────────────────────────────────────────

/// All backends of the slices of a service, slice by slice.
pub open spec fn all_backends(slices: Slices) -> Seq<BackendEntry>
    decreases slices.len(),
{
    if slices.len() == 0 {
        Seq::empty()
    } else {
        all_backends(slices.drop_last()) + slices.last().1
    }
}

/// Whether a backend serves a port of a service: by port number and protocol.
pub open spec fn serves(b: BackendEntry, port: PortInfo) -> bool {
    b.port == port.target_port && b.proto == port.proto
}

/// The backends that serve a port, in order.
pub open spec fn serving(all: Seq<BackendEntry>, port: PortInfo) -> Seq<BackendEntry> {
    all.filter(|b: BackendEntry| serves(b, port))
}

/// The service-map key of a port of a service.
pub open spec fn map_key(ip: Ipv4Addr, port: PortInfo) -> ServiceKey {
    ServiceKey { vip: key_of(ip), port: port_key_of(port.svc_port), proto: port.proto, _pad: 0 }
}

/// The backend-map key of slot `i` of a port of a service.
pub open spec fn slot_key(id: u32, port: PortInfo, i: u32) -> BackendKey {
    BackendKey {
        service_id: id,
        index: i,
        port: port_key_of(port.svc_port),
        proto: port.proto,
        _pad: 0,
    }
}

/// The backend-map value of a backend.
pub open spec fn slot_val(b: BackendEntry) -> BackendVal {
    BackendVal { pod_ip: key_of(b.pod_ip), pod_port: port_key_of(b.port), _pad: [0u8, 0u8] }
}

/// The writes for one port: the service with the number of its backends, then each backend in its
/// slot.
pub open spec fn port_ops(
    id: u32,
    ip: Ipv4Addr,
    port: PortInfo,
    all: Seq<BackendEntry>,
) -> Seq<MapOp> {
    let mine = serving(all, port);
    seq![
        MapOp::ServicesUpsert(
            map_key(ip, port),
            (ServiceVal { service_id: id, backend_count: mine.len() as u32 }),
        ),
    ] + Seq::new(
        mine.len(),
        |i: int| MapOp::BackendsUpsert(slot_key(id, port, i as u32), slot_val(mine[i])),
    )
}

/// The writes for all ports of a service, port by port.
pub open spec fn ports_ops(
    id: u32,
    ip: Ipv4Addr,
    ports: Seq<PortInfo>,
    all: Seq<BackendEntry>,
) -> Seq<MapOp>
    decreases ports.len(),
{
    if ports.len() == 0 {
        Seq::empty()
    } else {
        ports_ops(id, ip, ports.drop_last(), all) + port_ops(id, ip, ports.last(), all)
    }
}

/// The removals of all ports of a service.
pub open spec fn removal_ops(rec: ServiceRecord) -> Seq<MapOp> {
    match rec.cluster_ip {
        Some(ip) => Seq::new(
            rec.ports.len(),
            |i: int| MapOp::ServicesRemove(map_key(ip, rec.ports[i])),
        ),
        None => Seq::empty(),
    }
}

/// The position of a slice.
pub open spec fn slice_at(slices: Slices, uid: Seq<char>, i: int) -> bool {
    0 <= i < slices.len() && slices[i].0 == uid
}

/// The slices with the backends of one of them replaced; a new slice comes last.
pub open spec fn put_slice(slices: Slices, uid: Seq<char>, bs: Seq<BackendEntry>) -> Slices {
    if exists|i: int| slice_at(slices, uid, i) {
        slices.update(choose|i: int| slice_at(slices, uid, i), (uid, bs))
    } else {
        slices.push((uid, bs))
    }
}

/// The slices without one of them.
pub open spec fn drop_slice(slices: Slices, uid: Seq<char>) -> Slices {
    if exists|i: int| slice_at(slices, uid, i) {
        slices.remove(choose|i: int| slice_at(slices, uid, i))
    } else {
        slices
    }
}

/// Whether each slice occurs once.
pub open spec fn slices_distinct(slices: Slices) -> bool {
    forall|i: int, j: int|
        0 <= i < slices.len() && 0 <= j < slices.len() && i != j ==> (#[trigger] slices[i]).0 != (
        #[trigger] slices[j]).0
}

impl SvcModel {
    /// The slices of a service.
    pub open spec fn slices_of(self, key: Seq<char>) -> Slices {
        if self.slices.dom().contains(key) {
            self.slices[key]
        } else {
            Seq::empty()
        }
    }

    /// The writes that bring the maps in line with what is known of a service: none where it is not
    /// known or has no address.
    pub open spec fn reconcile_ops(self, key: Seq<char>) -> Seq<MapOp> {
        if self.services.dom().contains(key) {
            let rec = self.services[key];
            match rec.cluster_ip {
                Some(ip) => ports_ops(rec.id, ip, rec.ports, all_backends(self.slices_of(key))),
                None => Seq::empty(),
            }
        } else {
            Seq::empty()
        }
    }

    /// The number of a service: the one it has, or the next.
    pub open spec fn id_for(self, key: Seq<char>) -> u32 {
        if self.services.dom().contains(key) {
            self.services[key].id
        } else {
            self.next_id
        }
    }

    /// Whether there is a number for a service that is described: it has one, or the next one is
    /// not the last of its width.
    pub open spec fn has_room(self, svc: Service) -> bool {
        match svc.name {
            Some(name) => {
                ||| self.services.dom().contains(
                    service_key(text_or_spec(svc.namespace, DEFAULT_NAMESPACE@), name@),
                )
                ||| self.next_id < u32::MAX
            },
            None => true,
        }
    }

    /// What is known once a service is described anew.
    pub open spec fn with_service(
        self,
        key: Seq<char>,
        cluster_ip: Option<Ipv4Addr>,
        ports: Seq<PortInfo>,
    ) -> SvcModel {
        SvcModel {
            next_id: if self.services.dom().contains(key) {
                self.next_id
            } else {
                (self.next_id + 1) as u32
            },
            services: self.services.insert(
                key,
                ServiceRecord { id: self.id_for(key), cluster_ip, ports },
            ),
            slices: self.slices,
        }
    }

    /// What is known once a service is gone; its slices are still known.
    pub open spec fn without_service(self, key: Seq<char>) -> SvcModel {
        SvcModel { services: self.services.remove(key), ..self }
    }

    /// What is known once the slices of a service are gone.
    pub open spec fn without_slices(self, key: Seq<char>) -> SvcModel {
        SvcModel { slices: self.slices.remove(key), ..self }
    }

    /// What is known once a slice is described anew.
    pub open spec fn with_slice(
        self,
        key: Seq<char>,
        uid: Seq<char>,
        bs: Seq<BackendEntry>,
    ) -> SvcModel {
        SvcModel {
            slices: self.slices.insert(key, put_slice(self.slices_of(key), uid, bs)),
            ..self
        }
    }

    /// What is known once a slice is gone.
    pub open spec fn without_slice(self, key: Seq<char>, uid: Seq<char>) -> SvcModel {
        if self.slices.dom().contains(key) {
            SvcModel {
                slices: self.slices.insert(key, drop_slice(self.slices[key], uid)),
                ..self
            }
        } else {
            self
        }
    }

    /// What is known once a description of a service came, and the writes that follow. One without
    /// a name is nothing.
    pub open spec fn apply_service(self, svc: Service) -> (SvcModel, Seq<MapOp>) {
        match svc.name {
            Some(name) => {
                let key = service_key(text_or_spec(svc.namespace, DEFAULT_NAMESPACE@), name@);
                let next = self.with_service(key, service_ip(svc), service_ports(svc));
                (next, next.reconcile_ops(key))
            },
            None => (self, Seq::empty()),
        }
    }

    /// What is known once a service was deleted, and the removals that follow. Its slices are known
    /// until these are done.
    pub open spec fn delete_service(self, ns: Seq<char>, name: Seq<char>) -> (
        SvcModel,
        Seq<MapOp>,
    ) {
        let key = service_key(ns, name);
        (
            self.without_service(key),
            if self.services.dom().contains(key) {
                removal_ops(self.services[key])
            } else {
                Seq::empty()
            },
        )
    }

    /// What is known once the removals for a deleted service ended: its slices are forgotten only
    /// where all went well.
    pub open spec fn service_deleted(
        self,
        ns: Seq<char>,
        name: Seq<char>,
        written: Result<(), String>,
    ) -> SvcModel {
        match written {
            Ok(_) => self.without_slices(service_key(ns, name)),
            Err(_) => self,
        }
    }

    /// What is known once a slice came, and the writes that follow. One that names no service, has
    /// no id or no ports is nothing.
    pub open spec fn apply_slice(self, slice: EndpointSlice) -> (SvcModel, Seq<MapOp>) {
        match (slice_service(slice), slice.uid, slice.ports) {
            (Some(name), Some(uid), Some(ports)) => {
                let key = service_key(text_or_spec(slice.namespace, DEFAULT_NAMESPACE@), name);
                let next = self.with_slice(
                    key,
                    uid@,
                    backends_of_endpoints(slice.endpoints@, ports@),
                );
                (next, next.reconcile_ops(key))
            },
            _ => (self, Seq::empty()),
        }
    }

    /// What is known once a slice was deleted, and the writes that follow. One that names no
    /// service or has no id is nothing.
    pub open spec fn delete_slice(self, slice: EndpointSlice) -> (SvcModel, Seq<MapOp>) {
        match (slice_service(slice), slice.uid) {
            (Some(name), Some(uid)) => {
                let key = service_key(text_or_spec(slice.namespace, DEFAULT_NAMESPACE@), name);
                let next = self.without_slice(key, uid@);
                (next, next.reconcile_ops(key))
            },
            _ => (self, Seq::empty()),
        }
    }

    /// What is known once an event came, and the writes that follow.
    pub open spec fn on_event(self, event: SvcOrSlice) -> (SvcModel, Seq<MapOp>) {
        match event {
            SvcOrSlice::Service(Event::Apply(s)) => self.apply_service(s),
            SvcOrSlice::Service(Event::InitApply(s)) => self.apply_service(s),
            SvcOrSlice::Service(Event::Delete(s)) => self.delete_service(
                text_or_spec(s.namespace, DEFAULT_NAMESPACE@),
                text_or_spec(s.name, ""@),
            ),
            SvcOrSlice::Slice(Event::Apply(s)) => self.apply_slice(s),
            SvcOrSlice::Slice(Event::InitApply(s)) => self.apply_slice(s),
            SvcOrSlice::Slice(Event::Delete(s)) => self.delete_slice(s),
            _ => (self, Seq::empty()),
        }
    }

    /// What is known once the writes of an event ended, all well or with a failure.
    pub open spec fn settled(self, event: SvcOrSlice, written: Result<(), String>) -> SvcModel {
        match event {
            SvcOrSlice::Service(Event::Delete(s)) => self.service_deleted(
                text_or_spec(s.namespace, DEFAULT_NAMESPACE@),
                text_or_spec(s.name, ""@),
                written,
            ),
            _ => self,
        }
    }

    /// What is known once an event came and its writes ended.
    pub open spec fn after_event(self, event: SvcOrSlice, written: Result<(), String>) -> SvcModel {
        self.on_event(event).0.settled(event, written)
    }

    /// Whether there is a number for the service of an event.
    pub open spec fn has_room_for(self, event: SvcOrSlice) -> bool {
        match event {
            SvcOrSlice::Service(Event::Apply(s)) => self.has_room(s),
            SvcOrSlice::Service(Event::InitApply(s)) => self.has_room(s),
            _ => true,
        }
    }

    /// Whether the numbers of the services are below the next one and differ from each other, and
    /// each slice of a service is known once.
    pub open spec fn consistent(self) -> bool {
        &&& forall|k: Seq<char>| #[trigger]
            self.services.dom().contains(k) ==> 1 <= self.services[k].id < self.next_id
        &&& forall|k: Seq<char>, l: Seq<char>|
            #![trigger self.services[k], self.services[l]]
            self.services.dom().contains(k) && self.services.dom().contains(l)
                && self.services[k].id == self.services[l].id ==> k == l
        &&& self.next_id >= 1
        &&& forall|k: Seq<char>| #[trigger]
            self.slices.dom().contains(k) ==> slices_distinct(self.slices[k])
    }
}

// ── The state ────────────────────────────────────────────────────────────────

/// What the agent knows of services and their backends.
pub struct SvcState {
    next_id: u32,
    services: StrMap<SvcInfo>,
    slice_backends: StrMap<StrMap<Vec<BackendEntry>>>,
}

/// The slices that a map from slice ids to backends holds.
spec fn slices_in(m: StrMap<Vec<BackendEntry>>) -> Slices {
    Seq::new(m.order().len(), |i: int| (m.order()[i], m@[m.order()[i]]@))
}

proof fn lemma_put_slice(
    before: StrMap<Vec<BackendEntry>>,
    after: StrMap<Vec<BackendEntry>>,
    uid: Seq<char>,
    bs: Vec<BackendEntry>,
)
    requires
        before.wf(),
        after.wf(),
        after@ == before@.insert(uid, bs),
        after.order() == (if before.order().contains(uid) {
            before.order()
        } else {
            before.order().push(uid)
        }),
    ensures
        slices_in(after) == put_slice(slices_in(before), uid, bs@),
        slices_distinct(slices_in(after)),
{
    before.lemma_order();
    after.lemma_order();
    let o = before.order();
    let s = slices_in(before);
    let r = slices_in(after);
    if o.contains(uid) {
        let i = o.index_of(uid);
        assert(slice_at(s, uid, i));
        let c = choose|c: int| slice_at(s, uid, c);
        assert(s[c].0 == o[c]);
        assert(c == i);
        assert forall|j: int| 0 <= j < r.len() implies r[j] == s.update(c, (uid, bs@))[j] by {
            if j != c {
                assert(o[j] != o[c]);
            }
        }
        assert(r =~= s.update(c, (uid, bs@)));
    } else {
        assert forall|c: int| !slice_at(s, uid, c) by {
            if slice_at(s, uid, c) {
                assert(s[c].0 == o[c]);
                assert(o.contains(o[c]));
            }
        }
        assert forall|j: int| 0 <= j < r.len() implies r[j] == s.push((uid, bs@))[j] by {
            if j < o.len() {
                assert(after.order()[j] == o[j]);
                assert(o.contains(o[j]));
            }
        }
        assert(r =~= s.push((uid, bs@)));
    }
    lemma_distinct(after);
}

proof fn lemma_drop_slice(
    before: StrMap<Vec<BackendEntry>>,
    after: StrMap<Vec<BackendEntry>>,
    uid: Seq<char>,
)
    requires
        before.wf(),
        after.wf(),
        after@ == before@.remove(uid),
        after.order() == (if before@.dom().contains(uid) {
            before.order().remove(before.order().index_of(uid))
        } else {
            before.order()
        }),
    ensures
        slices_in(after) == drop_slice(slices_in(before), uid),
        slices_distinct(slices_in(after)),
{
    before.lemma_order();
    after.lemma_order();
    let o = before.order();
    let s = slices_in(before);
    let r = slices_in(after);
    if o.contains(uid) {
        assert(before@.dom().contains(uid));
        let i = o.index_of(uid);
        assert(slice_at(s, uid, i));
        let c = choose|c: int| slice_at(s, uid, c);
        assert(s[c].0 == o[c]);
        assert(c == i);
        assert forall|j: int| 0 <= j < r.len() implies r[j] == s.remove(c)[j] by {
            let j0 = if j < c {
                j
            } else {
                j + 1
            };
            assert(after.order()[j] == o[j0]);
            assert(o[j0] != o[c]);
        }
        assert(r =~= s.remove(c));
    } else {
        assert(!before@.dom().contains(uid));
        assert forall|c: int| !slice_at(s, uid, c) by {
            if slice_at(s, uid, c) {
                assert(s[c].0 == o[c]);
                assert(o.contains(o[c]));
            }
        }
        assert forall|j: int| 0 <= j < r.len() implies r[j] == s[j] by {
            assert(o.contains(o[j]));
        }
        assert(r =~= s);
    }
    lemma_distinct(after);
}

proof fn lemma_distinct(m: StrMap<Vec<BackendEntry>>)
    requires
        m.wf(),
    ensures
        slices_distinct(slices_in(m)),
{
    m.lemma_order();
    let s = slices_in(m);
    assert forall|i: int, j: int|
        0 <= i < s.len() && 0 <= j < s.len() && i != j implies (#[trigger] s[i]).0 != (
    #[trigger] s[j]).0 by {
        assert(s[i].0 == m.order()[i]);
        assert(s[j].0 == m.order()[j]);
    }
}

impl View for SvcState {
    type V = SvcModel;

    closed spec fn view(&self) -> SvcModel {
        SvcModel {
            next_id: self.next_id,
            services: Map::new(
                |k: Seq<char>| self.services@.dom().contains(k),
                |k: Seq<char>| self.services@[k]@,
            ),
            slices: Map::new(
                |k: Seq<char>| self.slice_backends@.dom().contains(k),
                |k: Seq<char>| slices_in(self.slice_backends@[k]),
            ),
        }
    }
}

/// The backends of a service in one list.
fn flatten(slices: &StrMap<Vec<BackendEntry>>) -> (r: Vec<BackendEntry>)
    requires
        slices.wf(),
    ensures
        r@ == all_backends(slices_in(*slices)),
{
    let mut out: Vec<BackendEntry> = Vec::new();
    let ghost s = slices_in(*slices);
    let n: usize = slices.len();
    let mut i: usize = 0;
    assert(s.take(0) == Seq::<(Seq<char>, Seq<BackendEntry>)>::empty());
    while i < n
        invariant
            slices.wf(),
            n == slices.order().len(),
            i <= n,
            s == slices_in(*slices),
            out@ == all_backends(s.take(i as int)),
        decreases n - i,
    {
        let bs: &Vec<BackendEntry> = slices.value_at(i);
        let ghost before = out@;
        let mut j: usize = 0;
        assert(before + bs@.take(0) == before);
        while j < bs.len()
            invariant
                j <= bs.len(),
                out@ == before + bs@.take(j as int),
            decreases bs.len() - j,
        {
            out.push(bs[j]);
            assert((before + bs@.take(j as int)).push(bs@[j as int]) == before + bs@.take(j + 1));
            j = j + 1;
        }
        assert(bs@.take(j as int) == bs@);
        assert(s.take(i + 1).drop_last() == s.take(i as int));
        assert(s.take(i + 1).last() == s[i as int]);
        assert(s[i as int].1 == bs@);
        i = i + 1;
    }
    assert(s.take(i as int) == s);
    out
}

/// The backends that serve a port.
fn select(all: &Vec<BackendEntry>, port: PortInfo) -> (r: Vec<BackendEntry>)
    ensures
        r@ == serving(all@, port),
{
    let mut out: Vec<BackendEntry> = Vec::new();
    let mut i: usize = 0;
    assert(all@.take(0) == Seq::<BackendEntry>::empty());
    assert(serving(all@.take(0), port) == Seq::<BackendEntry>::empty()) by {
        reveal(Seq::filter);
    }
    while i < all.len()
        invariant
            i <= all.len(),
            out@ == serving(all@.take(i as int), port),
        decreases all.len() - i,
    {
        proof {
            reveal(Seq::filter);
            assert(all@.take(i + 1).drop_last() == all@.take(i as int));
            assert(all@.take(i + 1).last() == all@[i as int]);
        }
        let b: BackendEntry = all[i];
        if b.port == port.target_port && b.proto == port.proto {
            out.push(b);
        }
        i = i + 1;
    }
    assert(all@.take(i as int) == all@);
    out
}

/// Adds the writes for one port.
fn push_port_ops(
    out: &mut Vec<MapOp>,
    id: u32,
    ip: Ipv4Addr,
    port: PortInfo,
    all: &Vec<BackendEntry>,
)
    ensures
        final(out)@ == old(out)@ + port_ops(id, ip, port, all@),
{
    let mine: Vec<BackendEntry> = select(all, port);
    let ghost ops = port_ops(id, ip, port, all@);
    let ghost before = out@;
    let n: usize = mine.len();
    let count: u32 = #[verifier::truncate] (n as u32);
    let key: ServiceKey = ServiceKey {
        vip: endpoint_key(ip),
        port: port_key(port.svc_port),
        proto: port.proto,
        _pad: 0,
    };
    out.push(services_upsert(key, ServiceVal { service_id: id, backend_count: count }));
    assert(out@ == before + ops.take(1));
    let mut i: usize = 0;
    while i < n
        invariant
            n == mine.len(),
            mine@ == serving(all@, port),
            ops == port_ops(id, ip, port, all@),
            ops.len() == n + 1,
            i <= n,
            out@ == before + ops.take(i + 1),
        decreases n - i,
    {
        let b: BackendEntry = mine[i];
        let slot: u32 = #[verifier::truncate] (i as u32);
        let bkey: BackendKey = BackendKey {
            service_id: id,
            index: slot,
            port: port_key(port.svc_port),
            proto: port.proto,
            _pad: 0,
        };
        let bval: BackendVal = BackendVal {
            pod_ip: endpoint_key(b.pod_ip),
            pod_port: port_key(b.port),
            _pad: [0u8, 0u8],
        };
        out.push(backends_upsert(bkey, bval));
        assert(ops[i + 1] == MapOp::BackendsUpsert(bkey, bval));
        assert((before + ops.take(i + 1)).push(ops[i + 1]) == before + ops.take(i + 2));
        i = i + 1;
    }
    assert(ops.take(i + 1) == ops);
}

impl SvcState {
    /// Whether the maps inside are sound and the numbers of the services differ.
    pub closed spec fn wf(&self) -> bool {
        &&& self.services.wf()
        &&& self.slice_backends.wf()
        &&& forall|k: Seq<char>| #[trigger]
            self.slice_backends@.dom().contains(k) ==> self.slice_backends@[k].wf()
        &&& self@.consistent()
    }

    /// What is known always holds together: the numbers of the services differ from each other, and
    /// no slice is known twice.
    pub proof fn law_consistent(&self)
        requires
            self.wf(),
        ensures
            self@.consistent(),
    {
    }

    /// Nothing is known yet.
    pub fn new() -> (r: SvcState)
        ensures
            r.wf(),
            r@ == (SvcModel { next_id: 1, services: Map::empty(), slices: Map::empty() }),
    {
        let r = SvcState { next_id: 1, services: StrMap::new(), slice_backends: StrMap::new() };
        assert(r@ =~= SvcModel { next_id: 1, services: Map::empty(), slices: Map::empty() });
        r
    }

    /// Whether a description can be taken in: a new service needs a number.
    pub fn can_apply(&self, svc: &Service) -> (r: bool)
        requires
            self.wf(),
        ensures
            r == self@.has_room(*svc),
    {
        match &svc.name {
            Some(name) => {
                let key: String = Self::svc_key(
                    text_or(&svc.namespace, DEFAULT_NAMESPACE),
                    name.as_str(),
                );
                match self.services.get(key.as_str()) {
                    Some(_) => true,
                    None => self.next_id < u32::MAX,
                }
            },
            None => true,
        }
    }

    fn svc_key(ns: &str, name: &str) -> (r: String)
        ensures
            r@ == service_key(ns@, name@),
    {
        let mut out: String = join2(ns, "/");
        out.append(name);
        out
    }

    /// Takes in a description of a service, and gives the writes that follow. A service that is
    /// known keeps its number; a description without a name is nothing.
    pub fn handle_service_apply(&mut self, svc: &Service) -> (r: Vec<MapOp>)
        requires
            old(self).wf(),
            old(self)@.has_room(*svc),
        ensures
            final(self).wf(),
            final(self)@ == old(self)@.apply_service(*svc).0,
            r@ == old(self)@.apply_service(*svc).1,
    {
        let name: &str = match &svc.name {
            Some(name) => name.as_str(),
            None => {
                return Vec::new();
            },
        };
        let key: String = Self::svc_key(text_or(&svc.namespace, DEFAULT_NAMESPACE), name);
        let cluster_ip: Option<Ipv4Addr> = ip_of_service(svc);
        let ports: Vec<PortInfo> = ports_of_service(svc);
        let known: Option<u32> = match self.services.get(key.as_str()) {
            Some(info) => Some(info.id),
            None => None,
        };
        let ghost model = self@.with_service(key@, cluster_ip, ports@);
        let id: u32 = match known {
            Some(id) => id,
            None => {
                let id: u32 = self.next_id;
                self.next_id = self.next_id + 1;
                id
            },
        };
        let info: SvcInfo = SvcInfo { id, cluster_ip, ports };
        self.services.insert(key.clone(), info);
        proof {
            assert(self@ =~= model);
            lemma_with_service(old(self)@, key@, cluster_ip, ports@);
        }
        self.reconcile(key.as_str())
    }

    /// Forgets a service, and gives the removals that follow. Once these ended, `service_deleted` is
    /// to be told: until then the slices of the service are kept.
    pub fn handle_service_delete(&mut self, ns: &str, name: &str) -> (r: Vec<MapOp>)
        requires
            old(self).wf(),
        ensures
            final(self).wf(),
            final(self)@ == old(self)@.delete_service(ns@, name@).0,
            r@ == old(self)@.delete_service(ns@, name@).1,
    {
        let key: String = Self::svc_key(ns, name);
        let mut out: Vec<MapOp> = Vec::new();
        match self.services.remove(key.as_str()) {
            Some(info) => match info.cluster_ip {
                Some(ip) => {
                    let ghost ops = removal_ops(info@);
                    let mut i: usize = 0;
                    while i < info.ports.len()
                        invariant
                            i <= info.ports.len(),
                            info.cluster_ip == Some(ip),
                            ops == removal_ops(info@),
                            out@ == ops.take(i as int),
                        decreases info.ports.len() - i,
                    {
                        let port: PortInfo = info.ports[i];
                        let bpf_key: ServiceKey = ServiceKey {
                            vip: endpoint_key(ip),
                            port: port_key(port.svc_port),
                            proto: port.proto,
                            _pad: 0,
                        };
                        out.push(services_remove(bpf_key));
                        assert(ops.take(i as int).push(ops[i as int]) == ops.take(i + 1));
                        i = i + 1;
                    }
                    assert(ops.take(i as int) == ops);
                },
                None => {},
            },
            None => {},
        }
        proof {
            assert(self@ =~= old(self)@.without_service(key@));
        }
        out
    }

    /// Ends the deletion of a service, given how its removals went: where one failed, the slices of
    /// the service are kept.
    pub fn service_deleted(&mut self, ns: &str, name: &str, written: &Result<(), String>)
        requires
            old(self).wf(),
        ensures
            final(self).wf(),
            final(self)@ == old(self)@.service_deleted(ns@, name@, *written),
    {
        if let Ok(_) = written {
            let key: String = Self::svc_key(ns, name);
            let _slices: Option<StrMap<Vec<BackendEntry>>> = self.slice_backends.remove(
                key.as_str(),
            );
            proof {
                assert(self@ =~= old(self)@.without_slices(key@));
            }
        }
    }

    /// Takes in a slice of the endpoints of a service, and gives the writes that follow. What
    /// names no service, has no id or no ports is nothing.
    pub fn handle_slice_apply(&mut self, slice: &EndpointSlice) -> (r: Vec<MapOp>)
        requires
            old(self).wf(),
        ensures
            final(self).wf(),
            final(self)@ == old(self)@.apply_slice(*slice).0,
            r@ == old(self)@.apply_slice(*slice).1,
    {
        let name: &str = match service_of_slice(slice) {
            Some(name) => name,
            None => {
                return Vec::new();
            },
        };
        let uid: &String = match &slice.uid {
            Some(uid) => uid,
            None => {
                return Vec::new();
            },
        };
        let ports: &Vec<SlicePort> = match &slice.ports {
            Some(ports) => ports,
            None => {
                return Vec::new();
            },
        };
        let key: String = Self::svc_key(text_or(&slice.namespace, DEFAULT_NAMESPACE), name);
        let backends: Vec<BackendEntry> = backends_of_slice(&slice.endpoints, ports);
        let ghost bs = backends;
        let mut slices: StrMap<Vec<BackendEntry>> = match self.slice_backends.remove(
            key.as_str(),
        ) {
            Some(slices) => slices,
            None => StrMap::new(),
        };
        let ghost before = slices;
        assert(slices_in(before) =~= old(self)@.slices_of(key@));
        slices.insert(uid.clone(), backends);
        proof {
            lemma_put_slice(before, slices, uid@, bs);
        }
        self.slice_backends.insert(key.clone(), slices);
        proof {
            assert(self@ =~= old(self)@.with_slice(key@, uid@, bs@));
        }
        self.reconcile(key.as_str())
    }

    /// Forgets a slice of the endpoints of a service, and gives the writes that follow.
    pub fn handle_slice_delete(&mut self, slice: &EndpointSlice) -> (r: Vec<MapOp>)
        requires
            old(self).wf(),
        ensures
            final(self).wf(),
            final(self)@ == old(self)@.delete_slice(*slice).0,
            r@ == old(self)@.delete_slice(*slice).1,
    {
        let name: &str = match service_of_slice(slice) {
            Some(name) => name,
            None => {
                return Vec::new();
            },
        };
        let uid: &String = match &slice.uid {
            Some(uid) => uid,
            None => {
                return Vec::new();
            },
        };
        let key: String = Self::svc_key(text_or(&slice.namespace, DEFAULT_NAMESPACE), name);
        match self.slice_backends.remove(key.as_str()) {
            Some(s) => {
                let mut slices: StrMap<Vec<BackendEntry>> = s;
                let ghost before = slices;
                let _gone: Option<Vec<BackendEntry>> = slices.remove(uid.as_str());
                proof {
                    lemma_drop_slice(before, slices, uid@);
                }
                self.slice_backends.insert(key.clone(), slices);
            },
            None => {},
        }
        proof {
            assert(self@ =~= old(self)@.without_slice(key@, uid@));
        }
        self.reconcile(key.as_str())
    }

    /// Whether an event can be taken in: a new service needs a number.
    pub fn can_handle(&self, event: &SvcOrSlice) -> (r: bool)
        requires
            self.wf(),
        ensures
            r == self@.has_room_for(*event),
    {
        match event {
            SvcOrSlice::Service(Event::Apply(s)) => self.can_apply(s),
            SvcOrSlice::Service(Event::InitApply(s)) => self.can_apply(s),
            _ => true,
        }
    }

    /// Takes in an event, and gives the writes that follow. Once these ended, `settle` is to be told.
    pub fn handle(&mut self, event: &SvcOrSlice) -> (r: Vec<MapOp>)
        requires
            old(self).wf(),
            old(self)@.has_room_for(*event),
        ensures
            final(self).wf(),
            final(self)@ == old(self)@.on_event(*event).0,
            r@ == old(self)@.on_event(*event).1,
    {
        match event {
            SvcOrSlice::Service(Event::Apply(s)) => self.handle_service_apply(s),
            SvcOrSlice::Service(Event::InitApply(s)) => self.handle_service_apply(s),
            SvcOrSlice::Service(Event::Delete(s)) => self.handle_service_delete(
                text_or(&s.namespace, DEFAULT_NAMESPACE),
                text_or(&s.name, ""),
            ),
            SvcOrSlice::Slice(Event::Apply(s)) => self.handle_slice_apply(s),
            SvcOrSlice::Slice(Event::InitApply(s)) => self.handle_slice_apply(s),
            SvcOrSlice::Slice(Event::Delete(s)) => self.handle_slice_delete(s),
            _ => Vec::new(),
        }
    }

    /// Ends what an event began, given how its writes went.
    pub fn settle(&mut self, event: &SvcOrSlice, written: &Result<(), String>)
        requires
            old(self).wf(),
        ensures
            final(self).wf(),
            final(self)@ == old(self)@.settled(*event, *written),
    {
        if let SvcOrSlice::Service(Event::Delete(s)) = event {
            self.service_deleted(
                text_or(&s.namespace, DEFAULT_NAMESPACE),
                text_or(&s.name, ""),
                written,
            );
        }
    }

    /// The writes that bring the maps in line with what is known of a service.
    pub fn reconcile(&self, svc_key: &str) -> (r: Vec<MapOp>)
        requires
            self.wf(),
        ensures
            r@ == self@.reconcile_ops(svc_key@),
    {
        let svc: &SvcInfo = match self.services.get(svc_key) {
            Some(svc) => svc,
            None => {
                return Vec::new();
            },
        };
        let ip: Ipv4Addr = match svc.cluster_ip {
            Some(ip) => ip,
            None => {
                return Vec::new();
            },
        };
        let all: Vec<BackendEntry> = match self.slice_backends.get(svc_key) {
            Some(slices) => flatten(slices),
            None => Vec::new(),
        };
        assert(all@ =~= all_backends(self@.slices_of(svc_key@)));
        let ports: &Vec<PortInfo> = &svc.ports;
        let mut out: Vec<MapOp> = Vec::new();
        let mut i: usize = 0;
        assert(ports@.take(0) == Seq::<PortInfo>::empty());
        while i < ports.len()
            invariant
                i <= ports.len(),
                out@ == ports_ops(svc.id, ip, ports@.take(i as int), all@),
            decreases ports.len() - i,
        {
            assert(ports@.take(i + 1).drop_last() == ports@.take(i as int));
            assert(ports@.take(i + 1).last() == ports@[i as int]);
            push_port_ops(&mut out, svc.id, ip, ports[i], &all);
            i = i + 1;
        }
        assert(ports@.take(i as int) == ports@);
        out
    }
}

proof fn lemma_with_service(
    m: SvcModel,
    key: Seq<char>,
    cluster_ip: Option<Ipv4Addr>,
    ports: Seq<PortInfo>,
)
    requires
        m.consistent(),
        m.services.dom().contains(key) || m.next_id < u32::MAX,
    ensures
        m.with_service(key, cluster_ip, ports).consistent(),
{
    let n = m.with_service(key, cluster_ip, ports);
    assert forall|k: Seq<char>, l: Seq<char>|
        #![trigger n.services[k], n.services[l]]
        n.services.dom().contains(k) && n.services.dom().contains(l) && n.services[k].id
            == n.services[l].id implies k == l by {
        assert(k != key ==> m.services.dom().contains(k));
        assert(l != key ==> m.services.dom().contains(l));
        if k != key && l != key {
            assert(m.services[k].id == m.services[l].id);
        } else if m.services.dom().contains(key) {
            assert(m.services[k].id == m.services[l].id);
        }
    }
}

}
