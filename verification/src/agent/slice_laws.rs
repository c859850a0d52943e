//! What the descriptions of services and slices come to: which ports and backends are known, and how
//! they reach the maps.
use vstd::prelude::*;

use crate::agent::service_laws::{
    addresses_differ, all_countable, holds_port, in_line, last_of_its_front,
    law_deleted_service_is_gone, law_maps_stay_in_line, law_serving_backends_match, same_front, service_in_line, ServiceMaps,
};
use crate::agent::services::{
    all_backends, backend_at, backends_at, backends_of_addresses, backends_of_endpoints,
    drop_slice, labelled_service, map_key, port_info_of, port_infos_of, put_slice, service_ip,
    service_key, service_ports, serving, slice_at, slice_service, slices_distinct, slot_key,
    slot_val, BackendEntry, EndpointSlice, IntOrString, Label, PortInfo, Service, ServicePort,
    SliceEndpoint, SlicePort, Slices, SvcModel, SvcOrSlice, DEFAULT_NAMESPACE,
};
use crate::agent::watch::Event;
use crate::bpf::MapOp;
use crate::common::{law_endpoint_key_injective, law_port_key_involution, ServiceKey};
use crate::datapath::laws::lookup;
use crate::net::{addr_of, Ipv4Addr};
use crate::text::{text_or_spec, unsigned_value};

verus! {

/// Whether a protocol is the one of a number: 6 is TCP, 17 is UDP, and where none is named it is TCP.
pub open spec fn is_protocol(name: Option<String>, number: u8) -> bool {
    match name {
        None => number == 6,
        Some(s) => (s@ == "TCP"@ && number == 6) || (s@ == "UDP"@ && number == 17),
    }
}

/// Whether a port of a slice gives a backend at an address: the backend has the address, the number
/// of the port in 16 bits, and its protocol.
pub open spec fn port_gives(ip: Ipv4Addr, sp: SlicePort, b: BackendEntry) -> bool {
    &&& b.pod_ip == ip
    &&& sp.port matches Some(n) && b.port == n as u16
    &&& is_protocol(sp.protocol, b.proto)
}

/// Whether address `j` of an endpoint and port `k` of its slice give a backend.
pub open spec fn endpoint_gives(
    ep: SliceEndpoint,
    j: int,
    sps: Seq<SlicePort>,
    k: int,
    b: BackendEntry,
) -> bool {
    &&& ep.ready != Some(false)
    &&& 0 <= j < ep.addresses@.len()
    &&& 0 <= k < sps.len()
    &&& addr_of(ep.addresses@[j]@) matches Some(ip) && port_gives(ip, sps[k], b)
}

proof fn lemma_backend_at(ip: Ipv4Addr, sp: SlicePort, b: BackendEntry)
    ensures
        backend_at(ip, sp) == Some(b) <==> port_gives(ip, sp, b),
{
    reveal_strlit("TCP");
    reveal_strlit("UDP");
    assert("TCP"@[0] != "UDP"@[0]);
    match backend_at(ip, sp) {
        Some(x) => {
            assert(port_gives(ip, sp, x));
        },
        None => {},
    }
}

proof fn lemma_backends_at(ip: Ipv4Addr, sps: Seq<SlicePort>, b: BackendEntry)
    ensures
        backends_at(ip, sps).contains(b) <==> exists|k: int|
            0 <= k < sps.len() && port_gives(ip, #[trigger] sps[k], b),
    decreases sps.len(),
{
    let r = backends_at(ip, sps);
    if sps.len() > 0 {
        let front = sps.drop_last();
        let last = sps[sps.len() - 1];
        let r0 = backends_at(ip, front);
        lemma_backends_at(ip, front, b);
        lemma_backend_at(ip, last, b);
        if r.contains(b) {
            let i = choose|i: int| 0 <= i < r.len() && r[i] == b;
            if i < r0.len() {
                assert(r0[i] == b);
                let k = choose|k: int|
                    0 <= k < front.len() && port_gives(ip, #[trigger] front[k], b);
                assert(sps[k] == front[k]);
            }
        }
        if exists|k: int| 0 <= k < sps.len() && port_gives(ip, #[trigger] sps[k], b) {
            let k = choose|k: int| 0 <= k < sps.len() && port_gives(ip, #[trigger] sps[k], b);
            if k < front.len() {
                assert(front[k] == sps[k]);
                let i = choose|i: int| 0 <= i < r0.len() && r0[i] == b;
                assert(r[i] == b);
            } else {
                assert(r[r.len() - 1] == b);
            }
        }
    }
}

/// Whether address `j` of some and port `k` give a backend.
spec fn address_gives(addrs: Seq<String>, j: int, sps: Seq<SlicePort>, k: int, b: BackendEntry) -> bool {
    &&& 0 <= j < addrs.len()
    &&& 0 <= k < sps.len()
    &&& addr_of(addrs[j]@) matches Some(ip) && port_gives(ip, sps[k], b)
}

proof fn lemma_backends_of_addresses(addrs: Seq<String>, sps: Seq<SlicePort>, b: BackendEntry)
    ensures
        backends_of_addresses(addrs, sps).contains(b) <==> exists|j: int, k: int|
            address_gives(addrs, j, sps, k, b),
    decreases addrs.len(),
{
    let r = backends_of_addresses(addrs, sps);
    if addrs.len() > 0 {
        let front = addrs.drop_last();
        let last = addrs[addrs.len() - 1];
        let r0 = backends_of_addresses(front, sps);
        lemma_backends_of_addresses(front, sps, b);
        let add: Seq<BackendEntry> = match addr_of(last@) {
            Some(ip) => backends_at(ip, sps),
            None => Seq::empty(),
        };
        assert(r == r0 + add);
        if addr_of(last@) is Some {
            lemma_backends_at(addr_of(last@)->0, sps, b);
        }
        if r.contains(b) {
            let i = choose|i: int| 0 <= i < r.len() && r[i] == b;
            if i < r0.len() {
                assert(r0[i] == b);
                let (j, k) = choose|j: int, k: int| address_gives(front, j, sps, k, b);
                assert(addrs[j] == front[j]);
                assert(address_gives(addrs, j, sps, k, b));
            } else {
                assert(add[i - r0.len()] == b);
                assert(add.contains(b));
                let ip = addr_of(last@)->0;
                let k = choose|k: int| 0 <= k < sps.len() && port_gives(ip, #[trigger] sps[k], b);
                assert(address_gives(addrs, addrs.len() - 1, sps, k, b));
            }
        }
        if exists|j: int, k: int| address_gives(addrs, j, sps, k, b) {
            let (j, k) = choose|j: int, k: int| address_gives(addrs, j, sps, k, b);
            if j < front.len() {
                assert(front[j] == addrs[j]);
                assert(address_gives(front, j, sps, k, b));
                let i = choose|i: int| 0 <= i < r0.len() && r0[i] == b;
                assert(r[i] == b);
            } else {
                let ip = addr_of(last@)->0;
                assert(port_gives(ip, sps[k], b));
                assert(add.contains(b));
                let i = choose|i: int| 0 <= i < add.len() && add[i] == b;
                assert(r[r0.len() + i] == b);
            }
        }
    }
}

/// A backend is known of a slice exactly where one of its endpoints that is not marked unready has
/// an IPv4 address, and the slice a numbered TCP or UDP port, that give it.
pub proof fn law_slice_gives_its_backends(
    eps: Seq<SliceEndpoint>,
    sps: Seq<SlicePort>,
    b: BackendEntry,
)
    ensures
        backends_of_endpoints(eps, sps).contains(b) <==> exists|i: int, j: int, k: int|
            0 <= i < eps.len() && #[trigger] endpoint_gives(eps[i], j, sps, k, b),
    decreases eps.len(),
{
    let r = backends_of_endpoints(eps, sps);
    if eps.len() > 0 {
        let front = eps.drop_last();
        let last = eps[eps.len() - 1];
        let r0 = backends_of_endpoints(front, sps);
        law_slice_gives_its_backends(front, sps, b);
        lemma_backends_of_addresses(last.addresses@, sps, b);
        let add: Seq<BackendEntry> = if last.ready != Some(false) {
            backends_of_addresses(last.addresses@, sps)
        } else {
            Seq::empty()
        };
        assert(r == r0 + add);
        if r.contains(b) {
            let n = choose|n: int| 0 <= n < r.len() && r[n] == b;
            if n < r0.len() {
                assert(r0[n] == b);
                let (i, j, k) = choose|i: int, j: int, k: int|
                    0 <= i < front.len() && #[trigger] endpoint_gives(front[i], j, sps, k, b);
                assert(endpoint_gives(eps[i], j, sps, k, b));
            } else {
                assert(add[n - r0.len()] == b);
                assert(add.contains(b));
                let (j, k) = choose|j: int, k: int| address_gives(last.addresses@, j, sps, k, b);
                assert(endpoint_gives(eps[eps.len() - 1], j, sps, k, b));
            }
        }
        if exists|i: int, j: int, k: int|
            0 <= i < eps.len() && #[trigger] endpoint_gives(eps[i], j, sps, k, b) {
            let (i, j, k) = choose|i: int, j: int, k: int|
                0 <= i < eps.len() && #[trigger] endpoint_gives(eps[i], j, sps, k, b);
            if i < front.len() {
                assert(endpoint_gives(front[i], j, sps, k, b));
                let n = choose|n: int| 0 <= n < r0.len() && r0[n] == b;
                assert(r[n] == b);
            } else {
                assert(address_gives(last.addresses@, j, sps, k, b));
                assert(add.contains(b));
                let n = choose|n: int| 0 <= n < add.len() && add[n] == b;
                assert(r[r0.len() + n] == b);
            }
        }
    }
}

/// The backends of a slice come endpoint by endpoint, in each address by address, and for each port
/// by port, none left out and none twice: what two runs give together is what they give one after the
/// other, and one endpoint with one address and one port gives at most one.
pub proof fn law_backends_come_in_order(
    eps: Seq<SliceEndpoint>,
    more: Seq<SliceEndpoint>,
    addrs: Seq<String>,
    more_addrs: Seq<String>,
    ip: Ipv4Addr,
    sps: Seq<SlicePort>,
    more_ports: Seq<SlicePort>,
)
    ensures
        backends_of_endpoints(eps + more, sps) == backends_of_endpoints(eps, sps)
            + backends_of_endpoints(more, sps),
        backends_of_addresses(addrs + more_addrs, sps) == backends_of_addresses(addrs, sps)
            + backends_of_addresses(more_addrs, sps),
        backends_at(ip, sps + more_ports) == backends_at(ip, sps) + backends_at(ip, more_ports),
        eps.len() == 1 ==> backends_of_endpoints(eps, sps) == (if eps[0].ready != Some(false) {
            backends_of_addresses(eps[0].addresses@, sps)
        } else {
            Seq::empty()
        }),
        addrs.len() == 1 ==> (addr_of(addrs[0]@) matches Some(a) ==> backends_of_addresses(
            addrs,
            sps,
        ) == backends_at(a, sps)),
        sps.len() == 1 ==> backends_at(ip, sps).len() <= 1,
    decreases more.len() + more_addrs.len() + more_ports.len(),
{
    let none: Seq<BackendEntry> = Seq::empty();
    if more.len() > 0 {
        law_backends_come_in_order(eps, more.drop_last(), addrs, more_addrs, ip, sps, more_ports);
        assert((eps + more).drop_last() =~= eps + more.drop_last());
        assert((eps + more).last() == more.last());
        assert(backends_of_endpoints(eps + more, sps) =~= backends_of_endpoints(eps, sps)
            + backends_of_endpoints(more, sps));
    } else {
        assert(eps + more =~= eps);
        assert(backends_of_endpoints(eps, sps) + none =~= backends_of_endpoints(eps, sps));
    }
    if more_addrs.len() > 0 {
        law_backends_come_in_order(eps, more, addrs, more_addrs.drop_last(), ip, sps, more_ports);
        assert((addrs + more_addrs).drop_last() =~= addrs + more_addrs.drop_last());
        assert((addrs + more_addrs).last() == more_addrs.last());
        assert(backends_of_addresses(addrs + more_addrs, sps) =~= backends_of_addresses(addrs, sps)
            + backends_of_addresses(more_addrs, sps));
    } else {
        assert(addrs + more_addrs =~= addrs);
        assert(backends_of_addresses(addrs, sps) + none =~= backends_of_addresses(addrs, sps));
    }
    if more_ports.len() > 0 {
        law_backends_come_in_order(eps, more, addrs, more_addrs, ip, sps, more_ports.drop_last());
        assert((sps + more_ports).drop_last() =~= sps + more_ports.drop_last());
        assert((sps + more_ports).last() == more_ports.last());
        assert(backends_at(ip, sps + more_ports) =~= backends_at(ip, sps) + backends_at(
            ip,
            more_ports,
        ));
    } else {
        assert(sps + more_ports =~= sps);
        assert(backends_at(ip, sps) + none =~= backends_at(ip, sps));
    }
    if eps.len() == 1 {
        assert(eps.drop_last() =~= Seq::<SliceEndpoint>::empty());
        assert(backends_of_endpoints(eps.drop_last(), sps) =~= none);
        assert(backends_of_endpoints(eps, sps) =~= (if eps[0].ready != Some(false) {
            backends_of_addresses(eps[0].addresses@, sps)
        } else {
            none
        }));
    }
    if addrs.len() == 1 {
        assert(addrs.drop_last() =~= Seq::<String>::empty());
        assert(backends_of_addresses(addrs.drop_last(), sps) =~= none);
        if addr_of(addrs[0]@) is Some {
            let a = addr_of(addrs[0]@)->0;
            assert(backends_of_addresses(addrs, sps) =~= backends_at(a, sps));
        }
    }
    if sps.len() == 1 {
        assert(sps.drop_last() =~= Seq::<SlicePort>::empty());
        assert(backends_at(ip, sps.drop_last()) =~= none);
    }
}

/// The backends of a service are those of its slices, slice by slice: a backend is among them exactly
/// where one of the slices has it.
pub proof fn law_slices_give_all_backends(slices: Slices, more: Slices, b: BackendEntry)
    ensures
        all_backends(slices).contains(b) <==> exists|i: int|
            0 <= i < slices.len() && (#[trigger] slices[i]).1.contains(b),
        all_backends(slices + more) == all_backends(slices) + all_backends(more),
        slices.len() == 1 ==> all_backends(slices) == slices[0].1,
    decreases slices.len() + more.len(),
{
    let r = all_backends(slices);
    let none: Seq<BackendEntry> = Seq::empty();
    if more.len() > 0 {
        law_slices_give_all_backends(slices, more.drop_last(), b);
        assert((slices + more).drop_last() =~= slices + more.drop_last());
        assert((slices + more).last() == more.last());
        assert(all_backends(slices + more) =~= r + all_backends(more));
    } else {
        assert(slices + more =~= slices);
        assert(r + none =~= r);
        if slices.len() > 0 {
            let front = slices.drop_last();
            let last = slices[slices.len() - 1];
            law_slices_give_all_backends(front, more, b);
            let r0 = all_backends(front);
            if slices.len() == 1 {
                assert(r0 =~= none);
                assert(r =~= slices[0].1);
            }
            if r.contains(b) {
                let n = choose|n: int| 0 <= n < r.len() && r[n] == b;
                if n < r0.len() {
                    assert(r0[n] == b);
                    let i = choose|i: int|
                        0 <= i < front.len() && (#[trigger] front[i]).1.contains(b);
                    assert(slices[i].1.contains(b));
                } else {
                    assert(last.1[n - r0.len()] == b);
                    assert(slices[slices.len() - 1].1.contains(b));
                }
            }
            if exists|i: int| 0 <= i < slices.len() && (#[trigger] slices[i]).1.contains(b) {
                let i = choose|i: int|
                    0 <= i < slices.len() && (#[trigger] slices[i]).1.contains(b);
                if i < front.len() {
                    assert(front[i].1.contains(b));
                    let n = choose|n: int| 0 <= n < r0.len() && r0[n] == b;
                    assert(r[n] == b);
                } else {
                    let n = choose|n: int| 0 <= n < last.1.len() && last.1[n] == b;
                    assert(r[r0.len() + n] == b);
                }
            }
        }
    }
}

/// The backends that serve a port keep their order, none left out and none twice: those of two runs
/// are those of the first and then those of the second, and a single backend serves a port exactly
/// where it has its target and its protocol.
pub proof fn law_serving_keeps_the_order(
    all: Seq<BackendEntry>,
    more: Seq<BackendEntry>,
    port: PortInfo,
    b: BackendEntry,
)
    ensures
        serving(all + more, port) == serving(all, port) + serving(more, port),
        serving(seq![b], port) == (if b.port == port.target_port && b.proto == port.proto {
            seq![b]
        } else {
            Seq::empty()
        }),
    decreases more.len(),
{
    reveal(Seq::filter);
    let none: Seq<BackendEntry> = Seq::empty();
    assert(seq![b].drop_last() =~= none);
    assert(serving(none, port) =~= none);
    assert(serving(seq![b], port) =~= (if b.port == port.target_port && b.proto == port.proto {
        seq![b]
    } else {
        none
    }));
    if more.len() > 0 {
        law_serving_keeps_the_order(all, more.drop_last(), port, b);
        assert((all + more).drop_last() =~= all + more.drop_last());
        assert((all + more).last() == more.last());
        assert(serving(all + more, port) =~= serving(all, port) + serving(more, port));
    } else {
        assert(all + more =~= all);
        assert(serving(all, port) + none =~= serving(all, port));
    }
}

// ── Services ─────────────────────────────────────────────────────────────────

/// Whether a port of a service comes to what is kept of one: clients send to its number in 16 bits,
/// the backends have the port that its target names, or that same number where it names none, and it
/// is TCP or UDP.
pub open spec fn port_becomes(p: ServicePort, info: PortInfo) -> bool {
    &&& info.svc_port == p.port as u16
    &&& match p.target_port {
        None => info.target_port == p.port as u16,
        Some(IntOrString::Int(n)) => info.target_port == n as u16,
        Some(IntOrString::String(s)) => unsigned_value(s@) == Some(info.target_port as nat),
    }
    &&& is_protocol(p.protocol, info.proto)
}

proof fn lemma_port_info(p: ServicePort, info: PortInfo)
    ensures
        port_info_of(p) == Some(info) <==> port_becomes(p, info),
{
    reveal_strlit("TCP");
    reveal_strlit("UDP");
    assert("TCP"@[0] != "UDP"@[0]);
    match port_info_of(p) {
        Some(x) => {
            assert(port_becomes(p, x));
        },
        None => {},
    }
}

/// The ports that are kept of a service are those that can be served, each of them, in order, and
/// nothing else: those of two runs are those of the first and then those of the second.
pub proof fn law_service_ports_are_kept(
    ps: Seq<ServicePort>,
    more: Seq<ServicePort>,
    info: PortInfo,
)
    ensures
        port_infos_of(ps).contains(info) <==> exists|i: int|
            0 <= i < ps.len() && port_becomes(#[trigger] ps[i], info),
        port_infos_of(ps + more) == port_infos_of(ps) + port_infos_of(more),
        ps.len() == 1 ==> port_infos_of(ps).len() <= 1,
    decreases ps.len() + more.len(),
{
    let r = port_infos_of(ps);
    let none: Seq<PortInfo> = Seq::empty();
    if more.len() > 0 {
        law_service_ports_are_kept(ps, more.drop_last(), info);
        assert((ps + more).drop_last() =~= ps + more.drop_last());
        assert((ps + more).last() == more.last());
        assert(port_infos_of(ps + more) =~= r + port_infos_of(more));
    } else {
        assert(ps + more =~= ps);
        assert(r + none =~= r);
        if ps.len() > 0 {
            let front = ps.drop_last();
            let last = ps[ps.len() - 1];
            let r0 = port_infos_of(front);
            law_service_ports_are_kept(front, more, info);
            lemma_port_info(last, info);
            if ps.len() == 1 {
                assert(r0 =~= none);
            }
            if r.contains(info) {
                let n = choose|n: int| 0 <= n < r.len() && r[n] == info;
                if n < r0.len() {
                    assert(r0[n] == info);
                    let i = choose|i: int|
                        0 <= i < front.len() && port_becomes(#[trigger] front[i], info);
                    assert(port_becomes(ps[i], info));
                }
            }
            if exists|i: int| 0 <= i < ps.len() && port_becomes(#[trigger] ps[i], info) {
                let i = choose|i: int| 0 <= i < ps.len() && port_becomes(#[trigger] ps[i], info);
                if i < front.len() {
                    assert(port_becomes(front[i], info));
                    let n = choose|n: int| 0 <= n < r0.len() && r0[n] == info;
                    assert(r[n] == info);
                } else {
                    assert(r[r.len() - 1] == info);
                }
            }
        }
    }
}

/// A service has the address that its description gives as the text of an IPv4 address, and none
/// where it gives none.
pub proof fn law_service_address(svc: Service, ip: Ipv4Addr)
    ensures
        service_ip(svc) == Some(ip) <==> (svc.spec matches Some(spec) && spec.cluster_ip matches Some(
            text,
        ) && text@ == ip.spec_text()),
        svc.spec matches Some(spec) ==> (spec.ports matches Some(ps) ==> service_ports(svc)
            == port_infos_of(ps@)),
        svc.spec is None || svc.spec->0.ports is None ==> service_ports(svc).len() == 0,
{
    crate::net::lemma_addr_of(ip);
    crate::net::law_v4_reads_back(ip);
    reveal_strlit("None");
    if let Some(spec) = svc.spec {
        if let Some(text) = spec.cluster_ip {
            if text@ == ip.spec_text() {
                lemma_address_text(ip);
            }
            if service_ip(svc) == Some(ip) {
                assert(addr_of(text@) == Some(ip));
                let x = choose|x: Ipv4Addr| text@ == #[trigger] x.spec_text();
                assert(x == ip);
            }
        }
    }
}

proof fn lemma_address_text(ip: Ipv4Addr)
    ensures
        ip.spec_text().len() > 0,
        ip.spec_text()[0] != 'N',
{
    crate::text::lemma_decimal(ip.a as nat);
    assert(ip.spec_text()[0] == crate::text::decimal(ip.a as nat)[0]);
}

/// A description of a service changes what is known of that service and nothing else: its address and
/// its ports are as described, it keeps its number where it has one and gets the next one where not,
/// and its slices stay. What is written follows from what is then known.
pub proof fn law_service_is_taken_in(m: SvcModel, svc: Service)
    ensures
        ({
            let (next, ops) = m.apply_service(svc);
            match svc.name {
                None => next == m && ops == Seq::<MapOp>::empty(),
                Some(name) => {
                    let key = service_key(text_or_spec(svc.namespace, "default"@), name@);
                    &&& next.services.dom() == m.services.dom().insert(key)
                    &&& next.services[key].cluster_ip == service_ip(svc)
                    &&& next.services[key].ports == service_ports(svc)
                    &&& next.services[key].id == (if m.services.dom().contains(key) {
                        m.services[key].id
                    } else {
                        m.next_id
                    })
                    &&& forall|k: Seq<char>|
                        k != key && m.services.dom().contains(k) ==> #[trigger] next.services[k]
                            == m.services[k]
                    &&& next.slices == m.slices
                    &&& ops == next.reconcile_ops(key)
                },
            }
        }),
{
}

/// The service that a slice belongs to is the one that its label names: the first of the labels with
/// that name, where there is one.
pub proof fn law_slice_names_its_service(labels: Seq<Label>, i: int)
    requires
        0 <= i < labels.len(),
        labels[i].name@ == "kubernetes.io/service-name"@,
        forall|j: int| 0 <= j < i ==> (#[trigger] labels[j]).name@ != "kubernetes.io/service-name"@,
    ensures
        labelled_service(labels) == Some(labels[i].value@),
    decreases i,
{
    if i > 0 {
        let rest = labels.drop_first();
        assert(labels[0].name@ != "kubernetes.io/service-name"@);
        assert(rest[i - 1] == labels[i]);
        assert forall|j: int| 0 <= j < i - 1 implies (#[trigger] rest[j]).name@
            != "kubernetes.io/service-name"@ by {
            assert(rest[j] == labels[j + 1]);
        }
        law_slice_names_its_service(rest, i - 1);
    }
}

/// A slice without the label belongs to no service.
pub proof fn law_slice_without_the_label(labels: Seq<Label>)
    requires
        forall|j: int|
            0 <= j < labels.len() ==> (#[trigger] labels[j]).name@
                != "kubernetes.io/service-name"@,
    ensures
        labelled_service(labels) is None,
    decreases labels.len(),
{
    if labels.len() > 0 {
        let rest = labels.drop_first();
        assert(labels[0].name@ != "kubernetes.io/service-name"@);
        assert forall|j: int| 0 <= j < rest.len() implies (#[trigger] rest[j]).name@
            != "kubernetes.io/service-name"@ by {
            assert(rest[j] == labels[j + 1]);
        }
        law_slice_without_the_label(rest);
    }
}

proof fn lemma_put(s: Slices, uid: Seq<char>, bs: Seq<BackendEntry>)
    requires
        slices_distinct(s),
    ensures
        ({
            let r = put_slice(s, uid, bs);
            &&& r.contains((uid, bs))
            &&& forall|x: Seq<BackendEntry>| #[trigger] r.contains((uid, x)) ==> x == bs
            &&& forall|u: Seq<char>, x: Seq<BackendEntry>|
                u != uid ==> (#[trigger] r.contains((u, x)) <==> s.contains((u, x)))
        }),
{
    let r = put_slice(s, uid, bs);
    if exists|i: int| slice_at(s, uid, i) {
        let c = choose|i: int| slice_at(s, uid, i);
        assert(slice_at(s, uid, c));
        assert(r[c] == (uid, bs));
        assert forall|x: Seq<BackendEntry>| #[trigger] r.contains((uid, x)) implies x == bs by {
            let j = choose|j: int| 0 <= j < r.len() && r[j] == (uid, x);
            if j != c {
                assert(r[j] == s[j]);
                assert(s[j].0 == s[c].0);
            }
        }
        assert forall|u: Seq<char>, x: Seq<BackendEntry>| u != uid implies (#[trigger] r.contains(
            (u, x),
        ) <==> s.contains((u, x))) by {
            if r.contains((u, x)) {
                let j = choose|j: int| 0 <= j < r.len() && r[j] == (u, x);
                assert(s[j] == (u, x));
            }
            if s.contains((u, x)) {
                let j = choose|j: int| 0 <= j < s.len() && s[j] == (u, x);
                assert(r[j] == (u, x));
            }
        }
    } else {
        assert(r[s.len() as int] == (uid, bs));
        assert forall|x: Seq<BackendEntry>| #[trigger] r.contains((uid, x)) implies x == bs by {
            let j = choose|j: int| 0 <= j < r.len() && r[j] == (uid, x);
            if j < s.len() {
                assert(slice_at(s, uid, j));
            }
        }
        assert forall|u: Seq<char>, x: Seq<BackendEntry>| u != uid implies (#[trigger] r.contains(
            (u, x),
        ) <==> s.contains((u, x))) by {
            if r.contains((u, x)) {
                let j = choose|j: int| 0 <= j < r.len() && r[j] == (u, x);
                assert(s[j] == (u, x));
            }
            if s.contains((u, x)) {
                let j = choose|j: int| 0 <= j < s.len() && s[j] == (u, x);
                assert(r[j] == (u, x));
            }
        }
    }
}

proof fn lemma_drop(s: Slices, uid: Seq<char>)
    requires
        slices_distinct(s),
    ensures
        ({
            let r = drop_slice(s, uid);
            &&& forall|x: Seq<BackendEntry>| !(#[trigger] r.contains((uid, x)))
            &&& forall|u: Seq<char>, x: Seq<BackendEntry>|
                u != uid ==> (#[trigger] r.contains((u, x)) <==> s.contains((u, x)))
        }),
{
    let r = drop_slice(s, uid);
    if exists|i: int| slice_at(s, uid, i) {
        let c = choose|i: int| slice_at(s, uid, i);
        assert(slice_at(s, uid, c));
        assert forall|x: Seq<BackendEntry>| !(#[trigger] r.contains((uid, x))) by {
            if r.contains((uid, x)) {
                let j = choose|j: int| 0 <= j < r.len() && r[j] == (uid, x);
                let j0 = if j < c {
                    j
                } else {
                    j + 1
                };
                assert(s[j0] == (uid, x));
                assert(s[j0].0 == s[c].0);
            }
        }
        assert forall|u: Seq<char>, x: Seq<BackendEntry>| u != uid implies (#[trigger] r.contains(
            (u, x),
        ) <==> s.contains((u, x))) by {
            if r.contains((u, x)) {
                let j = choose|j: int| 0 <= j < r.len() && r[j] == (u, x);
                let j0 = if j < c {
                    j
                } else {
                    j + 1
                };
                assert(s[j0] == (u, x));
            }
            if s.contains((u, x)) {
                let j = choose|j: int| 0 <= j < s.len() && s[j] == (u, x);
                assert(j != c);
                let j1 = if j < c {
                    j
                } else {
                    j - 1
                };
                assert(r[j1] == (u, x));
            }
        }
    } else {
        assert forall|x: Seq<BackendEntry>| !(#[trigger] r.contains((uid, x))) by {
            if r.contains((uid, x)) {
                let j = choose|j: int| 0 <= j < r.len() && r[j] == (uid, x);
                assert(slice_at(s, uid, j));
            }
        }
    }
}

/// A slice that came changes what is known of that slice and nothing else: under its id are the
/// backends that its endpoints and ports give, the other slices of its service stay, and so does
/// everything of other services. A slice that names no service, has no id or no ports changes nothing.
pub proof fn law_slice_is_taken_in(m: SvcModel, slice: EndpointSlice)
    requires
        m.consistent(),
    ensures
        ({
            let (next, ops) = m.apply_slice(slice);
            match (slice_service(slice), slice.uid, slice.ports) {
                (Some(name), Some(uid), Some(ports)) => {
                    let key = service_key(text_or_spec(slice.namespace, "default"@), name);
                    let bs = backends_of_endpoints(slice.endpoints@, ports@);
                    &&& next.slices_of(key).contains((uid@, bs))
                    &&& forall|x: Seq<BackendEntry>| #[trigger]
                        next.slices_of(key).contains((uid@, x)) ==> x == bs
                    &&& forall|u: Seq<char>, x: Seq<BackendEntry>|
                        u != uid@ ==> (#[trigger] next.slices_of(key).contains((u, x))
                            <==> m.slices_of(key).contains((u, x)))
                    &&& forall|k: Seq<char>|
                        k != key ==> #[trigger] next.slices_of(k) == m.slices_of(k)
                    &&& next.services == m.services
                    &&& next.next_id == m.next_id
                    &&& ops == next.reconcile_ops(key)
                },
                _ => next == m && ops == Seq::<MapOp>::empty(),
            }
        }),
{
    match (slice_service(slice), slice.uid, slice.ports) {
        (Some(name), Some(uid), Some(ports)) => {
            let key = service_key(text_or_spec(slice.namespace, DEFAULT_NAMESPACE@), name);
            let bs = backends_of_endpoints(slice.endpoints@, ports@);
            assert(slices_distinct(m.slices_of(key)));
            lemma_put(m.slices_of(key), uid@, bs);
        },
        _ => {},
    }
}

/// A slice that is gone takes its own backends along and nothing else.
pub proof fn law_slice_is_dropped(m: SvcModel, slice: EndpointSlice)
    requires
        m.consistent(),
    ensures
        ({
            let (next, ops) = m.delete_slice(slice);
            match (slice_service(slice), slice.uid) {
                (Some(name), Some(uid)) => {
                    let key = service_key(text_or_spec(slice.namespace, "default"@), name);
                    &&& forall|x: Seq<BackendEntry>|
                        !(#[trigger] next.slices_of(key).contains((uid@, x)))
                    &&& forall|u: Seq<char>, x: Seq<BackendEntry>|
                        u != uid@ ==> (#[trigger] next.slices_of(key).contains((u, x))
                            <==> m.slices_of(key).contains((u, x)))
                    &&& forall|k: Seq<char>|
                        k != key ==> #[trigger] next.slices_of(k) == m.slices_of(k)
                    &&& next.services == m.services
                    &&& next.next_id == m.next_id
                    &&& ops == next.reconcile_ops(key)
                },
                _ => next == m && ops == Seq::<MapOp>::empty(),
            }
        }),
{
    match (slice_service(slice), slice.uid) {
        (Some(name), Some(uid)) => {
            let key = service_key(text_or_spec(slice.namespace, DEFAULT_NAMESPACE@), name);
            assert(slices_distinct(m.slices_of(key)));
            lemma_drop(m.slices_of(key), uid@);
        },
        _ => {},
    }
}

/// A service is gone only with its own deletion, and a slice likewise: each event leads to what it
/// reports. What was there when a watch began is taken in like what is new, and the marks of its
/// beginning and its end change nothing.
pub proof fn law_events_are_what_they_report(m: SvcModel, s: Service, e: EndpointSlice)
    ensures
        m.on_event(SvcOrSlice::Service(Event::Apply(s))) == m.apply_service(s),
        m.on_event(SvcOrSlice::Service(Event::Delete(s))) == m.delete_service(
            text_or_spec(s.namespace, "default"@),
            text_or_spec(s.name, ""@),
        ),
        m.on_event(SvcOrSlice::Slice(Event::Apply(e))) == m.apply_slice(e),
        m.on_event(SvcOrSlice::Slice(Event::Delete(e))) == m.delete_slice(e),
        m.on_event(SvcOrSlice::Service(Event::InitApply(s))) == m.on_event(
            SvcOrSlice::Service(Event::Apply(s)),
        ),
        m.on_event(SvcOrSlice::Slice(Event::InitApply(e))) == m.on_event(
            SvcOrSlice::Slice(Event::Apply(e)),
        ),
        m.on_event(SvcOrSlice::Service(Event::Init)) == (m, Seq::<MapOp>::empty()),
        m.on_event(SvcOrSlice::Service(Event::InitDone)) == (m, Seq::<MapOp>::empty()),
        m.on_event(SvcOrSlice::Slice(Event::Init)) == (m, Seq::<MapOp>::empty()),
        m.on_event(SvcOrSlice::Slice(Event::InitDone)) == (m, Seq::<MapOp>::empty()),
{
}

/// The entries of different services, or of ports that differ to clients, are different.
pub proof fn law_entries_are_not_shared(ip: Ipv4Addr, p: PortInfo, ip2: Ipv4Addr, q: PortInfo)
    requires
        map_key(ip, p) == map_key(ip2, q),
    ensures
        ip == ip2,
        same_front(p, q),
{
    law_endpoint_key_injective(ip, ip2);
    law_port_key_involution(p.svc_port);
    law_port_key_involution(q.svc_port);
}

/// A ready endpoint of a slice reaches the map: once the slice of a known service came and its writes
/// are done, each backend that the slice gives and that serves a port of the service is in a slot of
/// that port.
pub proof fn law_ready_endpoints_reach_the_map(
    m: ServiceMaps,
    model: SvcModel,
    slice: EndpointSlice,
    ip: Ipv4Addr,
    p: int,
    i: int,
    j: int,
    k: int,
    b: BackendEntry,
)
    requires
        model.consistent(),
        addresses_differ(model),
        all_countable(model.apply_slice(slice).0),
        in_line(m, model),
        slice_service(slice) is Some,
        slice.uid is Some,
        slice.ports is Some,
        ({
            let key = service_key(
                text_or_spec(slice.namespace, "default"@),
                slice_service(slice)->0,
            );
            &&& model.services.dom().contains(key)
            &&& model.services[key].cluster_ip == Some(ip)
            &&& last_of_its_front(model.services[key].ports, p)
            &&& b.port == model.services[key].ports[p].target_port
            &&& b.proto == model.services[key].ports[p].proto
        }),
        0 <= i < slice.endpoints@.len(),
        endpoint_gives(slice.endpoints@[i], j, slice.ports->0@, k, b),
    ensures
        ({
            let key = service_key(
                text_or_spec(slice.namespace, "default"@),
                slice_service(slice)->0,
            );
            let rec = model.services[key];
            let r = m.apply_all(model.apply_slice(slice).1);
            exists|n: u32| #[trigger]
                lookup(r.backends, slot_key(rec.id, rec.ports[p], n)) == Some(slot_val(b)) && n
                    < lookup(r.services, map_key(ip, rec.ports[p]))->0.backend_count
        }),
{
    let key = service_key(text_or_spec(slice.namespace, "default"@), slice_service(slice)->0);
    let event = SvcOrSlice::Slice(Event::Apply(slice));
    let next = model.apply_slice(slice).0;
    let r = m.apply_all(model.apply_slice(slice).1);
    law_slice_is_taken_in(model, slice);
    assert(addresses_differ(next));
    law_maps_stay_in_line(m, model, event);
    let rec = model.services[key];
    assert(service_in_line(r, next, key));
    let all = all_backends(next.slices_of(key));
    let port = rec.ports[p];
    assert(holds_port(r, rec.id, ip, port, all));
    let bs = backends_of_endpoints(slice.endpoints@, slice.ports->0@);
    law_slice_gives_its_backends(slice.endpoints@, slice.ports->0@, b);
    assert(bs.contains(b));
    let ss = next.slices_of(key);
    let n0 = choose|n: int| 0 <= n < ss.len() && ss[n] == (slice.uid->0@, bs);
    assert(ss[n0].1.contains(b));
    law_slices_give_all_backends(ss, Seq::empty(), b);
    law_serving_backends_match(all, port);
    let mine = serving(all, port);
    assert(mine.contains(b));
    let n = choose|n: int| 0 <= n < mine.len() && mine[n] == b;
    assert(crate::agent::service_laws::countable(rec.ports, all));
    assert(lookup(r.backends, slot_key(rec.id, port, n as u32)) == Some(slot_val(mine[n])));
}

/// Once the removals for a deleted service are done, none of its ports is in the map of services, and
/// every other entry and every backend is as it was. For a service that is not known, or has no
/// address, nothing is removed.
pub proof fn law_deletion_clears_the_map(
    m: ServiceMaps,
    model: SvcModel,
    ns: Seq<char>,
    name: Seq<char>,
    k: ServiceKey,
)
    ensures
        ({
            let key = service_key(ns, name);
            let r = m.apply_all(model.delete_service(ns, name).1);
            let own = model.services.dom().contains(key) && (
            model.services[key].cluster_ip matches Some(ip) && exists|i: int|
                0 <= i < model.services[key].ports.len() && k == map_key(
                    ip,
                    #[trigger] model.services[key].ports[i],
                ));
            &&& own ==> !r.services.dom().contains(k)
            &&& !own ==> lookup(r.services, k) == lookup(m.services, k)
            &&& r.backends == m.backends
        }),
{
    let key = service_key(ns, name);
    if model.services.dom().contains(key) {
        let rec = model.services[key];
        match rec.cluster_ip {
            Some(ip) => {
                law_deleted_service_is_gone(m, rec, ip);
                let r = m.apply_all(model.delete_service(ns, name).1);
                if forall|i: int| 0 <= i < rec.ports.len() ==> k != map_key(ip, #[trigger] rec.ports[i]) {
                    assert(lookup(r.services, k) == lookup(m.services, k));
                }
            },
            None => {},
        }
    }
}

/// A service is turned away only where it would be new and the numbers are used up.
pub proof fn law_room_until_the_numbers_end(m: SvcModel, svc: Service)
    requires
        !m.has_room(svc),
    ensures
        m.next_id == u32::MAX,
        svc.name matches Some(name) && !m.services.dom().contains(
            service_key(text_or_spec(svc.namespace, "default"@), name@),
        ),
{
}

}
