//! What holds of services over many events: their numbers, and what the maps hold once the writes
//! are done.
use vstd::prelude::*;

use crate::agent::services::{
    all_backends, drop_slice, event_key, map_key, port_ops, ports_ops, put_slice, removal_ops,
    service_key, serving, slice_at, slice_service, slices_distinct, slot_key, slot_val,
    BackendEntry, EndpointSlice, PortInfo, Service, ServiceRecord, Slices, SvcModel, SvcOrSlice,
    DEFAULT_NAMESPACE,
};
use crate::agent::watch::Event;
use crate::bpf::{MapOp, MapResult};
use crate::common::{
    key_of, law_endpoint_key_injective, law_port_key_involution, port_key_of, BackendKey,
    BackendVal, ServiceKey, ServiceVal,
};
use crate::datapath::forward::{FindBackend, FindService, Flow};
use crate::datapath::laws::{backend_of, lookup, service_of, Tables};
use crate::net::Ipv4Addr;
use crate::text::text_or_spec;

verus! {

/// The maps of services and backends.
#[verifier::ext_equal]
pub struct ServiceMaps {
    pub services: Map<ServiceKey, ServiceVal>,
    pub backends: Map<BackendKey, BackendVal>,
}

impl ServiceMaps {
    /// The maps after one write.
    pub open spec fn apply(self, op: MapOp) -> ServiceMaps {
        match op {
            MapOp::ServicesUpsert(k, v) => ServiceMaps {
                services: self.services.insert(k, v),
                ..self
            },
            MapOp::ServicesRemove(k) => ServiceMaps { services: self.services.remove(k), ..self },
            MapOp::BackendsUpsert(k, v) => ServiceMaps {
                backends: self.backends.insert(k, v),
                ..self
            },
            _ => self,
        }
    }

    /// The maps after writes in order.
    pub open spec fn apply_all(self, ops: Seq<MapOp>) -> ServiceMaps
        decreases ops.len(),
    {
        if ops.len() == 0 {
            self
        } else {
            self.apply_all(ops.drop_last()).apply(ops.last())
        }
    }
}

proof fn lemma_apply_concat(m: ServiceMaps, a: Seq<MapOp>, b: Seq<MapOp>)
    ensures
        m.apply_all(a + b) == m.apply_all(a).apply_all(b),
    decreases b.len(),
{
    if b.len() == 0 {
        assert(a + b == a);
    } else {
        lemma_apply_concat(m, a, b.drop_last());
        assert((a + b).drop_last() == a + b.drop_last());
        assert((a + b).last() == b.last());
    }
}

/// Whether two ports of a service are the same to its clients.
pub open spec fn same_front(p: PortInfo, q: PortInfo) -> bool {
    p.svc_port == q.svc_port && p.proto == q.proto
}

/// Whether the maps hold a port of a service: its entry, and each of its backends in its slot.
pub open spec fn holds_port(
    m: ServiceMaps,
    id: u32,
    ip: Ipv4Addr,
    port: PortInfo,
    all: Seq<BackendEntry>,
) -> bool {
    let mine = serving(all, port);
    &&& lookup(m.services, map_key(ip, port)) == Some(
        (ServiceVal { service_id: id, backend_count: mine.len() as u32 }),
    )
    &&& forall|i: int|
        0 <= i < mine.len() ==> #[trigger] lookup(m.backends, slot_key(id, port, i as u32)) == Some(
            slot_val(mine[i]),
        )
}

/// Whether the writes for a port leave everything else as it is.
spec fn only_port(
    m: ServiceMaps,
    r: ServiceMaps,
    id: u32,
    ip: Ipv4Addr,
    port: PortInfo,
) -> bool {
    &&& forall|k: ServiceKey|
        k != map_key(ip, port) ==> #[trigger] lookup(r.services, k) == lookup(m.services, k)
    &&& forall|k: BackendKey|
        k.service_id != id || k.port != port_key_of(port.svc_port) || k.proto != port.proto
            ==> #[trigger] lookup(r.backends, k) == lookup(m.backends, k)
}

proof fn lemma_port_written(
    m: ServiceMaps,
    id: u32,
    ip: Ipv4Addr,
    port: PortInfo,
    all: Seq<BackendEntry>,
    n: int,
)
    requires
        serving(all, port).len() <= u32::MAX,
        0 <= n <= serving(all, port).len(),
    ensures
        ({
            let mine = serving(all, port);
            let r = m.apply_all(port_ops(id, ip, port, all).take(n + 1));
            &&& lookup(r.services, map_key(ip, port)) == Some(
                (ServiceVal { service_id: id, backend_count: mine.len() as u32 }),
            )
            &&& forall|i: int|
                0 <= i < n ==> #[trigger] lookup(r.backends, slot_key(id, port, i as u32)) == Some(
                    slot_val(mine[i]),
                )
            &&& only_port(m, r, id, ip, port)
        }),
    decreases n,
{
    let mine = serving(all, port);
    let ops = port_ops(id, ip, port, all);
    let now = ops.take(n + 1);
    if n == 0 {
        assert(now.drop_last() == Seq::<MapOp>::empty());
        assert(now.last() == ops[0]);
        assert(m.apply_all(now.drop_last()) == m);
    } else {
        lemma_port_written(m, id, ip, port, all, n - 1);
        let before = m.apply_all(ops.take(n));
        assert(now.drop_last() == ops.take(n));
        assert(now.last() == ops[n]);
        assert(ops[n] == MapOp::BackendsUpsert(
            slot_key(id, port, (n - 1) as u32),
            slot_val(mine[n - 1]),
        ));
        let r = before.apply(ops[n]);
        assert forall|i: int| 0 <= i < n implies #[trigger] lookup(
            r.backends,
            slot_key(id, port, i as u32),
        ) == Some(slot_val(mine[i])) by {
            if i < n - 1 {
                assert(slot_key(id, port, i as u32) != slot_key(id, port, (n - 1) as u32));
                assert(lookup(before.backends, slot_key(id, port, i as u32)) == Some(
                    slot_val(mine[i]),
                ));
            }
        }
        assert forall|k: ServiceKey| k != map_key(ip, port) implies #[trigger] lookup(r.services, k)
            == lookup(m.services, k) by {
            assert(lookup(before.services, k) == lookup(m.services, k));
        }
        assert forall|k: BackendKey|
            k.service_id != id || k.port != port_key_of(port.svc_port) || k.proto
                != port.proto implies #[trigger] lookup(r.backends, k) == lookup(m.backends, k) by {
            assert(lookup(before.backends, k) == lookup(m.backends, k));
        }
    }
}

proof fn lemma_port(
    m: ServiceMaps,
    id: u32,
    ip: Ipv4Addr,
    port: PortInfo,
    all: Seq<BackendEntry>,
)
    requires
        serving(all, port).len() <= u32::MAX,
    ensures
        holds_port(m.apply_all(port_ops(id, ip, port, all)), id, ip, port, all),
        only_port(m, m.apply_all(port_ops(id, ip, port, all)), id, ip, port),
{
    let n = serving(all, port).len() as int;
    lemma_port_written(m, id, ip, port, all, n);
    assert(port_ops(id, ip, port, all).take(n + 1) == port_ops(id, ip, port, all));
}

/// Whether no later port of a service is the same to its clients as port `i`.
pub open spec fn last_of_its_front(ports: Seq<PortInfo>, i: int) -> bool {
    &&& 0 <= i < ports.len()
    &&& forall|j: int| i < j < ports.len() ==> !same_front(ports[i], #[trigger] ports[j])
}

/// Whether the backends of each port can be counted in 32 bits.
pub open spec fn countable(ports: Seq<PortInfo>, all: Seq<BackendEntry>) -> bool {
    forall|i: int| 0 <= i < ports.len() ==> serving(all, #[trigger] ports[i]).len() <= u32::MAX
}

/// Once the writes for a service are done, each port of it is in the maps with each of its backends
/// in a slot of its own, whatever was there before. Where two ports are the same to clients, the
/// later one counts.
pub proof fn law_writes_take_hold(
    m: ServiceMaps,
    id: u32,
    ip: Ipv4Addr,
    ports: Seq<PortInfo>,
    all: Seq<BackendEntry>,
    i: int,
)
    requires
        last_of_its_front(ports, i),
        countable(ports, all),
    ensures
        holds_port(m.apply_all(ports_ops(id, ip, ports, all)), id, ip, ports[i], all),
    decreases ports.len(),
{
    let front = ports.drop_last();
    let last = ports.last();
    let m1 = m.apply_all(ports_ops(id, ip, front, all));
    lemma_apply_concat(m, ports_ops(id, ip, front, all), port_ops(id, ip, last, all));
    assert(last == ports[ports.len() - 1]);
    lemma_port(m1, id, ip, last, all);
    let r = m1.apply_all(port_ops(id, ip, last, all));
    if i < ports.len() - 1 {
        let p = ports[i];
        assert(front[i] == p);
        assert forall|j: int| i < j < front.len() implies !same_front(
            front[i],
            #[trigger] front[j],
        ) by {
            assert(front[j] == ports[j]);
        }
        assert forall|j: int| 0 <= j < front.len() implies serving(all, #[trigger] front[j]).len()
            <= u32::MAX by {
            assert(front[j] == ports[j]);
        }
        law_writes_take_hold(m, id, ip, front, all, i);
        assert(!same_front(p, last));
        law_port_key_involution(p.svc_port);
        law_port_key_involution(last.svc_port);
        assert(map_key(ip, p) != map_key(ip, last));
        let mine = serving(all, p);
        assert forall|n: int| 0 <= n < mine.len() implies #[trigger] lookup(
            r.backends,
            slot_key(id, p, n as u32),
        ) == Some(slot_val(mine[n])) by {
            assert(lookup(m1.backends, slot_key(id, p, n as u32)) == Some(slot_val(mine[n])));
        }
    }
}

/// The writes for a service leave every other service as it is: its entries, and the slots of its
/// backends.
pub proof fn law_writes_touch_one_service(
    m: ServiceMaps,
    id: u32,
    ip: Ipv4Addr,
    ports: Seq<PortInfo>,
    all: Seq<BackendEntry>,
)
    requires
        countable(ports, all),
    ensures
        ({
            let r = m.apply_all(ports_ops(id, ip, ports, all));
            &&& forall|k: ServiceKey|
                k.vip != key_of(ip) ==> #[trigger] lookup(r.services, k) == lookup(m.services, k)
            &&& forall|k: BackendKey|
                k.service_id != id ==> #[trigger] lookup(r.backends, k) == lookup(m.backends, k)
        }),
    decreases ports.len(),
{
    if ports.len() > 0 {
        let front = ports.drop_last();
        let last = ports.last();
        let m1 = m.apply_all(ports_ops(id, ip, front, all));
        lemma_apply_concat(m, ports_ops(id, ip, front, all), port_ops(id, ip, last, all));
        assert(last == ports[ports.len() - 1]);
        assert forall|j: int| 0 <= j < front.len() implies serving(all, #[trigger] front[j]).len()
            <= u32::MAX by {
            assert(front[j] == ports[j]);
        }
        law_writes_touch_one_service(m, id, ip, front, all);
        lemma_port(m1, id, ip, last, all);
        let r = m1.apply_all(port_ops(id, ip, last, all));
        assert forall|k: ServiceKey| k.vip != key_of(ip) implies #[trigger] lookup(r.services, k)
            == lookup(m.services, k) by {
            assert(lookup(m1.services, k) == lookup(m.services, k));
        }
        assert forall|k: BackendKey| k.service_id != id implies #[trigger] lookup(r.backends, k)
            == lookup(m.backends, k) by {
            assert(lookup(m1.backends, k) == lookup(m.backends, k));
        }
    }
}

/// Slots of different services, of ports that differ to clients, or of different numbers are
/// different.
pub proof fn law_slots_are_not_shared(
    id: u32,
    p: PortInfo,
    i: u32,
    id2: u32,
    q: PortInfo,
    j: u32,
)
    requires
        slot_key(id, p, i) == slot_key(id2, q, j),
    ensures
        id == id2,
        same_front(p, q),
        i == j,
{
    law_port_key_involution(p.svc_port);
    law_port_key_involution(q.svc_port);
}

/// The first packet of a flow to a port of a service gets one of the backends that serve the port,
/// whatever number is drawn: the one in the slot that the number picks. It gets none only where the
/// port has none.
pub proof fn law_clients_reach_a_serving_backend(
    t: Tables,
    id: u32,
    ip: Ipv4Addr,
    port: PortInfo,
    all: Seq<BackendEntry>,
    flow: Flow,
    random: u32,
)
    requires
        serving(all, port).len() <= u32::MAX,
        holds_port(
            (ServiceMaps { services: t.services, backends: t.backends }),
            id,
            ip,
            port,
            all,
        ),
        flow.hdr.dst_ip == key_of(ip),
        flow.hdr.dst_port == port_key_of(port.svc_port),
        flow.hdr.proto == port.proto,
    ensures
        ({
            let mine = serving(all, port);
            backend_of(t, flow, random) == (if mine.len() == 0 {
                None
            } else {
                Some(slot_val(mine[(random as nat % mine.len()) as int]))
            })
        }),
{
    let mine = serving(all, port);
    assert((FindService { flow }).spec_key() == map_key(ip, port));
    let svc = ServiceVal { service_id: id, backend_count: mine.len() as u32 };
    assert(service_of(t, flow) == Some(svc));
    if mine.len() > 0 {
        let n = (random as nat % mine.len()) as int;
        assert(random % svc.backend_count == n);
        assert(lookup(t.backends, slot_key(id, port, n as u32)) == Some(slot_val(mine[n])));
        assert((FindBackend { flow, service_id: id, index: n as u32 }).spec_key() == slot_key(
            id,
            port,
            n as u32,
        ));
    }
}

/// A backend that serves a port is a known one, and matches the port's target and protocol.
pub proof fn law_serving_backends_match(all: Seq<BackendEntry>, port: PortInfo)
    ensures
        forall|i: int|
            0 <= i < serving(all, port).len() ==> {
                &&& all.contains(#[trigger] serving(all, port)[i])
                &&& serving(all, port)[i].port == port.target_port
                &&& serving(all, port)[i].proto == port.proto
            },
        forall|b: BackendEntry|
            all.contains(b) && b.port == port.target_port && b.proto == port.proto
                ==> #[trigger] serving(all, port).contains(b),
    decreases all.len(),
{
    reveal(Seq::filter);
    let mine = serving(all, port);
    if all.len() > 0 {
        let front = all.drop_last();
        let b0 = all.last();
        law_serving_backends_match(front, port);
        let mine0 = serving(front, port);
        assert(all == front.push(b0));
        assert forall|i: int| 0 <= i < mine.len() implies {
            &&& all.contains(#[trigger] mine[i])
            &&& mine[i].port == port.target_port
            &&& mine[i].proto == port.proto
        } by {
            if i < mine0.len() {
                assert(mine[i] == mine0[i]);
                assert(front.contains(mine0[i]));
                let j = choose|j: int| 0 <= j < front.len() && front[j] == mine0[i];
                assert(all[j] == mine[i]);
            } else {
                assert(all[all.len() - 1] == mine[i]);
            }
        }
        assert forall|b: BackendEntry|
            all.contains(b) && b.port == port.target_port && b.proto
                == port.proto implies #[trigger] mine.contains(b) by {
            if b == b0 {
                assert(mine[mine.len() - 1] == b);
            } else {
                let j = choose|j: int| 0 <= j < all.len() && all[j] == b;
                assert(front[j] == b);
                assert(mine0.contains(b));
                let k = choose|k: int| 0 <= k < mine0.len() && mine0[k] == b;
                assert(mine[k] == b);
            }
        }
    }
}

/// Once the removals for a service are done, none of its ports is in the map of services, every
/// other entry is as it was, and so are the backends.
pub proof fn law_deleted_service_is_gone(m: ServiceMaps, rec: ServiceRecord, ip: Ipv4Addr)
    requires
        rec.cluster_ip == Some(ip),
    ensures
        ({
            let r = m.apply_all(removal_ops(rec));
            &&& forall|i: int|
                0 <= i < rec.ports.len() ==> !r.services.dom().contains(
                    map_key(ip, #[trigger] rec.ports[i]),
                )
            &&& forall|k: ServiceKey|
                (forall|i: int| 0 <= i < rec.ports.len() ==> k != map_key(ip, #[trigger] rec.ports[i]))
                    ==> #[trigger] lookup(r.services, k) == lookup(m.services, k)
            &&& r.backends == m.backends
        }),
    decreases rec.ports.len(),
{
    let ops = removal_ops(rec);
    if rec.ports.len() > 0 {
        let front = ServiceRecord { ports: rec.ports.drop_last(), ..rec };
        law_deleted_service_is_gone(m, front, ip);
        assert(ops.drop_last() =~= removal_ops(front));
        let last = rec.ports[rec.ports.len() - 1];
        assert(ops.last() == MapOp::ServicesRemove(map_key(ip, last)));
        let m1 = m.apply_all(removal_ops(front));
        let r = m1.apply(ops.last());
        assert forall|i: int| 0 <= i < rec.ports.len() implies !r.services.dom().contains(
            map_key(ip, #[trigger] rec.ports[i]),
        ) by {
            if i < rec.ports.len() - 1 {
                assert(front.ports[i] == rec.ports[i]);
                assert(!m1.services.dom().contains(map_key(ip, front.ports[i])));
            }
        }
        assert forall|k: ServiceKey|
            (forall|i: int|
                0 <= i < rec.ports.len() ==> k != map_key(
                    ip,
                    #[trigger] rec.ports[i],
                )) implies #[trigger] lookup(r.services, k) == lookup(m.services, k) by {
            assert forall|i: int| 0 <= i < front.ports.len() implies k != map_key(
                ip,
                #[trigger] front.ports[i],
            ) by {
                assert(front.ports[i] == rec.ports[i]);
            }
            assert(lookup(m1.services, k) == lookup(m.services, k));
            assert(k != map_key(ip, last));
        }
    }
}

proof fn lemma_put_distinct(s: Slices, uid: Seq<char>, bs: Seq<BackendEntry>)
    requires
        slices_distinct(s),
    ensures
        slices_distinct(put_slice(s, uid, bs)),
{
    let r = put_slice(s, uid, bs);
    if exists|i: int| slice_at(s, uid, i) {
        let c = choose|i: int| slice_at(s, uid, i);
        assert(slice_at(s, uid, c));
        assert forall|i: int, j: int|
            0 <= i < r.len() && 0 <= j < r.len() && i != j implies (#[trigger] r[i]).0 != (
        #[trigger] r[j]).0 by {
            assert(r[i].0 == s[i].0);
            assert(r[j].0 == s[j].0);
        }
    } else {
        assert forall|i: int, j: int|
            0 <= i < r.len() && 0 <= j < r.len() && i != j implies (#[trigger] r[i]).0 != (
        #[trigger] r[j]).0 by {
            if i < s.len() {
                assert(r[i] == s[i]);
                assert(!slice_at(s, uid, i));
            }
            if j < s.len() {
                assert(r[j] == s[j]);
                assert(!slice_at(s, uid, j));
            }
        }
    }
}

proof fn lemma_drop_distinct(s: Slices, uid: Seq<char>)
    requires
        slices_distinct(s),
    ensures
        slices_distinct(drop_slice(s, uid)),
{
    let r = drop_slice(s, uid);
    if exists|i: int| slice_at(s, uid, i) {
        let c = choose|i: int| slice_at(s, uid, i);
        assert(slice_at(s, uid, c));
        assert forall|i: int, j: int|
            0 <= i < r.len() && 0 <= j < r.len() && i != j implies (#[trigger] r[i]).0 != (
        #[trigger] r[j]).0 by {
            let i0 = if i < c {
                i
            } else {
                i + 1
            };
            let j0 = if j < c {
                j
            } else {
                j + 1
            };
            assert(r[i] == s[i0]);
            assert(r[j] == s[j0]);
        }
    }
}

/// Whatever events come and however their writes go, different services keep different numbers, no
/// slice is counted twice, and a service that stays known keeps its number. A number is never given
/// twice: a service that becomes known gets the next one, and the next one only grows.
pub proof fn law_numbers_are_kept(m: SvcModel, event: SvcOrSlice, written: Result<(), String>)
    requires
        m.consistent(),
        m.has_room_for(event),
    ensures
        m.on_event(event).0.consistent(),
        m.after_event(event, written).consistent(),
        m.after_event(event, written).services == m.on_event(event).0.services,
        m.after_event(event, written).next_id == m.on_event(event).0.next_id,
        forall|k: Seq<char>|
            m.services.dom().contains(k) && #[trigger] m.on_event(event).0.services.dom().contains(
                k,
            ) ==> m.on_event(event).0.services[k].id == m.services[k].id,
        forall|k: Seq<char>|
            !m.services.dom().contains(k) && #[trigger] m.on_event(event).0.services.dom().contains(
                k,
            ) ==> m.on_event(event).0.services[k].id == m.next_id
                && m.on_event(event).0.next_id == m.next_id + 1,
        m.on_event(event).0.next_id >= m.next_id,
{
    let n = m.on_event(event).0;
    assert forall|k: Seq<char>, l: Seq<char>|
        #![trigger n.services[k], n.services[l]]
        n.services.dom().contains(k) && n.services.dom().contains(l) && n.services[k].id
            == n.services[l].id implies k == l by {
        if m.services.dom().contains(k) && m.services.dom().contains(l) {
            assert(m.services[k].id == m.services[l].id);
        }
    }
    assert forall|k: Seq<char>| #[trigger] n.slices.dom().contains(k) implies slices_distinct(
        n.slices[k],
    ) by {
        assert(slices_distinct(m.slices_of(k)));
        assert forall|uid: Seq<char>, bs: Seq<BackendEntry>| slices_distinct(
            #[trigger] put_slice(m.slices_of(k), uid, bs),
        ) by {
            lemma_put_distinct(m.slices_of(k), uid, bs);
        }
        assert forall|uid: Seq<char>| slices_distinct(
            #[trigger] drop_slice(m.slices_of(k), uid),
        ) by {
            lemma_drop_distinct(m.slices_of(k), uid);
        }
    }
}

/// Namespaces and names without a slash make different keys.
pub proof fn law_service_keys_differ(
    ns: Seq<char>,
    name: Seq<char>,
    ns2: Seq<char>,
    name2: Seq<char>,
)
    requires
        !ns.contains('/'),
        !ns2.contains('/'),
        service_key(ns, name) == service_key(ns2, name2),
    ensures
        ns == ns2,
        name == name2,
{
    reveal_strlit("/");
    let a = service_key(ns, name);
    let b = service_key(ns2, name2);
    assert(a[ns.len() as int] == '/');
    assert(b[ns2.len() as int] == '/');
    if ns.len() < ns2.len() {
        assert(b[ns.len() as int] == ns2[ns.len() as int]);
    } else if ns2.len() < ns.len() {
        assert(a[ns2.len() as int] == ns[ns2.len() as int]);
    }
    assert(a.take(ns.len() as int) == ns);
    assert(b.take(ns2.len() as int) == ns2);
    assert(a.skip(ns.len() as int + 1) == name);
    assert(b.skip(ns2.len() as int + 1) == name2);
}


/// Whether the maps are in line with what is known of a service: each port of it is there.
pub open spec fn service_in_line(m: ServiceMaps, model: SvcModel, key: Seq<char>) -> bool {
    let rec = model.services[key];
    match rec.cluster_ip {
        Some(ip) => forall|i: int| #[trigger]
            last_of_its_front(rec.ports, i) ==> holds_port(
                m,
                rec.id,
                ip,
                rec.ports[i],
                all_backends(model.slices_of(key)),
            ),
        None => true,
    }
}

/// Whether the maps are in line with what is known of every service.
pub open spec fn in_line(m: ServiceMaps, model: SvcModel) -> bool {
    forall|k: Seq<char>| #[trigger]
        model.services.dom().contains(k) ==> service_in_line(m, model, k)
}

/// Whether no two services have one address.
pub open spec fn addresses_differ(model: SvcModel) -> bool {
    forall|k: Seq<char>, l: Seq<char>|
        #![trigger model.services[k], model.services[l]]
        model.services.dom().contains(k) && model.services.dom().contains(l) && k != l
            && model.services[k].cluster_ip is Some ==> model.services[k].cluster_ip
            != model.services[l].cluster_ip
}

/// Whether the backends of each port of each service can be counted in 32 bits.
pub open spec fn all_countable(model: SvcModel) -> bool {
    forall|k: Seq<char>| #[trigger]
        model.services.dom().contains(k) ==> countable(
            model.services[k].ports,
            all_backends(model.slices_of(k)),
        )
}

/// A service is not affected by writes that touch neither its address nor its number.
proof fn lemma_untouched(m: ServiceMaps, r: ServiceMaps, model: SvcModel, next: SvcModel, k: Seq<char>)
    requires
        service_in_line(m, model, k),
        next.services[k] == model.services[k],
        next.slices_of(k) == model.slices_of(k),
        model.services[k].cluster_ip matches Some(ip) ==> {
            &&& forall|s: ServiceKey|
                s.vip == key_of(ip) ==> #[trigger] lookup(r.services, s) == lookup(m.services, s)
            &&& forall|b: BackendKey|
                b.service_id == model.services[k].id ==> #[trigger] lookup(r.backends, b) == lookup(
                    m.backends,
                    b,
                )
        },
    ensures
        service_in_line(r, next, k),
{
    let rec = model.services[k];
    let all = all_backends(model.slices_of(k));
    match rec.cluster_ip {
        Some(ip) => {
            assert forall|i: int| #[trigger] last_of_its_front(rec.ports, i) implies holds_port(
                r,
                rec.id,
                ip,
                rec.ports[i],
                all,
            ) by {
                assert(holds_port(m, rec.id, ip, rec.ports[i], all));
                let mine = serving(all, rec.ports[i]);
                assert forall|n: int| 0 <= n < mine.len() implies #[trigger] lookup(
                    r.backends,
                    slot_key(rec.id, rec.ports[i], n as u32),
                ) == Some(slot_val(mine[n])) by {
                    assert(lookup(m.backends, slot_key(rec.id, rec.ports[i], n as u32)) == Some(
                        slot_val(mine[n]),
                    ));
                }
            }
        },
        None => {},
    }
}

/// The writes for one service bring it in line and leave the others so.
proof fn lemma_reconciled(m: ServiceMaps, model: SvcModel, next: SvcModel, key: Seq<char>)
    requires
        in_line(m, model),
        next.consistent(),
        addresses_differ(next),
        all_countable(next),
        forall|k: Seq<char>|
            k != key && #[trigger] next.services.dom().contains(k) ==> {
                &&& model.services.dom().contains(k)
                &&& next.services[k] == model.services[k]
                &&& next.slices_of(k) == model.slices_of(k)
            },
    ensures
        in_line(m.apply_all(next.reconcile_ops(key)), next),
{
    let r = m.apply_all(next.reconcile_ops(key));
    let all = all_backends(next.slices_of(key));
    assert forall|k: Seq<char>| #[trigger] next.services.dom().contains(k) implies service_in_line(
        r,
        next,
        k,
    ) by {
        let rec = next.services[k];
        if k == key {
            match rec.cluster_ip {
                Some(ip) => {
                    assert forall|i: int| #[trigger] last_of_its_front(
                        rec.ports,
                        i,
                    ) implies holds_port(r, rec.id, ip, rec.ports[i], all) by {
                        law_writes_take_hold(m, rec.id, ip, rec.ports, all, i);
                    }
                },
                None => {},
            }
        } else {
            if next.services.dom().contains(key) {
                let other = next.services[key];
                match other.cluster_ip {
                    Some(ip) => {
                        law_writes_touch_one_service(m, other.id, ip, other.ports, all);
                        match rec.cluster_ip {
                            Some(mine) => {
                                if key_of(mine) == key_of(ip) {
                                    law_endpoint_key_injective(mine, ip);
                                }
                            },
                            None => {},
                        }
                    },
                    None => {},
                }
            }
            lemma_untouched(m, r, model, next, k);
        }
    }
}

/// The removals for one service leave the others in line.
proof fn lemma_removed(m: ServiceMaps, model: SvcModel, key: Seq<char>)
    requires
        in_line(m, model),
        addresses_differ(model),
        model.services.dom().contains(key),
    ensures
        in_line(m.apply_all(removal_ops(model.services[key])), model.without_service(key)),
{
    let gone = model.services[key];
    let next = model.without_service(key);
    let r = m.apply_all(removal_ops(gone));
    assert forall|k: Seq<char>| #[trigger] next.services.dom().contains(k) implies service_in_line(
        r,
        next,
        k,
    ) by {
        let rec = model.services[k];
        match gone.cluster_ip {
            Some(ip) => {
                law_deleted_service_is_gone(m, gone, ip);
                match rec.cluster_ip {
                    Some(mine) => {
                        if key_of(mine) == key_of(ip) {
                            law_endpoint_key_injective(mine, ip);
                        }
                        assert forall|s: ServiceKey| s.vip == key_of(mine) implies #[trigger] lookup(
                            r.services,
                            s,
                        ) == lookup(m.services, s) by {
                            assert forall|i: int| 0 <= i < gone.ports.len() implies s != map_key(
                                ip,
                                #[trigger] gone.ports[i],
                            ) by {}
                        }
                    },
                    None => {},
                }
            },
            None => {},
        }
        lemma_untouched(m, r, model, next, k);
    }
}

/// What is known of the slices of a service that is not known bears on no other.
proof fn lemma_slices_dropped(m: ServiceMaps, model: SvcModel, key: Seq<char>)
    requires
        in_line(m, model),
        !model.services.dom().contains(key),
    ensures
        in_line(m, model.without_slices(key)),
{
    let next = model.without_slices(key);
    assert forall|k: Seq<char>| #[trigger] next.services.dom().contains(k) implies service_in_line(
        m,
        next,
        k,
    ) by {
        lemma_untouched(m, m, model, next, k);
    }
}

/// The maps stay in line with what is known: where they were before an event, they are after its
/// writes.
pub proof fn law_maps_stay_in_line(m: ServiceMaps, model: SvcModel, event: SvcOrSlice)
    requires
        model.consistent(),
        model.has_room_for(event),
        addresses_differ(model),
        addresses_differ(model.on_event(event).0),
        all_countable(model.on_event(event).0),
        in_line(m, model),
    ensures
        in_line(m.apply_all(model.on_event(event).1), model.on_event(event).0),
        in_line(m.apply_all(model.on_event(event).1), model.after_event(event, Ok(()))),
{
    law_numbers_are_kept(model, event, Ok(()));
    let next = model.on_event(event).0;
    let ops = model.on_event(event).1;
    match event {
        SvcOrSlice::Service(Event::Delete(s)) => {
            let key = service_key(
                text_or_spec(s.namespace, DEFAULT_NAMESPACE@),
                text_or_spec(s.name, ""@),
            );
            if model.services.dom().contains(key) {
                lemma_removed(m, model, key);
            } else {
                assert forall|k: Seq<char>| #[trigger]
                    next.services.dom().contains(k) implies service_in_line(m, next, k) by {
                    lemma_untouched(m, m, model, next, k);
                }
            }
            lemma_slices_dropped(m.apply_all(ops), next, key);
        },
        SvcOrSlice::Service(Event::Apply(s)) => {
            lemma_service_applied(m, model, s);
        },
        SvcOrSlice::Service(Event::InitApply(s)) => {
            lemma_service_applied(m, model, s);
        },
        SvcOrSlice::Slice(Event::Apply(s)) => {
            lemma_slice_applied(m, model, s);
        },
        SvcOrSlice::Slice(Event::InitApply(s)) => {
            lemma_slice_applied(m, model, s);
        },
        SvcOrSlice::Slice(Event::Delete(s)) => match (slice_service(s), s.uid) {
            (Some(name), Some(uid)) => {
                let key = service_key(text_or_spec(s.namespace, DEFAULT_NAMESPACE@), name);
                lemma_reconciled(m, model, next, key);
            },
            _ => {},
        },
        _ => {},
    }
}

proof fn lemma_service_applied(m: ServiceMaps, model: SvcModel, s: Service)
    requires
        model.apply_service(s).0.consistent(),
        addresses_differ(model.apply_service(s).0),
        all_countable(model.apply_service(s).0),
        in_line(m, model),
    ensures
        in_line(m.apply_all(model.apply_service(s).1), model.apply_service(s).0),
{
    match s.name {
        Some(name) => {
            let key = service_key(text_or_spec(s.namespace, DEFAULT_NAMESPACE@), name@);
            lemma_reconciled(m, model, model.apply_service(s).0, key);
        },
        None => {},
    }
}

proof fn lemma_slice_applied(m: ServiceMaps, model: SvcModel, s: EndpointSlice)
    requires
        model.apply_slice(s).0.consistent(),
        addresses_differ(model.apply_slice(s).0),
        all_countable(model.apply_slice(s).0),
        in_line(m, model),
    ensures
        in_line(m.apply_all(model.apply_slice(s).1), model.apply_slice(s).0),
{
    match (slice_service(s), s.uid, s.ports) {
        (Some(name), Some(uid), Some(ports)) => {
            let key = service_key(text_or_spec(s.namespace, DEFAULT_NAMESPACE@), name);
            lemma_reconciled(m, model, model.apply_slice(s).0, key);
        },
        _ => {},
    }
}

/// Whether a write concerns one service only: an entry under its address, or a slot of its number.
pub open spec fn writes_to(op: MapOp, id: u32, vip: u32) -> bool {
    match op {
        MapOp::ServicesUpsert(k, _) => k.vip == vip,
        MapOp::ServicesRemove(k) => k.vip == vip,
        MapOp::BackendsUpsert(k, _) => k.service_id == id,
        _ => false,
    }
}

/// Whether a write adds or changes something of a service: the entry of one of its ports, or a slot
/// of its number.
pub open spec fn adds_to(op: MapOp, id: u32, ip: Ipv4Addr, ports: Seq<PortInfo>) -> bool {
    match op {
        MapOp::ServicesUpsert(k, _) => exists|i: int|
            0 <= i < ports.len() && k == map_key(ip, #[trigger] ports[i]),
        MapOp::BackendsUpsert(k, _) => k.service_id == id,
        _ => false,
    }
}

proof fn lemma_ports_ops_add(id: u32, ip: Ipv4Addr, ports: Seq<PortInfo>, all: Seq<BackendEntry>)
    ensures
        forall|i: int|
            0 <= i < ports_ops(id, ip, ports, all).len() ==> adds_to(
                #[trigger] ports_ops(id, ip, ports, all)[i],
                id,
                ip,
                ports,
            ),
    decreases ports.len(),
{
    if ports.len() > 0 {
        let front = ports.drop_last();
        let ops = ports_ops(id, ip, ports, all);
        let before = ports_ops(id, ip, front, all);
        let mine = port_ops(id, ip, ports.last(), all);
        lemma_ports_ops_add(id, ip, front, all);
        assert forall|i: int| 0 <= i < ops.len() implies adds_to(
            #[trigger] ops[i],
            id,
            ip,
            ports,
        ) by {
            if i < before.len() {
                assert(ops[i] == before[i]);
                assert(adds_to(before[i], id, ip, front));
                if let MapOp::ServicesUpsert(k, _) = before[i] {
                    let j = choose|j: int|
                        0 <= j < front.len() && k == map_key(ip, #[trigger] front[j]);
                    assert(ports[j] == front[j]);
                }
            } else {
                assert(ops[i] == mine[i - before.len()]);
                assert(ports[ports.len() - 1] == ports.last());
            }
        }
    }
}

proof fn lemma_written_to(m: ServiceMaps, ops: Seq<MapOp>, id: u32, vip: u32)
    requires
        forall|i: int| 0 <= i < ops.len() ==> writes_to(#[trigger] ops[i], id, vip),
    ensures
        forall|k: ServiceKey|
            k.vip != vip ==> #[trigger] lookup(m.apply_all(ops).services, k) == lookup(
                m.services,
                k,
            ),
        forall|k: BackendKey|
            k.service_id != id ==> #[trigger] lookup(m.apply_all(ops).backends, k) == lookup(
                m.backends,
                k,
            ),
    decreases ops.len(),
{
    if ops.len() > 0 {
        let front = ops.drop_last();
        assert forall|i: int| 0 <= i < front.len() implies writes_to(
            #[trigger] front[i],
            id,
            vip,
        ) by {
            assert(front[i] == ops[i]);
        }
        lemma_written_to(m, front, id, vip);
        let m1 = m.apply_all(front);
        let last = ops[ops.len() - 1];
        assert(writes_to(last, id, vip));
        let r = m1.apply(last);
        assert forall|k: ServiceKey| k.vip != vip implies #[trigger] lookup(r.services, k) == lookup(
            m.services,
            k,
        ) by {
            assert(lookup(m1.services, k) == lookup(m.services, k));
        }
        assert forall|k: BackendKey| k.service_id != id implies #[trigger] lookup(r.backends, k)
            == lookup(m.backends, k) by {
            assert(lookup(m1.backends, k) == lookup(m.backends, k));
        }
    }
}

proof fn lemma_added_to(
    m: ServiceMaps,
    ops: Seq<MapOp>,
    id: u32,
    ip: Ipv4Addr,
    ports: Seq<PortInfo>,
)
    requires
        forall|i: int| 0 <= i < ops.len() ==> adds_to(#[trigger] ops[i], id, ip, ports),
    ensures
        ({
            let r = m.apply_all(ops);
            &&& m.services.dom().subset_of(r.services.dom())
            &&& m.backends.dom().subset_of(r.backends.dom())
            &&& forall|k: ServiceKey|
                (forall|i: int| 0 <= i < ports.len() ==> k != map_key(ip, #[trigger] ports[i]))
                    ==> #[trigger] lookup(r.services, k) == lookup(m.services, k)
            &&& forall|k: BackendKey|
                k.service_id != id ==> #[trigger] lookup(r.backends, k) == lookup(m.backends, k)
        }),
    decreases ops.len(),
{
    if ops.len() > 0 {
        let front = ops.drop_last();
        assert forall|i: int| 0 <= i < front.len() implies adds_to(
            #[trigger] front[i],
            id,
            ip,
            ports,
        ) by {
            assert(front[i] == ops[i]);
        }
        lemma_added_to(m, front, id, ip, ports);
        let m1 = m.apply_all(front);
        let last = ops[ops.len() - 1];
        assert(adds_to(last, id, ip, ports));
        let r = m1.apply(last);
        assert forall|k: ServiceKey|
            (forall|i: int|
                0 <= i < ports.len() ==> k != map_key(
                    ip,
                    #[trigger] ports[i],
                )) implies #[trigger] lookup(r.services, k) == lookup(m.services, k) by {
            assert(lookup(m1.services, k) == lookup(m.services, k));
        }
        assert forall|k: BackendKey| k.service_id != id implies #[trigger] lookup(r.backends, k)
            == lookup(m.backends, k) by {
            assert(lookup(m1.backends, k) == lookup(m.backends, k));
        }
    }
}

/// Wherever the writes that bring a service in line end, they have removed nothing, and have touched
/// only the entries of its ports and the slots of its number. Nothing at all is written for a service
/// that is not known or has no address.
pub proof fn law_reconcile_only_adds(m: ServiceMaps, model: SvcModel, key: Seq<char>, n: int)
    requires
        0 <= n <= model.reconcile_ops(key).len(),
    ensures
        ({
            let r = m.apply_all(model.reconcile_ops(key).take(n));
            &&& m.services.dom().subset_of(r.services.dom())
            &&& m.backends.dom().subset_of(r.backends.dom())
            &&& if !model.services.dom().contains(key) {
                r == m
            } else {
                let rec = model.services[key];
                match rec.cluster_ip {
                    None => r == m,
                    Some(ip) => {
                        &&& forall|k: ServiceKey|
                            (forall|i: int|
                                0 <= i < rec.ports.len() ==> k != map_key(
                                    ip,
                                    #[trigger] rec.ports[i],
                                )) ==> #[trigger] lookup(r.services, k) == lookup(m.services, k)
                        &&& forall|k: BackendKey|
                            k.service_id != rec.id ==> #[trigger] lookup(r.backends, k) == lookup(
                                m.backends,
                                k,
                            )
                    },
                }
            }
        }),
{
    let ops = model.reconcile_ops(key);
    if model.services.dom().contains(key) {
        let rec = model.services[key];
        match rec.cluster_ip {
            Some(ip) => {
                lemma_ports_ops_add(rec.id, ip, rec.ports, all_backends(model.slices_of(key)));
                assert forall|i: int| 0 <= i < ops.take(n).len() implies adds_to(
                    #[trigger] ops.take(n)[i],
                    rec.id,
                    ip,
                    rec.ports,
                ) by {
                    assert(ops.take(n)[i] == ops[i]);
                }
                lemma_added_to(m, ops.take(n), rec.id, ip, rec.ports);
            },
            None => {},
        }
    }
}

/// Wherever the writes of an event end, every service that it is not about is in line as it was.
pub proof fn law_failed_writes_spare_other_services(
    m: ServiceMaps,
    model: SvcModel,
    event: SvcOrSlice,
    written: Result<(), String>,
    n: int,
    k: Seq<char>,
)
    requires
        model.consistent(),
        model.has_room_for(event),
        addresses_differ(model),
        addresses_differ(model.on_event(event).0),
        in_line(m, model),
        0 <= n <= model.on_event(event).1.len(),
        model.services.dom().contains(k),
        event_key(event) != Some(k),
    ensures
        model.after_event(event, written).services.dom().contains(k),
        service_in_line(
            m.apply_all(model.on_event(event).1.take(n)),
            model.after_event(event, written),
            k,
        ),
{
    law_numbers_are_kept(model, event, written);
    let next = model.after_event(event, written);
    let ops = model.on_event(event).1;
    let some = ops.take(n);
    let r = m.apply_all(some);
    let rec = model.services[k];
    if ops.len() > 0 {
        let key = event_key(event)->0;
        let other = if event matches SvcOrSlice::Service(Event::Delete(_)) {
            model.services[key]
        } else {
            next.services[key]
        };
        let ip = other.cluster_ip->0;
        let vip = key_of(ip);
        assert forall|i: int| 0 <= i < some.len() implies writes_to(
            #[trigger] some[i],
            other.id,
            vip,
        ) by {
            assert(some[i] == ops[i]);
            if !(event matches SvcOrSlice::Service(Event::Delete(_))) {
                lemma_ports_ops_add(
                    other.id,
                    ip,
                    other.ports,
                    all_backends(model.on_event(event).0.slices_of(key)),
                );
                assert(adds_to(ops[i], other.id, ip, other.ports));
            }
        }
        lemma_written_to(m, some, other.id, vip);
        match rec.cluster_ip {
            Some(mine) => {
                if key_of(mine) == vip {
                    law_endpoint_key_injective(mine, ip);
                }
            },
            None => {},
        }
    }
    lemma_untouched(m, r, model, next, k);
}

/// How the kernel answers the removal of an entry of the map of services, where nothing else is
/// amiss: it is done, or there is no such entry.
pub open spec fn answers_removal(m: ServiceMaps, key: ServiceKey, result: MapResult) -> bool {
    if m.services.dom().contains(key) {
        result is Done
    } else {
        result is NotFound
    }
}

/// Removing an entry of the map of services twice is removing it once, and neither fails, whether
/// the entry was there or not: it is gone, and every other entry is as it was.
pub proof fn law_removing_twice_is_removing_once(
    m: ServiceMaps,
    key: ServiceKey,
    first: MapResult,
    second: MapResult,
)
    requires
        answers_removal(m, key, first),
        answers_removal(m.apply(MapOp::ServicesRemove(key)), key, second),
    ensures
        ({
            let op = MapOp::ServicesRemove(key);
            let r = m.apply(op);
            &&& op.failure(first) is None
            &&& op.failure(second) is None
            &&& r.apply(op) == r
            &&& !r.services.dom().contains(key)
            &&& forall|k: ServiceKey|
                k != key ==> #[trigger] lookup(r.services, k) == lookup(m.services, k)
            &&& r.backends == m.backends
        }),
{
    let r = m.apply(MapOp::ServicesRemove(key));
    assert(r.services.remove(key) =~= r.services);
}

/// A deletion whose removals ended with a failure keeps the slices of the service, and all else but
/// the service itself; one whose removals went well forgets them. Nothing else changes.
pub proof fn law_failed_deletion_keeps_the_slices(
    model: SvcModel,
    ns: Seq<char>,
    name: Seq<char>,
    written: Result<(), String>,
)
    ensures
        ({
            let key = service_key(ns, name);
            let next = model.delete_service(ns, name).0.service_deleted(ns, name, written);
            &&& next.services == model.services.remove(key)
            &&& next.next_id == model.next_id
            &&& written is Err ==> next.slices == model.slices
            &&& written is Ok ==> next.slices == model.slices.remove(key)
        }),
{
}

/// Where nothing is known, the maps are in line with it.
pub proof fn law_the_beginning_is_in_line(m: ServiceMaps)
    ensures
        in_line(m, SvcModel { next_id: 1, services: Map::empty(), slices: Map::empty() }),
        addresses_differ(SvcModel { next_id: 1, services: Map::empty(), slices: Map::empty() }),
{
}

}
