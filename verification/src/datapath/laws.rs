//! What holds of packets one after another: the tables as mathematical maps, what a packet does to
//! them, and what follows for a flow.
use vstd::prelude::*;

use crate::common::{
    in_service_range, BackendKey, BackendVal, NatKey, NatVal, ServiceKey, ServiceVal, CT_EST,
    CT_FIN_FWD, CT_FIN_REV,
};
use crate::datapath::forward::{
    both_closed, forward_half, reverse_half, reverse_key, Edit, Effect, FindBackend, FindEndpoint,
    FindForward, FindReverse, FindService, Flow, Half, InsertForward, InsertReverse, Next,
    RewriteDestination, RewriteSource, Verdict,
};
use crate::datapath::packet::{parsed, tuple_key, IPPROTO_TCP, IPPROTO_UDP, TCP_RST};

verus! {

/// The tables that translation reads and changes.
pub struct Tables {
    pub forward: Map<NatKey, NatVal>,
    pub reverse: Map<NatKey, NatVal>,
    pub services: Map<ServiceKey, ServiceVal>,
    pub backends: Map<BackendKey, BackendVal>,
}

/// What is found under a key.
pub open spec fn lookup<K, V>(m: Map<K, V>, k: K) -> Option<V> {
    if m.dom().contains(k) {
        Some(m[k])
    } else {
        None
    }
}

/// `m` with the entry under `k` refreshed, where there is one.
pub open spec fn refreshed(m: Map<NatKey, NatVal>, k: NatKey, now: u64) -> Map<NatKey, NatVal> {
    if m.dom().contains(k) {
        m.insert(k, NatVal { last_seen: now, ..m[k] })
    } else {
        m
    }
}

/// `m` with bits added to the state of the entry under `k`, where there is one.
pub open spec fn marked(m: Map<NatKey, NatVal>, k: NatKey, bits: u8) -> Map<NatKey, NatVal> {
    if m.dom().contains(k) {
        m.insert(k, NatVal { state: m[k].state | bits, ..m[k] })
    } else {
        m
    }
}

impl Tables {
    /// The tables after one effect.
    pub open spec fn apply(self, effect: Effect) -> Tables {
        match effect {
            Effect::Bump(_) => self,
            Effect::Refresh { half: Half::Forward, key, now } => Tables {
                forward: refreshed(self.forward, key, now),
                ..self
            },
            Effect::Refresh { half: Half::Reverse, key, now } => Tables {
                reverse: refreshed(self.reverse, key, now),
                ..self
            },
            Effect::Mark { half: Half::Forward, key, bits } => Tables {
                forward: marked(self.forward, key, bits),
                ..self
            },
            Effect::Mark { half: Half::Reverse, key, bits } => Tables {
                reverse: marked(self.reverse, key, bits),
                ..self
            },
            Effect::Remove { half: Half::Forward, key } => Tables {
                forward: self.forward.remove(key),
                ..self
            },
            Effect::Remove { half: Half::Reverse, key } => Tables {
                reverse: self.reverse.remove(key),
                ..self
            },
        }
    }

    /// The tables after effects in order.
    pub open spec fn apply_all(self, effects: Seq<Effect>) -> Tables
        decreases effects.len(),
    {
        if effects.len() == 0 {
            self
        } else {
            self.apply_all(effects.drop_last()).apply(effects.last())
        }
    }
}

/// What the node does with a packet beyond the tables: the random number it draws, whether the
/// tables have room, whether the frame can be edited.
pub struct Node {
    pub random: u32,
    pub forward_room: bool,
    pub reverse_room: bool,
    pub editable: bool,
}

/// How far the translation of a packet has come: the tables, the edits made, and what comes next.
pub struct Progress {
    pub tables: Tables,
    pub edits: Seq<Edit>,
    pub next: Next,
}

impl Progress {
    /// Performs effects and goes on to `next`.
    pub open spec fn then_do(self, step: (Seq<Effect>, Next)) -> Progress {
        Progress { tables: self.tables.apply_all(step.0), edits: self.edits, next: step.1 }
    }

    /// Answers one question from the tables and the node.
    pub open spec fn answer(self, node: Node) -> Progress {
        let t = self.tables;
        match self.next {
            Next::FindReverse(q) => self.then_do(q.after(lookup(t.reverse, q.spec_key()))),
            Next::FindForward(q) => self.then_do(q.after(lookup(t.forward, q.spec_key()))),
            Next::FindService(q) => self.then_do(
                q.after(lookup(t.services, q.spec_key()), node.random),
            ),
            Next::FindBackend(q) => self.then_do(q.after(lookup(t.backends, q.spec_key()))),
            Next::InsertForward(q) => {
                let forward = if node.forward_room {
                    t.forward.insert(q.spec_key(), q.spec_value())
                } else {
                    t.forward
                };
                (Progress { tables: Tables { forward, ..t }, ..self }).then_do(
                    q.after(node.forward_room),
                )
            },
            Next::InsertReverse(q) => {
                let reverse = if node.reverse_room {
                    t.reverse.insert(q.spec_key(), q.spec_value())
                } else {
                    t.reverse
                };
                (Progress { tables: Tables { reverse, ..t }, ..self }).then_do(
                    q.after(node.reverse_room),
                )
            },
            Next::RewriteSource(q) => {
                let edits = if node.editable {
                    self.edits + q.spec_edits()
                } else {
                    self.edits
                };
                (Progress { edits, ..self }).then_do(q.after(node.editable))
            },
            Next::RewriteDestination(q) => {
                let edits = if node.editable {
                    self.edits + q.spec_edits()
                } else {
                    self.edits
                };
                (Progress { edits, ..self }).then_do(q.after(node.editable))
            },
            _ => self,
        }
    }

    /// Answers questions until translation is over: at most `fuel` of them.
    pub open spec fn run(self, node: Node, fuel: nat) -> Progress
        decreases fuel,
    {
        if fuel == 0 {
            self
        } else {
            self.answer(node).run(node, (fuel - 1) as nat)
        }
    }
}

/// The translation of a packet: it ends with a verdict, or with the lookup of the destination among
/// the endpoints, from where on the tables do not change.
pub open spec fn translate(tables: Tables, flow: Flow, node: Node) -> Progress {
    (Progress {
        tables,
        edits: Seq::empty(),
        next: Next::FindReverse(FindReverse { flow }),
    }).run(node, 7)
}

/// Whether the translation of a packet has ended.
pub open spec fn ended(next: Next) -> bool {
    next is Done || next is FindEndpoint
}

pub proof fn lemma_effects(t: Tables, a: Effect, b: Effect, c: Effect, d: Effect)
    ensures
        t.apply_all(Seq::empty()) == t,
        t.apply_all(seq![a]) == t.apply(a),
        t.apply_all(seq![a, b]) == t.apply(a).apply(b),
        t.apply_all(seq![a, b, c]) == t.apply(a).apply(b).apply(c),
        t.apply_all(seq![a, b, c, d]) == t.apply(a).apply(b).apply(c).apply(d),
{
    assert(t.apply_all(Seq::empty()) == t);
    assert(seq![a].drop_last() =~= Seq::<Effect>::empty());
    assert(t.apply_all(seq![a]) == t.apply(a));
    assert(seq![a, b].drop_last() =~= seq![a]);
    assert(t.apply_all(seq![a, b]) == t.apply(a).apply(b));
    assert(seq![a, b, c].drop_last() =~= seq![a, b]);
    assert(t.apply_all(seq![a, b, c]) == t.apply(a).apply(b).apply(c));
    assert(seq![a, b, c, d].drop_last() =~= seq![a, b, c]);
}

/// The tables after having found a half under the packet's own key.
pub open spec fn after_refresh(t: Tables, flow: Flow, half: Half, entry: NatVal) -> Tables {
    if flow.due(entry.last_seen) {
        t.apply(Effect::Refresh { half, key: flow.spec_key(), now: flow.now })
    } else {
        t
    }
}

pub proof fn lemma_refresh(t: Tables, flow: Flow, half: Half, entry: NatVal)
    ensures
        t.apply_all(flow.refresh(half, entry)) == after_refresh(t, flow, half, entry),
{
    let e = Effect::Refresh { half, key: flow.spec_key(), now: flow.now };
    lemma_effects(t, e, e, e, e);
}

/// The tables after the effects of a reply on its flow.
pub open spec fn after_reply(t: Tables, q: RewriteSource) -> Tables {
    let own = q.flow.spec_key();
    let partner = q.entry.partner;
    let state = q.entry.state;
    if q.flow.rst() || (!q.flow.fin() && q.flow.hdr.proto == IPPROTO_TCP && both_closed(state)) {
        Tables { forward: t.forward.remove(partner), reverse: t.reverse.remove(own), ..t }
    } else if q.flow.fin() {
        Tables {
            forward: marked(
                t.forward,
                partner,
                if state & CT_FIN_FWD != 0 {
                    CT_FIN_FWD | CT_FIN_REV
                } else {
                    CT_FIN_REV
                },
            ),
            ..t
        }
    } else if q.flow.hdr.proto == IPPROTO_TCP && state & CT_EST == 0 {
        Tables {
            forward: marked(t.forward, partner, CT_EST),
            reverse: marked(t.reverse, own, CT_EST),
            ..t
        }
    } else {
        t
    }
}

/// The tables after the effects of a packet to a service on its flow.
pub open spec fn after_request(t: Tables, q: RewriteDestination) -> Tables {
    let own = q.flow.spec_key();
    let partner = q.entry.partner;
    let state = q.entry.state;
    if q.flow.rst() || (!q.flow.fin() && q.flow.hdr.proto == IPPROTO_TCP && both_closed(state)) {
        Tables { forward: t.forward.remove(own), reverse: t.reverse.remove(partner), ..t }
    } else if q.flow.fin() {
        Tables {
            reverse: marked(
                t.reverse,
                partner,
                if state & CT_FIN_REV != 0 {
                    CT_FIN_FWD | CT_FIN_REV
                } else {
                    CT_FIN_FWD
                },
            ),
            ..t
        }
    } else {
        t
    }
}

proof fn lemma_after_reply(t: Tables, q: RewriteSource)
    ensures
        t.apply_all(q.after(true).0) == after_reply(t, q),
{
    let s = q.after(true).0;
    let k = q.tracking();
    let n = k.len();
    assert(s == seq![s[0]] + k);
    let z = s[0];
    if n == 0 {
        assert(s =~= seq![z]);
        lemma_effects(t, z, z, z, z);
    } else if n == 1 {
        assert(s =~= seq![z, k[0]]);
        lemma_effects(t, z, k[0], z, z);
    } else if n == 2 {
        assert(s =~= seq![z, k[0], k[1]]);
        lemma_effects(t, z, k[0], k[1], z);
    } else {
        assert(s =~= seq![z, k[0], k[1], k[2]]);
        lemma_effects(t, z, k[0], k[1], k[2]);
    }
}

proof fn lemma_after_request(t: Tables, q: RewriteDestination)
    ensures
        t.apply_all(q.after(true).0) == after_request(t, q),
{
    let s = q.after(true).0;
    let k = q.tracking();
    let n = k.len();
    assert(s == seq![s[0]] + k);
    let z = s[0];
    if n == 0 {
        assert(s =~= seq![z]);
        lemma_effects(t, z, z, z, z);
    } else if n == 1 {
        assert(s =~= seq![z, k[0]]);
        lemma_effects(t, z, k[0], z, z);
    } else {
        assert(s =~= seq![z, k[0], k[1], k[2]]);
        lemma_effects(t, z, k[0], k[1], k[2]);
    }
}

/// A packet whose tuple has a reverse half leaves as a reply of the service, whatever else the
/// tables hold.
pub proof fn law_reply_is_translated(t: Tables, flow: Flow, node: Node)
    requires
        t.reverse.dom().contains(flow.spec_key()),
        node.editable,
    ensures
        ({
            let entry = t.reverse[flow.spec_key()];
            let q = RewriteSource { flow, entry };
            let r = translate(t, flow, node);
            &&& r.edits == q.spec_edits()
            &&& r.next == Next::FindEndpoint(
                FindEndpoint { src_ip: entry.ip, dst_ip: flow.hdr.dst_ip },
            )
            &&& r.tables == after_reply(after_refresh(t, flow, Half::Reverse, entry), q)
        }),
{
    let entry = t.reverse[flow.spec_key()];
    let q = RewriteSource { flow, entry };
    lemma_refresh(t, flow, Half::Reverse, entry);
    lemma_after_reply(after_refresh(t, flow, Half::Reverse, entry), q);
    reveal_with_fuel(Progress::run, 8);
    assert(Seq::<Edit>::empty() + q.spec_edits() =~= q.spec_edits());
}

/// A packet to a service whose tuple has a forward half goes to the backend that the half names,
/// whatever the service and backend tables hold by then and whatever number is drawn.
pub proof fn law_flow_keeps_its_backend(t: Tables, flow: Flow, node: Node)
    requires
        in_service_range(flow.hdr.dst_ip),
        t.forward.dom().contains(flow.spec_key()),
        !t.reverse.dom().contains(flow.spec_key()),
        node.editable,
    ensures
        ({
            let entry = t.forward[flow.spec_key()];
            let q = RewriteDestination { flow, entry };
            let r = translate(t, flow, node);
            &&& r.edits == q.spec_edits()
            &&& r.next == Next::FindEndpoint(
                FindEndpoint { src_ip: flow.hdr.src_ip, dst_ip: entry.ip },
            )
            &&& r.tables == after_request(after_refresh(t, flow, Half::Forward, entry), q)
        }),
{
    let entry = t.forward[flow.spec_key()];
    let q = RewriteDestination { flow, entry };
    let z = Effect::Bump(0);
    lemma_effects(t, z, z, z, z);
    lemma_refresh(t, flow, Half::Forward, entry);
    lemma_after_request(after_refresh(t, flow, Half::Forward, entry), q);
    reveal_with_fuel(Progress::run, 8);
    assert(Seq::<Edit>::empty() + q.spec_edits() =~= q.spec_edits());
}

/// The translation of every packet ends.
pub proof fn law_translation_ends(t: Tables, flow: Flow, node: Node)
    ensures
        ended(translate(t, flow, node).next),
{
    reveal_with_fuel(Progress::run, 8);
}

/// A packet is edited once at most: it is not, or its source is rewritten to what its half says, or
/// its destination is.
pub proof fn law_translation_edits(t: Tables, flow: Flow, node: Node)
    ensures
        ({
            let edits = translate(t, flow, node).edits;
            ||| edits == Seq::<Edit>::empty()
            ||| exists|entry: NatVal| edits == #[trigger] (RewriteSource { flow, entry }).spec_edits()
            ||| exists|entry: NatVal|
                edits == #[trigger] (RewriteDestination { flow, entry }).spec_edits()
        }),
{
    reveal_with_fuel(Progress::run, 8);
    let none: Seq<Edit> = Seq::empty();
    assert forall|entry: NatVal| none + #[trigger] (RewriteSource { flow, entry }).spec_edits()
        == (RewriteSource { flow, entry }).spec_edits() by {
        assert(none + (RewriteSource { flow, entry }).spec_edits() =~= (RewriteSource {
            flow,
            entry,
        }).spec_edits());
    }
    assert forall|entry: NatVal| none + #[trigger] (RewriteDestination { flow, entry }).spec_edits()
        == (RewriteDestination { flow, entry }).spec_edits() by {
        assert(none + (RewriteDestination { flow, entry }).spec_edits() =~= (RewriteDestination {
            flow,
            entry,
        }).spec_edits());
    }
}

/// A packet that belongs to no tracked flow and goes to no service is not edited, and changes no
/// table.
pub proof fn law_other_traffic_is_untouched(t: Tables, flow: Flow, node: Node)
    requires
        !t.reverse.dom().contains(flow.spec_key()),
        !in_service_range(flow.hdr.dst_ip),
    ensures
        translate(t, flow, node) == (Progress {
            tables: t,
            edits: Seq::empty(),
            next: Next::FindEndpoint(
                FindEndpoint { src_ip: flow.hdr.src_ip, dst_ip: flow.hdr.dst_ip },
            ),
        }),
{
    let z = Effect::Bump(0);
    lemma_effects(t, z, z, z, z);
    reveal_with_fuel(Progress::run, 8);
}

/// Whether `flow` is the first packet of a flow to a service.
pub open spec fn opens(t: Tables, flow: Flow) -> bool {
    &&& in_service_range(flow.hdr.dst_ip)
    &&& !t.reverse.dom().contains(flow.spec_key())
    &&& !t.forward.dom().contains(flow.spec_key())
}

/// The service that a packet asks for.
pub open spec fn service_of(t: Tables, flow: Flow) -> Option<ServiceVal> {
    lookup(t.services, (FindService { flow }).spec_key())
}

/// The backend that the first packet of a flow gets: the one in the slot that the random number
/// picks. None where there is no such service, no backend, or nothing in the slot.
pub open spec fn backend_of(t: Tables, flow: Flow, random: u32) -> Option<BackendVal> {
    match service_of(t, flow) {
        Some(svc) => if svc.backend_count == 0 {
            None
        } else {
            lookup(
                t.backends,
                (FindBackend {
                    flow,
                    service_id: svc.service_id,
                    index: random % svc.backend_count,
                }).spec_key(),
            )
        },
        None => None,
    }
}

/// The first packet of a flow that has no backend is left to the kernel: not edited, and no table
/// changed.
pub proof fn law_no_backend_no_change(t: Tables, flow: Flow, node: Node)
    requires
        opens(t, flow),
        backend_of(t, flow, node.random) is None,
    ensures
        translate(t, flow, node) == (Progress {
            tables: t,
            edits: Seq::empty(),
            next: Next::Done(Verdict::Pass),
        }),
{
    let z = Effect::Bump(crate::common::COUNTER_SERVICE_PUNT);
    lemma_effects(t, z, z, z, z);
    reveal_with_fuel(Progress::run, 8);
}

/// Where a table has no room for a new flow, the packet is left to the kernel: it is not edited,
/// and no half of the flow stays behind.
pub proof fn law_full_table_no_change(t: Tables, flow: Flow, node: Node)
    requires
        opens(t, flow),
        !node.forward_room || !node.reverse_room,
    ensures
        translate(t, flow, node) == (Progress {
            tables: t,
            edits: Seq::empty(),
            next: Next::Done(Verdict::Pass),
        }),
{
    let z = Effect::Bump(crate::common::COUNTER_SERVICE_PUNT);
    let rm = Effect::Remove { half: Half::Forward, key: flow.spec_key() };
    lemma_effects(t, z, z, z, z);
    match backend_of(t, flow, node.random) {
        Some(bk) => {
            let q = InsertForward { flow, pod_ip: bk.pod_ip, pod_port: bk.pod_port };
            let t1 = Tables { forward: t.forward.insert(flow.spec_key(), q.spec_value()), ..t };
            lemma_effects(t1, rm, z, z, z);
            lemma_effects(t1, z, z, z, z);
            assert(t1.forward.remove(flow.spec_key()) =~= t.forward);
        },
        None => {},
    }
    reveal_with_fuel(Progress::run, 8);
}

/// The tables with a flow from `forward` to a backend in them.
pub open spec fn with_flow(
    t: Tables,
    forward: NatKey,
    pod_ip: u32,
    pod_port: u16,
    now: u64,
) -> Tables {
    Tables {
        forward: t.forward.insert(forward, forward_half(forward, pod_ip, pod_port, now)),
        reverse: t.reverse.insert(
            reverse_key(forward, pod_ip, pod_port),
            reverse_half(forward, now),
        ),
        ..t
    }
}

/// The first packet of a flow goes to the backend that was picked, and the flow is tracked in both
/// directions; an abort leaves nothing tracked.
pub proof fn law_first_packet_opens_a_flow(t: Tables, flow: Flow, node: Node)
    requires
        opens(t, flow),
        backend_of(t, flow, node.random) is Some,
        node.forward_room,
        node.reverse_room,
        node.editable,
    ensures
        ({
            let bk = backend_of(t, flow, node.random)->0;
            let entry = forward_half(flow.spec_key(), bk.pod_ip, bk.pod_port, flow.now);
            let q = RewriteDestination { flow, entry };
            let r = translate(t, flow, node);
            let t1 = with_flow(t, flow.spec_key(), bk.pod_ip, bk.pod_port, flow.now);
            &&& r.edits == q.spec_edits()
            &&& r.next == Next::FindEndpoint(
                FindEndpoint { src_ip: flow.hdr.src_ip, dst_ip: bk.pod_ip },
            )
            &&& r.tables == after_request(t1, q)
            &&& !flow.rst() && !flow.fin() ==> r.tables == t1
        }),
{
    let bk = backend_of(t, flow, node.random)->0;
    let entry = forward_half(flow.spec_key(), bk.pod_ip, bk.pod_port, flow.now);
    let q = RewriteDestination { flow, entry };
    let t1 = with_flow(t, flow.spec_key(), bk.pod_ip, bk.pod_port, flow.now);
    let th = Tables { forward: t1.forward, ..t };
    let z = Effect::Bump(0);
    lemma_effects(t, z, z, z, z);
    lemma_effects(th, z, z, z, z);
    lemma_effects(t1, z, z, z, z);
    lemma_after_request(t1, q);
    assert(0u8 & CT_FIN_FWD == 0) by (bit_vector);
    reveal_with_fuel(Progress::run, 8);
    assert(Seq::<Edit>::empty() + q.spec_edits() =~= q.spec_edits());
}

/// What a client sends to a service reaches a backend, and what that backend answers comes back as
/// the answer of the service: the reply's source becomes the address and port that the client
/// sent to.
pub proof fn law_round_trip(t: Tables, flow: Flow, node: Node, reply: Flow, node2: Node)
    requires
        opens(t, flow),
        backend_of(t, flow, node.random) is Some,
        node.forward_room,
        node.reverse_room,
        node.editable,
        node2.editable,
        !flow.rst(),
        reply.spec_key() == reverse_key(
            flow.spec_key(),
            backend_of(t, flow, node.random)->0.pod_ip,
            backend_of(t, flow, node.random)->0.pod_port,
        ),
    ensures
        ({
            let bk = backend_of(t, flow, node.random)->0;
            let r1 = translate(t, flow, node);
            let r2 = translate(r1.tables, reply, node2);
            &&& r1.edits == flow.rewrite(
                30,
                flow.hdr.dst_ip,
                bk.pod_ip,
                14 + flow.hdr.ihl + 2,
                flow.hdr.dst_port,
                bk.pod_port,
            )
            &&& r2.edits == reply.rewrite(
                26,
                bk.pod_ip,
                flow.hdr.dst_ip,
                14 + reply.hdr.ihl,
                bk.pod_port,
                flow.hdr.dst_port,
            )
            &&& r2.next == Next::FindEndpoint(
                FindEndpoint { src_ip: flow.hdr.dst_ip, dst_ip: flow.hdr.src_ip },
            )
        }),
{
    let bk = backend_of(t, flow, node.random)->0;
    law_first_packet_opens_a_flow(t, flow, node);
    let r1 = translate(t, flow, node);
    let t1 = with_flow(t, flow.spec_key(), bk.pod_ip, bk.pod_port, flow.now);
    assert(0u8 & CT_FIN_FWD == 0) by (bit_vector);
    assert(r1.tables.reverse.dom().contains(reply.spec_key()));
    assert(r1.tables.reverse[reply.spec_key()].ip == flow.hdr.dst_ip);
    law_reply_is_translated(r1.tables, reply, node2);
}

/// Once a flow is open, each packet of its tuple goes to the same backend, whatever the service and
/// backend tables have become and whatever number is drawn.
pub proof fn law_backend_is_sticky(
    t: Tables,
    flow: Flow,
    node: Node,
    services: Map<ServiceKey, ServiceVal>,
    backends: Map<BackendKey, BackendVal>,
    later: Flow,
    node2: Node,
)
    requires
        opens(t, flow),
        backend_of(t, flow, node.random) is Some,
        node.forward_room,
        node.reverse_room,
        node.editable,
        node2.editable,
        !flow.rst(),
        reverse_key(
            flow.spec_key(),
            backend_of(t, flow, node.random)->0.pod_ip,
            backend_of(t, flow, node.random)->0.pod_port,
        ) != flow.spec_key(),
        later.spec_key() == flow.spec_key(),
    ensures
        ({
            let bk = backend_of(t, flow, node.random)->0;
            let t1 = translate(t, flow, node).tables;
            let r = translate(Tables { services, backends, ..t1 }, later, node2);
            &&& r.edits == later.rewrite(
                30,
                flow.hdr.dst_ip,
                bk.pod_ip,
                14 + later.hdr.ihl + 2,
                flow.hdr.dst_port,
                bk.pod_port,
            )
            &&& r.next == Next::FindEndpoint(
                FindEndpoint { src_ip: flow.hdr.src_ip, dst_ip: bk.pod_ip },
            )
        }),
{
    let bk = backend_of(t, flow, node.random)->0;
    law_first_packet_opens_a_flow(t, flow, node);
    let t1 = translate(t, flow, node).tables;
    let t2 = Tables { services, backends, ..t1 };
    assert(0u8 & CT_FIN_FWD == 0) by (bit_vector);
    assert(t2.forward[flow.spec_key()].ip == bk.pod_ip);
    assert(!t2.reverse.dom().contains(flow.spec_key()));
    law_flow_keeps_its_backend(t2, later, node2);
}

/// Whether the halves in the tables know each other's keys: the partner of a forward half is the
/// tuple of its backend's replies, the partner of a reverse half is the tuple of its client's
/// packets. A forward half is that of a packet to a service, and a reverse half names a service.
pub open spec fn linked(t: Tables) -> bool {
    &&& forall|k: NatKey| #[trigger]
        t.forward.dom().contains(k) ==> {
            let v = t.forward[k];
            &&& v.partner == reverse_key(k, v.ip, v.port)
            &&& in_service_range(k.dst_ip)
        }
    &&& forall|k: NatKey| #[trigger]
        t.reverse.dom().contains(k) ==> {
            let v = t.reverse[k];
            &&& v.partner == tuple_key(k.dst_ip, v.ip, k.dst_port, v.port, k.proto)
            &&& in_service_range(v.ip)
        }
}

/// Whether every tracked client has an address outside the service range.
pub open spec fn clients_outside(t: Tables) -> bool {
    &&& forall|k: NatKey| #[trigger]
        t.forward.dom().contains(k) ==> !in_service_range(k.src_ip)
    &&& forall|k: NatKey| #[trigger]
        t.reverse.dom().contains(k) ==> !in_service_range(k.dst_ip)
}

proof fn lemma_apply_keeps(t: Tables, e: Effect)
    requires
        linked(t),
    ensures
        linked(t.apply(e)),
        clients_outside(t) ==> clients_outside(t.apply(e)),
{
    let t1 = t.apply(e);
    assert forall|k: NatKey| #[trigger] t1.forward.dom().contains(k) implies {
        &&& t.forward.dom().contains(k)
        &&& t1.forward[k].partner == t.forward[k].partner
        &&& t1.forward[k].ip == t.forward[k].ip
        &&& t1.forward[k].port == t.forward[k].port
    } by {}
    assert forall|k: NatKey| #[trigger] t1.reverse.dom().contains(k) implies {
        &&& t.reverse.dom().contains(k)
        &&& t1.reverse[k].partner == t.reverse[k].partner
        &&& t1.reverse[k].ip == t.reverse[k].ip
        &&& t1.reverse[k].port == t.reverse[k].port
    } by {}
}

proof fn lemma_apply_all_keeps(t: Tables, effects: Seq<Effect>)
    requires
        linked(t),
    ensures
        linked(t.apply_all(effects)),
        clients_outside(t) ==> clients_outside(t.apply_all(effects)),
    decreases effects.len(),
{
    if effects.len() > 0 {
        lemma_apply_all_keeps(t, effects.drop_last());
        lemma_apply_keeps(t.apply_all(effects.drop_last()), effects.last());
    }
}

/// Whether the next question is one that only a packet to a service leads to, and it is one.
spec fn on_course(next: Next, src_ip: u32) -> bool {
    match next {
        Next::FindReverse(q) => q.flow.hdr.src_ip == src_ip,
        Next::FindForward(q) => in_service_range(q.flow.hdr.dst_ip) && q.flow.hdr.src_ip == src_ip,
        Next::FindService(q) => in_service_range(q.flow.hdr.dst_ip) && q.flow.hdr.src_ip == src_ip,
        Next::FindBackend(q) => in_service_range(q.flow.hdr.dst_ip) && q.flow.hdr.src_ip == src_ip,
        Next::InsertForward(q) => in_service_range(q.flow.hdr.dst_ip) && q.flow.hdr.src_ip
            == src_ip,
        Next::InsertReverse(q) => in_service_range(q.flow.hdr.dst_ip) && q.flow.hdr.src_ip
            == src_ip,
        _ => true,
    }
}

proof fn lemma_answer_keeps(p: Progress, node: Node, src_ip: u32)
    requires
        linked(p.tables),
        on_course(p.next, src_ip),
    ensures
        linked(p.answer(node).tables),
        on_course(p.answer(node).next, src_ip),
        clients_outside(p.tables) && !in_service_range(src_ip) ==> clients_outside(
            p.answer(node).tables,
        ),
{
    let t = p.tables;
    match p.next {
        Next::FindReverse(q) => {
            lemma_apply_all_keeps(t, q.after(lookup(t.reverse, q.flow.spec_key())).0);
        },
        Next::FindForward(q) => {
            lemma_apply_all_keeps(t, q.after(lookup(t.forward, q.flow.spec_key())).0);
        },
        Next::FindService(q) => {
            lemma_apply_all_keeps(t, q.after(lookup(t.services, q.spec_key()), node.random).0);
        },
        Next::FindBackend(q) => {
            lemma_apply_all_keeps(t, q.after(lookup(t.backends, q.spec_key())).0);
        },
        Next::InsertForward(q) => {
            let forward = if node.forward_room {
                t.forward.insert(q.flow.spec_key(), q.spec_value())
            } else {
                t.forward
            };
            let t1 = Tables { forward, ..t };
            assert(linked(t1));
            lemma_apply_all_keeps(t1, q.after(node.forward_room).0);
        },
        Next::InsertReverse(q) => {
            let reverse = if node.reverse_room {
                t.reverse.insert(q.spec_key(), q.spec_value())
            } else {
                t.reverse
            };
            let t1 = Tables { reverse, ..t };
            assert(linked(t1));
            lemma_apply_all_keeps(t1, q.after(node.reverse_room).0);
        },
        Next::RewriteSource(q) => {
            lemma_apply_all_keeps(t, q.after(node.editable).0);
        },
        Next::RewriteDestination(q) => {
            lemma_apply_all_keeps(t, q.after(node.editable).0);
        },
        _ => {},
    }
}

proof fn lemma_run_keeps(p: Progress, node: Node, src_ip: u32, fuel: nat)
    requires
        linked(p.tables),
        on_course(p.next, src_ip),
    ensures
        linked(p.run(node, fuel).tables),
        clients_outside(p.tables) && !in_service_range(src_ip) ==> clients_outside(
            p.run(node, fuel).tables,
        ),
    decreases fuel,
{
    if fuel > 0 {
        lemma_answer_keeps(p, node, src_ip);
        lemma_run_keeps(p.answer(node), node, src_ip, (fuel - 1) as nat);
    }
}

/// Every packet leaves the halves in the tables linked, whatever the node does with it.
pub proof fn law_links_are_kept(t: Tables, flow: Flow, node: Node)
    requires
        linked(t),
    ensures
        linked(translate(t, flow, node).tables),
{
    lemma_run_keeps(
        Progress {
            tables: t,
            edits: Seq::empty(),
            next: Next::FindReverse(FindReverse { flow }),
        },
        node,
        flow.hdr.src_ip,
        7,
    );
}

/// Packets from addresses outside the service range leave every tracked client outside it.
pub proof fn law_clients_stay_outside(t: Tables, flow: Flow, node: Node)
    requires
        linked(t),
        clients_outside(t),
        !in_service_range(flow.hdr.src_ip),
    ensures
        clients_outside(translate(t, flow, node).tables),
{
    lemma_run_keeps(
        Progress {
            tables: t,
            edits: Seq::empty(),
            next: Next::FindReverse(FindReverse { flow }),
        },
        node,
        flow.hdr.src_ip,
        7,
    );
}

/// The tuples of forward and reverse halves are distinct: one map could hold both.
pub proof fn law_halves_never_collide(t: Tables)
    requires
        linked(t),
        clients_outside(t),
    ensures
        t.forward.dom().disjoint(t.reverse.dom()),
{
    assert forall|k: NatKey| #[trigger] t.forward.dom().contains(k) implies !t.reverse.dom().contains(
        k,
    ) by {}
}

/// Whether a flow is tracked in both directions under `k`, and its client's packets are not taken
/// for replies.
pub open spec fn known(t: Tables, k: NatKey) -> bool {
    &&& in_service_range(k.dst_ip)
    &&& t.forward.dom().contains(k)
    &&& !t.reverse.dom().contains(k)
    &&& t.reverse.dom().contains(t.forward[k].partner)
    &&& t.reverse[t.forward[k].partner].partner == k
}

/// Whether nothing of a flow is tracked any more.
pub open spec fn forgotten(t: Tables, k: NatKey, partner: NatKey) -> bool {
    !t.forward.dom().contains(k) && !t.reverse.dom().contains(partner)
}

/// An abort from either side forgets the flow at once.
pub proof fn law_abort_forgets_the_flow(t: Tables, k: NatKey, flow: Flow, node: Node)
    requires
        known(t, k),
        flow.rst(),
        flow.spec_key() == k || flow.spec_key() == t.forward[k].partner,
        node.editable,
    ensures
        forgotten(translate(t, flow, node).tables, k, t.forward[k].partner),
{
    if flow.spec_key() == k {
        law_flow_keeps_its_backend(t, flow, node);
    } else {
        law_reply_is_translated(t, flow, node);
    }
}

proof fn lemma_bits(s: u8)
    ensures
        (s | CT_FIN_FWD) & CT_FIN_FWD != 0,
        (s | CT_FIN_REV) & CT_FIN_REV != 0,
        (s | (CT_FIN_FWD | CT_FIN_REV)) & CT_FIN_FWD != 0,
        (s | (CT_FIN_FWD | CT_FIN_REV)) & CT_FIN_REV != 0,
        (s | CT_EST) & CT_EST != 0,
{
    assert((s | 2u8) & 2u8 != 0) by (bit_vector);
    assert((s | 4u8) & 4u8 != 0) by (bit_vector);
    assert((s | (2u8 | 4u8)) & 2u8 != 0) by (bit_vector);
    assert((s | (2u8 | 4u8)) & 4u8 != 0) by (bit_vector);
    assert((s | 1u8) & 1u8 != 0) by (bit_vector);
}

/// A FIN from the client leaves the flow tracked, and the reverse half knows of it.
proof fn lemma_client_fin(t: Tables, k: NatKey, flow: Flow, node: Node)
    requires
        known(t, k),
        flow.spec_key() == k,
        flow.fin(),
        !flow.rst(),
        node.editable,
    ensures
        ({
            let rk = t.forward[k].partner;
            let t1 = translate(t, flow, node).tables;
            &&& known(t1, k)
            &&& t1.forward[k].partner == rk
            &&& t1.reverse[rk].state & CT_FIN_FWD != 0
            &&& t.forward[k].state & CT_FIN_REV != 0 ==> both_closed(t1.reverse[rk].state)
        }),
{
    let rk = t.forward[k].partner;
    law_flow_keeps_its_backend(t, flow, node);
    lemma_bits(t.reverse[rk].state);
}

/// A FIN from the backend leaves the flow tracked, and the forward half knows of it.
proof fn lemma_backend_fin(t: Tables, k: NatKey, flow: Flow, node: Node)
    requires
        known(t, k),
        flow.spec_key() == t.forward[k].partner,
        flow.fin(),
        !flow.rst(),
        node.editable,
    ensures
        ({
            let rk = t.forward[k].partner;
            let t1 = translate(t, flow, node).tables;
            &&& known(t1, k)
            &&& t1.forward[k].partner == rk
            &&& t1.forward[k].state & CT_FIN_REV != 0
            &&& t.reverse[rk].state & CT_FIN_FWD != 0 ==> both_closed(t1.forward[k].state)
        }),
{
    law_reply_is_translated(t, flow, node);
    lemma_bits(t.forward[k].state);
}

/// A connection that the client closes first is forgotten with the client's final ACK: after the
/// client's FIN and the backend's FIN, the next packet of the client removes both halves.
pub proof fn law_client_closes_first(
    t: Tables,
    k: NatKey,
    fin: Flow,
    answer: Flow,
    ack: Flow,
    node: Node,
)
    requires
        known(t, k),
        node.editable,
        fin.spec_key() == k,
        fin.fin(),
        !fin.rst(),
        answer.spec_key() == t.forward[k].partner,
        answer.fin(),
        !answer.rst(),
        ack.spec_key() == k,
        !ack.fin(),
        !ack.rst(),
    ensures
        ({
            let t1 = translate(t, fin, node).tables;
            let t2 = translate(t1, answer, node).tables;
            let t3 = translate(t2, ack, node).tables;
            forgotten(t3, k, t.forward[k].partner)
        }),
{
    let t1 = translate(t, fin, node).tables;
    let t2 = translate(t1, answer, node).tables;
    lemma_client_fin(t, k, fin, node);
    lemma_backend_fin(t1, k, answer, node);
    law_flow_keeps_its_backend(t2, ack, node);
    assert(ack.hdr.proto == k.proto && fin.hdr.proto == k.proto);
}

/// A connection that the backend closes first is forgotten with the backend's final ACK: after the
/// backend's FIN and the client's FIN, the next packet of the backend removes both halves.
pub proof fn law_backend_closes_first(
    t: Tables,
    k: NatKey,
    fin: Flow,
    answer: Flow,
    ack: Flow,
    node: Node,
)
    requires
        known(t, k),
        node.editable,
        fin.spec_key() == t.forward[k].partner,
        fin.fin(),
        !fin.rst(),
        answer.spec_key() == k,
        answer.fin(),
        !answer.rst(),
        ack.spec_key() == t.forward[k].partner,
        !ack.fin(),
        !ack.rst(),
    ensures
        ({
            let t1 = translate(t, fin, node).tables;
            let t2 = translate(t1, answer, node).tables;
            let t3 = translate(t2, ack, node).tables;
            forgotten(t3, k, t.forward[k].partner)
        }),
{
    let t1 = translate(t, fin, node).tables;
    let t2 = translate(t1, answer, node).tables;
    lemma_backend_fin(t, k, fin, node);
    lemma_client_fin(t1, k, answer, node);
    law_reply_is_translated(t2, ack, node);
    assert(ack.hdr.proto == fin.hdr.proto) by {
        assert(ack.spec_key().proto == fin.spec_key().proto);
    }
}

/// The first reply of a TCP flow that is not closing marks both of its halves established.
pub proof fn law_first_reply_establishes(t: Tables, k: NatKey, reply: Flow, node: Node)
    requires
        known(t, k),
        node.editable,
        reply.spec_key() == t.forward[k].partner,
        reply.hdr.proto == IPPROTO_TCP,
        !reply.rst(),
        !reply.fin(),
        t.reverse[t.forward[k].partner].state & CT_EST == 0,
        !both_closed(t.reverse[t.forward[k].partner].state),
    ensures
        ({
            let t1 = translate(t, reply, node).tables;
            &&& known(t1, k)
            &&& t1.forward[k].state & CT_EST != 0
            &&& t1.reverse[t.forward[k].partner].state & CT_EST != 0
        }),
{
    let rk = t.forward[k].partner;
    law_reply_is_translated(t, reply, node);
    lemma_bits(t.forward[k].state);
    lemma_bits(t.reverse[rk].state);
}

/// A UDP packet never ends the tracking of its flow: UDP carries no flags, so it is neither a FIN
/// nor an abort.
pub proof fn law_udp_is_never_closed(frame: Seq<u8>, now: u64, t: Tables, k: NatKey, node: Node)
    requires
        known(t, k),
        node.editable,
        parsed(frame) is Transport,
        parsed(frame)->Transport_0.proto == IPPROTO_UDP,
        ({
            let flow = Flow { hdr: parsed(frame)->Transport_0, now };
            flow.spec_key() == k || flow.spec_key() == t.forward[k].partner
        }),
    ensures
        known(
            translate(t, Flow { hdr: parsed(frame)->Transport_0, now }, node).tables,
            k,
        ),
{
    let flow = Flow { hdr: parsed(frame)->Transport_0, now };
    assert(0u8 & TCP_RST == 0) by (bit_vector);
    assert(!flow.rst());
    if flow.spec_key() == k {
        law_flow_keeps_its_backend(t, flow, node);
    } else {
        law_reply_is_translated(t, flow, node);
    }
}

/// Whether a packet ends the tracking of a flow whose half it meets is in `state`: it is an abort, or
/// the packet behind both FINs.
pub open spec fn ends_flow(flow: Flow, state: u8) -> bool {
    flow.rst() || (flow.hdr.proto == IPPROTO_TCP && !flow.fin() && both_closed(state))
}

/// A flow stays tracked, with its backend and its service, under every packet of it that does not
/// end it; marks are added to its halves, never taken away.
pub proof fn law_live_flow_stays(t: Tables, k: NatKey, flow: Flow, node: Node)
    requires
        known(t, k),
        node.editable,
        flow.spec_key() == k ==> !ends_flow(flow, t.forward[k].state),
        flow.spec_key() == t.forward[k].partner ==> !ends_flow(
            flow,
            t.reverse[t.forward[k].partner].state,
        ),
        flow.spec_key() == k || flow.spec_key() == t.forward[k].partner,
    ensures
        ({
            let t1 = translate(t, flow, node).tables;
            let rk = t.forward[k].partner;
            &&& known(t1, k)
            &&& t1.forward[k].partner == rk
            &&& t1.forward[k].ip == t.forward[k].ip && t1.forward[k].port == t.forward[k].port
            &&& t1.reverse[rk].ip == t.reverse[rk].ip && t1.reverse[rk].port == t.reverse[rk].port
            &&& t1.forward[k].state & t.forward[k].state == t.forward[k].state
            &&& t1.reverse[rk].state & t.reverse[rk].state == t.reverse[rk].state
        }),
{
    let rk = t.forward[k].partner;
    let (f, r) = (t.forward[k].state, t.reverse[rk].state);
    assert(forall|b: u8| #[trigger] (f | b) & f == f) by (bit_vector);
    assert(forall|b: u8| #[trigger] (r | b) & r == r) by (bit_vector);
    assert(f & f == f) by (bit_vector);
    assert(r & r == r) by (bit_vector);
    if flow.spec_key() == k {
        law_flow_keeps_its_backend(t, flow, node);
    } else {
        law_reply_is_translated(t, flow, node);
    }
}

/// Whether a packet meets a half of the flow under `k`: it is one of its packets, its own half names
/// one of the flow's as its partner, or it opens a flow whose replies have the tuple of the flow's.
pub open spec fn meets(t: Tables, k: NatKey, flow: Flow, random: u32) -> bool {
    let rk = t.forward[k].partner;
    let own = flow.spec_key();
    ||| own == k
    ||| own == rk
    ||| t.reverse.dom().contains(own) && t.reverse[own].partner == k
    ||| t.forward.dom().contains(own) && t.forward[own].partner == rk
    ||| opens(t, flow) && (backend_of(t, flow, random) matches Some(bk) && reverse_key(
        own,
        bk.pod_ip,
        bk.pod_port,
    ) == rk)
}

/// Whether both halves of the flow under `k` are as they were.
spec fn same_flow(t: Tables, t1: Tables, k: NatKey) -> bool {
    let rk = t.forward[k].partner;
    &&& t1.forward.dom().contains(k) && t1.forward[k] == t.forward[k]
    &&& t1.reverse.dom().contains(rk) && t1.reverse[rk] == t.reverse[rk]
}

/// A packet that does not meet a flow leaves both of its halves as they are, whatever the node does
/// with it.
pub proof fn law_flows_do_not_disturb_each_other(t: Tables, k: NatKey, flow: Flow, node: Node)
    requires
        known(t, k),
        !meets(t, k, flow, node.random),
    ensures
        ({
            let t1 = translate(t, flow, node).tables;
            let rk = t.forward[k].partner;
            &&& t1.forward.dom().contains(k) && t1.forward[k] == t.forward[k]
            &&& t1.reverse.dom().contains(rk) && t1.reverse[rk] == t.reverse[rk]
        }),
{
    let start = Progress {
        tables: t,
        edits: Seq::empty(),
        next: Next::FindReverse(FindReverse { flow }),
    };
    lemma_run_spares(t, k, flow, node, start, 7);
}

/// Whether an effect touches neither half of the flow under `k`.
spec fn spares(t: Tables, k: NatKey, e: Effect) -> bool {
    let rk = t.forward[k].partner;
    match e {
        Effect::Bump(_) => true,
        Effect::Refresh { half: Half::Forward, key, .. } => key != k,
        Effect::Refresh { half: Half::Reverse, key, .. } => key != rk,
        Effect::Mark { half: Half::Forward, key, .. } => key != k,
        Effect::Mark { half: Half::Reverse, key, .. } => key != rk,
        Effect::Remove { half: Half::Forward, key } => key != k,
        Effect::Remove { half: Half::Reverse, key } => key != rk,
    }
}

proof fn lemma_spared(t: Tables, k: NatKey, cur: Tables, effects: Seq<Effect>)
    requires
        same_flow(t, cur, k),
        forall|i: int| 0 <= i < effects.len() ==> spares(t, k, #[trigger] effects[i]),
    ensures
        same_flow(t, cur.apply_all(effects), k),
        cur.apply_all(effects).services == cur.services,
        cur.apply_all(effects).backends == cur.backends,
    decreases effects.len(),
{
    if effects.len() > 0 {
        let front = effects.drop_last();
        assert forall|i: int| 0 <= i < front.len() implies spares(t, k, #[trigger] front[i]) by {
            assert(front[i] == effects[i]);
        }
        lemma_spared(t, k, cur, front);
        assert(spares(t, k, effects[effects.len() - 1]));
    }
}

/// Whether the question is one that a packet that does not meet the flow under `k` leads to, and the
/// tables are as far as such a packet changes them before it.
spec fn apart(t: Tables, k: NatKey, flow: Flow, random: u32, p: Progress) -> bool {
    let rk = t.forward[k].partner;
    let own = flow.spec_key();
    &&& same_flow(t, p.tables, k)
    &&& p.tables.services == t.services
    &&& p.tables.backends == t.backends
    &&& match p.next {
        Next::FindReverse(q) => q.flow == flow && p.tables == t,
        Next::FindForward(q) => q.flow == flow && p.tables == t && in_service_range(
            flow.hdr.dst_ip,
        ) && !t.reverse.dom().contains(own),
        Next::FindService(q) => q.flow == flow && opens(t, flow),
        Next::FindBackend(q) => q.flow == flow && opens(t, flow) && (service_of(
            t,
            flow,
        ) matches Some(svc) && svc.backend_count != 0 && q.service_id == svc.service_id && q.index
            == random % svc.backend_count),
        Next::InsertForward(q) => q.flow == flow && reverse_key(own, q.pod_ip, q.pod_port) != rk,
        Next::InsertReverse(q) => q.flow == flow && reverse_key(own, q.pod_ip, q.pod_port) != rk,
        Next::RewriteSource(q) => q.flow == flow && q.entry.partner != k,
        Next::RewriteDestination(q) => q.flow == flow && q.entry.partner != rk,
        _ => true,
    }
}

proof fn lemma_answer_spares(
    t: Tables,
    k: NatKey,
    flow: Flow,
    node: Node,
    p: Progress,
)
    requires
        known(t, k),
        !meets(t, k, flow, node.random),
        apart(t, k, flow, node.random, p),
    ensures
        apart(t, k, flow, node.random, p.answer(node)),
{
    let c = p.tables;
    let z = Effect::Bump(0);
    lemma_effects(c, z, z, z, z);
    match p.next {
        Next::FindReverse(q) => {
            lemma_spared(t, k, c, q.after(lookup(c.reverse, q.flow.spec_key())).0);
        },
        Next::FindForward(q) => {
            lemma_spared(t, k, c, q.after(lookup(c.forward, q.flow.spec_key())).0);
        },
        Next::FindService(q) => {
            lemma_spared(t, k, c, q.after(lookup(c.services, q.spec_key()), node.random).0);
        },
        Next::FindBackend(q) => {
            lemma_spared(t, k, c, q.after(lookup(c.backends, q.spec_key())).0);
        },
        Next::InsertForward(q) => {
            let forward = if node.forward_room {
                c.forward.insert(q.flow.spec_key(), q.spec_value())
            } else {
                c.forward
            };
            lemma_spared(t, k, Tables { forward, ..c }, q.after(node.forward_room).0);
        },
        Next::InsertReverse(q) => {
            let reverse = if node.reverse_room {
                c.reverse.insert(q.spec_key(), q.spec_value())
            } else {
                c.reverse
            };
            lemma_spared(t, k, Tables { reverse, ..c }, q.after(node.reverse_room).0);
        },
        Next::RewriteSource(q) => {
            lemma_spared(t, k, c, q.after(node.editable).0);
        },
        Next::RewriteDestination(q) => {
            lemma_spared(t, k, c, q.after(node.editable).0);
        },
        _ => {},
    }
}

proof fn lemma_run_spares(
    t: Tables,
    k: NatKey,
    flow: Flow,
    node: Node,
    p: Progress,
    fuel: nat,
)
    requires
        known(t, k),
        !meets(t, k, flow, node.random),
        apart(t, k, flow, node.random, p),
    ensures
        same_flow(t, p.run(node, fuel).tables, k),
    decreases fuel,
{
    if fuel > 0 {
        lemma_answer_spares(t, k, flow, node, p);
        lemma_run_spares(t, k, flow, node, p.answer(node), (fuel - 1) as nat);
    }
}

/// Whether no half of a UDP flow is marked.
pub open spec fn udp_unmarked(t: Tables) -> bool {
    &&& forall|k: NatKey| #[trigger]
        t.forward.dom().contains(k) && k.proto == IPPROTO_UDP ==> t.forward[k].state == 0
    &&& forall|k: NatKey| #[trigger]
        t.reverse.dom().contains(k) && k.proto == IPPROTO_UDP ==> t.reverse[k].state == 0
}

/// Whether an effect marks no half of a UDP flow.
spec fn marks_no_udp(e: Effect) -> bool {
    e matches Effect::Mark { key, .. } ==> key.proto != IPPROTO_UDP
}

proof fn lemma_effects_mark_no_udp(t: Tables, effects: Seq<Effect>)
    requires
        udp_unmarked(t),
        forall|i: int| 0 <= i < effects.len() ==> marks_no_udp(#[trigger] effects[i]),
    ensures
        udp_unmarked(t.apply_all(effects)),
    decreases effects.len(),
{
    if effects.len() > 0 {
        let front = effects.drop_last();
        assert forall|i: int| 0 <= i < front.len() implies marks_no_udp(#[trigger] front[i]) by {
            assert(front[i] == effects[i]);
        }
        lemma_effects_mark_no_udp(t, front);
        assert(marks_no_udp(effects[effects.len() - 1]));
        let m = t.apply_all(front);
        let r = m.apply(effects.last());
        assert forall|k: NatKey| #[trigger] r.forward.dom().contains(k) && k.proto
            == IPPROTO_UDP implies r.forward[k].state == 0 by {
            assert(m.forward.dom().contains(k));
        }
        assert forall|k: NatKey| #[trigger] r.reverse.dom().contains(k) && k.proto
            == IPPROTO_UDP implies r.reverse[k].state == 0 by {
            assert(m.reverse.dom().contains(k));
        }
    }
}

/// Whether the partner of the half that a packet meets has the packet's protocol.
spec fn partner_agrees(next: Next) -> bool {
    match next {
        Next::RewriteSource(q) => q.entry.partner.proto == q.flow.hdr.proto,
        Next::RewriteDestination(q) => q.entry.partner.proto == q.flow.hdr.proto,
        _ => true,
    }
}

proof fn lemma_answer_marks_no_udp(p: Progress, node: Node, src_ip: u32)
    requires
        linked(p.tables),
        on_course(p.next, src_ip),
        udp_unmarked(p.tables),
        partner_agrees(p.next),
    ensures
        udp_unmarked(p.answer(node).tables),
        partner_agrees(p.answer(node).next),
{
    let t = p.tables;
    match p.next {
        Next::FindReverse(q) => {
            lemma_effects_mark_no_udp(t, q.after(lookup(t.reverse, q.flow.spec_key())).0);
        },
        Next::FindForward(q) => {
            lemma_effects_mark_no_udp(t, q.after(lookup(t.forward, q.flow.spec_key())).0);
        },
        Next::FindService(q) => {
            lemma_effects_mark_no_udp(t, q.after(lookup(t.services, q.spec_key()), node.random).0);
        },
        Next::FindBackend(q) => {
            lemma_effects_mark_no_udp(t, q.after(lookup(t.backends, q.spec_key())).0);
        },
        Next::InsertForward(q) => {
            let forward = if node.forward_room {
                t.forward.insert(q.flow.spec_key(), q.spec_value())
            } else {
                t.forward
            };
            lemma_effects_mark_no_udp(Tables { forward, ..t }, q.after(node.forward_room).0);
        },
        Next::InsertReverse(q) => {
            let reverse = if node.reverse_room {
                t.reverse.insert(q.spec_key(), q.spec_value())
            } else {
                t.reverse
            };
            lemma_effects_mark_no_udp(Tables { reverse, ..t }, q.after(node.reverse_room).0);
        },
        Next::RewriteSource(q) => {
            lemma_effects_mark_no_udp(t, q.after(node.editable).0);
        },
        Next::RewriteDestination(q) => {
            lemma_effects_mark_no_udp(t, q.after(node.editable).0);
        },
        _ => {},
    }
}

proof fn lemma_run_marks_no_udp(p: Progress, node: Node, src_ip: u32, fuel: nat)
    requires
        linked(p.tables),
        on_course(p.next, src_ip),
        udp_unmarked(p.tables),
        partner_agrees(p.next),
    ensures
        udp_unmarked(p.run(node, fuel).tables),
    decreases fuel,
{
    if fuel > 0 {
        lemma_answer_keeps(p, node, src_ip);
        lemma_answer_marks_no_udp(p, node, src_ip);
        lemma_run_marks_no_udp(p.answer(node), node, src_ip, (fuel - 1) as nat);
    }
}

/// The halves of UDP flows are never marked: neither established nor closing.
pub proof fn law_udp_stays_unmarked(t: Tables, flow: Flow, node: Node)
    requires
        linked(t),
        udp_unmarked(t),
    ensures
        udp_unmarked(translate(t, flow, node).tables),
{
    lemma_run_marks_no_udp(
        Progress {
            tables: t,
            edits: Seq::empty(),
            next: Next::FindReverse(FindReverse { flow }),
        },
        node,
        flow.hdr.src_ip,
        7,
    );
}

}
