//! What becomes of whole frames, stated of their bytes.
use vstd::prelude::*;

use crate::agent::conntrack::{sweep_removals, CtEntry, CtTimeouts};
use crate::agent::conntrack_laws::{
    entry_of, law_idle_between_the_times, law_sweep_forgets_idle_flows,
    law_sweep_takes_flows_whole, snapshot, table,
};
use crate::agent::services::{serving, BackendEntry, PortInfo};
use crate::agent::service_laws::{holds_port, law_clients_reach_a_serving_backend, ServiceMaps};
use crate::common::{
    in_service_range, key_of, law_key_holds_the_octets, port_key_of, BackendVal, Endpoint, NatKey,
    NatVal, ServiceVal, COUNTER_SERVICE_PUNT, CT_EST, CT_FIN_FWD, CT_FIN_REV,
};
use crate::datapath::forward::{
    both_closed, first_step, forward_half, reverse_key, Edit, Effect, FibRoute, FindBackend,
    FindEndpoint, FindReverse, FindRoute, FindService, Flow, Half, InsertForward, InsertReverse,
    Next, RewriteDestination, RewriteSource, StoreEndpoint, StoreRoute, Verdict,
};
use crate::datapath::frame_laws::{
    edited_all, law_destination_is_rewritten, law_other_frames_take_the_route,
    law_pods_get_their_frames, law_source_is_rewritten,
};
use crate::datapath::laws::{
    backend_of, forgotten, known, law_first_packet_opens_a_flow, law_flow_keeps_its_backend,
    law_links_are_kept, law_other_traffic_is_untouched, law_reply_is_translated,
    linked, lookup, opens, translate, Node, Tables,
};
use crate::datapath::packet::{load32, parsed, Parsed, TCP_FIN, TCP_RST};
use crate::net::Ipv4Addr;

verus! {

/// Whether a frame holds an IPv4 header.
pub open spec fn holds_ipv4(frame: Seq<u8>) -> bool {
    frame.len() >= 34 && frame[12] == 8 && frame[13] == 0 && frame[14] % 16 >= 5
}

/// Where the transport header begins.
pub open spec fn l4(frame: Seq<u8>) -> int {
    14 + 4 * (frame[14] % 16)
}

/// Whether a frame holds a TCP header up to its flags.
pub open spec fn holds_tcp(frame: Seq<u8>) -> bool {
    holds_ipv4(frame) && frame[23] == 6 && frame.len() >= l4(frame) + 14
}

/// Whether a frame holds a UDP header up to its ports.
pub open spec fn holds_udp(frame: Seq<u8>) -> bool {
    holds_ipv4(frame) && frame[23] == 17 && frame.len() >= l4(frame) + 4
}

/// The number of an address at `off` in the tables: its first octet is the least significant.
pub open spec fn address(frame: Seq<u8>, off: int) -> int {
    frame[off] + 0x100 * frame[off + 1] + 0x1_0000 * frame[off + 2] + 0x100_0000 * frame[off + 3]
}

/// The number of a port at `off` in the tables: its first byte is the less significant.
pub open spec fn port(frame: Seq<u8>, off: int) -> int {
    frame[off] + 0x100 * frame[off + 1]
}

/// Whether a key is the tuple of a frame: its addresses, its ports and its protocol.
pub open spec fn is_tuple(k: NatKey, frame: Seq<u8>) -> bool {
    &&& k.src_ip == address(frame, 26)
    &&& k.dst_ip == address(frame, 30)
    &&& k.src_port == port(frame, l4(frame))
    &&& k.dst_port == port(frame, l4(frame) + 2)
    &&& k.proto == frame[23]
    &&& k._pad == [0u8, 0u8, 0u8]
}

/// Whether the FIN bit of a TCP frame is set.
pub open spec fn fin_bit(frame: Seq<u8>) -> bool {
    frame[l4(frame) + 13] % 2 == 1
}

/// Whether the RST bit of a TCP frame is set.
pub open spec fn rst_bit(frame: Seq<u8>) -> bool {
    (frame[l4(frame) + 13] / 4) % 2 == 1
}

/// The packet that a frame holds, and when it came.
pub open spec fn packet(frame: Seq<u8>, now: u64) -> Flow {
    Flow { hdr: parsed(frame)->Transport_0, now }
}

proof fn lemma_bits(x: u8)
    ensures
        x & TCP_RST != 0 <==> (x / 4) % 2 == 1,
        x & TCP_FIN != 0 <==> x % 2 == 1,
        x & CT_EST != 0 <==> x % 2 == 1,
        x & CT_FIN_FWD != 0 <==> (x / 2) % 2 == 1,
        x & CT_FIN_REV != 0 <==> (x / 4) % 2 == 1,
{
    assert((x & 1u8 != 0 <==> x % 2 == 1) && (x & 2u8 != 0 <==> (x / 2) % 2 == 1) && (x & 4u8 != 0
        <==> (x / 4) % 2 == 1)) by (bit_vector);
}

/// A frame is told by its bytes: one with a TCP or UDP header is a packet with the tuple that the
/// bytes give; another IPv4 frame has its two addresses; all else, and what is cut short, is left to
/// the kernel as it is.
pub proof fn law_frames_are_read(frame: Seq<u8>, now: u64)
    ensures
        holds_tcp(frame) || holds_udp(frame) <==> parsed(frame) is Transport,
        holds_tcp(frame) || holds_udp(frame) ==> is_tuple(packet(frame, now).spec_key(), frame)
            && packet(frame, now).hdr.ihl == 4 * (frame[14] % 16) && packet(frame, now).now == now,
        holds_tcp(frame) || holds_udp(frame) ==> first_step(parsed(frame), now) == (
            Seq::<Effect>::empty(),
            Next::FindReverse(FindReverse { flow: packet(frame, now) }),
        ),
        holds_ipv4(frame) && frame[23] != 6 && frame[23] != 17 ==> (parsed(frame) matches
            Parsed::Plain { src_ip, dst_ip } && src_ip == address(frame, 26) && dst_ip == address(
            frame,
            30,
        )),
        !holds_ipv4(frame) || (frame[23] == 6 && !holds_tcp(frame)) || (frame[23] == 17
            && !holds_udp(frame)) ==> first_step(parsed(frame), now) == (
            Seq::<Effect>::empty(),
            Next::Done(Verdict::Pass),
        ),
{
}

/// A packet aborts its connection exactly where it is TCP and its RST bit is set, and closes its
/// direction exactly where it is TCP and its FIN bit is set, whatever the other bits are.
pub proof fn law_flags_are_read(frame: Seq<u8>, now: u64)
    requires
        holds_tcp(frame) || holds_udp(frame),
    ensures
        packet(frame, now).rst() <==> holds_tcp(frame) && rst_bit(frame),
        packet(frame, now).fin() <==> holds_tcp(frame) && fin_bit(frame),
{
    law_frames_are_read(frame, now);
    lemma_bits(packet(frame, now).hdr.tcp_flags);
}

/// A half has closed in both directions exactly where both of its FIN bits are set.
pub proof fn law_closed_is_both_bits(state: u8)
    ensures
        both_closed(state) <==> (state / 2) % 2 == 1 && (state / 4) % 2 == 1,
{
    lemma_bits(state);
}

/// The half of a flow that a packet meets: the forward one under its client's tuple, the reverse one
/// under its backend's.
pub open spec fn own_half(t: Tables, k: NatKey, frame: Seq<u8>) -> NatVal {
    if is_tuple(k, frame) {
        t.forward[k]
    } else {
        t.reverse[t.forward[k].partner]
    }
}

/// Whether a frame is a packet of the flow under `k`, in either direction.
pub open spec fn belongs(t: Tables, k: NatKey, frame: Seq<u8>) -> bool {
    &&& holds_tcp(frame) || holds_udp(frame)
    &&& is_tuple(k, frame) || is_tuple(t.forward[k].partner, frame)
}

proof fn lemma_belongs(t: Tables, k: NatKey, frame: Seq<u8>, now: u64)
    requires
        belongs(t, k, frame),
    ensures
        is_tuple(k, frame) ==> packet(frame, now).spec_key() == k,
        is_tuple(t.forward[k].partner, frame) ==> packet(frame, now).spec_key()
            == t.forward[k].partner,
        packet(frame, now).hdr.proto == frame[23],
{
    law_frames_are_read(frame, now);
    let own = packet(frame, now).spec_key();
    let p = t.forward[k].partner;
    assert(is_tuple(own, frame));
}

/// A packet of a known flow, from either side, ends its tracking exactly where it is TCP and either
/// its RST bit is set, or its FIN bit is not and both directions have closed as its half knows it.
/// Then nothing of the flow stays; else all of it does, with its backend and its service. A UDP packet
/// never ends it.
pub proof fn law_what_ends_a_flow(t: Tables, k: NatKey, frame: Seq<u8>, now: u64, node: Node)
    requires
        known(t, k),
        belongs(t, k, frame),
        node.editable,
    ensures
        ({
            let r = translate(t, packet(frame, now), node).tables;
            let rk = t.forward[k].partner;
            let state = own_half(t, k, frame).state;
            let over = holds_tcp(frame) && (rst_bit(frame) || (!fin_bit(frame) && (state / 2) % 2 == 1
                && (state / 4) % 2 == 1));
            &&& over ==> forgotten(r, k, rk)
            &&& !over ==> known(r, k) && r.forward[k].partner == rk && r.forward[k].ip
                == t.forward[k].ip && r.forward[k].port == t.forward[k].port && r.reverse[rk].ip
                == t.reverse[rk].ip && r.reverse[rk].port == t.reverse[rk].port
        }),
{
    let flow = packet(frame, now);
    lemma_belongs(t, k, frame, now);
    law_flags_are_read(frame, now);
    law_closed_is_both_bits(own_half(t, k, frame).state);
    if is_tuple(k, frame) {
        law_flow_keeps_its_backend(t, flow, node);
    } else {
        law_reply_is_translated(t, flow, node);
    }
}

/// A FIN is known to the half that the other side's packets meet: the client's FIN sets its bit on
/// the reverse half, the backend's its bit on the forward half. Where the other side had closed
/// before, that half then knows of both.
pub proof fn law_fins_are_recorded(t: Tables, k: NatKey, frame: Seq<u8>, now: u64, node: Node)
    requires
        known(t, k),
        belongs(t, k, frame),
        node.editable,
        holds_tcp(frame),
        fin_bit(frame),
        !rst_bit(frame),
    ensures
        ({
            let r = translate(t, packet(frame, now), node).tables;
            let rk = t.forward[k].partner;
            let own = own_half(t, k, frame).state;
            if is_tuple(k, frame) {
                &&& (r.reverse[rk].state / 2) % 2 == 1
                &&& (own / 4) % 2 == 1 ==> (r.reverse[rk].state / 4) % 2 == 1
            } else {
                &&& (r.forward[k].state / 4) % 2 == 1
                &&& (own / 2) % 2 == 1 ==> (r.forward[k].state / 2) % 2 == 1
            }
        }),
{
    let flow = packet(frame, now);
    let rk = t.forward[k].partner;
    lemma_belongs(t, k, frame, now);
    law_flags_are_read(frame, now);
    lemma_bits(own_half(t, k, frame).state);
    let r = translate(t, flow, node).tables;
    let (f, v) = (t.forward[k].state, t.reverse[rk].state);
    assert((f | 4u8) & 4u8 != 0 && (f | (2u8 | 4u8)) & 4u8 != 0 && (f | (2u8 | 4u8)) & 2u8 != 0)
        by (bit_vector);
    assert((v | 2u8) & 2u8 != 0 && (v | (2u8 | 4u8)) & 2u8 != 0 && (v | (2u8 | 4u8)) & 4u8 != 0)
        by (bit_vector);
    lemma_bits(r.forward[k].state);
    lemma_bits(r.reverse[rk].state);
    if is_tuple(k, frame) {
        law_flow_keeps_its_backend(t, flow, node);
    } else {
        law_reply_is_translated(t, flow, node);
    }
}

/// Only what a packet stands for is marked: a half gains the bit of the client's FIN or of the
/// backend's FIN, or that of an established flow, only from a TCP packet of the flow that says so. A
/// flow becomes established with a reply, never with a packet of its client.
pub proof fn law_marks_have_their_reasons(t: Tables, k: NatKey, frame: Seq<u8>, now: u64, node: Node)
    requires
        known(t, k),
        belongs(t, k, frame),
        node.editable,
        known(translate(t, packet(frame, now), node).tables, k),
    ensures
        ({
            let r = translate(t, packet(frame, now), node).tables;
            let rk = t.forward[k].partner;
            let fin = holds_tcp(frame) && fin_bit(frame);
            &&& !fin && (is_tuple(k, frame) || !holds_tcp(frame)) ==> r.forward[k].state
                == t.forward[k].state && r.reverse[rk].state == t.reverse[rk].state
            &&& fin && is_tuple(k, frame) ==> r.forward[k].state == t.forward[k].state
            &&& fin && !is_tuple(k, frame) ==> r.reverse[rk].state == t.reverse[rk].state
            &&& !fin && holds_tcp(frame) && !is_tuple(k, frame) ==> {
                &&& r.forward[k].state % 2 == 1 || t.reverse[rk].state % 2 == 1
                &&& r.reverse[rk].state % 2 == 1
                &&& r.forward[k].state / 2 == t.forward[k].state / 2
                &&& r.reverse[rk].state / 2 == t.reverse[rk].state / 2
            }
        }),
{
    let flow = packet(frame, now);
    let rk = t.forward[k].partner;
    lemma_belongs(t, k, frame, now);
    law_flags_are_read(frame, now);
    let (f, v) = (t.forward[k].state, t.reverse[rk].state);
    lemma_bits(v);
    assert((f | 1u8) / 2 == f / 2 && (f | 1u8) % 2 == 1 && (v | 1u8) / 2 == v / 2 && (v | 1u8) % 2
        == 1) by (bit_vector);
    if is_tuple(k, frame) {
        law_flow_keeps_its_backend(t, flow, node);
    } else {
        law_reply_is_translated(t, flow, node);
    }
}

/// How long before `now` a time lies, on a clock of 64 bits that wraps round.
pub open spec fn before(now: u64, time: u64) -> int {
    (now - time) % 0x1_0000_0000_0000_0000
}

/// Traffic keeps a flow: after a packet of a known flow that does not end it, TCP or UDP and in either
/// direction, the half that it met was seen within the last second. A half that was seen within it
/// before is left as it was, to spare the write; else it was seen now. The other half's time does not
/// change.
pub proof fn law_traffic_keeps_a_flow(t: Tables, k: NatKey, frame: Seq<u8>, now: u64, node: Node)
    requires
        known(t, k),
        belongs(t, k, frame),
        node.editable,
        known(translate(t, packet(frame, now), node).tables, k),
    ensures
        ({
            let r = translate(t, packet(frame, now), node).tables;
            let rk = t.forward[k].partner;
            let old = own_half(t, k, frame).last_seen;
            let (own, other, was) = if is_tuple(k, frame) {
                (r.forward[k].last_seen, r.reverse[rk].last_seen, t.reverse[rk].last_seen)
            } else {
                (r.reverse[rk].last_seen, r.forward[k].last_seen, t.forward[k].last_seen)
            };
            &&& before(now, own) <= 1_000_000_000
            &&& own == (if before(now, old) <= 1_000_000_000 {
                old
            } else {
                now
            })
            &&& other == was
        }),
{
    let flow = packet(frame, now);
    let rk = t.forward[k].partner;
    lemma_belongs(t, k, frame, now);
    law_flags_are_read(frame, now);
    law_what_ends_a_flow(t, k, frame, now, node);
    assert(before(now, now) == 0);
    let old = own_half(t, k, frame).last_seen;
    if old <= now {
        assert(before(now, old) == now - old);
    } else {
        assert((now - old) % 0x1_0000_0000_0000_0000 == now - old + 0x1_0000_0000_0000_0000);
    }
    if is_tuple(k, frame) {
        law_flow_keeps_its_backend(t, flow, node);
    } else {
        law_reply_is_translated(t, flow, node);
    }
}

/// A flow with traffic survives every sweep that comes soon after: with a packet at `now` that does not
/// end it, in either direction, no sweep at a later time takes it before a second less than the short
/// time has gone by.
pub proof fn law_busy_flows_survive_the_sweep(
    t: Tables,
    k: NatKey,
    frame: Seq<u8>,
    now: u64,
    node: Node,
    entries: Seq<CtEntry>,
    later: u64,
    timeouts: CtTimeouts,
)
    requires
        linked(t),
        known(t, k),
        belongs(t, k, frame),
        node.editable,
        own_half(t, k, frame).last_seen <= now,
        known(translate(t, packet(frame, now), node).tables, k),
        snapshot(entries, translate(t, packet(frame, now), node).tables),
        timeouts.short_ns <= timeouts.established_ns,
        now <= later,
        later + 1_000_000_000 <= now + timeouts.short_ns,
    ensures
        ({
            let t1 = translate(t, packet(frame, now), node).tables;
            let r = t1.apply_all(sweep_removals(entries, later, timeouts));
            &&& r.forward.dom().contains(k) && r.forward[k] == t1.forward[k]
            &&& r.reverse.dom().contains(t.forward[k].partner)
        }),
{
    let flow = packet(frame, now);
    let t1 = translate(t, flow, node).tables;
    let rk = t.forward[k].partner;
    law_links_are_kept(t, flow, node);
    law_traffic_keeps_a_flow(t, k, frame, now, node);
    law_what_ends_a_flow(t, k, frame, now, node);
    law_sweep_forgets_idle_flows(t1, entries, later, timeouts);
    law_sweep_takes_flows_whole(t1, entries, later, timeouts, k);
    let r = t1.apply_all(sweep_removals(entries, later, timeouts));
    let e = entry_of(t1, Half::Forward, k);
    assert(table(t1, Half::Forward).dom().contains(k));
    assert(e.sibling() == Some(t1.reverse[rk]));
    let own = if is_tuple(k, frame) {
        t1.forward[k].last_seen
    } else {
        t1.reverse[rk].last_seen
    };
    assert(before(now, own) == now - own);
    assert(later <= own + timeouts.short_ns);
    law_idle_between_the_times(e, later, timeouts);
    assert(table(r, Half::Forward).dom().contains(k));
}

/// The question for the endpoint that a packet ends with asks for the destination that the frame
/// holds by then.
proof fn lemma_asks_for_its_destination(frame: Seq<u8>, now: u64, t: Tables, node: Node)
    requires
        holds_tcp(frame) || holds_udp(frame),
        translate(t, packet(frame, now), node).next is FindEndpoint,
    ensures
        ({
            let p = translate(t, packet(frame, now), node);
            let g = edited_all(frame, p.edits);
            let q = p.next->FindEndpoint_0;
            &&& g.len() == frame.len()
            &&& q.src_ip == address(g, 26)
            &&& q.dst_ip == address(g, 30)
        }),
{
    let flow = packet(frame, now);
    let p = translate(t, flow, node);
    law_frames_are_read(frame, now);
    lemma_next_names_the_addresses(t, flow, node);
    let g = edited_all(frame, p.edits);
    if p.edits.len() > 0 {
        if exists|entry| p.edits == (#[trigger] (RewriteSource { flow, entry }).spec_edits()) && p.next
            == Next::FindEndpoint(FindEndpoint { src_ip: entry.ip, dst_ip: flow.hdr.dst_ip }) {
            let entry = choose|entry|
                p.edits == (#[trigger] (RewriteSource { flow, entry }).spec_edits()) && p.next
                    == Next::FindEndpoint(
                    FindEndpoint { src_ip: entry.ip, dst_ip: flow.hdr.dst_ip },
                );
            law_source_is_rewritten(frame, flow, entry);
        } else {
            let entry = choose|entry|
                p.edits == (#[trigger] (RewriteDestination { flow, entry }).spec_edits()) && p.next
                    == Next::FindEndpoint(
                    FindEndpoint { src_ip: flow.hdr.src_ip, dst_ip: entry.ip },
                );
            law_destination_is_rewritten(frame, flow, entry);
        }
        assert(parsed(g) is Transport);
        assert(load32(g, 26) == address(g, 26));
        assert(load32(g, 30) == address(g, 30));
    }
    lemma_len(frame, p.edits);
}

proof fn lemma_len(frame: Seq<u8>, edits: Seq<Edit>)
    ensures
        edited_all(frame, edits).len() == frame.len(),
    decreases edits.len(),
{
    if edits.len() > 0 {
        lemma_len(frame, edits.drop_last());
    }
}

proof fn lemma_next_names_the_addresses(t: Tables, flow: Flow, node: Node)
    requires
        translate(t, flow, node).next is FindEndpoint,
    ensures
        ({
            let p = translate(t, flow, node);
            ||| p.edits == Seq::<Edit>::empty() && p.next == Next::FindEndpoint(
                FindEndpoint { src_ip: flow.hdr.src_ip, dst_ip: flow.hdr.dst_ip },
            )
            ||| exists|entry: NatVal|
                p.edits == (#[trigger] (RewriteSource { flow, entry }).spec_edits()) && p.next
                    == Next::FindEndpoint(
                    FindEndpoint { src_ip: entry.ip, dst_ip: flow.hdr.dst_ip },
                )
            ||| exists|entry: NatVal|
                p.edits == (#[trigger] (RewriteDestination { flow, entry }).spec_edits()) && p.next
                    == Next::FindEndpoint(
                    FindEndpoint { src_ip: flow.hdr.src_ip, dst_ip: entry.ip },
                )
        }),
{
    let key = flow.spec_key();
    if t.reverse.dom().contains(key) {
        if node.editable {
            law_reply_is_translated(t, flow, node);
        } else {
            reveal_with_fuel(crate::datapath::laws::Progress::run, 8);
        }
    } else if !in_service_range(flow.hdr.dst_ip) {
        law_other_traffic_is_untouched(t, flow, node);
    } else if t.forward.dom().contains(key) {
        if node.editable {
            law_flow_keeps_its_backend(t, flow, node);
        } else {
            reveal_with_fuel(crate::datapath::laws::Progress::run, 8);
        }
    } else if backend_of(t, flow, node.random) is None {
        crate::datapath::laws::law_no_backend_no_change(t, flow, node);
    } else if !node.forward_room || !node.reverse_room {
        crate::datapath::laws::law_full_table_no_change(t, flow, node);
    } else if node.editable {
        law_first_packet_opens_a_flow(t, flow, node);
    } else {
        reveal_with_fuel(crate::datapath::laws::Progress::run, 8);
    }
}

/// What a node knows of where packets go: its endpoints, and the routes from one address to another.
pub struct Surroundings {
    pub endpoints: Map<u32, Endpoint>,
    pub routes: spec_fn(u32, u32) -> Option<FibRoute>,
}

/// What becomes of a frame: its bytes at the end, and the verdict.
#[verifier::ext_equal]
pub struct Fate {
    pub frame: Seq<u8>,
    pub verdict: Verdict,
}

/// The fate of a frame from a question on that is no longer about the tables of flows. Edits succeed.
pub open spec fn delivered(frame: Seq<u8>, next: Next, s: Surroundings) -> Fate {
    match next {
        Next::Done(verdict) => Fate { frame, verdict },
        Next::FindEndpoint(q) => match q.after(lookup(s.endpoints, q.spec_key())).1 {
            Next::FindRoute(q) => match q.after((s.routes)(q.src_ip, q.dst_ip)).1 {
                Next::StoreRoute(q) => Fate {
                    frame: edited_all(frame, q.spec_edits()),
                    verdict: q.after(true).1->Done_0,
                },
                last => Fate { frame, verdict: last->Done_0 },
            },
            Next::StoreEndpoint(q) => Fate {
                frame: edited_all(frame, q.spec_edits()),
                verdict: q.after(true).1->Done_0,
            },
            last => Fate { frame, verdict: last->Done_0 },
        },
        _ => Fate { frame, verdict: Verdict::Pass },
    }
}

/// Where a frame goes that is on its way: to the pod that has its destination, through the pod's
/// interface and under the pod's hardware address; else along the route from its source to its
/// destination, through the route's interface, from the hardware address of this end to that of the
/// next hop; else the kernel has it as it is.
pub open spec fn goes(g: Seq<u8>, s: Surroundings, fate: Fate) -> bool {
    let src = address(g, 26) as u32;
    let dst = address(g, 30) as u32;
    if s.endpoints.dom().contains(dst) {
        let e = s.endpoints[dst];
        &&& fate.verdict == Verdict::Redirect(e.ifindex)
        &&& fate.frame.take(6) == e.mac@
        &&& fate.frame.skip(6) == g.skip(6)
    } else {
        match (s.routes)(src, dst) {
            Some(route) => {
                &&& fate.verdict == Verdict::Redirect(route.ifindex)
                &&& fate.frame.take(6) == route.dmac@
                &&& fate.frame.subrange(6, 12) == route.smac@
                &&& fate.frame.skip(12) == g.skip(12)
            },
            None => fate == Fate { frame: g, verdict: Verdict::Pass },
        }
    }
}

proof fn lemma_goes(g: Seq<u8>, q: FindEndpoint, s: Surroundings)
    requires
        g.len() >= 34,
        q.src_ip == address(g, 26),
        q.dst_ip == address(g, 30),
    ensures
        goes(g, s, delivered(g, Next::FindEndpoint(q), s)),
        q.after(None).1 matches Next::FindRoute(r) && r.src_ip == address(g, 26) && r.dst_ip
            == address(g, 30),
{
    match lookup(s.endpoints, q.spec_key()) {
        Some(e) => {
            law_pods_get_their_frames(g, q, e);
        },
        None => {
            let r = q.after(None).1->FindRoute_0;
            match (s.routes)(r.src_ip, r.dst_ip) {
                Some(route) => {
                    law_other_frames_take_the_route(g, r, route);
                },
                None => {},
            }
        },
    }
}

/// A TCP or UDP packet that is not left to the kernel goes where the frame says by then, after its
/// translation: to the pod that has the destination it now holds, else along the route from the source
/// it now holds to that destination. The route that is asked for is the packet's own.
pub proof fn law_packets_go_where_they_say(
    frame: Seq<u8>,
    now: u64,
    t: Tables,
    node: Node,
    s: Surroundings,
)
    requires
        holds_tcp(frame) || holds_udp(frame),
        translate(t, packet(frame, now), node).next is FindEndpoint,
    ensures
        ({
            let p = translate(t, packet(frame, now), node);
            let g = edited_all(frame, p.edits);
            let q = p.next->FindEndpoint_0;
            &&& goes(g, s, delivered(g, p.next, s))
            &&& q.spec_key() == address(g, 30)
            &&& q.after(None).1 matches Next::FindRoute(r) && r.src_ip == address(g, 26) && r.dst_ip
                == address(g, 30)
        }),
{
    let p = translate(t, packet(frame, now), node);
    let g = edited_all(frame, p.edits);
    lemma_asks_for_its_destination(frame, now, t, node);
    lemma_goes(g, p.next->FindEndpoint_0, s);
}

/// A TCP or UDP packet that belongs to no tracked flow and goes to no service goes as it came to where
/// its bytes say.
pub proof fn law_other_packets_go_as_they_came(
    frame: Seq<u8>,
    now: u64,
    t: Tables,
    node: Node,
    s: Surroundings,
)
    requires
        holds_tcp(frame) || holds_udp(frame),
        forall|k: NatKey| #[trigger] is_tuple(k, frame) ==> !t.reverse.dom().contains(k),
        !(frame[30] == 10 && 96 <= frame[31] <= 111),
    ensures
        ({
            let p = translate(t, packet(frame, now), node);
            &&& p.tables == t
            &&& p.edits == Seq::<Edit>::empty()
            &&& goes(frame, s, delivered(frame, p.next, s))
        }),
{
    let flow = packet(frame, now);
    law_frames_are_read(frame, now);
    lemma_service_range(frame, 30);
    law_other_traffic_is_untouched(t, flow, node);
    law_packets_go_where_they_say(frame, now, t, node, s);
    assert(edited_all(frame, Seq::<Edit>::empty()) == frame);
}

proof fn lemma_service_range(frame: Seq<u8>, off: int)
    ensures
        in_service_range(address(frame, off) as u32) <==> frame[off] == 10 && 96 <= frame[off + 1]
            <= 111,
{
    let ip = Ipv4Addr {
        a: frame[off],
        b: frame[off + 1],
        c: frame[off + 2],
        d: frame[off + 3],
    };
    law_key_holds_the_octets(ip);
    assert(key_of(ip) == address(frame, off));
}

/// What carries neither TCP nor UDP: to a service it is left to the kernel, anywhere else it goes as
/// it came to where its bytes say. What is not IPv4 or is cut short is left to the kernel.
pub proof fn law_plain_frames_go_where_they_say(frame: Seq<u8>, now: u64, s: Surroundings)
    requires
        !holds_tcp(frame),
        !holds_udp(frame),
    ensures
        ({
            let next = first_step(parsed(frame), now).1;
            if holds_ipv4(frame) && frame[23] != 6 && frame[23] != 17 && !(frame[30] == 10 && 96
                <= frame[31] <= 111) {
                next is FindEndpoint && goes(frame, s, delivered(frame, next, s))
            } else {
                delivered(frame, next, s) == (Fate { frame, verdict: Verdict::Pass })
            }
        }),
{
    law_frames_are_read(frame, now);
    lemma_service_range(frame, 30);
    let next = first_step(parsed(frame), now).1;
    if let Next::FindEndpoint(q) = next {
        lemma_goes(frame, q, s);
    }
}

/// Whether an address stands at `off`, its octets in order.
pub open spec fn holds_address(frame: Seq<u8>, off: int, ip: Ipv4Addr) -> bool {
    frame[off] == ip.a && frame[off + 1] == ip.b && frame[off + 2] == ip.c && frame[off + 3] == ip.d
}

/// Whether a port stands at `off`, its more significant byte first.
pub open spec fn holds_port_number(frame: Seq<u8>, off: int, number: u16) -> bool {
    0x100 * frame[off] + frame[off + 1] == number
}

proof fn lemma_address_bytes(g: Seq<u8>, off: int, ip: Ipv4Addr)
    requires
        address(g, off) == key_of(ip),
    ensures
        holds_address(g, off, ip),
{
    let x = Ipv4Addr { a: g[off], b: g[off + 1], c: g[off + 2], d: g[off + 3] };
    assert(key_of(x) == address(g, off));
    crate::common::law_endpoint_key_injective(x, ip);
}

/// The first packet of a flow to a port of a service that the maps hold goes to one of the backends
/// that serve the port: the one whose place the drawn number picks. The frame then holds its address
/// and its port, and still comes from the client. Every backend can be picked.
pub proof fn law_clients_reach_backends(
    frame: Seq<u8>,
    now: u64,
    t: Tables,
    node: Node,
    id: u32,
    ip: Ipv4Addr,
    front: PortInfo,
    all: Seq<BackendEntry>,
)
    requires
        holds_tcp(frame) || holds_udp(frame),
        holds_address(frame, 30, ip),
        holds_port_number(frame, l4(frame) + 2, front.svc_port),
        frame[23] == front.proto,
        ip.a == 10 && 96 <= ip.b <= 111,
        forall|k: NatKey| #[trigger]
            is_tuple(k, frame) ==> !t.reverse.dom().contains(k) && !t.forward.dom().contains(k),
        holds_port((ServiceMaps { services: t.services, backends: t.backends }), id, ip, front, all),
        0 < serving(all, front).len() <= u32::MAX,
        node.forward_room,
        node.reverse_room,
        node.editable,
    ensures
        ({
            let p = translate(t, packet(frame, now), node);
            let g = edited_all(frame, p.edits);
            let mine = serving(all, front);
            let b = mine[(node.random as nat % mine.len()) as int];
            &&& holds_tcp(g) == holds_tcp(frame) && holds_udp(g) == holds_udp(frame)
            &&& l4(g) == l4(frame) && g[23] == frame[23]
            &&& holds_address(g, 30, b.pod_ip)
            &&& holds_port_number(g, l4(g) + 2, b.port)
            &&& address(g, 26) == address(frame, 26)
            &&& port(g, l4(g)) == port(frame, l4(g))
        }),
{
    let flow = packet(frame, now);
    let mine = serving(all, front);
    let n = (node.random as nat % mine.len()) as int;
    let b = mine[n];
    law_frames_are_read(frame, now);
    lemma_service_range(frame, 30);
    assert(key_of(ip) == address(frame, 30));
    let o = l4(frame);
    assert(port_key_of(front.svc_port) == port(frame, o + 2)) by {
        let (hi, lo) = (frame[o + 2] as int, frame[o + 3] as int);
        assert(front.svc_port == 0x100 * hi + lo);
        assert(front.svc_port % 256 == lo && front.svc_port / 256 == hi);
    }
    law_clients_reach_a_serving_backend(t, id, ip, front, all, flow, node.random);
    let bk = backend_of(t, flow, node.random)->0;
    law_first_packet_opens_a_flow(t, flow, node);
    let entry = forward_half(flow.spec_key(), bk.pod_ip, bk.pod_port, flow.now);
    law_destination_is_rewritten(frame, flow, entry);
    let g = edited_all(frame, translate(t, flow, node).edits);
    law_frames_are_read(g, now);
    lemma_address_bytes(g, 30, b.pod_ip);
    assert(port(g, o + 2) == port_key_of(b.port));
    lemma_port_bytes(g, o + 2, b.port);
}

proof fn lemma_port_bytes(g: Seq<u8>, off: int, number: u16)
    requires
        port(g, off) == port_key_of(number),
    ensures
        holds_port_number(g, off, number),
{
    let (x, y) = (g[off] as int, g[off + 1] as int);
    let (hi, lo) = (number as int / 256, number as int % 256);
    assert(port_key_of(number) == lo * 256 + hi);
    assert(x + 0x100 * y == hi + 0x100 * lo);
    assert(x == hi && y == lo);
}

/// Whether a frame is a reply to another: it goes from where the other went to where the other came
/// from, with the same protocol.
pub open spec fn replies(reply: Seq<u8>, request: Seq<u8>) -> bool {
    &&& address(reply, 26) == address(request, 30)
    &&& address(reply, 30) == address(request, 26)
    &&& port(reply, l4(reply)) == port(request, l4(request) + 2)
    &&& port(reply, l4(reply) + 2) == port(request, l4(request))
    &&& reply[23] == request[23]
}

/// What a client sends to a service, and what the backend answers to that as it arrives, come together
/// again: the backend's answer leaves as a reply to what the client sent, whichever backend it was. The
/// first packet aborts nothing.
pub proof fn law_answers_come_from_the_service(
    frame: Seq<u8>,
    now: u64,
    t: Tables,
    node: Node,
    answer: Seq<u8>,
    later: u64,
    node2: Node,
)
    requires
        holds_tcp(frame) || holds_udp(frame),
        opens(t, packet(frame, now)),
        backend_of(t, packet(frame, now), node.random) is Some,
        node.forward_room,
        node.reverse_room,
        node.editable,
        node2.editable,
        !(holds_tcp(frame) && rst_bit(frame)),
        holds_tcp(answer) || holds_udp(answer),
        replies(answer, edited_all(frame, translate(t, packet(frame, now), node).edits)),
    ensures
        ({
            let p = translate(t, packet(frame, now), node);
            let p2 = translate(p.tables, packet(answer, later), node2);
            let out = edited_all(answer, p2.edits);
            &&& p2.next is FindEndpoint
            &&& holds_tcp(out) == holds_tcp(answer) && holds_udp(out) == holds_udp(answer)
            &&& replies(out, frame)
        }),
{
    let flow = packet(frame, now);
    let reply = packet(answer, later);
    law_frames_are_read(frame, now);
    law_frames_are_read(answer, later);
    law_flags_are_read(frame, now);
    let bk = backend_of(t, flow, node.random)->0;
    law_first_packet_opens_a_flow(t, flow, node);
    let p = translate(t, flow, node);
    let entry = forward_half(flow.spec_key(), bk.pod_ip, bk.pod_port, flow.now);
    law_destination_is_rewritten(frame, flow, entry);
    let g = edited_all(frame, p.edits);
    law_frames_are_read(g, now);
    let rk = reverse_key(flow.spec_key(), bk.pod_ip, bk.pod_port);
    assert(reply.spec_key() == rk);
    crate::datapath::laws::law_round_trip(t, flow, node, reply, node2);
    let p2 = translate(p.tables, reply, node2);
    assert(0u8 & 2u8 == 0) by (bit_vector);
    let half = p.tables.reverse[rk];
    assert(p.tables.reverse.dom().contains(rk) && half.ip == flow.hdr.dst_ip && half.port
        == flow.hdr.dst_port);
    law_reply_is_translated(p.tables, reply, node2);
    law_source_is_rewritten(answer, reply, half);
    let out = edited_all(answer, p2.edits);
    law_frames_are_read(out, later);
}

/// The first packet of a flow to a service leaves the flow tracked in both directions from then on:
/// both halves were seen now, name each other and the backend and the service, and know of no FIN but
/// the packet's own. Where the packet is an abort, nothing stays tracked.
pub proof fn law_new_flows_are_fresh(frame: Seq<u8>, now: u64, t: Tables, node: Node, k: NatKey)
    requires
        holds_tcp(frame) || holds_udp(frame),
        is_tuple(k, frame),
        opens(t, packet(frame, now)),
        !(frame[26] == 10 && 96 <= frame[27] <= 111),
        backend_of(t, packet(frame, now), node.random) is Some,
        node.forward_room,
        node.reverse_room,
        node.editable,
    ensures
        ({
            let p = translate(t, packet(frame, now), node);
            let g = edited_all(frame, p.edits);
            let r = p.tables;
            let rk = r.forward[k].partner;
            let fin = holds_tcp(frame) && fin_bit(frame);
            if holds_tcp(frame) && rst_bit(frame) {
                !r.forward.dom().contains(k) && r.forward.dom() == t.forward.dom()
                    && r.reverse.dom().subset_of(t.reverse.dom())
            } else {
                &&& known(r, k)
                &&& r.forward[k].ip == address(g, 30)
                &&& r.forward[k].port == port(g, l4(g) + 2)
                &&& r.reverse[rk].ip == address(frame, 30)
                &&& r.reverse[rk].port == port(frame, l4(frame) + 2)
                &&& r.forward[k].last_seen == now
                &&& r.reverse[rk].last_seen == now
                &&& r.forward[k].state == 0
                &&& r.reverse[rk].state == (if fin {
                    2u8
                } else {
                    0u8
                })
            }
        }),
{
    let flow = packet(frame, now);
    law_frames_are_read(frame, now);
    law_flags_are_read(frame, now);
    lemma_service_range(frame, 26);
    assert(flow.spec_key() == k);
    let bk = backend_of(t, flow, node.random)->0;
    law_first_packet_opens_a_flow(t, flow, node);
    let entry = forward_half(k, bk.pod_ip, bk.pod_port, now);
    law_destination_is_rewritten(frame, flow, entry);
    let p = translate(t, flow, node);
    let g = edited_all(frame, p.edits);
    law_frames_are_read(g, now);
    assert(0u8 & 2u8 == 0 && 0u8 & 4u8 == 0 && 0u8 | 2u8 == 2u8) by (bit_vector);
    let rk = reverse_key(k, bk.pod_ip, bk.pod_port);
    assert(rk != k);
    if holds_tcp(frame) && rst_bit(frame) {
        assert(p.tables.forward.dom() =~= t.forward.dom());
    }
}

/// Where a frame cannot be edited, the kernel has it: no edit counts as made, and a tracked flow of it
/// is neither marked nor forgotten.
pub proof fn law_frames_that_cannot_be_edited_pass(
    t: Tables,
    k: NatKey,
    frame: Seq<u8>,
    now: u64,
    node: Node,
)
    requires
        known(t, k),
        belongs(t, k, frame),
        !node.editable,
    ensures
        ({
            let p = translate(t, packet(frame, now), node);
            let rk = t.forward[k].partner;
            &&& p.edits == Seq::<Edit>::empty()
            &&& p.next == Next::Done(Verdict::Pass)
            &&& known(p.tables, k)
            &&& p.tables.forward[k].state == t.forward[k].state
            &&& p.tables.reverse[rk].state == t.reverse[rk].state
        }),
{
    let flow = packet(frame, now);
    lemma_belongs(t, k, frame, now);
    reveal_with_fuel(crate::datapath::laws::Progress::run, 8);
    let rk = t.forward[k].partner;
    let z = Effect::Bump(0);
    crate::datapath::laws::lemma_effects(t, z, z, z, z);
    if is_tuple(k, frame) {
        crate::datapath::laws::lemma_refresh(t, flow, Half::Forward, t.forward[k]);
        let t1 = crate::datapath::laws::after_refresh(t, flow, Half::Forward, t.forward[k]);
        crate::datapath::laws::lemma_effects(t1, z, z, z, z);
    } else {
        crate::datapath::laws::lemma_refresh(t, flow, Half::Reverse, t.reverse[rk]);
        let t1 = crate::datapath::laws::after_refresh(t, flow, Half::Reverse, t.reverse[rk]);
        crate::datapath::laws::lemma_effects(t1, z, z, z, z);
    }
}

/// How often some effects add to a counter.
pub open spec fn bumps(effects: Seq<Effect>, counter: u32) -> nat
    decreases effects.len(),
{
    if effects.len() == 0 {
        0
    } else {
        bumps(effects.drop_last(), counter) + if effects.last() == Effect::Bump(counter) {
            1nat
        } else {
            0nat
        }
    }
}

/// Whether some effects count one thing once, and nothing else but what `also` says.
pub open spec fn counts(effects: Seq<Effect>, counter: u32, also: Option<u32>) -> bool {
    forall|c: u32| #[trigger]
        bumps(effects, c) == (if c == counter || also == Some(c) {
            1nat
        } else {
            0nat
        })
}

proof fn lemma_bumps(a: Effect, b: Effect, c: Effect, d: Effect, counter: u32)
    ensures
        bumps(Seq::<Effect>::empty(), counter) == 0,
        bumps(seq![a], counter) == one(a, counter),
        bumps(seq![a, b], counter) == one(a, counter) + one(b, counter),
        bumps(seq![a, b, c], counter) == one(a, counter) + one(b, counter) + one(c, counter),
        bumps(seq![a, b, c, d], counter) == one(a, counter) + one(b, counter) + one(c, counter) + one(
            d,
            counter,
        ),
{
    let none = Seq::<Effect>::empty();
    lemma_bumps_push(none, a, counter);
    lemma_bumps_push(none.push(a), b, counter);
    lemma_bumps_push(none.push(a).push(b), c, counter);
    lemma_bumps_push(none.push(a).push(b).push(c), d, counter);
    assert(seq![a] =~= none.push(a));
    assert(seq![a, b] =~= none.push(a).push(b));
    assert(seq![a, b, c] =~= none.push(a).push(b).push(c));
    assert(seq![a, b, c, d] =~= none.push(a).push(b).push(c).push(d));
}

proof fn lemma_bumps_push(s: Seq<Effect>, e: Effect, counter: u32)
    ensures
        bumps(s.push(e), counter) == bumps(s, counter) + one(e, counter),
{
    assert(s.push(e).drop_last() =~= s);
}

spec fn one(e: Effect, counter: u32) -> nat {
    if e == Effect::Bump(counter) {
        1
    } else {
        0
    }
}

proof fn lemma_counts(s: Seq<Effect>, counter: u32, also: Option<u32>)
    requires
        1 <= s.len() <= 4,
        s[0] == Effect::Bump(counter),
        also != Some(counter),
        forall|i: int| 1 <= i < s.len() - 1 ==> !(#[trigger] s[i] is Bump),
        match also {
            Some(c) => s.len() > 1 && s.last() == Effect::Bump(c),
            None => s.len() == 1 || !(s.last() is Bump),
        },
    ensures
        counts(s, counter, also),
{
    assert forall|c: u32| #[trigger]
        bumps(s, c) == (if c == counter || also == Some(c) {
            1nat
        } else {
            0nat
        }) by {
        let z = s[0];
        if s.len() == 1 {
            assert(s =~= seq![s[0]]);
            lemma_bumps(s[0], z, z, z, c);
        } else if s.len() == 2 {
            assert(s =~= seq![s[0], s[1]]);
            lemma_bumps(s[0], s[1], z, z, c);
        } else if s.len() == 3 {
            assert(s =~= seq![s[0], s[1], s[2]]);
            lemma_bumps(s[0], s[1], s[2], z, c);
        } else {
            assert(s =~= seq![s[0], s[1], s[2], s[3]]);
            lemma_bumps(s[0], s[1], s[2], s[3], c);
        }
    }
}

/// What is counted of a packet of a tracked flow that could be edited: a request to a service under 4,
/// a reply under 5, each once, and that its flow ended under 6, exactly where it did; nothing else.
pub proof fn law_translations_are_counted(
    t: Tables,
    k: NatKey,
    frame: Seq<u8>,
    now: u64,
    node: Node,
)
    requires
        known(t, k),
        belongs(t, k, frame),
        node.editable,
    ensures
        ({
            let flow = packet(frame, now);
            let entry = own_half(t, k, frame);
            let over = forgotten(translate(t, flow, node).tables, k, t.forward[k].partner);
            let also = if over {
                Some(6u32)
            } else {
                None
            };
            if is_tuple(k, frame) {
                counts((RewriteDestination { flow, entry }).after(true).0, 4, also)
            } else {
                counts((RewriteSource { flow, entry }).after(true).0, 5, also)
            }
        }),
{
    let flow = packet(frame, now);
    let entry = own_half(t, k, frame);
    lemma_belongs(t, k, frame, now);
    law_flags_are_read(frame, now);
    law_what_ends_a_flow(t, k, frame, now, node);
    law_closed_is_both_bits(entry.state);
    let over = forgotten(translate(t, flow, node).tables, k, t.forward[k].partner);
    let also = if over {
        Some(6u32)
    } else {
        None
    };
    if is_tuple(k, frame) {
        let q = RewriteDestination { flow, entry };
        let s = q.after(true).0;
        let m = q.tracking();
        assert(s == seq![s[0]] + m);
        assert(forall|i: int| 1 <= i < s.len() ==> #[trigger] s[i] == m[i - 1]);
        lemma_counts(s, 4, also);
    } else {
        let q = RewriteSource { flow, entry };
        let s = q.after(true).0;
        let m = q.tracking();
        assert(s == seq![s[0]] + m);
        assert(forall|i: int| 1 <= i < s.len() ==> #[trigger] s[i] == m[i - 1]);
        lemma_counts(s, 5, also);
    }
}

/// What is counted where a frame leaves or is left: one that goes to a pod of the node under 0, one
/// for which there is no route under 1, one that takes a route under 2, each once and nothing else.
/// What fails to be edited is not counted, and the kernel has it.
pub proof fn law_departures_are_counted(
    endpoint: Endpoint,
    route: FibRoute,
    q: FindEndpoint,
    src_ip: u32,
    dst_ip: u32,
)
    ensures
        counts((StoreEndpoint { endpoint }).after(true).0, 0, None),
        counts((FindRoute { src_ip, dst_ip }).after(None).0, 1, None),
        (FindRoute { src_ip, dst_ip }).after(None).1 == Next::Done(Verdict::Pass),
        counts((StoreRoute { route }).after(true).0, 2, None),
        forall|c: u32| #[trigger] bumps((StoreEndpoint { endpoint }).after(false).0, c) == 0,
        forall|c: u32| #[trigger] bumps((StoreRoute { route }).after(false).0, c) == 0,
        (StoreEndpoint { endpoint }).after(false).1 == Next::Done(Verdict::Pass),
        (StoreRoute { route }).after(false).1 == Next::Done(Verdict::Pass),
        forall|c: u32| #[trigger] bumps(q.after(Some(endpoint)).0, c) == 0,
        forall|c: u32| #[trigger] bumps(q.after(None).0, c) == 0,
{
    lemma_counts((StoreEndpoint { endpoint }).after(true).0, 0, None);
    lemma_counts((FindRoute { src_ip, dst_ip }).after(None).0, 1, None);
    lemma_counts((StoreRoute { route }).after(true).0, 2, None);
}

/// What a service gets that it cannot be given is counted under 3, once, and the kernel has it: a
/// packet for which there is no service, no backend or no room, and one that is neither TCP nor UDP.
/// Where the search goes on, nothing is counted.
pub proof fn law_punts_are_counted(
    flow: Flow,
    service: Option<ServiceVal>,
    random: u32,
    service_id: u32,
    index: u32,
    backend: Option<BackendVal>,
    pod_ip: u32,
    pod_port: u16,
    room: bool,
    src_ip: u32,
    dst_ip: u32,
    now: u64,
)
    ensures
        ({
            let a = (FindService { flow }).after(service, random);
            let b = (FindBackend { flow, service_id, index }).after(backend);
            let c = (InsertForward { flow, pod_ip, pod_port }).after(room);
            let d = (InsertReverse { flow, pod_ip, pod_port }).after(room);
            let e = first_step(Parsed::Plain { src_ip, dst_ip }, now);
            &&& punted_or_goes_on(a, service is Some && service->0.backend_count > 0)
            &&& punted_or_goes_on(b, backend is Some)
            &&& punted_or_goes_on(c, room)
            &&& punted_or_goes_on(d, room)
            &&& punted_or_goes_on(e, !in_service_range(dst_ip))
        }),
{
    let z = Effect::Bump(COUNTER_SERVICE_PUNT);
    let rm = Effect::Remove { half: Half::Forward, key: flow.spec_key() };
    let both = seq![rm, z];
    assert forall|c: u32| #[trigger] bumps(both, c) == (if c == 3 {
        1nat
    } else {
        0nat
    }) by {
        lemma_bumps(rm, z, z, z, c);
    }
    lemma_counts(seq![z], 3, None);
    assert((InsertReverse { flow, pod_ip, pod_port }).after(false).0 =~= both);
}

/// Whether the search goes on without a count where it is to, and else ends with the kernel and a
/// count under 3.
pub open spec fn punted_or_goes_on(step: (Seq<Effect>, Next), goes_on: bool) -> bool {
    if goes_on {
        !(step.1 is Done) && forall|c: u32| #[trigger] bumps(step.0, c) == 0
    } else {
        step.1 == Next::Done(Verdict::Pass) && counts(step.0, 3, None)
    }
}

}
