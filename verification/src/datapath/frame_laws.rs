//! What the edits do to the bytes of a frame.
use vstd::prelude::*;

use crate::common::{key_of, le32, port_key_of, Endpoint, NatVal};
use crate::datapath::forward::{
    Edit, Effect, FibRoute, FindEndpoint, FindRoute, Flow, Next, RewriteDestination, RewriteSource,
    StoreEndpoint, StoreRoute, Verdict,
};
use crate::datapath::packet::{
    ip_header_len, load16, load32, parsed, Headers, Parsed, IPPROTO_TCP,
};
use crate::net::Ipv4Addr;

verus! {

/// The frame with bytes written at `off`.
pub open spec fn store(frame: Seq<u8>, off: int, bytes: Seq<u8>) -> Seq<u8> {
    Seq::new(
        frame.len(),
        |i: int|
            if off <= i < off + bytes.len() {
                bytes[i - off]
            } else {
                frame[i]
            },
    )
}

/// The bytes of a 16-bit number, the least significant first.
pub open spec fn bytes16(x: u16) -> Seq<u8> {
    seq![(x % 0x100) as u8, (x / 0x100) as u8]
}

/// The bytes of a 32-bit number, the least significant first.
pub open spec fn bytes32(x: u32) -> Seq<u8> {
    seq![
        (x % 0x100) as u8,
        ((x / 0x100) % 0x100) as u8,
        ((x / 0x1_0000) % 0x100) as u8,
        (x / 0x100_0000) as u8,
    ]
}

/// A field of `size` bytes as the kernel takes it from the number that it is handed.
pub open spec fn field(x: u64, size: int) -> int {
    if size == 2 {
        x as int % 0x1_0000
    } else {
        x as int % 0x1_0000_0000
    }
}

/// A checksum after a field that it covers went from one number to another. A checksum is the
/// complement of a ones'-complement sum, so what the field gained is taken off, modulo 2^16 - 1.
pub open spec fn adjusted(sum: u16, from: int, to: int) -> u16 {
    ((sum + from - to) % 0xffff) as u16
}

/// A sum that is yet to be completed after a field that it covers went from one number to another.
pub open spec fn carried(sum: u16, from: int, to: int) -> u16 {
    let s = (sum - from + to) % 0xffff;
    if s == 0 {
        0xffff
    } else {
        s as u16
    }
}

/// The frame after an edit. Where the transport checksum is `pending`, the network card is to
/// complete it: the field holds the sum of the pseudo-header alone, and only changes of that reach
/// it. A field of another size than two or four bytes is refused.
pub open spec fn edited_by(frame: Seq<u8>, edit: Edit, pending: bool) -> Seq<u8> {
    match edit {
        Edit::StoreAddr { off, addr } => store(frame, off as int, bytes32(addr)),
        Edit::StorePort { off, port } => store(frame, off as int, bytes16(port)),
        Edit::StoreMac { off, mac } => store(frame, off as int, mac@),
        Edit::L3Csum { off, from, to, size } => if size == 2 || size == 4 {
            let sum = load16(frame, off as int);
            let now = adjusted(sum, field(from, size as int), field(to, size as int));
            store(frame, off as int, bytes16(now))
        } else {
            frame
        },
        Edit::L4Csum { off, from, to, flags } => {
            let size = flags as int % 16;
            let pseudo = (flags / 0x10) % 2 == 1;
            let optional = (flags / 0x20) % 2 == 1;
            let sum = load16(frame, off as int);
            if (size != 2 && size != 4) || (optional && sum == 0) {
                frame
            } else if pending {
                if pseudo {
                    let now = carried(sum, field(from, size), field(to, size));
                    store(frame, off as int, bytes16(now))
                } else {
                    frame
                }
            } else {
                let now = adjusted(sum, field(from, size), field(to, size));
                store(
                    frame,
                    off as int,
                    bytes16(
                        if optional && now == 0 {
                            0xffff
                        } else {
                            now
                        },
                    ),
                )
            }
        },
    }
}

/// The frame after an edit, where the transport checksum is complete.
pub open spec fn edited(frame: Seq<u8>, edit: Edit) -> Seq<u8> {
    edited_by(frame, edit, false)
}

/// The frame after edits in order.
pub open spec fn edited_all_by(frame: Seq<u8>, edits: Seq<Edit>, pending: bool) -> Seq<u8>
    decreases edits.len(),
{
    if edits.len() == 0 {
        frame
    } else {
        edited_by(edited_all_by(frame, edits.drop_last(), pending), edits.last(), pending)
    }
}

/// The frame after edits in order, where the transport checksum is complete.
pub open spec fn edited_all(frame: Seq<u8>, edits: Seq<Edit>) -> Seq<u8> {
    edited_all_by(frame, edits, false)
}

pub proof fn lemma_bytes32(x: u32)
    ensures
        bytes32(x)[0] + 0x100 * bytes32(x)[1] + 0x1_0000 * bytes32(x)[2] + 0x100_0000 * bytes32(
            x,
        )[3] == x,
{
    let x1 = x / 0x100;
    let x2 = x1 / 0x100;
    assert(x == 0x100 * x1 + x % 0x100);
    assert(x1 == 0x100 * x2 + x1 % 0x100);
    assert(x / 0x1_0000 == x2);
    assert(x2 == 0x100 * (x2 / 0x100) + x2 % 0x100);
    assert(x / 0x100_0000 == x2 / 0x100);
}

proof fn lemma_one(frame: Seq<u8>, a: Edit, pending: bool)
    ensures
        edited_all_by(frame, seq![a], pending) == edited_by(frame, a, pending),
{
    assert(seq![a].drop_last() =~= Seq::<Edit>::empty());
    assert(edited_all_by(frame, Seq::<Edit>::empty(), pending) == frame);
}

pub proof fn lemma_five(frame: Seq<u8>, s: Seq<Edit>, pending: bool)
    requires
        s.len() == 5,
    ensures
        edited_all_by(frame, s, pending) == edited_by(
            edited_by(
                edited_by(
                    edited_by(edited_by(frame, s[0], pending), s[1], pending),
                    s[2],
                    pending,
                ),
                s[3],
                pending,
            ),
            s[4],
            pending,
        ),
{
    let (a, b, c, d) = (s[0], s[1], s[2], s[3]);
    assert(s.drop_last() =~= seq![a, b, c, d]);
    assert(seq![a, b, c, d].drop_last() =~= seq![a, b, c]);
    assert(seq![a, b, c].drop_last() =~= seq![a, b]);
    assert(seq![a, b].drop_last() =~= seq![a]);
    lemma_one(frame, a, pending);
    let f1 = edited_by(frame, a, pending);
    let f2 = edited_by(f1, b, pending);
    let f3 = edited_by(f2, c, pending);
    assert(edited_all_by(frame, seq![a, b], pending) == f2);
    assert(edited_all_by(frame, seq![a, b, c], pending) == f3);
    assert(edited_all_by(frame, seq![a, b, c, d], pending) == edited_by(f3, d, pending));
}

/// What an edit of a checksum leaves as it is: all but the field.
proof fn lemma_checksum_edit(frame: Seq<u8>, edit: Edit, pending: bool)
    requires
        edit is L3Csum || edit is L4Csum,
    ensures
        ({
            let g = edited_by(frame, edit, pending);
            let off = match edit {
                Edit::L3Csum { off, .. } => off as int,
                Edit::L4Csum { off, .. } => off as int,
                _ => 0,
            };
            &&& g.len() == frame.len()
            &&& forall|i: int|
                0 <= i < frame.len() && !(off <= i < off + 2) ==> #[trigger] g[i] == frame[i]
        }),
{
}

/// What the edits of a translation do to all bytes but those of the checksums.
pub open spec fn translated(
    frame: Seq<u8>,
    g: Seq<u8>,
    flow: Flow,
    ip_off: int,
    to_ip: u32,
    port_off: int,
    to_port: u16,
) -> bool {
    let want = store(store(frame, ip_off, bytes32(to_ip)), port_off, bytes16(to_port));
    &&& g.len() == frame.len()
    &&& forall|i: int|
        0 <= i < frame.len() && !(24 <= i < 26) && !(flow.l4_csum_off() <= i
            < flow.l4_csum_off() + 2) ==> #[trigger] g[i] == want[i]
}

proof fn lemma_translated(
    frame: Seq<u8>,
    flow: Flow,
    s: Seq<Edit>,
    ip_off: int,
    from_ip: u32,
    to_ip: u32,
    port_off: int,
    from_port: u16,
    to_port: u16,
    pending: bool,
)
    requires
        s == flow.rewrite(ip_off, from_ip, to_ip, port_off, from_port, to_port),
        ip_off == 26 || ip_off == 30,
        port_off == 14 + flow.hdr.ihl || port_off == 14 + flow.hdr.ihl + 2,
    ensures
        translated(
            frame,
            edited_all_by(frame, s, pending),
            flow,
            ip_off,
            to_ip,
            port_off,
            to_port,
        ),
{
    lemma_five(frame, s, pending);
    let f1 = edited_by(frame, s[0], pending);
    let f2 = edited_by(f1, s[1], pending);
    let f3 = edited_by(f2, s[2], pending);
    let f4 = edited_by(f3, s[3], pending);
    lemma_checksum_edit(f1, s[1], pending);
    lemma_checksum_edit(f2, s[2], pending);
    lemma_checksum_edit(f4, s[4], pending);
    assert(f1 == store(frame, ip_off, bytes32(to_ip)));
    assert(f4 == store(f3, port_off, bytes16(to_port)));
}

/// The headers of a frame with an address and a port written into it.
proof fn lemma_rewritten(
    frame: Seq<u8>,
    g: Seq<u8>,
    flow: Flow,
    ip_off: int,
    to_ip: u32,
    port_off: int,
    to_port: u16,
)
    requires
        parsed(frame) == Parsed::Transport(flow.hdr),
        ip_off == 26 || ip_off == 30,
        port_off == 14 + flow.hdr.ihl || port_off == 14 + flow.hdr.ihl + 2,
        translated(frame, g, flow, ip_off, to_ip, port_off, to_port),
    ensures
        ({
            let h = flow.hdr;
            parsed(g) == Parsed::Transport(
                Headers {
                    src_ip: if ip_off == 26 {
                        to_ip
                    } else {
                        h.src_ip
                    },
                    dst_ip: if ip_off == 30 {
                        to_ip
                    } else {
                        h.dst_ip
                    },
                    src_port: if port_off == 14 + h.ihl {
                        to_port
                    } else {
                        h.src_port
                    },
                    dst_port: if port_off == 14 + h.ihl + 2 {
                        to_port
                    } else {
                        h.dst_port
                    },
                    ..h
                },
            )
        }),
{
    let l4 = 14 + ip_header_len(frame);
    assert(l4 == 14 + flow.hdr.ihl);
    lemma_bytes32(to_ip);
    assert(g[12] == frame[12] && g[13] == frame[13] && g[14] == frame[14] && g[23] == frame[23]);
    assert(ip_header_len(g) == ip_header_len(frame));
    assert(load32(g, ip_off) == to_ip);
    assert(ip_off == 30 ==> load32(g, 26) == load32(frame, 26));
    assert(ip_off == 26 ==> load32(g, 30) == load32(frame, 30));
    assert(load16(g, port_off) == to_port);
    assert(port_off == l4 ==> load16(g, l4 + 2) == load16(frame, l4 + 2));
    assert(port_off == l4 + 2 ==> load16(g, l4) == load16(frame, l4));
    if frame[23] == IPPROTO_TCP {
        assert(g[l4 + 13] == frame[l4 + 13]);
    }
}

/// After the edits of a packet to a service, the frame goes to the backend that its flow has, and
/// nothing else in its headers has changed.
pub proof fn law_destination_is_rewritten(frame: Seq<u8>, flow: Flow, entry: NatVal)
    requires
        parsed(frame) == Parsed::Transport(flow.hdr),
    ensures
        parsed(edited_all(frame, (RewriteDestination { flow, entry }).spec_edits()))
            == Parsed::Transport(
            Headers { dst_ip: entry.ip, dst_port: entry.port, ..flow.hdr },
        ),
{
    let s = (RewriteDestination { flow, entry }).spec_edits();
    let h = flow.hdr;
    let off = 14 + h.ihl + 2;
    lemma_translated(
        frame,
        flow,
        s,
        30,
        h.dst_ip,
        entry.ip,
        off,
        h.dst_port,
        entry.port,
        false,
    );
    lemma_rewritten(frame, edited_all(frame, s), flow, 30, entry.ip, off, entry.port);
}

/// After the edits of a reply, the frame comes from the service that its flow goes to, and nothing
/// else in its headers has changed.
pub proof fn law_source_is_rewritten(frame: Seq<u8>, flow: Flow, entry: NatVal)
    requires
        parsed(frame) == Parsed::Transport(flow.hdr),
    ensures
        parsed(edited_all(frame, (RewriteSource { flow, entry }).spec_edits()))
            == Parsed::Transport(
            Headers { src_ip: entry.ip, src_port: entry.port, ..flow.hdr },
        ),
{
    let s = (RewriteSource { flow, entry }).spec_edits();
    let h = flow.hdr;
    let off = 14 + h.ihl as int;
    lemma_translated(
        frame,
        flow,
        s,
        26,
        h.src_ip,
        entry.ip,
        off,
        h.src_port,
        entry.port,
        false,
    );
    lemma_rewritten(frame, edited_all(frame, s), flow, 26, entry.ip, off, entry.port);
}

/// A frame to a pod of this node leaves through the pod's interface, addressed to the pod's hardware
/// address; nothing behind the Ethernet destination has changed.
pub proof fn law_pods_get_their_frames(frame: Seq<u8>, q: FindEndpoint, endpoint: Endpoint)
    requires
        frame.len() >= 14,
    ensures
        ({
            let s = StoreEndpoint { endpoint };
            let g = edited_all(frame, s.spec_edits());
            &&& q.after(Some(endpoint)) == (Seq::<Effect>::empty(), Next::StoreEndpoint(s))
            &&& s.after(true).1 == Next::Done(Verdict::Redirect(endpoint.ifindex))
            &&& g.take(6) == endpoint.mac@
            &&& g.skip(6) == frame.skip(6)
        }),
{
    let s = StoreEndpoint { endpoint };
    let e = s.spec_edits()[0];
    assert(s.spec_edits() =~= seq![e]);
    lemma_one(frame, e, false);
    let g = edited_all(frame, s.spec_edits());
    assert(g == edited(frame, e));
    assert(endpoint.mac@.len() == 6);
    assert(g.take(6) =~= endpoint.mac@);
    assert(g.skip(6) =~= frame.skip(6));
}

/// A frame to elsewhere for which there is a route leaves through the route's interface, addressed
/// from this end to the next hop; nothing behind the Ethernet addresses has changed.
pub proof fn law_other_frames_take_the_route(frame: Seq<u8>, q: FindRoute, route: FibRoute)
    requires
        frame.len() >= 14,
    ensures
        ({
            let s = StoreRoute { route };
            let g = edited_all(frame, s.spec_edits());
            &&& q.after(Some(route)) == (Seq::<Effect>::empty(), Next::StoreRoute(s))
            &&& s.after(true).1 == Next::Done(Verdict::Redirect(route.ifindex))
            &&& g.take(6) == route.dmac@
            &&& g.subrange(6, 12) == route.smac@
            &&& g.skip(12) == frame.skip(12)
        }),
{
    let s = StoreRoute { route };
    let (a, b) = (s.spec_edits()[0], s.spec_edits()[1]);
    assert(s.spec_edits() =~= seq![a, b]);
    assert(seq![a, b].drop_last() =~= seq![a]);
    lemma_one(frame, a, false);
    let g = edited_all(frame, s.spec_edits());
    assert(g == edited(edited(frame, a), b));
    assert(route.dmac@.len() == 6);
    assert(route.smac@.len() == 6);
    assert(g.take(6) =~= route.dmac@);
    assert(g.subrange(6, 12) =~= route.smac@);
    assert(g.skip(12) =~= frame.skip(12));
}

/// The first 88 bytes of a frame are enough to tell what it holds: the Ethernet header, the longest
/// IP header, and TCP up to its flags.
pub proof fn law_headers_are_enough(frame: Seq<u8>)
    requires
        frame.len() >= 88,
    ensures
        parsed(frame.take(88)) == parsed(frame),
{
    let g = frame.take(88);
    assert(g[14] == frame[14]);
    let l4 = 14 + ip_header_len(frame);
    assert(ip_header_len(g) == ip_header_len(frame));
    assert(0 <= ip_header_len(frame) <= 60);
    assert(g[12] == frame[12] && g[13] == frame[13] && g[23] == frame[23]);
    assert(load32(g, 26) == load32(frame, 26));
    assert(load32(g, 30) == load32(frame, 30));
    assert(load16(g, l4) == load16(frame, l4));
    assert(load16(g, l4 + 2) == load16(frame, l4 + 2));
    assert(g[l4 + 13] == frame[l4 + 13]);
}

/// The key of a port is what is loaded where the port stands in a packet, its more significant byte
/// first.
pub proof fn law_port_key_is_what_is_loaded(frame: Seq<u8>, off: int, port: u16)
    requires
        0 <= off,
        off + 2 <= frame.len(),
        frame[off] == port / 256,
        frame[off + 1] == port % 256,
    ensures
        load16(frame, off) == port_key_of(port),
{
}

/// The key of an address is what is loaded where its octets stand in a packet.
pub proof fn law_address_key_is_what_is_loaded(frame: Seq<u8>, off: int, ip: Ipv4Addr)
    requires
        0 <= off,
        off + 4 <= frame.len(),
        frame[off] == ip.a,
        frame[off + 1] == ip.b,
        frame[off + 2] == ip.c,
        frame[off + 3] == ip.d,
    ensures
        load32(frame, off) == key_of(ip),
        load32(frame, off) == le32(ip.a, ip.b, ip.c, ip.d),
{
}

}
