//! That the checksums of a frame stay right when it is translated.
//!
//! The checksum of a header is right where the 16-bit words that it covers, itself among them, add up
//! to zero modulo 2^16 - 1. The words are taken as a little-endian host loads them: with the bytes of
//! every word swapped, the sum is a multiple of that number exactly where it was before.
use vstd::prelude::*;

use crate::datapath::forward::{Edit, Flow, RewriteDestination, RewriteSource};
use crate::datapath::frame_laws::{
    adjusted, bytes16, bytes32, carried, edited_all_by, edited_by, field, lemma_bytes32, lemma_five,
    store,
};
use crate::datapath::laws::{law_translation_edits, translate, Node, Tables};
use crate::datapath::packet::{ip_header_len, load16, load32, parsed, Parsed};

verus! {

/// The sum of the words between two offsets. A last byte without a second one is filled up with a
/// zero.
pub open spec fn words(frame: Seq<u8>, from: int, to: int) -> int
    decreases to - from,
{
    if from >= to {
        0
    } else if from + 1 == to {
        frame[from] as int
    } else {
        frame[from] + 0x100 * frame[from + 1] + words(frame, from + 2, to)
    }
}

/// Where the transport header of a frame begins.
pub open spec fn transport_at(frame: Seq<u8>) -> int {
    14 + 4 * (frame[14] % 16)
}

/// Where the transport checksum of a frame stands.
pub open spec fn checksum_at(frame: Seq<u8>) -> int {
    transport_at(frame) + if frame[23] == 6 {
        16int
    } else {
        6int
    }
}

/// The transport checksum that a frame holds.
pub open spec fn checksum_of(frame: Seq<u8>) -> int {
    frame[checksum_at(frame)] + 0x100 * frame[checksum_at(frame) + 1]
}

/// The sum of what the transport checksum covers besides the transport header and what follows it up
/// to `end`: the two addresses, the protocol and the length.
pub open spec fn pseudo_header(frame: Seq<u8>, end: int) -> int {
    let len = end - transport_at(frame);
    words(frame, 26, 34) + 0x100 * frame[23] + (len % 0x100) * 0x100 + len / 0x100
}

/// Whether the IP checksum of a frame is right.
pub open spec fn ip_checksum_right(frame: Seq<u8>) -> bool {
    words(frame, 14, transport_at(frame)) % 0xffff == 0
}

/// Whether the transport checksum of a frame whose packet ends at `end` is right.
pub open spec fn transport_checksum_right(frame: Seq<u8>, end: int) -> bool {
    (pseudo_header(frame, end) + words(frame, transport_at(frame), end)) % 0xffff == 0
}

/// Whether the transport checksum of a frame is prepared for the network card to complete: it is the
/// sum of the pseudo-header.
pub open spec fn transport_checksum_prepared(frame: Seq<u8>, end: int) -> bool {
    (pseudo_header(frame, end) - checksum_of(frame)) % 0xffff == 0
}

proof fn lemma_words_same(f: Seq<u8>, g: Seq<u8>, from: int, to: int)
    requires
        forall|i: int| from <= i < to ==> #[trigger] f[i] == g[i],
    ensures
        words(f, from, to) == words(g, from, to),
    decreases to - from,
{
    if from < to && from + 1 != to {
        lemma_words_same(f, g, from + 2, to);
    }
}

/// Writing one word changes the sum by what the word changed.
proof fn lemma_words_store(f: Seq<u8>, from: int, to: int, off: int, x: u16)
    requires
        0 <= from <= off,
        off + 2 <= to <= f.len(),
        (off - from) % 2 == 0,
    ensures
        words(store(f, off, bytes16(x)), from, to) == words(f, from, to) - load16(f, off) + x,
    decreases to - from,
{
    let g = store(f, off, bytes16(x));
    if off == from {
        assert(g[off] + 0x100 * g[off + 1] == x);
        lemma_words_same(f, g, from + 2, to);
    } else {
        lemma_words_store(f, from + 2, to, off, x);
        assert(g[from] == f[from] && g[from + 1] == f[from + 1]);
    }
}

/// What an address adds to the sums.
#[verifier::opaque]
spec fn halves(ip: u32) -> int {
    ip % 0x1_0000 + ip / 0x1_0000
}

/// The sums that matter, and the transport checksum.
struct Sums {
    ip: int,
    addresses: int,
    transport: int,
    checksum: u16,
}

#[verifier::opaque]
spec fn sums(f: Seq<u8>, l4: int, cs: int, end: int) -> Sums {
    Sums {
        ip: words(f, 14, l4),
        addresses: words(f, 26, 34),
        transport: words(f, l4, end),
        checksum: load16(f, cs),
    }
}

/// Whether the offsets are those of a frame.
spec fn laid_out(f: Seq<u8>, l4: int, cs: int, end: int) -> bool {
    &&& 34 <= l4
    &&& l4 % 2 == 0
    &&& cs == l4 + 16 || cs == l4 + 6
    &&& cs + 2 <= end <= f.len()
}

/// An address is written as two words.
proof fn lemma_two_words(f: Seq<u8>, off: int, x: u32) -> (r: (u16, u16))
    requires
        0 <= off,
        off + 4 <= f.len(),
    ensures
        store(f, off, bytes32(x)) == store(
            store(f, off, bytes16(r.0)),
            off + 2,
            bytes16(r.1),
        ),
        halves(x) == r.0 + r.1,
        halves(load32(f, off)) == load16(f, off) + load16(f, off + 2),
{
    reveal(halves);
    let lo = (x % 0x1_0000) as u16;
    let hi = (x / 0x1_0000) as u16;
    lemma_bytes32(x);
    assert(lo % 0x100 == x % 0x100);
    assert(lo / 0x100 == (x / 0x100) % 0x100);
    assert(hi % 0x100 == (x / 0x1_0000) % 0x100);
    assert(hi / 0x100 == x / 0x100_0000);
    assert(store(store(f, off, bytes16(lo)), off + 2, bytes16(hi)) =~= store(f, off, bytes32(x)));
    let (b0, b1, b2, b3) = (f[off] as int, f[off + 1] as int, f[off + 2] as int, f[off + 3] as int);
    let old = load32(f, off);
    assert(old == b0 + 0x100 * b1 + 0x1_0000 * (b2 + 0x100 * b3));
    assert(old % 0x1_0000 == b0 + 0x100 * b1);
    assert(old / 0x1_0000 == b2 + 0x100 * b3);
    (lo, hi)
}

proof fn lemma_sum_holds_checksum(f: Seq<u8>, l4: int, cs: int, end: int)
    ensures
        sums(f, l4, cs, end).checksum == load16(f, cs),
{
    reveal(sums);
}

proof fn lemma_store_address(f: Seq<u8>, l4: int, cs: int, end: int, off: int, x: u32)
    requires
        laid_out(f, l4, cs, end),
        off == 26 || off == 30,
    ensures
        ({
            let s = sums(f, l4, cs, end);
            let g = store(f, off, bytes32(x));
            let gain = halves(x) - halves(load32(f, off));
            &&& g.len() == f.len()
            &&& g[14] == f[14] && g[23] == f[23]
            &&& load16(g, 24) == load16(f, 24)
            &&& forall|i: int| l4 <= i < end ==> #[trigger] g[i] == f[i]
            &&& sums(g, l4, cs, end) == (Sums {
                ip: s.ip + gain,
                addresses: s.addresses + gain,
                ..s
            })
        }),
{
    let (lo, hi) = lemma_two_words(f, off, x);
    let g = store(f, off, bytes32(x));
    let h = store(f, off, bytes16(lo));
    assert(load16(h, off + 2) == load16(f, off + 2));
    lemma_words_store(f, 14, l4, off, lo);
    lemma_words_store(h, 14, l4, off + 2, hi);
    lemma_words_store(f, 26, 34, off, lo);
    lemma_words_store(h, 26, 34, off + 2, hi);
    lemma_words_same(f, g, l4, end);
    reveal(sums);
}

proof fn lemma_store_ip_checksum(f: Seq<u8>, l4: int, cs: int, end: int, x: u16)
    requires
        laid_out(f, l4, cs, end),
    ensures
        ({
            let s = sums(f, l4, cs, end);
            let g = store(f, 24, bytes16(x));
            &&& g.len() == f.len()
            &&& g[14] == f[14] && g[23] == f[23]
            &&& forall|i: int| l4 <= i < end ==> #[trigger] g[i] == f[i]
            &&& sums(g, l4, cs, end) == (Sums { ip: s.ip - load16(f, 24) + x, ..s })
        }),
{
    reveal(sums);
    let g = store(f, 24, bytes16(x));
    lemma_words_store(f, 14, l4, 24, x);
    lemma_words_same(f, g, 26, 34);
    lemma_words_same(f, g, l4, end);
}

proof fn lemma_store_transport(f: Seq<u8>, l4: int, cs: int, end: int, off: int, x: u16)
    requires
        laid_out(f, l4, cs, end),
        off == l4 || off == l4 + 2 || off == cs,
    ensures
        ({
            let s = sums(f, l4, cs, end);
            let g = store(f, off, bytes16(x));
            &&& g.len() == f.len()
            &&& g[14] == f[14] && g[23] == f[23]
            &&& forall|i: int|
                0 <= i < f.len() && !(off <= i < off + 2) ==> #[trigger] g[i] == f[i]
            &&& sums(g, l4, cs, end) == (Sums {
                transport: s.transport - load16(f, off) + x,
                checksum: if off == cs {
                    x
                } else {
                    s.checksum
                },
                ..s
            })
        }),
{
    reveal(sums);
    let g = store(f, off, bytes16(x));
    lemma_words_same(f, g, 14, l4);
    lemma_words_same(f, g, 26, 34);
    lemma_words_store(f, l4, end, off, x);
    assert(load16(g, off) == x);
}

/// The address and the IP checksum: what the first two edits do.
proof fn lemma_address_edits(
    f: Seq<u8>,
    l4: int,
    cs: int,
    end: int,
    off: usize,
    to: u32,
    pending: bool,
)
    requires
        laid_out(f, l4, cs, end),
        off == 26 || off == 30,
    ensures
        ({
            let from = load32(f, off as int);
            let f1 = edited_by(f, Edit::StoreAddr { off, addr: to }, pending);
            let f2 = edited_by(
                f1,
                Edit::L3Csum { off: 24, from: from as u64, to: to as u64, size: 4 },
                pending,
            );
            let s = sums(f, l4, cs, end);
            let r = sums(f2, l4, cs, end);
            &&& f2.len() == f.len()
            &&& f2[14] == f[14] && f2[23] == f[23]
            &&& forall|i: int| l4 <= i < end ==> #[trigger] f2[i] == f[i]
            &&& (r.ip - s.ip) % 0xffff == 0
            &&& r.addresses == s.addresses + halves(to) - halves(from)
            &&& r.transport == s.transport
            &&& r.checksum == s.checksum
        }),
{
    let from = load32(f, off as int);
    let f1 = store(f, off as int, bytes32(to));
    lemma_store_address(f, l4, cs, end, off as int, to);
    let new = adjusted(load16(f, 24), from as int, to as int);
    lemma_store_ip_checksum(f1, l4, cs, end, new);
    let q = lemma_congruent_ip(load16(f, 24), new, from, to);
    let e = Edit::L3Csum { off: 24, from: from as u64, to: to as u64, size: 4 };
    assert(field(from as u64, 4) == from);
    assert(field(to as u64, 4) == to);
    assert(edited_by(f1, e, pending) == store(f1, 24, bytes16(new)));
    let f2 = store(f1, 24, bytes16(new));
    assert(load16(f1, 24) == load16(f, 24));
    lemma_multiple(sums(f2, l4, cs, end).ip - sums(f, l4, cs, end).ip, q);
}

/// One adjustment of a complete transport checksum.
proof fn lemma_transport_edit(
    f: Seq<u8>,
    l4: int,
    cs: usize,
    end: int,
    from: u64,
    to: u64,
    flags: u64,
    size: int,
    optional: bool,
)
    requires
        laid_out(f, l4, cs as int, end),
        size == 2 || size == 4,
        flags as int % 16 == size,
        optional == ((flags / 0x20) % 2 == 1),
        !(optional && load16(f, cs as int) == 0),
    ensures
        ({
            let old = load16(f, cs as int);
            let a = adjusted(old, field(from, size), field(to, size));
            let g = edited_by(f, Edit::L4Csum { off: cs, from, to, flags }, false);
            let s = sums(f, l4, cs as int, end);
            let new: u16 = if optional && a == 0 {
                0xffff
            } else {
                a
            };
            &&& g.len() == f.len()
            &&& g[14] == f[14] && g[23] == f[23]
            &&& forall|i: int|
                0 <= i < f.len() && !(cs <= i < cs + 2) ==> #[trigger] g[i] == f[i]
            &&& sums(g, l4, cs as int, end) == (Sums {
                transport: s.transport - old + new,
                checksum: new,
                ..s
            })
        }),
{
    let old = load16(f, cs as int);
    let a = adjusted(old, field(from, size), field(to, size));
    let new: u16 = if optional && a == 0 {
        0xffff
    } else {
        a
    };
    lemma_store_transport(f, l4, cs as int, end, cs as int, new);
}

/// The transport checksum and the port, where the checksum is complete and there is one: what the
/// last three edits do.
proof fn lemma_port_edits(
    f: Seq<u8>,
    l4: int,
    cs: usize,
    end: int,
    from_ip: u32,
    to_ip: u32,
    port_off: usize,
    to_port: u16,
    optional: bool,
)
    requires
        laid_out(f, l4, cs as int, end),
        port_off == l4 || port_off == l4 + 2,
        !(optional && load16(f, cs as int) == 0),
    ensures
        ({
            let from_port = load16(f, port_off as int);
            let (flags4, flags2) = if optional {
                (0x34u64, 0x22u64)
            } else {
                (0x14u64, 0x02u64)
            };
            let f3 = edited_by(
                f,
                Edit::L4Csum { off: cs, from: from_ip as u64, to: to_ip as u64, flags: flags4 },
                false,
            );
            let f4 = edited_by(f3, Edit::StorePort { off: port_off, port: to_port }, false);
            let f5 = edited_by(
                f4,
                Edit::L4Csum {
                    off: cs,
                    from: from_port as u64,
                    to: to_port as u64,
                    flags: flags2,
                },
                false,
            );
            let s = sums(f, l4, cs as int, end);
            let r = sums(f5, l4, cs as int, end);
            &&& f5.len() == f.len()
            &&& f5[14] == f[14] && f5[23] == f[23]
            &&& r.ip == s.ip
            &&& r.addresses == s.addresses
            &&& (r.transport - s.transport + halves(to_ip) - halves(from_ip)) % 0xffff == 0
            &&& optional ==> r.checksum != 0
        }),
{
    let from_port = load16(f, port_off as int);
    let (flags4, flags2) = if optional {
        (0x34u64, 0x22u64)
    } else {
        (0x14u64, 0x02u64)
    };
    let c0 = load16(f, cs as int);
    assert(field(from_ip as u64, 4) == from_ip);
    assert(field(to_ip as u64, 4) == to_ip);
    assert(field(from_port as u64, 2) == from_port);
    assert(field(to_port as u64, 2) == to_port);
    lemma_transport_edit(f, l4, cs, end, from_ip as u64, to_ip as u64, flags4, 4, optional);
    let f3 = edited_by(
        f,
        Edit::L4Csum { off: cs, from: from_ip as u64, to: to_ip as u64, flags: flags4 },
        false,
    );
    let c1 = load16(f3, cs as int);
    assert(c1 == sums(f3, l4, cs as int, end).checksum);
    assert(load16(f3, port_off as int) == from_port);
    lemma_store_transport(f3, l4, cs as int, end, port_off as int, to_port);
    let f4 = store(f3, port_off as int, bytes16(to_port));
    assert(load16(f4, cs as int) == c1);
    lemma_transport_edit(f4, l4, cs, end, from_port as u64, to_port as u64, flags2, 2, optional);
    let f5 = edited_by(
        f4,
        Edit::L4Csum { off: cs, from: from_port as u64, to: to_port as u64, flags: flags2 },
        false,
    );
    let c2 = sums(f5, l4, cs as int, end).checksum;
    let q = lemma_congruent(c0, c1, c2, from_ip, to_ip, from_port, to_port);
    let s = sums(f, l4, cs as int, end);
    let r = sums(f5, l4, cs as int, end);
    lemma_multiple(r.transport - s.transport + halves(to_ip) - halves(from_ip), q);
}

/// The transport checksum and the port, where the checksum is to be completed, or there is none: what
/// the last three edits do.
proof fn lemma_port_edits_pending(
    f: Seq<u8>,
    l4: int,
    cs: usize,
    end: int,
    from_ip: u32,
    to_ip: u32,
    port_off: usize,
    from_port: u16,
    to_port: u16,
    optional: bool,
    pending: bool,
)
    requires
        laid_out(f, l4, cs as int, end),
        port_off == l4 || port_off == l4 + 2,
        pending || (optional && load16(f, cs as int) == 0),
    ensures
        ({
            let (flags4, flags2) = if optional {
                (0x34u64, 0x22u64)
            } else {
                (0x14u64, 0x02u64)
            };
            let f3 = edited_by(
                f,
                Edit::L4Csum { off: cs, from: from_ip as u64, to: to_ip as u64, flags: flags4 },
                pending,
            );
            let f4 = edited_by(f3, Edit::StorePort { off: port_off, port: to_port }, pending);
            let f5 = edited_by(
                f4,
                Edit::L4Csum {
                    off: cs,
                    from: from_port as u64,
                    to: to_port as u64,
                    flags: flags2,
                },
                pending,
            );
            let s = sums(f, l4, cs as int, end);
            let r = sums(f5, l4, cs as int, end);
            &&& f5.len() == f.len()
            &&& f5[14] == f[14] && f5[23] == f[23]
            &&& r.ip == s.ip
            &&& r.addresses == s.addresses
            &&& optional && s.checksum == 0 ==> r.checksum == 0
            &&& !(optional && s.checksum == 0) ==> (r.checksum - s.checksum - halves(to_ip)
                + halves(from_ip)) % 0xffff == 0
        }),
{
    let (flags4, flags2) = if optional {
        (0x34u64, 0x22u64)
    } else {
        (0x14u64, 0x02u64)
    };
    let c0 = load16(f, cs as int);
    assert(field(from_ip as u64, 4) == from_ip);
    assert(field(to_ip as u64, 4) == to_ip);
    lemma_sum_holds_checksum(f, l4, cs as int, end);
    let e4 = Edit::L4Csum { off: cs, from: from_ip as u64, to: to_ip as u64, flags: flags4 };
    let e2 = Edit::L4Csum { off: cs, from: from_port as u64, to: to_port as u64, flags: flags2 };
    let f3 = edited_by(f, e4, pending);
    let f4 = store(f3, port_off as int, bytes16(to_port));
    if optional && c0 == 0 {
        assert(f3 == f);
        lemma_store_transport(f, l4, cs as int, end, port_off as int, to_port);
        assert(load16(f4, cs as int) == 0);
        assert(edited_by(f4, e2, pending) == f4);
    } else {
        let c1 = carried(c0, from_ip as int, to_ip as int);
        assert(f3 == store(f, cs as int, bytes16(c1)));
        lemma_store_transport(f, l4, cs as int, end, cs as int, c1);
        lemma_store_transport(f3, l4, cs as int, end, port_off as int, to_port);
        assert(edited_by(f4, e2, pending) == f4);
        let q = lemma_congruent_pending(c0, from_ip, to_ip);
        lemma_multiple(c1 - c0 - halves(to_ip) + halves(from_ip), q);
    }
}

proof fn lemma_multiple(x: int, q: int)
    requires
        x == -0xffff * q,
    ensures
        x % 0xffff == 0,
{
}

/// What the sums say of the checksums.
proof fn lemma_read_sums(f: Seq<u8>, end: int)
    ensures
        ({
            let l4 = transport_at(f);
            let s = sums(f, l4, checksum_at(f), end);
            let len = end - l4;
            let base = 0x100 * f[23] + (len % 0x100) * 0x100 + len / 0x100;
            &&& ip_checksum_right(f) == (s.ip % 0xffff == 0)
            &&& checksum_of(f) == s.checksum
            &&& pseudo_header(f, end) == s.addresses + base
            &&& transport_checksum_right(f, end) == ((s.addresses + base + s.transport) % 0xffff
                == 0)
            &&& transport_checksum_prepared(f, end) == ((s.addresses + base - s.checksum) % 0xffff
                == 0)
        }),
{
    reveal(sums);
}

proof fn lemma_add_multiple(x: int, y: int)
    requires
        x % 0xffff == 0,
        (y - x) % 0xffff == 0,
    ensures
        y % 0xffff == 0,
{
}

/// What a translation does to the sums over a frame.
proof fn lemma_translated_sums(
    f: Seq<u8>,
    flow: Flow,
    s: Seq<Edit>,
    ip_off: int,
    to_ip: u32,
    port_off: int,
    to_port: u16,
    end: int,
    pending: bool,
)
    requires
        parsed(f) == Parsed::Transport(flow.hdr),
        s == flow.rewrite(
            ip_off,
            load32(f, ip_off),
            to_ip,
            port_off,
            load16(f, port_off),
            to_port,
        ),
        ip_off == 26 || ip_off == 30,
        port_off == transport_at(f) || port_off == transport_at(f) + 2,
        checksum_at(f) + 2 <= end <= f.len(),
    ensures
        ({
            let g = edited_all_by(f, s, pending);
            let l4 = transport_at(f);
            let from_ip = load32(f, ip_off);
            let optional = f[23] == 17;
            let a = sums(f, l4, checksum_at(f), end);
            let z = sums(g, l4, checksum_at(f), end);
            let moved = halves(to_ip) - halves(from_ip);
            &&& a.checksum == checksum_of(f)
            &&& g[14] == f[14] && g[23] == f[23]
            &&& (z.ip - a.ip) % 0xffff == 0
            &&& z.addresses == a.addresses + moved
            &&& optional && a.checksum == 0 ==> z.checksum == 0
            &&& pending && !(optional && a.checksum == 0) ==> (z.checksum - a.checksum - moved)
                % 0xffff == 0
            &&& !pending && !(optional && a.checksum == 0) ==> (z.transport - a.transport + moved)
                % 0xffff == 0
            &&& !pending && optional && a.checksum != 0 ==> z.checksum != 0
        }),
{
    let l4 = transport_at(f);
    let cs = checksum_at(f) as usize;
    let optional = f[23] == 17;
    let from_ip = load32(f, ip_off);
    let from_port = load16(f, port_off);
    assert(l4 == 14 + flow.hdr.ihl);
    assert(f[23] == flow.hdr.proto);
    assert(cs as int == checksum_at(f) && cs as int == flow.l4_csum_off());
    lemma_five(f, s, pending);
    lemma_address_edits(f, l4, cs as int, end, ip_off as usize, to_ip, pending);
    let f2 = edited_by(edited_by(f, s[0], pending), s[1], pending);
    assert(load16(f2, port_off) == from_port);
    lemma_sum_holds_checksum(f, l4, cs as int, end);
    if pending || (optional && load16(f2, cs as int) == 0) {
        lemma_port_edits_pending(
            f2,
            l4,
            cs,
            end,
            from_ip,
            to_ip,
            port_off as usize,
            from_port,
            to_port,
            optional,
            pending,
        );
    } else {
        lemma_port_edits(f2, l4, cs, end, from_ip, to_ip, port_off as usize, to_port, optional);
    }
}

/// What a translation does to the checksums of a frame.
proof fn lemma_checksums(
    f: Seq<u8>,
    flow: Flow,
    s: Seq<Edit>,
    ip_off: int,
    to_ip: u32,
    port_off: int,
    to_port: u16,
    end: int,
    pending: bool,
)
    requires
        parsed(f) == Parsed::Transport(flow.hdr),
        s == flow.rewrite(
            ip_off,
            load32(f, ip_off),
            to_ip,
            port_off,
            load16(f, port_off),
            to_port,
        ),
        ip_off == 26 || ip_off == 30,
        port_off == transport_at(f) || port_off == transport_at(f) + 2,
        checksum_at(f) + 2 <= end <= f.len(),
    ensures
        ({
            let g = edited_all_by(f, s, pending);
            &&& ip_checksum_right(f) ==> ip_checksum_right(g)
            &&& f[23] == 17 && checksum_of(f) == 0 ==> checksum_of(g) == 0
            &&& pending && checksum_of(f) != 0 && transport_checksum_prepared(f, end)
                ==> transport_checksum_prepared(g, end)
            &&& !pending && !(f[23] == 17 && checksum_of(f) == 0) && transport_checksum_right(f, end)
                ==> transport_checksum_right(g, end)
            &&& !pending && f[23] == 17 && checksum_of(f) != 0 ==> checksum_of(g) != 0
        }),
{
    let l4 = transport_at(f);
    let cs = checksum_at(f);
    let optional = f[23] == 17;
    let g = edited_all_by(f, s, pending);
    lemma_translated_sums(f, flow, s, ip_off, to_ip, port_off, to_port, end, pending);
    lemma_read_sums(f, end);
    lemma_read_sums(g, end);
    let a = sums(f, l4, cs, end);
    let z = sums(g, l4, cs, end);
    let len = end - l4;
    let base = 0x100 * f[23] + (len % 0x100) * 0x100 + len / 0x100;
    if ip_checksum_right(f) {
        lemma_add_multiple(a.ip, z.ip);
    }
    if !pending && !(optional && a.checksum == 0) && transport_checksum_right(f, end) {
        lemma_add_multiple(a.addresses + base + a.transport, z.addresses + base + z.transport);
    }
    if pending && a.checksum != 0 && transport_checksum_prepared(f, end) {
        lemma_take_multiple(a.addresses + base - a.checksum, z.addresses + base - z.checksum);
    }
}

proof fn lemma_take_multiple(x: int, y: int)
    requires
        x % 0xffff == 0,
        (x - y) % 0xffff == 0,
    ensures
        y % 0xffff == 0,
{
}

/// An adjusted checksum differs from the old one by what the field lost, up to a multiple of the
/// modulus.
proof fn lemma_congruent_ip(old: u16, new: u16, from: u32, to: u32) -> (q: int)
    requires
        new == adjusted(old, from as int, to as int),
    ensures
        new == old + halves(from) - halves(to) - 0xffff * q,
{
    reveal(halves);
    let x = old + from - to;
    let q = x / 0xffff - from / 0x1_0000 + to / 0x1_0000;
    assert(from == 0x1_0000 * (from / 0x1_0000) + from % 0x1_0000);
    assert(to == 0x1_0000 * (to / 0x1_0000) + to % 0x1_0000);
    assert(x == 0xffff * (x / 0xffff) + x % 0xffff);
    q
}

proof fn lemma_congruent(
    c0: u16,
    c1: u16,
    c2: u16,
    from_ip: u32,
    to_ip: u32,
    from_port: u16,
    to_port: u16,
) -> (q: int)
    requires
        ({
            let a1 = adjusted(c0, from_ip as int, to_ip as int);
            let a2 = adjusted(c1, from_port as int, to_port as int);
            &&& c1 == a1 || (a1 == 0 && c1 == 0xffff)
            &&& c2 == a2 || (a2 == 0 && c2 == 0xffff)
        }),
    ensures
        c2 == c0 + halves(from_ip) - halves(to_ip) + from_port - to_port - 0xffff * q,
{
    let a1 = adjusted(c0, from_ip as int, to_ip as int);
    let a2 = adjusted(c1, from_port as int, to_port as int);
    let q1 = lemma_congruent_ip(c0, a1, from_ip, to_ip);
    let y = c1 + from_port - to_port;
    assert(y == 0xffff * (y / 0xffff) + y % 0xffff);
    let e1: int = if c1 == a1 {
        0
    } else {
        1
    };
    let e2: int = if c2 == a2 {
        0
    } else {
        1
    };
    q1 - e1 + y / 0xffff - e2
}

proof fn lemma_congruent_pending(c0: u16, from: u32, to: u32) -> (q: int)
    ensures
        carried(c0, from as int, to as int) == c0 - halves(from) + halves(to) - 0xffff * q,
{
    reveal(halves);
    let y = c0 - from + to;
    assert(from == 0x1_0000 * (from / 0x1_0000) + from % 0x1_0000);
    assert(to == 0x1_0000 * (to / 0x1_0000) + to % 0x1_0000);
    assert(y == 0xffff * (y / 0xffff) + y % 0xffff);
    let e: int = if y % 0xffff == 0 {
        1
    } else {
        0
    };
    y / 0xffff - e + from / 0x1_0000 - to / 0x1_0000
}

/// Translation keeps checksums right, whatever the tables hold and whatever the node does: a frame
/// whose IP checksum is right has a right one after all edits, and so it is with the transport
/// checksum. A UDP packet without a checksum stays without one, and one with a checksum keeps it. A
/// checksum that the network card is to complete stays prepared. The packet ends at `end`, behind its
/// checksum.
pub proof fn law_checksums_stay_right(frame: Seq<u8>, end: int, now: u64, t: Tables, node: Node)
    requires
        parsed(frame) is Transport,
        checksum_at(frame) + 2 <= end <= frame.len(),
    ensures
        ({
            let flow = Flow { hdr: parsed(frame)->Transport_0, now };
            let edits = translate(t, flow, node).edits;
            let g = edited_all_by(frame, edits, false);
            let h = edited_all_by(frame, edits, true);
            &&& ip_checksum_right(frame) ==> ip_checksum_right(g) && ip_checksum_right(h)
            &&& frame[23] == 6 && transport_checksum_right(frame, end) ==> transport_checksum_right(
                g,
                end,
            )
            &&& frame[23] == 17 && checksum_of(frame) != 0 && transport_checksum_right(frame, end)
                ==> checksum_of(g) != 0 && transport_checksum_right(g, end)
            &&& frame[23] == 17 && checksum_of(frame) == 0 ==> checksum_of(g) == 0
            &&& checksum_of(frame) != 0 && transport_checksum_prepared(frame, end)
                ==> transport_checksum_prepared(h, end)
        }),
{
    let flow = Flow { hdr: parsed(frame)->Transport_0, now };
    let edits = translate(t, flow, node).edits;
    law_translation_edits(t, flow, node);
    if edits.len() > 0 {
        let h = flow.hdr;
        let l4 = transport_at(frame);
        assert(l4 == 14 + h.ihl);
        if exists|entry| edits == (#[trigger] (RewriteSource { flow, entry }).spec_edits()) {
            let entry = choose|entry| edits == (#[trigger] (RewriteSource { flow, entry }).spec_edits());
            lemma_checksums(frame, flow, edits, 26, entry.ip, l4, entry.port, end, false);
            lemma_checksums(frame, flow, edits, 26, entry.ip, l4, entry.port, end, true);
        } else {
            let entry = choose|entry|
                edits == (#[trigger] (RewriteDestination { flow, entry }).spec_edits());
            lemma_checksums(frame, flow, edits, 30, entry.ip, l4 + 2, entry.port, end, false);
            lemma_checksums(frame, flow, edits, 30, entry.ip, l4 + 2, entry.port, end, true);
        }
    }
}

}
