//! What becomes of a frame.
//!
//! Forwarding alternates between decisions and work that only the node's kernel can do: table
//! lookups and inserts, changes to the frame, route lookups. `try_forward` takes the first
//! decision. Each decision yields a `Step`: effects to perform in order, and what comes next,
//! either a verdict or a question whose answer is handed to `resume`.
//!
//! A flow from a client to a service is tracked in two halves. The forward half is found under the
//! client's tuple and names the backend; the reverse half is found under the backend's tuple and
//! names the service. Each half holds the key of the other.
use vstd::prelude::*;

use crate::common::{
    in_service_range, is_service_ip, BackendKey, BackendVal, Endpoint, NatKey, NatVal, ServiceKey,
    ServiceVal, COUNTER_CT_EVICT, COUNTER_FIB_MISS, COUNTER_MAP_HIT, COUNTER_REDIRECT,
    COUNTER_SERVICE_DNAT, COUNTER_SERVICE_PUNT, COUNTER_SERVICE_SNAT, CT_EST, CT_FIN_FWD,
    CT_FIN_REV,
};
use crate::datapath::packet::{
    nat_key, parse, parsed, tuple_key, Headers, Parsed, BPF_F_MARK_MANGLED_0, BPF_F_PSEUDO_HDR,
    ETH_HLEN, IPPROTO_TCP, IPPROTO_UDP, TCP_FIN, TCP_RST,
};

verus! {

/// A half is refreshed only where it was not for this long, to spare a table write on every packet
/// of a busy flow.
pub const CT_REFRESH_NS: u64 = 1_000_000_000;

/// Address family of a route lookup.
pub const AF_INET: u8 = 2;

/// A direction of a flow, and the table that tracks it.
#[derive(Clone, Copy, Debug, PartialEq, Eq, Structural)]
pub enum Half {
    /// From the client to the service.
    Forward,
    /// From the backend to the client.
    Reverse,
}

/// A change to a table or a counter that has no answer.
#[derive(Clone, Copy, Debug, PartialEq, Eq)]
pub enum Effect {
    /// Adds one to a counter.
    Bump(u32),
    /// Sets `last_seen` of an entry, where there is one.
    Refresh { half: Half, key: NatKey, now: u64 },
    /// Adds bits to `state` of an entry, where there is one.
    Mark { half: Half, key: NatKey, bits: u8 },
    /// Removes an entry, where there is one.
    Remove { half: Half, key: NatKey },
}

/// A change to the frame.
#[derive(Clone, Copy, Debug, PartialEq, Eq)]
pub enum Edit {
    /// Writes an address.
    StoreAddr { off: usize, addr: u32 },
    /// Writes a port.
    StorePort { off: usize, port: u16 },
    /// Writes a hardware address.
    StoreMac { off: usize, mac: [u8; 6] },
    /// Adjusts the IP checksum for a field that changed.
    L3Csum { off: usize, from: u64, to: u64, size: u64 },
    /// Adjusts the transport checksum for a field that changed.
    L4Csum { off: usize, from: u64, to: u64, flags: u64 },
}

/// What becomes of a frame.
#[derive(Clone, Copy, Debug, PartialEq, Eq, Structural)]
pub enum Verdict {
    /// The kernel handles it.
    Pass,
    /// It leaves through the interface of this index.
    Redirect(u32),
}

/// A route: the interface, and the hardware addresses of this end and the next hop.
#[derive(Clone, Copy, Debug, PartialEq, Eq)]
pub struct FibRoute {
    pub ifindex: u32,
    pub smac: [u8; 6],
    pub dmac: [u8; 6],
}

/// What comes next: a verdict, or a question.
#[derive(Clone, Copy, Debug, PartialEq, Eq)]
pub enum Next {
    Done(Verdict),
    FindReverse(FindReverse),
    FindForward(FindForward),
    FindService(FindService),
    FindBackend(FindBackend),
    InsertForward(InsertForward),
    InsertReverse(InsertReverse),
    RewriteSource(RewriteSource),
    RewriteDestination(RewriteDestination),
    FindEndpoint(FindEndpoint),
    StoreEndpoint(StoreEndpoint),
    FindRoute(FindRoute),
    StoreRoute(StoreRoute),
}

/// Effects to perform in order, then what comes next.
pub struct Step {
    pub effects: Vec<Effect>,
    pub next: Next,
}

impl View for Step {
    type V = (Seq<Effect>, Next);

    open spec fn view(&self) -> (Seq<Effect>, Next) {
        (self.effects@, self.next)
    }
}

fn step0(next: Next) -> (r: Step)
    ensures
        r@ == (Seq::<Effect>::empty(), next),
{
    Step { effects: Vec::new(), next }
}

fn step1(a: Effect, next: Next) -> (r: Step)
    ensures
        r@ == (seq![a], next),
{
    let mut effects: Vec<Effect> = Vec::new();
    effects.push(a);
    assert(effects@ == seq![a]);
    Step { effects, next }
}

fn step2(a: Effect, b: Effect, next: Next) -> (r: Step)
    ensures
        r@ == (seq![a, b], next),
{
    let mut effects: Vec<Effect> = Vec::new();
    effects.push(a);
    effects.push(b);
    assert(effects@ == seq![a, b]);
    Step { effects, next }
}

fn step3(a: Effect, b: Effect, c: Effect, next: Next) -> (r: Step)
    ensures
        r@ == (seq![a, b, c], next),
{
    let mut effects: Vec<Effect> = Vec::new();
    effects.push(a);
    effects.push(b);
    effects.push(c);
    assert(effects@ == seq![a, b, c]);
    Step { effects, next }
}

fn step4(a: Effect, b: Effect, c: Effect, d: Effect, next: Next) -> (r: Step)
    ensures
        r@ == (seq![a, b, c, d], next),
{
    let mut effects: Vec<Effect> = Vec::new();
    effects.push(a);
    effects.push(b);
    effects.push(c);
    effects.push(d);
    assert(effects@ == seq![a, b, c, d]);
    Step { effects, next }
}

/// Nothing more to do with this packet of a service: the kernel handles it.
pub open spec fn punt() -> (Seq<Effect>, Next) {
    (seq![Effect::Bump(COUNTER_SERVICE_PUNT)], Next::Done(Verdict::Pass))
}

fn punt_step() -> (r: Step)
    ensures
        r@ == punt(),
{
    step1(Effect::Bump(COUNTER_SERVICE_PUNT), Next::Done(Verdict::Pass))
}

/// The time from `since` to `now` on a clock of 64 bits that wraps round.
pub open spec fn elapsed(now: u64, since: u64) -> int {
    if since <= now {
        now - since
    } else {
        now - since + 0x1_0000_0000_0000_0000
    }
}

/// A TCP or UDP packet, and when it came.
#[derive(Clone, Copy, Debug, PartialEq, Eq, Structural)]
pub struct Flow {
    pub hdr: Headers,
    pub now: u64,
}

impl Flow {
    /// The key of the packet's own tuple.
    pub open spec fn spec_key(self) -> NatKey {
        tuple_key(
            self.hdr.src_ip,
            self.hdr.dst_ip,
            self.hdr.src_port,
            self.hdr.dst_port,
            self.hdr.proto,
        )
    }

    /// Whether the packet aborts its connection.
    pub open spec fn rst(self) -> bool {
        self.hdr.tcp_flags & TCP_RST != 0
    }

    /// Whether the packet closes its direction of a TCP connection.
    pub open spec fn fin(self) -> bool {
        self.hdr.proto == IPPROTO_TCP && self.hdr.tcp_flags & TCP_FIN != 0
    }

    /// Whether a half that was last refreshed at `last_seen` is due to be refreshed. An abort
    /// refreshes nothing.
    pub open spec fn due(self, last_seen: u64) -> bool {
        !self.rst() && elapsed(self.now, last_seen) > CT_REFRESH_NS
    }

    /// The effects of having found a half under this packet's key.
    pub open spec fn refresh(self, half: Half, entry: NatVal) -> Seq<Effect> {
        if self.due(entry.last_seen) {
            seq![Effect::Refresh { half, key: self.spec_key(), now: self.now }]
        } else {
            Seq::empty()
        }
    }

    /// Offset of the transport checksum.
    pub open spec fn l4_csum_off(self) -> int {
        if self.hdr.proto == IPPROTO_TCP {
            14 + self.hdr.ihl + 16
        } else {
            14 + self.hdr.ihl + 6
        }
    }

    /// Flags to adjust the transport checksum for an address.
    pub open spec fn addr_flags(self) -> u64 {
        if self.hdr.proto == IPPROTO_UDP {
            0x34
        } else {
            0x14
        }
    }

    /// Flags to adjust the transport checksum for a port.
    pub open spec fn port_flags(self) -> u64 {
        if self.hdr.proto == IPPROTO_UDP {
            0x22
        } else {
            0x02
        }
    }

    /// The edits that replace an address at `addr_off` and a port at `port_off`.
    pub open spec fn rewrite(
        self,
        addr_off: int,
        from_ip: u32,
        to_ip: u32,
        port_off: int,
        from_port: u16,
        to_port: u16,
    ) -> Seq<Edit> {
        seq![
            Edit::StoreAddr { off: addr_off as usize, addr: to_ip },
            Edit::L3Csum { off: 24, from: from_ip as u64, to: to_ip as u64, size: 4 },
            Edit::L4Csum {
                off: self.l4_csum_off() as usize,
                from: from_ip as u64,
                to: to_ip as u64,
                flags: self.addr_flags(),
            },
            Edit::StorePort { off: port_off as usize, port: to_port },
            Edit::L4Csum {
                off: self.l4_csum_off() as usize,
                from: from_port as u64,
                to: to_port as u64,
                flags: self.port_flags(),
            },
        ]
    }

    fn key(&self) -> (r: NatKey)
        ensures
            r == self.spec_key(),
    {
        nat_key(
            self.hdr.src_ip,
            self.hdr.dst_ip,
            self.hdr.src_port,
            self.hdr.dst_port,
            self.hdr.proto,
        )
    }

    fn is_rst(&self) -> (r: bool)
        ensures
            r == self.rst(),
    {
        self.hdr.tcp_flags & TCP_RST != 0
    }

    fn is_fin(&self) -> (r: bool)
        ensures
            r == self.fin(),
    {
        self.hdr.proto == IPPROTO_TCP && self.hdr.tcp_flags & TCP_FIN != 0
    }

    fn found(&self, half: Half, entry: NatVal, next: Next) -> (r: Step)
        ensures
            r@ == (self.refresh(half, entry), next),
    {
        if !self.is_rst() && self.now.wrapping_sub(entry.last_seen) > CT_REFRESH_NS {
            step1(Effect::Refresh { half, key: self.key(), now: self.now }, next)
        } else {
            step0(next)
        }
    }

    fn rewrite_edits(
        &self,
        addr_off: usize,
        from_ip: u32,
        to_ip: u32,
        port_off: usize,
        from_port: u16,
        to_port: u16,
    ) -> (r: Vec<Edit>)
        ensures
            r@ == self.rewrite(
                addr_off as int,
                from_ip,
                to_ip,
                port_off as int,
                from_port,
                to_port,
            ),
    {
        let l4: usize = ETH_HLEN + self.hdr.ihl as usize;
        let csum: usize = if self.hdr.proto == IPPROTO_TCP {
            l4 + 16
        } else {
            l4 + 6
        };
        let mangle: u64 = if self.hdr.proto == IPPROTO_UDP {
            BPF_F_MARK_MANGLED_0
        } else {
            0
        };
        assert(0x10u64 | 0x20u64 | 4u64 == 0x34u64) by (bit_vector);
        assert(0x10u64 | 0u64 | 4u64 == 0x14u64) by (bit_vector);
        assert(0x20u64 | 2u64 == 0x22u64) by (bit_vector);
        assert(0u64 | 2u64 == 0x02u64) by (bit_vector);
        let mut edits: Vec<Edit> = Vec::new();
        edits.push(Edit::StoreAddr { off: addr_off, addr: to_ip });
        edits.push(
            Edit::L3Csum { off: ETH_HLEN + 10, from: from_ip as u64, to: to_ip as u64, size: 4 },
        );
        edits.push(
            Edit::L4Csum {
                off: csum,
                from: from_ip as u64,
                to: to_ip as u64,
                flags: BPF_F_PSEUDO_HDR | mangle | 4,
            },
        );
        edits.push(Edit::StorePort { off: port_off, port: to_port });
        edits.push(
            Edit::L4Csum {
                off: csum,
                from: from_port as u64,
                to: to_port as u64,
                flags: mangle | 2,
            },
        );
        assert(edits@ == self.rewrite(
            addr_off as int,
            from_ip,
            to_ip,
            port_off as int,
            from_port,
            to_port,
        ));
        edits
    }
}

/// Whether both directions of a flow have closed, as this half knows it.
pub open spec fn both_closed(state: u8) -> bool {
    state & CT_FIN_FWD != 0 && state & CT_FIN_REV != 0
}

/// Looks for a reverse half under the packet's own key: is it a reply from a backend?
#[derive(Clone, Copy, Debug, PartialEq, Eq, Structural)]
pub struct FindReverse {
    pub flow: Flow,
}

impl FindReverse {
    /// The key to look for among the reverse halves.
    pub open spec fn spec_key(self) -> NatKey {
        self.flow.spec_key()
    }

    /// What follows from the answer.
    pub open spec fn after(self, found: Option<NatVal>) -> (Seq<Effect>, Next) {
        match found {
            Some(entry) => (
                self.flow.refresh(Half::Reverse, entry),
                Next::RewriteSource(RewriteSource { flow: self.flow, entry }),
            ),
            None => (
                Seq::empty(),
                if in_service_range(self.flow.hdr.dst_ip) {
                    Next::FindForward(FindForward { flow: self.flow })
                } else {
                    Next::FindEndpoint(
                        FindEndpoint {
                            src_ip: self.flow.hdr.src_ip,
                            dst_ip: self.flow.hdr.dst_ip,
                        },
                    )
                },
            ),
        }
    }

    /// The key to look for among the reverse halves.
    pub fn key(&self) -> (r: NatKey)
        ensures
            r == self.spec_key(),
            r == self.flow.spec_key(),
    {
        self.flow.key()
    }

    /// Goes on with what was found.
    pub fn resume(&self, found: Option<NatVal>) -> (r: Step)
        ensures
            r@ == self.after(found),
    {
        match found {
            Some(entry) => self.flow.found(
                Half::Reverse,
                entry,
                Next::RewriteSource(RewriteSource { flow: self.flow, entry }),
            ),
            None => {
                if is_service_ip(self.flow.hdr.dst_ip) {
                    step0(Next::FindForward(FindForward { flow: self.flow }))
                } else {
                    step0(
                        Next::FindEndpoint(
                            FindEndpoint {
                                src_ip: self.flow.hdr.src_ip,
                                dst_ip: self.flow.hdr.dst_ip,
                            },
                        ),
                    )
                }
            },
        }
    }
}

/// Looks for the forward half of a packet to a service.
#[derive(Clone, Copy, Debug, PartialEq, Eq, Structural)]
pub struct FindForward {
    pub flow: Flow,
}

impl FindForward {
    /// The key to look for among the forward halves.
    pub open spec fn spec_key(self) -> NatKey {
        self.flow.spec_key()
    }

    /// What follows from the answer.
    pub open spec fn after(self, found: Option<NatVal>) -> (Seq<Effect>, Next) {
        match found {
            Some(entry) => (
                self.flow.refresh(Half::Forward, entry),
                Next::RewriteDestination(RewriteDestination { flow: self.flow, entry }),
            ),
            None => (Seq::empty(), Next::FindService(FindService { flow: self.flow })),
        }
    }

    /// The key to look for among the forward halves.
    pub fn key(&self) -> (r: NatKey)
        ensures
            r == self.spec_key(),
            r == self.flow.spec_key(),
    {
        self.flow.key()
    }

    /// Goes on with what was found.
    pub fn resume(&self, found: Option<NatVal>) -> (r: Step)
        ensures
            r@ == self.after(found),
    {
        match found {
            Some(entry) => self.flow.found(
                Half::Forward,
                entry,
                Next::RewriteDestination(RewriteDestination { flow: self.flow, entry }),
            ),
            None => step0(Next::FindService(FindService { flow: self.flow })),
        }
    }
}

/// Looks for the service of the first packet of a flow.
#[derive(Clone, Copy, Debug, PartialEq, Eq, Structural)]
pub struct FindService {
    pub flow: Flow,
}

impl FindService {
    /// The key of the service.
    pub open spec fn spec_key(self) -> ServiceKey {
        ServiceKey {
            vip: self.flow.hdr.dst_ip,
            port: self.flow.hdr.dst_port,
            proto: self.flow.hdr.proto,
            _pad: 0,
        }
    }

    /// What follows from the answer and a random number: a slot among the backends, or nothing
    /// where there is no such service or it has no backend.
    pub open spec fn after(self, found: Option<ServiceVal>, random: u32) -> (Seq<Effect>, Next) {
        match found {
            Some(svc) => if svc.backend_count == 0 {
                punt()
            } else {
                (
                    Seq::empty(),
                    Next::FindBackend(
                        FindBackend {
                            flow: self.flow,
                            service_id: svc.service_id,
                            index: random % svc.backend_count,
                        },
                    ),
                )
            },
            None => punt(),
        }
    }

    /// The key of the service.
    pub fn key(&self) -> (r: ServiceKey)
        ensures
            r == self.spec_key(),
    {
        ServiceKey {
            vip: self.flow.hdr.dst_ip,
            port: self.flow.hdr.dst_port,
            proto: self.flow.hdr.proto,
            _pad: 0,
        }
    }

    /// Goes on with what was found.
    pub fn resume(&self, found: Option<ServiceVal>, random: u32) -> (r: Step)
        ensures
            r@ == self.after(found, random),
    {
        match found {
            Some(svc) => {
                if svc.backend_count == 0 {
                    punt_step()
                } else {
                    step0(
                        Next::FindBackend(
                            FindBackend {
                                flow: self.flow,
                                service_id: svc.service_id,
                                index: random % svc.backend_count,
                            },
                        ),
                    )
                }
            },
            None => punt_step(),
        }
    }
}

/// Looks for the backend in the slot that was picked.
#[derive(Clone, Copy, Debug, PartialEq, Eq, Structural)]
pub struct FindBackend {
    pub flow: Flow,
    pub service_id: u32,
    pub index: u32,
}

impl FindBackend {
    /// The key of the backend.
    pub open spec fn spec_key(self) -> BackendKey {
        BackendKey {
            service_id: self.service_id,
            index: self.index,
            port: self.flow.hdr.dst_port,
            proto: self.flow.hdr.proto,
            _pad: 0,
        }
    }

    /// What follows from the answer.
    pub open spec fn after(self, found: Option<BackendVal>) -> (Seq<Effect>, Next) {
        match found {
            Some(bk) => (
                Seq::empty(),
                Next::InsertForward(
                    InsertForward { flow: self.flow, pod_ip: bk.pod_ip, pod_port: bk.pod_port },
                ),
            ),
            None => punt(),
        }
    }

    /// The key of the backend.
    pub fn key(&self) -> (r: BackendKey)
        ensures
            r == self.spec_key(),
    {
        BackendKey {
            service_id: self.service_id,
            index: self.index,
            port: self.flow.hdr.dst_port,
            proto: self.flow.hdr.proto,
            _pad: 0,
        }
    }

    /// Goes on with what was found.
    pub fn resume(&self, found: Option<BackendVal>) -> (r: Step)
        ensures
            r@ == self.after(found),
    {
        match found {
            Some(bk) => step0(
                Next::InsertForward(
                    InsertForward { flow: self.flow, pod_ip: bk.pod_ip, pod_port: bk.pod_port },
                ),
            ),
            None => punt_step(),
        }
    }
}

/// The key of the reverse half of a flow whose backend is `pod_ip`:`pod_port`.
pub open spec fn reverse_key(forward: NatKey, pod_ip: u32, pod_port: u16) -> NatKey {
    tuple_key(pod_ip, forward.src_ip, pod_port, forward.src_port, forward.proto)
}

/// A new forward half.
pub open spec fn forward_half(forward: NatKey, pod_ip: u32, pod_port: u16, now: u64) -> NatVal {
    NatVal {
        ip: pod_ip,
        port: pod_port,
        state: 0,
        _pad: 0,
        last_seen: now,
        partner: reverse_key(forward, pod_ip, pod_port),
    }
}

/// A new reverse half.
pub open spec fn reverse_half(forward: NatKey, now: u64) -> NatVal {
    NatVal {
        ip: forward.dst_ip,
        port: forward.dst_port,
        state: 0,
        _pad: 0,
        last_seen: now,
        partner: forward,
    }
}

/// Inserts the forward half of a new flow. A full table means that the flow cannot be tracked:
/// the kernel handles it, since without tracking every packet would pick a backend anew.
#[derive(Clone, Copy, Debug, PartialEq, Eq, Structural)]
pub struct InsertForward {
    pub flow: Flow,
    pub pod_ip: u32,
    pub pod_port: u16,
}

impl InsertForward {
    /// The key to insert under.
    pub open spec fn spec_key(self) -> NatKey {
        self.flow.spec_key()
    }

    /// The half to insert.
    pub open spec fn spec_value(self) -> NatVal {
        forward_half(self.flow.spec_key(), self.pod_ip, self.pod_port, self.flow.now)
    }

    /// What follows from whether it was inserted.
    pub open spec fn after(self, inserted: bool) -> (Seq<Effect>, Next) {
        if inserted {
            (
                Seq::empty(),
                Next::InsertReverse(
                    InsertReverse {
                        flow: self.flow,
                        pod_ip: self.pod_ip,
                        pod_port: self.pod_port,
                    },
                ),
            )
        } else {
            punt()
        }
    }

    /// The key to insert under.
    pub fn key(&self) -> (r: NatKey)
        ensures
            r == self.spec_key(),
            r == self.flow.spec_key(),
    {
        self.flow.key()
    }

    /// The half to insert.
    pub fn value(&self) -> (r: NatVal)
        ensures
            r == self.spec_value(),
    {
        NatVal {
            ip: self.pod_ip,
            port: self.pod_port,
            state: 0,
            _pad: 0,
            last_seen: self.flow.now,
            partner: nat_key(
                self.pod_ip,
                self.flow.hdr.src_ip,
                self.pod_port,
                self.flow.hdr.src_port,
                self.flow.hdr.proto,
            ),
        }
    }

    /// Goes on with whether it was inserted.
    pub fn resume(&self, inserted: bool) -> (r: Step)
        ensures
            r@ == self.after(inserted),
    {
        if inserted {
            step0(
                Next::InsertReverse(
                    InsertReverse {
                        flow: self.flow,
                        pod_ip: self.pod_ip,
                        pod_port: self.pod_port,
                    },
                ),
            )
        } else {
            punt_step()
        }
    }
}

/// Inserts the reverse half of a new flow. Where that fails the forward half goes too.
#[derive(Clone, Copy, Debug, PartialEq, Eq, Structural)]
pub struct InsertReverse {
    pub flow: Flow,
    pub pod_ip: u32,
    pub pod_port: u16,
}

impl InsertReverse {
    /// The key to insert under.
    pub open spec fn spec_key(self) -> NatKey {
        reverse_key(self.flow.spec_key(), self.pod_ip, self.pod_port)
    }

    /// The half to insert.
    pub open spec fn spec_value(self) -> NatVal {
        reverse_half(self.flow.spec_key(), self.flow.now)
    }

    /// What follows from whether it was inserted.
    pub open spec fn after(self, inserted: bool) -> (Seq<Effect>, Next) {
        if inserted {
            (
                Seq::empty(),
                Next::RewriteDestination(
                    RewriteDestination {
                        flow: self.flow,
                        entry: forward_half(
                            self.flow.spec_key(),
                            self.pod_ip,
                            self.pod_port,
                            self.flow.now,
                        ),
                    },
                ),
            )
        } else {
            (
                seq![
                    Effect::Remove { half: Half::Forward, key: self.flow.spec_key() },
                    Effect::Bump(COUNTER_SERVICE_PUNT),
                ],
                Next::Done(Verdict::Pass),
            )
        }
    }

    /// The key to insert under.
    pub fn key(&self) -> (r: NatKey)
        ensures
            r == self.spec_key(),
    {
        nat_key(
            self.pod_ip,
            self.flow.hdr.src_ip,
            self.pod_port,
            self.flow.hdr.src_port,
            self.flow.hdr.proto,
        )
    }

    /// The half to insert.
    pub fn value(&self) -> (r: NatVal)
        ensures
            r == self.spec_value(),
    {
        NatVal {
            ip: self.flow.hdr.dst_ip,
            port: self.flow.hdr.dst_port,
            state: 0,
            _pad: 0,
            last_seen: self.flow.now,
            partner: self.flow.key(),
        }
    }

    /// Goes on with whether it was inserted.
    pub fn resume(&self, inserted: bool) -> (r: Step)
        ensures
            r@ == self.after(inserted),
    {
        if inserted {
            let entry: NatVal = NatVal {
                ip: self.pod_ip,
                port: self.pod_port,
                state: 0,
                _pad: 0,
                last_seen: self.flow.now,
                partner: self.key(),
            };
            step0(Next::RewriteDestination(RewriteDestination { flow: self.flow, entry }))
        } else {
            step2(
                Effect::Remove { half: Half::Forward, key: self.flow.key() },
                Effect::Bump(COUNTER_SERVICE_PUNT),
                Next::Done(Verdict::Pass),
            )
        }
    }
}

/// Makes a backend's reply come from the service: rewrites its source.
#[derive(Clone, Copy, Debug, PartialEq, Eq)]
pub struct RewriteSource {
    pub flow: Flow,
    pub entry: NatVal,
}

impl RewriteSource {
    /// The edits to make, in order.
    pub open spec fn spec_edits(self) -> Seq<Edit> {
        let hdr = self.flow.hdr;
        self.flow.rewrite(26, hdr.src_ip, self.entry.ip, 14 + hdr.ihl, hdr.src_port, self.entry.port)
    }

    /// What the reply does to the tracked flow. An abort removes both halves. A FIN is recorded on
    /// the forward half, where the client's packets find it; where the client's FIN came before,
    /// both bits are put there, for the final ACK to see. The final ACK removes both halves. The
    /// first reply of a TCP flow marks both halves established; UDP flows are not marked.
    pub open spec fn tracking(self) -> Seq<Effect> {
        let own = self.flow.spec_key();
        let partner = self.entry.partner;
        let state = self.entry.state;
        if self.flow.rst() {
            seq![
                Effect::Remove { half: Half::Reverse, key: own },
                Effect::Remove { half: Half::Forward, key: partner },
                Effect::Bump(COUNTER_CT_EVICT),
            ]
        } else if self.flow.fin() {
            seq![
                Effect::Mark {
                    half: Half::Forward,
                    key: partner,
                    bits: if state & CT_FIN_FWD != 0 {
                        CT_FIN_FWD | CT_FIN_REV
                    } else {
                        CT_FIN_REV
                    },
                },
            ]
        } else if self.flow.hdr.proto == IPPROTO_TCP && both_closed(state) {
            seq![
                Effect::Remove { half: Half::Forward, key: partner },
                Effect::Remove { half: Half::Reverse, key: own },
                Effect::Bump(COUNTER_CT_EVICT),
            ]
        } else if self.flow.hdr.proto == IPPROTO_TCP && state & CT_EST == 0 {
            seq![
                Effect::Mark { half: Half::Forward, key: partner, bits: CT_EST },
                Effect::Mark { half: Half::Reverse, key: own, bits: CT_EST },
            ]
        } else {
            Seq::empty()
        }
    }

    /// What follows from whether the edits were made. The packet goes on to the client.
    pub open spec fn after(self, edited: bool) -> (Seq<Effect>, Next) {
        if edited {
            (
                seq![Effect::Bump(COUNTER_SERVICE_SNAT)] + self.tracking(),
                Next::FindEndpoint(
                    FindEndpoint { src_ip: self.entry.ip, dst_ip: self.flow.hdr.dst_ip },
                ),
            )
        } else {
            (Seq::empty(), Next::Done(Verdict::Pass))
        }
    }

    /// The edits to make, in order, up to the first that fails.
    pub fn edits(&self) -> (r: Vec<Edit>)
        ensures
            r@ == self.spec_edits(),
    {
        self.flow.rewrite_edits(
            ETH_HLEN + 12,
            self.flow.hdr.src_ip,
            self.entry.ip,
            ETH_HLEN + self.flow.hdr.ihl as usize,
            self.flow.hdr.src_port,
            self.entry.port,
        )
    }

    /// Goes on with whether all edits were made.
    pub fn resume(&self, edited: bool) -> (r: Step)
        ensures
            r@ == self.after(edited),
    {
        if !edited {
            return step0(Next::Done(Verdict::Pass));
        }
        let own: NatKey = self.flow.key();
        let partner: NatKey = self.entry.partner;
        let state: u8 = self.entry.state;
        let bump: Effect = Effect::Bump(COUNTER_SERVICE_SNAT);
        let next: Next = Next::FindEndpoint(
            FindEndpoint { src_ip: self.entry.ip, dst_ip: self.flow.hdr.dst_ip },
        );
        let r: Step = if self.flow.is_rst() {
            step4(
                bump,
                Effect::Remove { half: Half::Reverse, key: own },
                Effect::Remove { half: Half::Forward, key: partner },
                Effect::Bump(COUNTER_CT_EVICT),
                next,
            )
        } else if self.flow.is_fin() {
            let bits: u8 = if state & CT_FIN_FWD != 0 {
                CT_FIN_FWD | CT_FIN_REV
            } else {
                CT_FIN_REV
            };
            step2(bump, Effect::Mark { half: Half::Forward, key: partner, bits }, next)
        } else if self.flow.hdr.proto == IPPROTO_TCP && state & CT_FIN_FWD != 0 && state
            & CT_FIN_REV != 0 {
            step4(
                bump,
                Effect::Remove { half: Half::Forward, key: partner },
                Effect::Remove { half: Half::Reverse, key: own },
                Effect::Bump(COUNTER_CT_EVICT),
                next,
            )
        } else if self.flow.hdr.proto == IPPROTO_TCP && state & CT_EST == 0 {
            step3(
                bump,
                Effect::Mark { half: Half::Forward, key: partner, bits: CT_EST },
                Effect::Mark { half: Half::Reverse, key: own, bits: CT_EST },
                next,
            )
        } else {
            step1(bump, next)
        };
        assert(r.effects@ =~= self.after(true).0);
        r
    }
}

/// Makes a packet to a service go to its backend: rewrites its destination.
#[derive(Clone, Copy, Debug, PartialEq, Eq)]
pub struct RewriteDestination {
    pub flow: Flow,
    pub entry: NatVal,
}

impl RewriteDestination {
    /// The edits to make, in order.
    pub open spec fn spec_edits(self) -> Seq<Edit> {
        let hdr = self.flow.hdr;
        self.flow.rewrite(
            30,
            hdr.dst_ip,
            self.entry.ip,
            14 + hdr.ihl + 2,
            hdr.dst_port,
            self.entry.port,
        )
    }

    /// What the packet does to the tracked flow. An abort removes both halves. A FIN is recorded on
    /// the reverse half, where the backend's packets find it; where the backend's FIN came before,
    /// both bits are put there, for the final ACK to see. The final ACK removes both halves.
    pub open spec fn tracking(self) -> Seq<Effect> {
        let own = self.flow.spec_key();
        let partner = self.entry.partner;
        let state = self.entry.state;
        if self.flow.rst() || (!self.flow.fin() && self.flow.hdr.proto == IPPROTO_TCP
            && both_closed(state)) {
            seq![
                Effect::Remove { half: Half::Forward, key: own },
                Effect::Remove { half: Half::Reverse, key: partner },
                Effect::Bump(COUNTER_CT_EVICT),
            ]
        } else if self.flow.fin() {
            seq![
                Effect::Mark {
                    half: Half::Reverse,
                    key: partner,
                    bits: if state & CT_FIN_REV != 0 {
                        CT_FIN_FWD | CT_FIN_REV
                    } else {
                        CT_FIN_FWD
                    },
                },
            ]
        } else {
            Seq::empty()
        }
    }

    /// What follows from whether the edits were made. The packet goes on to the backend.
    pub open spec fn after(self, edited: bool) -> (Seq<Effect>, Next) {
        if edited {
            (
                seq![Effect::Bump(COUNTER_SERVICE_DNAT)] + self.tracking(),
                Next::FindEndpoint(
                    FindEndpoint { src_ip: self.flow.hdr.src_ip, dst_ip: self.entry.ip },
                ),
            )
        } else {
            (Seq::empty(), Next::Done(Verdict::Pass))
        }
    }

    /// The edits to make, in order, up to the first that fails.
    pub fn edits(&self) -> (r: Vec<Edit>)
        ensures
            r@ == self.spec_edits(),
    {
        self.flow.rewrite_edits(
            ETH_HLEN + 16,
            self.flow.hdr.dst_ip,
            self.entry.ip,
            ETH_HLEN + self.flow.hdr.ihl as usize + 2,
            self.flow.hdr.dst_port,
            self.entry.port,
        )
    }

    /// Goes on with whether all edits were made.
    pub fn resume(&self, edited: bool) -> (r: Step)
        ensures
            r@ == self.after(edited),
    {
        if !edited {
            return step0(Next::Done(Verdict::Pass));
        }
        let own: NatKey = self.flow.key();
        let partner: NatKey = self.entry.partner;
        let state: u8 = self.entry.state;
        let bump: Effect = Effect::Bump(COUNTER_SERVICE_DNAT);
        let next: Next = Next::FindEndpoint(
            FindEndpoint { src_ip: self.flow.hdr.src_ip, dst_ip: self.entry.ip },
        );
        let closed: bool = self.flow.hdr.proto == IPPROTO_TCP && state & CT_FIN_FWD != 0 && state
            & CT_FIN_REV != 0;
        let r: Step = if self.flow.is_rst() || (!self.flow.is_fin() && closed) {
            step4(
                bump,
                Effect::Remove { half: Half::Forward, key: own },
                Effect::Remove { half: Half::Reverse, key: partner },
                Effect::Bump(COUNTER_CT_EVICT),
                next,
            )
        } else if self.flow.is_fin() {
            let bits: u8 = if state & CT_FIN_REV != 0 {
                CT_FIN_FWD | CT_FIN_REV
            } else {
                CT_FIN_FWD
            };
            step2(bump, Effect::Mark { half: Half::Reverse, key: partner, bits }, next)
        } else {
            step1(bump, next)
        };
        assert(r.effects@ =~= self.after(true).0);
        r
    }
}

/// Looks for a pod of this node under the destination address.
#[derive(Clone, Copy, Debug, PartialEq, Eq, Structural)]
pub struct FindEndpoint {
    pub src_ip: u32,
    pub dst_ip: u32,
}

impl FindEndpoint {
    /// The key of the endpoint.
    pub open spec fn spec_key(self) -> u32 {
        self.dst_ip
    }

    /// What follows from the answer.
    pub open spec fn after(self, found: Option<Endpoint>) -> (Seq<Effect>, Next) {
        match found {
            Some(endpoint) => (Seq::empty(), Next::StoreEndpoint(StoreEndpoint { endpoint })),
            None => (
                Seq::empty(),
                Next::FindRoute(FindRoute { src_ip: self.src_ip, dst_ip: self.dst_ip }),
            ),
        }
    }

    /// The key of the endpoint.
    pub fn key(&self) -> (r: u32)
        ensures
            r == self.spec_key(),
            r == self.dst_ip,
    {
        self.dst_ip
    }

    /// Goes on with what was found.
    pub fn resume(&self, found: Option<Endpoint>) -> (r: Step)
        ensures
            r@ == self.after(found),
    {
        match found {
            Some(endpoint) => step0(Next::StoreEndpoint(StoreEndpoint { endpoint })),
            None => step0(
                Next::FindRoute(FindRoute { src_ip: self.src_ip, dst_ip: self.dst_ip }),
            ),
        }
    }
}

/// Addresses the frame to a pod of this node.
#[derive(Clone, Copy, Debug, PartialEq, Eq)]
pub struct StoreEndpoint {
    pub endpoint: Endpoint,
}

impl StoreEndpoint {
    /// The edits to make, in order.
    pub open spec fn spec_edits(self) -> Seq<Edit> {
        seq![Edit::StoreMac { off: 0, mac: self.endpoint.mac }]
    }

    /// What follows from whether the edits were made.
    pub open spec fn after(self, edited: bool) -> (Seq<Effect>, Next) {
        if edited {
            (
                seq![Effect::Bump(COUNTER_MAP_HIT)],
                Next::Done(Verdict::Redirect(self.endpoint.ifindex)),
            )
        } else {
            (Seq::empty(), Next::Done(Verdict::Pass))
        }
    }

    /// The edits to make, in order, up to the first that fails.
    pub fn edits(&self) -> (r: Vec<Edit>)
        ensures
            r@ == self.spec_edits(),
    {
        let mut edits: Vec<Edit> = Vec::new();
        edits.push(Edit::StoreMac { off: 0, mac: self.endpoint.mac });
        assert(edits@ == self.spec_edits());
        edits
    }

    /// Goes on with whether all edits were made.
    pub fn resume(&self, edited: bool) -> (r: Step)
        ensures
            r@ == self.after(edited),
    {
        if edited {
            step1(
                Effect::Bump(COUNTER_MAP_HIT),
                Next::Done(Verdict::Redirect(self.endpoint.ifindex)),
            )
        } else {
            step0(Next::Done(Verdict::Pass))
        }
    }
}

/// Asks the node's routing table for the way from `src_ip` to `dst_ip`, as the frame now holds
/// them, in the address family `AF_INET`.
#[derive(Clone, Copy, Debug, PartialEq, Eq, Structural)]
pub struct FindRoute {
    pub src_ip: u32,
    pub dst_ip: u32,
}

impl FindRoute {
    /// What follows from the answer.
    pub open spec fn after(self, found: Option<FibRoute>) -> (Seq<Effect>, Next) {
        match found {
            Some(route) => (Seq::empty(), Next::StoreRoute(StoreRoute { route })),
            None => (seq![Effect::Bump(COUNTER_FIB_MISS)], Next::Done(Verdict::Pass)),
        }
    }

    /// Goes on with what was found.
    pub fn resume(&self, found: Option<FibRoute>) -> (r: Step)
        ensures
            r@ == self.after(found),
    {
        match found {
            Some(route) => step0(Next::StoreRoute(StoreRoute { route })),
            None => step1(Effect::Bump(COUNTER_FIB_MISS), Next::Done(Verdict::Pass)),
        }
    }
}

/// Addresses the frame to the next hop of a route.
#[derive(Clone, Copy, Debug, PartialEq, Eq)]
pub struct StoreRoute {
    pub route: FibRoute,
}

impl StoreRoute {
    /// The edits to make, in order.
    pub open spec fn spec_edits(self) -> Seq<Edit> {
        seq![
            Edit::StoreMac { off: 0, mac: self.route.dmac },
            Edit::StoreMac { off: 6, mac: self.route.smac },
        ]
    }

    /// What follows from whether the edits were made.
    pub open spec fn after(self, edited: bool) -> (Seq<Effect>, Next) {
        if edited {
            (
                seq![Effect::Bump(COUNTER_REDIRECT)],
                Next::Done(Verdict::Redirect(self.route.ifindex)),
            )
        } else {
            (Seq::empty(), Next::Done(Verdict::Pass))
        }
    }

    /// The edits to make, in order, up to the first that fails.
    pub fn edits(&self) -> (r: Vec<Edit>)
        ensures
            r@ == self.spec_edits(),
    {
        let mut edits: Vec<Edit> = Vec::new();
        edits.push(Edit::StoreMac { off: 0, mac: self.route.dmac });
        edits.push(Edit::StoreMac { off: 6, mac: self.route.smac });
        assert(edits@ == self.spec_edits());
        edits
    }

    /// Goes on with whether all edits were made.
    pub fn resume(&self, edited: bool) -> (r: Step)
        ensures
            r@ == self.after(edited),
    {
        if edited {
            step1(
                Effect::Bump(COUNTER_REDIRECT),
                Next::Done(Verdict::Redirect(self.route.ifindex)),
            )
        } else {
            step0(Next::Done(Verdict::Pass))
        }
    }
}

/// The first step for what a frame holds.
pub open spec fn first_step(headers: Parsed, now: u64) -> (Seq<Effect>, Next) {
    match headers {
        Parsed::Ignored => (Seq::empty(), Next::Done(Verdict::Pass)),
        Parsed::Plain { src_ip, dst_ip } => if in_service_range(dst_ip) {
            punt()
        } else {
            (Seq::empty(), Next::FindEndpoint(FindEndpoint { src_ip, dst_ip }))
        },
        Parsed::Transport(hdr) => (
            Seq::empty(),
            Next::FindReverse(FindReverse { flow: Flow { hdr, now } }),
        ),
    }
}

/// Starts on a frame that came at `now`. What is not IPv4 or is cut short is left to the kernel, as
/// is what a service gets that is neither TCP nor UDP.
pub fn try_forward(frame: &[u8], now: u64) -> (r: Step)
    ensures
        r@ == first_step(parsed(frame@), now),
{
    match parse(frame) {
        Parsed::Ignored => step0(Next::Done(Verdict::Pass)),
        Parsed::Plain { src_ip, dst_ip } => {
            if is_service_ip(dst_ip) {
                punt_step()
            } else {
                step0(Next::FindEndpoint(FindEndpoint { src_ip, dst_ip }))
            }
        },
        Parsed::Transport(hdr) => {
            let flow: Flow = Flow { hdr, now };
            step0(Next::FindReverse(FindReverse { flow }))
        },
    }
}

}
