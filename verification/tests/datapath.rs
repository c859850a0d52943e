use std::collections::HashMap;

use arachne::common::{
    endpoint_key, port_key, BackendKey, BackendVal, Endpoint, NatKey, NatVal, ServiceKey,
    ServiceVal, COUNTER_CT_EVICT, COUNTER_FIB_MISS, COUNTER_MAP_HIT, COUNTER_REDIRECT,
    COUNTER_SERVICE_DNAT, COUNTER_SERVICE_PUNT, COUNTER_SERVICE_SNAT, CT_EST, CT_FIN_FWD,
    CT_FIN_REV,
};
use arachne::datapath::forward::{
    try_forward, Edit, Effect, FibRoute, Half, Next, Step, Verdict, CT_REFRESH_NS,
};
use arachne::datapath::packet::{
    parse, Parsed, BPF_F_MARK_MANGLED_0, BPF_F_PSEUDO_HDR, IPPROTO_TCP, IPPROTO_UDP,
};
use arachne::net::Ipv4Addr;

const FIN: u8 = 0x01;
const SYN: u8 = 0x02;
const RST: u8 = 0x04;
const ACK: u8 = 0x10;

fn key_parts(k: &NatKey) -> (u32, u32, u16, u16, u8) {
    (k.src_ip, k.dst_ip, k.src_port, k.dst_port, k.proto)
}

fn service_parts(k: &ServiceKey) -> (u32, u16, u8) {
    (k.vip, k.port, k.proto)
}

fn backend_parts(k: &BackendKey) -> (u32, u32, u16, u8) {
    (k.service_id, k.index, k.port, k.proto)
}

/// A node whose tables are in memory.
struct Node {
    forward: HashMap<(u32, u32, u16, u16, u8), NatVal>,
    reverse: HashMap<(u32, u32, u16, u16, u8), NatVal>,
    services: HashMap<(u32, u16, u8), ServiceVal>,
    backends: HashMap<(u32, u32, u16, u8), BackendVal>,
    endpoints: HashMap<u32, Endpoint>,
    route: Option<FibRoute>,
    forward_room: bool,
    reverse_room: bool,
    editable: bool,
    random: u32,
    counters: [u64; 7],
    edits: Vec<Edit>,
}

impl Node {
    fn new() -> Node {
        Node {
            forward: HashMap::new(),
            reverse: HashMap::new(),
            services: HashMap::new(),
            backends: HashMap::new(),
            endpoints: HashMap::new(),
            route: None,
            forward_room: true,
            reverse_room: true,
            editable: true,
            random: 0,
            counters: [0; 7],
            edits: Vec::new(),
        }
    }

    fn table(&mut self, half: Half) -> &mut HashMap<(u32, u32, u16, u16, u8), NatVal> {
        match half {
            Half::Forward => &mut self.forward,
            Half::Reverse => &mut self.reverse,
        }
    }

    fn perform(&mut self, effect: &Effect) {
        match effect {
            Effect::Bump(i) => self.counters[*i as usize] += 1,
            Effect::Refresh { half, key, now } => {
                if let Some(v) = self.table(*half).get_mut(&key_parts(key)) {
                    v.last_seen = *now;
                }
            }
            Effect::Mark { half, key, bits } => {
                if let Some(v) = self.table(*half).get_mut(&key_parts(key)) {
                    v.state |= *bits;
                }
            }
            Effect::Remove { half, key } => {
                self.table(*half).remove(&key_parts(key));
            }
        }
    }

    fn edit(&mut self, edits: Vec<Edit>) -> bool {
        if self.editable {
            self.edits.extend(edits);
        }
        self.editable
    }

    /// Forwards a frame, and says what became of it and which edits were made.
    fn forward(&mut self, frame: &[u8], now: u64) -> (Verdict, Vec<Edit>) {
        self.edits.clear();
        let mut step: Step = try_forward(frame, now);
        loop {
            for e in &step.effects {
                self.perform(e);
            }
            step = match step.next {
                Next::Done(v) => return (v, self.edits.clone()),
                Next::FindReverse(q) => {
                    let found = self.reverse.get(&key_parts(&q.key())).copied();
                    q.resume(found)
                }
                Next::FindForward(q) => {
                    let found = self.forward.get(&key_parts(&q.key())).copied();
                    q.resume(found)
                }
                Next::FindService(q) => {
                    let found = self.services.get(&service_parts(&q.key())).copied();
                    q.resume(found, self.random)
                }
                Next::FindBackend(q) => {
                    let found = self.backends.get(&backend_parts(&q.key())).copied();
                    q.resume(found)
                }
                Next::InsertForward(q) => {
                    if self.forward_room {
                        self.forward.insert(key_parts(&q.key()), q.value());
                    }
                    q.resume(self.forward_room)
                }
                Next::InsertReverse(q) => {
                    if self.reverse_room {
                        self.reverse.insert(key_parts(&q.key()), q.value());
                    }
                    q.resume(self.reverse_room)
                }
                Next::RewriteSource(q) => {
                    let done = self.edit(q.edits());
                    q.resume(done)
                }
                Next::RewriteDestination(q) => {
                    let done = self.edit(q.edits());
                    q.resume(done)
                }
                Next::FindEndpoint(q) => {
                    let found = self.endpoints.get(&q.key()).copied();
                    q.resume(found)
                }
                Next::StoreEndpoint(q) => {
                    let done = self.edit(q.edits());
                    q.resume(done)
                }
                Next::FindRoute(q) => q.resume(self.route),
                Next::StoreRoute(q) => {
                    let done = self.edit(q.edits());
                    q.resume(done)
                }
            };
        }
    }
}

fn ip(a: u8, b: u8, c: u8, d: u8) -> u32 {
    endpoint_key(Ipv4Addr::new(a, b, c, d))
}

fn client() -> [u8; 4] {
    [10, 244, 1, 5]
}

fn vip() -> [u8; 4] {
    [10, 96, 0, 10]
}

fn pod() -> [u8; 4] {
    [10, 244, 2, 7]
}

fn frame(proto: u8, src: [u8; 4], sport: u16, dst: [u8; 4], dport: u16, flags: u8) -> Vec<u8> {
    let mut f = vec![0u8; 14 + 20 + 20];
    f[12] = 0x08;
    f[14] = 0x45;
    f[14 + 9] = proto;
    f[14 + 12..14 + 16].copy_from_slice(&src);
    f[14 + 16..14 + 20].copy_from_slice(&dst);
    f[34..36].copy_from_slice(&sport.to_be_bytes());
    f[36..38].copy_from_slice(&dport.to_be_bytes());
    f[34 + 13] = flags;
    f
}

fn request(flags: u8) -> Vec<u8> {
    frame(IPPROTO_TCP, client(), 40000, vip(), 80, flags)
}

fn reply(flags: u8) -> Vec<u8> {
    frame(IPPROTO_TCP, pod(), 8080, client(), 40000, flags)
}

/// A node with one service of three backends, whose second is `pod()`.
fn served() -> Node {
    let mut n = Node::new();
    let port = port_key(80);
    n.services.insert(
        (ip(10, 96, 0, 10), port, IPPROTO_TCP),
        ServiceVal { service_id: 9, backend_count: 3 },
    );
    for i in 0..3u32 {
        n.backends.insert(
            (9, i, port, IPPROTO_TCP),
            BackendVal {
                pod_ip: ip(10, 244, 2, 6 + i as u8),
                pod_port: port_key(8080),
                _pad: [0, 0],
            },
        );
    }
    n.random = 4;
    n.endpoints.insert(ip(10, 244, 2, 7), Endpoint { ifindex: 77, mac: [1, 2, 3, 4, 5, 6] });
    n.endpoints.insert(ip(10, 244, 1, 5), Endpoint { ifindex: 55, mac: [6, 5, 4, 3, 2, 1] });
    n
}

fn request_key() -> (u32, u32, u16, u16, u8) {
    (ip(10, 244, 1, 5), ip(10, 96, 0, 10), port_key(40000), port_key(80), IPPROTO_TCP)
}

fn reply_key() -> (u32, u32, u16, u16, u8) {
    (ip(10, 244, 2, 7), ip(10, 244, 1, 5), port_key(8080), port_key(40000), IPPROTO_TCP)
}

#[test]
fn frames_that_are_not_ipv4_or_cut_short_pass() {
    let mut n = Node::new();
    let mut arp = request(SYN);
    arp[13] = 0x06;
    assert_eq!(n.forward(&arp, 1), (Verdict::Pass, vec![]));
    let mut bad_ihl = request(SYN);
    bad_ihl[14] = 0x44;
    assert_eq!(n.forward(&bad_ihl, 1), (Verdict::Pass, vec![]));
    let whole = request(SYN);
    for len in [0, 13, 14, 20, 33, 35, 37, 47] {
        assert_eq!(n.forward(&whole[..len], 1), (Verdict::Pass, vec![]));
    }
    assert_eq!(n.counters, [0; 7]);
    assert!(matches!(parse(&whole[..34]), Parsed::Ignored));
}

#[test]
fn headers_are_read_as_a_little_endian_host_loads_them() {
    let f = frame(IPPROTO_TCP, [1, 2, 3, 4], 0x1234, [5, 6, 7, 8], 0x5678, ACK | FIN);
    match parse(&f) {
        Parsed::Transport(h) => {
            assert_eq!(h.src_ip, u32::from_le_bytes([1, 2, 3, 4]));
            assert_eq!(h.dst_ip, u32::from_le_bytes([5, 6, 7, 8]));
            assert_eq!(h.src_port, 0x3412);
            assert_eq!(h.dst_port, 0x7856);
            assert_eq!(h.proto, 6);
            assert_eq!(h.ihl, 20);
            assert_eq!(h.tcp_flags, 0x11);
        }
        _ => panic!("a TCP packet"),
    }
    let mut options = vec![0u8; 14 + 24 + 8];
    options[12] = 0x08;
    options[14] = 0x46;
    options[23] = IPPROTO_UDP;
    options[38] = 0xab;
    match parse(&options) {
        Parsed::Transport(h) => {
            assert_eq!(h.ihl, 24);
            assert_eq!(h.src_port, 0x00ab);
            assert_eq!(h.tcp_flags, 0);
        }
        _ => panic!("a UDP packet"),
    }
}

#[test]
fn ping_to_a_service_is_left_to_the_kernel() {
    let mut n = served();
    let f = frame(1, client(), 0, vip(), 0, 0);
    assert_eq!(n.forward(&f, 1), (Verdict::Pass, vec![]));
    assert_eq!(n.counters[COUNTER_SERVICE_PUNT as usize], 1);
}

#[test]
fn a_packet_to_a_pod_of_the_node_is_redirected() {
    let mut n = served();
    let f = frame(1, client(), 0, pod(), 0, 0);
    let (v, edits) = n.forward(&f, 1);
    assert_eq!(v, Verdict::Redirect(77));
    assert_eq!(edits, vec![Edit::StoreMac { off: 0, mac: [1, 2, 3, 4, 5, 6] }]);
    assert_eq!(n.counters[COUNTER_MAP_HIT as usize], 1);
}

#[test]
fn a_packet_to_elsewhere_takes_the_route() {
    let mut n = served();
    n.route = Some(FibRoute { ifindex: 2, smac: [9; 6], dmac: [8; 6] });
    let f = frame(IPPROTO_UDP, client(), 1000, [192, 0, 2, 1], 53, 0);
    let (v, edits) = n.forward(&f, 1);
    assert_eq!(v, Verdict::Redirect(2));
    assert_eq!(
        edits,
        vec![Edit::StoreMac { off: 0, mac: [8; 6] }, Edit::StoreMac { off: 6, mac: [9; 6] }]
    );
    assert_eq!(n.counters[COUNTER_REDIRECT as usize], 1);
    n.route = None;
    assert_eq!(n.forward(&f, 1), (Verdict::Pass, vec![]));
    assert_eq!(n.counters[COUNTER_FIB_MISS as usize], 1);
}

#[test]
fn the_first_packet_gets_a_backend_and_opens_the_flow() {
    let mut n = served();
    let (v, edits) = n.forward(&request(SYN), 5);
    assert_eq!(v, Verdict::Redirect(77));
    let vip_key = ip(10, 96, 0, 10);
    let pod_key = ip(10, 244, 2, 7);
    assert_eq!(
        edits,
        vec![
            Edit::StoreAddr { off: 30, addr: pod_key },
            Edit::L3Csum { off: 24, from: vip_key as u64, to: pod_key as u64, size: 4 },
            Edit::L4Csum {
                off: 50,
                from: vip_key as u64,
                to: pod_key as u64,
                flags: BPF_F_PSEUDO_HDR | 4,
            },
            Edit::StorePort { off: 36, port: port_key(8080) },
            Edit::L4Csum {
                off: 50,
                from: port_key(80) as u64,
                to: port_key(8080) as u64,
                flags: 2,
            },
            Edit::StoreMac { off: 0, mac: [1, 2, 3, 4, 5, 6] },
        ]
    );
    let fwd = n.forward[&request_key()];
    let rev = n.reverse[&reply_key()];
    assert_eq!((fwd.ip, fwd.port, fwd.state, fwd.last_seen), (pod_key, port_key(8080), 0, 5));
    assert_eq!((rev.ip, rev.port, rev.state, rev.last_seen), (vip_key, port_key(80), 0, 5));
    assert_eq!(key_parts(&fwd.partner), reply_key());
    assert_eq!(key_parts(&rev.partner), request_key());
    assert_eq!(n.counters[COUNTER_SERVICE_DNAT as usize], 1);
}

#[test]
fn udp_checksums_are_adjusted_with_care() {
    let mut n = served();
    let port = port_key(53);
    n.services.insert(
        (ip(10, 96, 0, 10), port, IPPROTO_UDP),
        ServiceVal { service_id: 9, backend_count: 1 },
    );
    n.backends.insert(
        (9, 0, port, IPPROTO_UDP),
        BackendVal { pod_ip: ip(10, 244, 2, 7), pod_port: port, _pad: [0, 0] },
    );
    let f = frame(IPPROTO_UDP, client(), 1000, vip(), 53, 0);
    let (_, edits) = n.forward(&f, 1);
    let vip_key = ip(10, 96, 0, 10) as u64;
    let pod_key = ip(10, 244, 2, 7) as u64;
    assert_eq!(
        edits[2],
        Edit::L4Csum {
            off: 40,
            from: vip_key,
            to: pod_key,
            flags: BPF_F_PSEUDO_HDR | BPF_F_MARK_MANGLED_0 | 4,
        }
    );
    assert_eq!(
        edits[4],
        Edit::L4Csum {
            off: 40,
            from: port as u64,
            to: port as u64,
            flags: BPF_F_MARK_MANGLED_0 | 2,
        }
    );
}

#[test]
fn the_reply_comes_back_as_the_service() {
    let mut n = served();
    n.forward(&request(SYN), 5);
    let (v, edits) = n.forward(&reply(SYN | ACK), 6);
    assert_eq!(v, Verdict::Redirect(55));
    let vip_key = ip(10, 96, 0, 10);
    let pod_key = ip(10, 244, 2, 7);
    assert_eq!(edits[0], Edit::StoreAddr { off: 26, addr: vip_key });
    assert_eq!(
        edits[1],
        Edit::L3Csum { off: 24, from: pod_key as u64, to: vip_key as u64, size: 4 }
    );
    assert_eq!(edits[3], Edit::StorePort { off: 34, port: port_key(80) });
    assert_eq!(n.forward[&request_key()].state, CT_EST);
    assert_eq!(n.reverse[&reply_key()].state, CT_EST);
    assert_eq!(n.counters[COUNTER_SERVICE_SNAT as usize], 1);
}

#[test]
fn a_flow_keeps_its_backend() {
    let mut n = served();
    n.forward(&request(SYN), 5);
    n.random = 0;
    n.services.clear();
    n.backends.clear();
    let (v, edits) = n.forward(&request(ACK), 6);
    assert_eq!(v, Verdict::Redirect(77));
    assert_eq!(edits[0], Edit::StoreAddr { off: 30, addr: ip(10, 244, 2, 7) });
}

#[test]
fn a_half_is_refreshed_only_after_a_while() {
    let mut n = served();
    n.forward(&request(SYN), 5);
    n.forward(&request(ACK), 5 + CT_REFRESH_NS);
    assert_eq!(n.forward[&request_key()].last_seen, 5);
    n.forward(&request(ACK), 6 + CT_REFRESH_NS);
    assert_eq!(n.forward[&request_key()].last_seen, 6 + CT_REFRESH_NS);
    assert_eq!(n.reverse[&reply_key()].last_seen, 5);
    n.forward(&reply(ACK), 7 + CT_REFRESH_NS);
    assert_eq!(n.reverse[&reply_key()].last_seen, 7 + CT_REFRESH_NS);
}

#[test]
fn services_without_a_backend_are_left_to_the_kernel() {
    let mut n = served();
    let no_service = frame(IPPROTO_TCP, client(), 40000, vip(), 81, SYN);
    assert_eq!(n.forward(&no_service, 1), (Verdict::Pass, vec![]));
    n.backends.clear();
    assert_eq!(n.forward(&request(SYN), 1), (Verdict::Pass, vec![]));
    n.services.insert(
        (ip(10, 96, 0, 10), port_key(80), IPPROTO_TCP),
        ServiceVal { service_id: 9, backend_count: 0 },
    );
    assert_eq!(n.forward(&request(SYN), 1), (Verdict::Pass, vec![]));
    assert_eq!(n.counters[COUNTER_SERVICE_PUNT as usize], 3);
    assert!(n.forward.is_empty() && n.reverse.is_empty());
}

#[test]
fn a_full_table_leaves_nothing_behind() {
    let mut n = served();
    n.forward_room = false;
    assert_eq!(n.forward(&request(SYN), 1), (Verdict::Pass, vec![]));
    n.forward_room = true;
    n.reverse_room = false;
    assert_eq!(n.forward(&request(SYN), 1), (Verdict::Pass, vec![]));
    assert!(n.forward.is_empty() && n.reverse.is_empty());
    assert_eq!(n.counters[COUNTER_SERVICE_PUNT as usize], 2);
}

#[test]
fn an_abort_forgets_the_flow() {
    for from_client in [true, false] {
        let mut n = served();
        n.forward(&request(SYN), 5);
        n.forward(&reply(SYN | ACK), 6);
        let abort = if from_client { request(RST) } else { reply(RST) };
        let (v, edits) = n.forward(&abort, 7);
        assert_eq!(v, Verdict::Redirect(if from_client { 77 } else { 55 }));
        assert_eq!(edits.len(), 6);
        assert!(n.forward.is_empty() && n.reverse.is_empty());
        assert_eq!(n.counters[COUNTER_CT_EVICT as usize], 1);
    }
}

#[test]
fn the_clients_close_ends_with_its_last_ack() {
    let mut n = served();
    n.forward(&request(SYN), 5);
    n.forward(&reply(SYN | ACK), 6);
    n.forward(&request(FIN | ACK), 7);
    assert_eq!(n.reverse[&reply_key()].state, CT_EST | CT_FIN_FWD);
    n.forward(&reply(ACK), 8);
    assert_eq!(n.forward.len(), 1);
    n.forward(&reply(FIN | ACK), 9);
    assert_eq!(n.forward[&request_key()].state, CT_EST | CT_FIN_FWD | CT_FIN_REV);
    n.forward(&request(ACK), 10);
    assert!(n.forward.is_empty() && n.reverse.is_empty());
    assert_eq!(n.counters[COUNTER_CT_EVICT as usize], 1);
}

#[test]
fn the_backends_close_ends_with_its_last_ack() {
    let mut n = served();
    n.forward(&request(SYN), 5);
    n.forward(&reply(SYN | ACK), 6);
    n.forward(&reply(FIN | ACK), 7);
    assert_eq!(n.forward[&request_key()].state, CT_EST | CT_FIN_REV);
    n.forward(&request(FIN | ACK), 8);
    assert_eq!(n.reverse[&reply_key()].state, CT_EST | CT_FIN_FWD | CT_FIN_REV);
    n.forward(&reply(ACK), 9);
    assert!(n.forward.is_empty() && n.reverse.is_empty());
}

#[test]
fn a_frame_that_cannot_be_edited_passes() {
    let mut n = served();
    n.editable = false;
    assert_eq!(n.forward(&request(SYN), 1), (Verdict::Pass, vec![]));
    assert_eq!(n.counters[COUNTER_SERVICE_DNAT as usize], 0);
    let f = frame(1, client(), 0, pod(), 0, 0);
    assert_eq!(n.forward(&f, 1), (Verdict::Pass, vec![]));
    assert_eq!(n.counters[COUNTER_MAP_HIT as usize], 0);
}

#[test]
fn flows_do_not_disturb_each_other() {
    let mut n = served();
    n.forward(&request(SYN), 5);
    let before = (n.forward[&request_key()], n.reverse[&reply_key()]);
    let other = frame(IPPROTO_TCP, client(), 40001, vip(), 80, SYN);
    n.forward(&other, 6);
    let abort = frame(IPPROTO_TCP, client(), 40001, vip(), 80, RST);
    n.forward(&abort, 7);
    assert_eq!((n.forward[&request_key()], n.reverse[&reply_key()]), before);
    assert_eq!(n.forward.len(), 1);
}

#[test]
fn udp_flows_are_tracked_but_not_marked() {
    let mut n = served();
    let port = port_key(53);
    n.services.insert(
        (ip(10, 96, 0, 10), port, IPPROTO_UDP),
        ServiceVal { service_id: 9, backend_count: 1 },
    );
    n.backends.insert(
        (9, 0, port, IPPROTO_UDP),
        BackendVal { pod_ip: ip(10, 244, 2, 7), pod_port: port, _pad: [0, 0] },
    );
    n.forward(&frame(IPPROTO_UDP, client(), 1000, vip(), 53, 0xff), 1);
    let (v, edits) = n.forward(&frame(IPPROTO_UDP, pod(), 53, client(), 1000, 0xff), 2);
    assert_eq!(v, Verdict::Redirect(55));
    assert_eq!(edits[0], Edit::StoreAddr { off: 26, addr: ip(10, 96, 0, 10) });
    assert_eq!((n.forward.len(), n.reverse.len()), (1, 1));
    assert!(n.forward.values().all(|v| v.state == 0));
    assert!(n.reverse.values().all(|v| v.state == 0));
}

/// Makes the edits in a frame, checksums aside.
fn write(frame: &mut [u8], edits: &[Edit]) {
    for e in edits {
        match e {
            Edit::StoreAddr { off, addr } => {
                frame[*off..*off + 4].copy_from_slice(&addr.to_le_bytes())
            }
            Edit::StorePort { off, port } => {
                frame[*off..*off + 2].copy_from_slice(&port.to_le_bytes())
            }
            Edit::StoreMac { off, mac } => frame[*off..*off + 6].copy_from_slice(mac),
            _ => {}
        }
    }
}

#[test]
fn edits_land_in_the_headers() {
    let mut n = served();
    let mut f = request(SYN);
    let (_, edits) = n.forward(&f, 5);
    write(&mut f, &edits);
    let mut want = frame(IPPROTO_TCP, client(), 40000, pod(), 8080, SYN);
    want[..6].copy_from_slice(&[1, 2, 3, 4, 5, 6]);
    assert_eq!(f, want);
    let mut f = reply(SYN | ACK);
    let (_, edits) = n.forward(&f, 6);
    write(&mut f, &edits);
    let mut want = frame(IPPROTO_TCP, vip(), 80, client(), 40000, SYN | ACK);
    want[..6].copy_from_slice(&[6, 5, 4, 3, 2, 1]);
    assert_eq!(f, want);
}

#[test]
fn the_first_bytes_are_enough() {
    let mut f = vec![7u8; 14 + 60 + 40];
    f[12] = 0x08;
    f[13] = 0x00;
    f[14] = 0x4f;
    f[23] = IPPROTO_TCP;
    assert_eq!(parse(&f), parse(&f[..88]));
    assert!(matches!(parse(&f[..88]), Parsed::Transport(_)));
    assert!(matches!(parse(&f[..87]), Parsed::Ignored));
}
