//! What the datapath and the agent share: the maps' names, sizes, keys and values.
use vstd::prelude::*;

use crate::net::Ipv4Addr;

verus! {

pub const ENDPOINTS_MAP: &'static str = "ENDPOINTS";

pub const SERVICES_MAP: &'static str = "SERVICES";

pub const BACKENDS_MAP: &'static str = "BACKENDS";

pub const CONNTRACK_MAP: &'static str = "CONNTRACK";

pub const MAX_ENDPOINTS: u32 = 65536;

pub const MAX_SERVICES: u32 = 4096;

pub const MAX_BACKENDS: u32 = 65536;

pub const MAX_CT_ENTRIES: u32 = 65536;

pub const COUNTER_MAP_HIT: u32 = 0;

pub const COUNTER_FIB_MISS: u32 = 1;

pub const COUNTER_REDIRECT: u32 = 2;

pub const COUNTER_SERVICE_PUNT: u32 = 3;

pub const COUNTER_SERVICE_DNAT: u32 = 4;

pub const COUNTER_SERVICE_SNAT: u32 = 5;

pub const COUNTER_CT_EVICT: u32 = 6;

pub const COUNTER_MAX: u32 = 7;

/// Traffic was seen in both directions of a flow.
pub const CT_EST: u8 = 0x01;

/// A FIN crossed from the client to the backend.
pub const CT_FIN_FWD: u8 = 0x02;

/// A FIN crossed from the backend to the client.
pub const CT_FIN_REV: u8 = 0x04;

/// Where a pod's packets go: its host-side interface and its hardware address.
#[derive(Clone, Copy, Debug, PartialEq, Eq)]
pub struct Endpoint {
    pub ifindex: u32,
    pub mac: [u8; 6],
}

/// Key of the service map: the ClusterIP, the service port and the IP protocol. `port` is in the
/// representation of `port_key`.
#[derive(Clone, Copy, Debug, PartialEq, Eq, Structural)]
pub struct ServiceKey {
    pub vip: u32,
    pub port: u16,
    pub proto: u8,
    pub _pad: u8,
}

/// A service and how many backends it has on one port.
#[derive(Clone, Copy, Debug, PartialEq, Eq, Structural)]
pub struct ServiceVal {
    pub service_id: u32,
    pub backend_count: u32,
}

/// Key of the backend map: the service, its port and protocol, and the slot. The port and the
/// protocol are part of the key because one service can expose several ports under one
/// `service_id`; without them every port would reuse the same slots.
#[derive(Clone, Copy, Debug, PartialEq, Eq, Structural)]
pub struct BackendKey {
    pub service_id: u32,
    pub index: u32,
    pub port: u16,
    pub proto: u8,
    pub _pad: u8,
}

/// A backend: a pod's address and port as they stand in a packet.
#[derive(Clone, Copy, Debug, PartialEq, Eq)]
pub struct BackendVal {
    pub pod_ip: u32,
    pub pod_port: u16,
    pub _pad: [u8; 2],
}

/// The five-tuple by which a direction of a flow is tracked.
#[derive(Clone, Copy, Debug, PartialEq, Eq)]
pub struct NatKey {
    pub src_ip: u32,
    pub dst_ip: u32,
    pub src_port: u16,
    pub dst_port: u16,
    pub proto: u8,
    pub _pad: [u8; 3],
}

/// The rewritten address and port of one direction of a flow, and the key of the other direction.
/// On the forward half `ip` and `port` are the backend; on the reverse half they are the service.
/// `last_seen` is the time of the latest packet that refreshed this half; `state` is a set of the
/// `CT_*` bits.
#[derive(Clone, Copy, Debug, PartialEq, Eq)]
pub struct NatVal {
    pub ip: u32,
    pub port: u16,
    pub state: u8,
    pub _pad: u8,
    pub last_seen: u64,
    pub partner: NatKey,
}

/// The number whose little-endian bytes are `a`, `b`, `c`, `d`: an address as a little-endian host
/// loads it from a packet.
pub open spec fn le32(a: u8, b: u8, c: u8, d: u8) -> int {
    a + 0x100 * b + 0x1_0000 * c + 0x100_0000 * d
}

/// The map key of an address: its octets, read as a little-endian number.
pub open spec fn key_of(ip: Ipv4Addr) -> u32 {
    le32(ip.a, ip.b, ip.c, ip.d) as u32
}

/// `port` with its two bytes swapped.
pub open spec fn port_key_of(port: u16) -> u16 {
    ((port % 256) * 256 + port / 256) as u16
}

/// Whether an address key lies in the ClusterIP range 10.96.0.0/12.
pub open spec fn in_service_range(dst: u32) -> bool {
    &&& dst % 0x100 == 10
    &&& 96 <= (dst / 0x100) % 0x100 < 112
}

/// The map key of an address.
pub fn endpoint_key(ip: Ipv4Addr) -> (r: u32)
    ensures
        r == key_of(ip),
        r == le32(ip.a, ip.b, ip.c, ip.d),
{
    ip.a as u32 + 0x100 * ip.b as u32 + 0x1_0000 * ip.c as u32 + 0x100_0000 * ip.d as u32
}

/// The map-key representation of a host-order port: what a little-endian host loads when it reads
/// that port from a packet.
pub fn port_key(port: u16) -> (r: u16)
    ensures
        r == port_key_of(port),
        r % 256 == port / 256,
        r / 256 == port % 256,
{
    (port % 256) * 256 + port / 256
}

const SERVICE_CIDR_BASE: u32 = 0x0000_600a;

const SERVICE_CIDR_MASK: u32 = 0x0000_f0ff;

/// Whether an address key lies in the ClusterIP range.
pub fn is_service_ip(dst: u32) -> (r: bool)
    ensures
        r == in_service_range(dst),
{
    assert((dst & 0x0000_f0ffu32 == 0x0000_600au32 & 0x0000_f0ffu32) == (dst % 0x100 == 10 && 96 <= (
    dst / 0x100) % 0x100 && (dst / 0x100) % 0x100 < 112)) by (bit_vector);
    dst & SERVICE_CIDR_MASK == SERVICE_CIDR_BASE & SERVICE_CIDR_MASK
}

/// Different addresses have different keys.
pub proof fn law_endpoint_key_injective(x: Ipv4Addr, y: Ipv4Addr)
    requires
        key_of(x) == key_of(y),
    ensures
        x == y,
{
    law_key_holds_the_octets(x);
    law_key_holds_the_octets(y);
}

/// The key of an address keeps its octets in the order of the packet.
pub proof fn law_key_holds_the_octets(ip: Ipv4Addr)
    ensures
        key_of(ip) % 0x100 == ip.a,
        (key_of(ip) / 0x100) % 0x100 == ip.b,
        (key_of(ip) / 0x1_0000) % 0x100 == ip.c,
        key_of(ip) / 0x100_0000 == ip.d,
{
    let (a, b, c, d) = (ip.a as int, ip.b as int, ip.c as int, ip.d as int);
    let n = le32(ip.a, ip.b, ip.c, ip.d);
    let n1 = b + 0x100 * c + 0x1_0000 * d;
    let n2 = c + 0x100 * d;
    assert(n == 0x100 * n1 + a);
    assert(n / 0x100 == n1 && n % 0x100 == a);
    assert(n1 == 0x100 * n2 + b);
    assert(n1 / 0x100 == n2 && n1 % 0x100 == b);
    assert(n / 0x1_0000 == n2);
    assert(n2 / 0x100 == d && n2 % 0x100 == c);
    assert(n / 0x100_0000 == d);
}

/// Converting a port twice gives it back, so different ports have different keys.
pub proof fn law_port_key_involution(port: u16)
    ensures
        port_key_of(port_key_of(port)) == port,
{
}

/// An address is a service address exactly when it is one of 10.96.0.0 to 10.111.255.255.
pub proof fn law_service_range(ip: Ipv4Addr)
    ensures
        in_service_range(key_of(ip)) <==> ip.a == 10 && 96 <= ip.b <= 111,
{
    law_key_holds_the_octets(ip);
}

}
