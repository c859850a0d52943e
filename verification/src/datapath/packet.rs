//! Frame headers, and the changes made to them.
use vstd::prelude::*;

use crate::common::NatKey;

verus! {

/// Length of an Ethernet header.
pub const ETH_HLEN: usize = 14;

/// IP protocol number of TCP.
pub const IPPROTO_TCP: u8 = 6;

/// IP protocol number of UDP.
pub const IPPROTO_UDP: u8 = 17;

/// Offset of the flags in a TCP header.
pub const TCP_FLAGS_OFF: usize = 13;

/// The TCP flag FIN.
pub const TCP_FIN: u8 = 0x01;

/// The TCP flag RST.
pub const TCP_RST: u8 = 0x04;

/// Checksum flag: the changed field is part of the pseudo-header.
pub const BPF_F_PSEUDO_HDR: u64 = 0x10;

/// Checksum flag for UDP, whose checksum is optional: leave a zero as it is, and write a computed
/// zero as all ones.
pub const BPF_F_MARK_MANGLED_0: u64 = 0x20;

/// The addressing of a TCP or UDP packet. Addresses and ports are as a little-endian host loads
/// them from the frame; `ihl` is the length of the IP header in bytes; `tcp_flags` is zero for UDP.
#[derive(Clone, Copy, Debug, PartialEq, Eq, Structural)]
pub struct Headers {
    pub src_ip: u32,
    pub dst_ip: u32,
    pub proto: u8,
    pub ihl: u8,
    pub src_port: u16,
    pub dst_port: u16,
    pub tcp_flags: u8,
}

/// What a frame holds.
#[derive(Clone, Copy, Debug, PartialEq, Eq, Structural)]
pub enum Parsed {
    /// Not IPv4, or cut short.
    Ignored,
    /// IPv4 that carries neither TCP nor UDP.
    Plain { src_ip: u32, dst_ip: u32 },
    /// TCP or UDP over IPv4.
    Transport(Headers),
}

/// The 16-bit number that a little-endian host loads at `off`.
pub open spec fn load16(frame: Seq<u8>, off: int) -> u16 {
    (frame[off] + 0x100 * frame[off + 1]) as u16
}

/// The 32-bit number that a little-endian host loads at `off`.
pub open spec fn load32(frame: Seq<u8>, off: int) -> u32 {
    (frame[off] + 0x100 * frame[off + 1] + 0x1_0000 * frame[off + 2] + 0x100_0000 * frame[off
        + 3]) as u32
}

/// Length in bytes of the IP header of a frame.
pub open spec fn ip_header_len(frame: Seq<u8>) -> int {
    (frame[14] % 16) * 4
}

/// What the datapath reads from a frame. It needs the Ethernet type, the fixed part of the IP
/// header, and of TCP and UDP the ports and, of TCP, the flags.
pub open spec fn parsed(frame: Seq<u8>) -> Parsed {
    let l4 = 14 + ip_header_len(frame);
    if frame.len() < 34 || frame[12] != 0x08 || frame[13] != 0x00 || ip_header_len(frame) < 20 {
        Parsed::Ignored
    } else if frame[23] == IPPROTO_TCP || frame[23] == IPPROTO_UDP {
        let needed = if frame[23] == IPPROTO_TCP {
            l4 + 14
        } else {
            l4 + 4
        };
        if frame.len() < needed {
            Parsed::Ignored
        } else {
            Parsed::Transport(
                Headers {
                    src_ip: load32(frame, 26),
                    dst_ip: load32(frame, 30),
                    proto: frame[23],
                    ihl: ip_header_len(frame) as u8,
                    src_port: load16(frame, l4),
                    dst_port: load16(frame, l4 + 2),
                    tcp_flags: if frame[23] == IPPROTO_TCP {
                        frame[l4 + 13]
                    } else {
                        0
                    },
                },
            )
        }
    } else {
        Parsed::Plain { src_ip: load32(frame, 26), dst_ip: load32(frame, 30) }
    }
}

fn get16(frame: &[u8], off: usize) -> (r: u16)
    requires
        off + 2 <= frame@.len(),
    ensures
        r == load16(frame@, off as int),
{
    frame[off] as u16 + 0x100 * frame[off + 1] as u16
}

fn get32(frame: &[u8], off: usize) -> (r: u32)
    requires
        off + 4 <= frame@.len(),
    ensures
        r == load32(frame@, off as int),
{
    frame[off] as u32 + 0x100 * frame[off + 1] as u32 + 0x1_0000 * frame[off + 2] as u32
        + 0x100_0000 * frame[off + 3] as u32
}

/// Reads the headers of a frame. A prefix of the frame is enough where it holds the Ethernet
/// header, the longest IP header and the TCP flags.
pub fn parse(frame: &[u8]) -> (r: Parsed)
    ensures
        r == parsed(frame@),
{
    let len: usize = frame.len();
    if len < ETH_HLEN + 20 {
        return Parsed::Ignored;
    }
    if frame[12] != 0x08 || frame[13] != 0x00 {
        return Parsed::Ignored;
    }
    let ihl: usize = (frame[ETH_HLEN] % 16) as usize * 4;
    if ihl < 20 {
        return Parsed::Ignored;
    }
    let src_ip: u32 = get32(frame, ETH_HLEN + 12);
    let dst_ip: u32 = get32(frame, ETH_HLEN + 16);
    let proto: u8 = frame[ETH_HLEN + 9];
    let l4: usize = ETH_HLEN + ihl;
    if proto == IPPROTO_TCP {
        if len < l4 + TCP_FLAGS_OFF + 1 {
            return Parsed::Ignored;
        }
    } else if proto == IPPROTO_UDP {
        if len < l4 + 4 {
            return Parsed::Ignored;
        }
    } else {
        return Parsed::Plain { src_ip, dst_ip };
    }
    let tcp_flags: u8 = if proto == IPPROTO_TCP {
        frame[l4 + TCP_FLAGS_OFF]
    } else {
        0
    };
    Parsed::Transport(
        Headers {
            src_ip,
            dst_ip,
            proto,
            ihl: ihl as u8,
            src_port: get16(frame, l4),
            dst_port: get16(frame, l4 + 2),
            tcp_flags,
        },
    )
}

/// The tracking key of a tuple.
pub open spec fn tuple_key(
    src_ip: u32,
    dst_ip: u32,
    src_port: u16,
    dst_port: u16,
    proto: u8,
) -> NatKey {
    NatKey { src_ip, dst_ip, src_port, dst_port, proto, _pad: [0u8, 0u8, 0u8] }
}

/// The tracking key of a tuple.
pub fn nat_key(src_ip: u32, dst_ip: u32, src_port: u16, dst_port: u16, proto: u8) -> (r: NatKey)
    ensures
        r == tuple_key(src_ip, dst_ip, src_port, dst_port, proto),
{
    NatKey { src_ip, dst_ip, src_port, dst_port, proto, _pad: [0u8, 0u8, 0u8] }
}

}
