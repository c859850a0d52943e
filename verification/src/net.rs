//! IP addresses and networks.
use vstd::arithmetic::power2::{lemma2_to64, lemma_pow2_adds, lemma_pow2_pos, pow2};
use vstd::prelude::*;

use crate::text::{
    all_digits, decimal, decimal_text, digits_value, lemma_canonical, lemma_decimal,
    lemma_split_join, lemma_split_lossless, lemma_split_single, parse_unsigned,
    split, split_text, texts, trimmed, Sep,
};

verus! {

/// An IPv4 address: four octets in the order in which they are written and sent.
#[derive(Clone, Copy, Debug, PartialEq, Eq, Structural)]
pub struct Ipv4Addr {
    pub a: u8,
    pub b: u8,
    pub c: u8,
    pub d: u8,
}

/// An IPv6 address as one number, its first octet the most significant.
#[derive(Clone, Copy, Debug, PartialEq, Eq, Structural)]
pub struct Ipv6Addr {
    pub bits: u128,
}

/// An address of either family.
#[derive(Clone, Copy, Debug, PartialEq, Eq, Structural)]
pub enum IpAddr {
    V4(Ipv4Addr),
    V6(Ipv6Addr),
}

impl Ipv4Addr {
    /// The address `a.b.c.d`.
    pub fn new(a: u8, b: u8, c: u8, d: u8) -> (r: Ipv4Addr)
        ensures
            r == (Ipv4Addr { a, b, c, d }),
    {
        Ipv4Addr { a, b, c, d }
    }

    /// The octets in the order in which they are written.
    pub fn octets(&self) -> (r: [u8; 4])
        ensures
            r@ == seq![self.a, self.b, self.c, self.d],
    {
        [self.a, self.b, self.c, self.d]
    }

    /// The dotted-decimal text: four decimal numerals without leading zeros.
    pub open spec fn spec_text(self) -> Seq<char> {
        decimal(self.a as nat).push('.') + (decimal(self.b as nat).push('.') + (decimal(
            self.c as nat,
        ).push('.') + decimal(self.d as nat)))
    }

    /// The dotted-decimal text of this address.
    pub fn text(&self) -> (r: String)
        ensures
            r@ == self.spec_text(),
    {
        proof {
            reveal_strlit(".");
        }
        let mut out: String = decimal_text(self.a as u64);
        out.append(".");
        out.append(decimal_text(self.b as u64).as_str());
        out.append(".");
        out.append(decimal_text(self.c as u64).as_str());
        out.append(".");
        out.append(decimal_text(self.d as u64).as_str());
        assert(out@ == self.spec_text());
        out
    }

    /// The address that `s` denotes, where `s` is the dotted-decimal text of one.
    pub fn parse(s: &str) -> (r: Option<Ipv4Addr>)
        ensures
            r == addr_of(s@),
            match r {
                Some(ip) => s@ == ip.spec_text(),
                None => forall|ip: Ipv4Addr| s@ != #[trigger] ip.spec_text(),
            },
    {
        let pieces: Vec<String> = split_text(s, Sep::Char('.'));
        let ghost all = texts(pieces@);
        proof {
            lemma_split_lossless(s@, '.');
            assert forall|ip: Ipv4Addr| s@ == #[trigger] ip.spec_text() implies all == seq![
                decimal(ip.a as nat),
                decimal(ip.b as nat),
                decimal(ip.c as nat),
                decimal(ip.d as nat),
            ] by {
                ip.lemma_text_pieces();
            }
        }
        if pieces.len() != 4 {
            return None;
        }
        assert(all[0] == pieces@[0]@ && all[1] == pieces@[1]@ && all[2] == pieces@[2]@ && all[3]
            == pieces@[3]@);
        let a: Option<u8> = parse_octet(pieces[0].as_str());
        let b: Option<u8> = parse_octet(pieces[1].as_str());
        let c: Option<u8> = parse_octet(pieces[2].as_str());
        let d: Option<u8> = parse_octet(pieces[3].as_str());
        match (a, b, c, d) {
            (Some(a), Some(b), Some(c), Some(d)) => {
                let ip = Ipv4Addr { a, b, c, d };
                proof {
                    let p = seq![
                        decimal(a as nat),
                        decimal(b as nat),
                        decimal(c as nat),
                        decimal(d as nat),
                    ];
                    assert(all == p);
                    ip.lemma_text_pieces();
                    lemma_split_lossless(ip.spec_text(), '.');
                    lemma_addr_of(ip);
                }
                Some(ip)
            },
            _ => {
                proof {
                    assert forall|ip: Ipv4Addr| s@ != #[trigger] ip.spec_text() by {
                        if s@ == ip.spec_text() {
                            assert(all[0] == decimal(ip.a as nat));
                            assert(all[1] == decimal(ip.b as nat));
                            assert(all[2] == decimal(ip.c as nat));
                            assert(all[3] == decimal(ip.d as nat));
                        }
                    }
                }
                None
            },
        }
    }

    proof fn lemma_text_pieces(self)
        ensures
            split(self.spec_text(), Sep::Char('.')) == seq![
                decimal(self.a as nat),
                decimal(self.b as nat),
                decimal(self.c as nat),
                decimal(self.d as nat),
            ],
    {
        let sep = Sep::Char('.');
        let (a, b, c, d) = (
            decimal(self.a as nat),
            decimal(self.b as nat),
            decimal(self.c as nat),
            decimal(self.d as nat),
        );
        lemma_decimal(self.a as nat);
        lemma_decimal(self.b as nat);
        lemma_decimal(self.c as nat);
        lemma_decimal(self.d as nat);
        lemma_split_single(a, sep);
        lemma_split_single(b, sep);
        lemma_split_single(c, sep);
        lemma_split_single(d, sep);
        lemma_split_join(c, '.', d, sep);
        lemma_split_join(b, '.', c.push('.') + d, sep);
        lemma_split_join(a, '.', b.push('.') + (c.push('.') + d), sep);
        assert(seq![a] + (seq![b] + (seq![c] + seq![d])) == seq![a, b, c, d]);
    }
}

/// The address whose dotted-decimal text `s` is.
pub open spec fn addr_of(s: Seq<char>) -> Option<Ipv4Addr> {
    if exists|ip: Ipv4Addr| s == #[trigger] ip.spec_text() {
        Some(choose|ip: Ipv4Addr| s == #[trigger] ip.spec_text())
    } else {
        None
    }
}

/// Parsing the text of an address gives the address back.
pub proof fn lemma_addr_of(ip: Ipv4Addr)
    ensures
        addr_of(ip.spec_text()) == Some(ip),
{
    let other = choose|x: Ipv4Addr| ip.spec_text() == #[trigger] x.spec_text();
    law_text_names_one_address(ip, other);
}

/// The octet whose decimal numeral `s` is.
fn parse_octet(s: &str) -> (r: Option<u8>)
    ensures
        match r {
            Some(v) => s@ == decimal(v as nat),
            None => forall|v: u8| s@ != #[trigger] decimal(v as nat),
        },
{
    proof {
        assert forall|v: u8| s@ == #[trigger] decimal(v as nat) implies {
            &&& all_digits(s@)
            &&& s@.len() > 0
            &&& digits_value(s@) == v
            &&& (s@[0] == '0' ==> s@.len() == 1)
            &&& s@[0] != '+'
        } by {
            lemma_decimal(v as nat);
            assert(decimal(0) == seq!['0']);
        }
    }
    if s.is_empty() {
        return None;
    }
    let first: char = s.get_char(0);
    if first == '+' || (first == '0' && s.unicode_len() != 1) {
        return None;
    }
    match parse_unsigned(s, 255) {
        Some(v) => {
            proof {
                lemma_canonical(s@);
            }
            Some(v as u8)
        },
        None => None,
    }
}

/// Two addresses with the same text are the same address.
pub proof fn law_text_names_one_address(x: Ipv4Addr, y: Ipv4Addr)
    requires
        x.spec_text() == y.spec_text(),
    ensures
        x == y,
{
    x.lemma_text_pieces();
    y.lemma_text_pieces();
    let p = split(x.spec_text(), Sep::Char('.'));
    assert(p[0] == decimal(x.a as nat) && p[0] == decimal(y.a as nat));
    assert(p[1] == decimal(x.b as nat) && p[1] == decimal(y.b as nat));
    assert(p[2] == decimal(x.c as nat) && p[2] == decimal(y.c as nat));
    assert(p[3] == decimal(x.d as nat) && p[3] == decimal(y.d as nat));
    lemma_decimal(x.a as nat);
    lemma_decimal(y.a as nat);
    lemma_decimal(x.b as nat);
    lemma_decimal(y.b as nat);
    lemma_decimal(x.c as nat);
    lemma_decimal(y.c as nat);
    lemma_decimal(x.d as nat);
    lemma_decimal(y.d as nat);
}

// ── Addresses of either family as texts ──────────────────────────────────────

/// The text of an IPv6 address, given as a number.
pub uninterp spec fn v6_text_of(bits: u128) -> Seq<char>;

/// The IPv6 address that a text denotes, as a number.
pub uninterp spec fn v6_addr_of(s: Seq<char>) -> Option<u128>;

/// Whether `c` can stand in the text of an IPv6 address as it is written here: a hexadecimal digit
/// in lower case, a colon or a dot.
pub open spec fn is_v6_char(c: char) -> bool {
    '0' <= c <= '9' || 'a' <= c <= 'f' || c == ':' || c == '.'
}

/// `Display` of `std`'s IPv6 address. Claims that the text depends on the address alone, that it
/// holds a colon and otherwise lower-case hexadecimal digits, colons and dots only (RFC 5952), and
/// that reading it gives the address back. The text itself is not stated.
#[verifier::external_body]
fn v6_text(bits: u128) -> (r: String)
    ensures
        r@ == v6_text_of(bits),
        v6_addr_of(r@) == Some(bits),
        r@.contains(':'),
        forall|i: int| 0 <= i < r@.len() ==> is_v6_char(#[trigger] r@[i]),
{
    ipnet::Ipv6Net::new_assert(bits.into(), 128).addr().to_string()
}

/// `FromStr` of `std`'s IPv6 address. Claims that the outcome depends on the text alone. Which texts
/// are taken is not stated.
#[verifier::external_body]
fn v6_parse(s: &str) -> (r: Option<u128>)
    ensures
        r == v6_addr_of(s@),
{
    match s.parse() {
        Ok(ip) => Some(ipnet::Ipv6Net::new_assert(ip, 128).addr().into()),
        Err(_) => None,
    }
}

/// The address that `s` denotes.
pub open spec fn ip_of(s: Seq<char>) -> Option<IpAddr> {
    match addr_of(s) {
        Some(a) => Some(IpAddr::V4(a)),
        None => match v6_addr_of(s) {
            Some(bits) => Some(IpAddr::V6(Ipv6Addr { bits })),
            None => None,
        },
    }
}

impl IpAddr {
    /// The text of this address.
    pub open spec fn spec_text(self) -> Seq<char> {
        match self {
            IpAddr::V4(a) => a.spec_text(),
            IpAddr::V6(a) => v6_text_of(a.bits),
        }
    }

    /// Whether the text of this address gives it back, and has no whitespace around it.
    pub open spec fn reads_back(self) -> bool {
        &&& ip_of(self.spec_text()) == Some(self)
        &&& trimmed(self.spec_text()) == self.spec_text()
    }

    /// The text of this address. Reading it gives the address back.
    pub fn text(&self) -> (r: String)
        ensures
            r@ == self.spec_text(),
            self.reads_back(),
    {
        match self {
            IpAddr::V4(a) => {
                proof {
                    law_v4_reads_back(*a);
                }
                a.text()
            },
            IpAddr::V6(a) => {
                let r: String = v6_text(a.bits);
                proof {
                    assert forall|ip: Ipv4Addr| r@ != #[trigger] ip.spec_text() by {
                        ip.lemma_text_chars();
                        let i = choose|i: int| 0 <= i < r@.len() && r@[i] == ':';
                        if r@ == ip.spec_text() {
                            assert(ip.spec_text()[i] == ':');
                        }
                    }
                    lemma_trimmed_plain(r@);
                }
                r
            },
        }
    }

    /// The address that `s` denotes.
    pub fn parse(s: &str) -> (r: Option<IpAddr>)
        ensures
            r == ip_of(s@),
    {
        match Ipv4Addr::parse(s) {
            Some(a) => Some(IpAddr::V4(a)),
            None => match v6_parse(s) {
                Some(bits) => Some(IpAddr::V6(Ipv6Addr { bits })),
                None => None,
            },
        }
    }
}

impl Ipv4Addr {
    proof fn lemma_text_chars(self)
        ensures
            forall|i: int|
                0 <= i < self.spec_text().len() ==> '0' <= #[trigger] self.spec_text()[i] <= '9'
                    || self.spec_text()[i] == '.',
            self.spec_text().len() > 0,
    {
        lemma_decimal(self.a as nat);
        lemma_decimal(self.b as nat);
        lemma_decimal(self.c as nat);
        lemma_decimal(self.d as nat);
        let (a, b, c, d) = (
            decimal(self.a as nat),
            decimal(self.b as nat),
            decimal(self.c as nat),
            decimal(self.d as nat),
        );
        let t3 = c.push('.') + d;
        let t2 = b.push('.') + t3;
        let t = a.push('.') + t2;
        assert(t == self.spec_text());
        assert forall|i: int| 0 <= i < t.len() implies '0' <= #[trigger] t[i] <= '9' || t[i]
            == '.' by {
            if i <= a.len() {
                assert(t[i] == a.push('.')[i]);
                if i < a.len() {
                    assert(t[i] == a[i]);
                }
            } else {
                let j = i - a.len() - 1;
                assert(t[i] == t2[j]);
                if j <= b.len() {
                    assert(t2[j] == b.push('.')[j]);
                    if j < b.len() {
                        assert(t2[j] == b[j]);
                    }
                } else {
                    let k = j - b.len() - 1;
                    assert(t2[j] == t3[k]);
                    if k <= c.len() {
                        assert(t3[k] == c.push('.')[k]);
                        if k < c.len() {
                            assert(t3[k] == c[k]);
                        }
                    } else {
                        assert(t3[k] == d[k - c.len() - 1]);
                    }
                }
            }
        }
    }
}

/// A text without whitespace is not changed by trimming.
proof fn lemma_trimmed_plain(s: Seq<char>)
    requires
        forall|i: int| 0 <= i < s.len() ==> is_v6_char(#[trigger] s[i]),
    ensures
        trimmed(s) == s,
{
    if s.len() > 0 {
        assert(is_v6_char(s[0]));
        assert(is_v6_char(s[s.len() - 1]));
    }
}

/// Reading the text of an IPv4 address gives the address back, and so does reading it with
/// whitespace trimmed.
pub proof fn law_v4_reads_back(a: Ipv4Addr)
    ensures
        IpAddr::V4(a).reads_back(),
{
    lemma_addr_of(a);
    a.lemma_text_chars();
    let s = a.spec_text();
    assert forall|i: int| 0 <= i < s.len() implies is_v6_char(#[trigger] s[i]) by {}
    lemma_trimmed_plain(s);
}

// ── Networks ─────────────────────────────────────────────────────────────────

/// An IPv4 network: an address in it and the length of the prefix.
#[derive(Clone, Copy, Debug, PartialEq, Eq, Structural)]
pub struct Ipv4Net {
    pub addr: Ipv4Addr,
    pub prefix_len: u8,
}

/// An IPv6 network: an address in it and the length of the prefix.
#[derive(Clone, Copy, Debug, PartialEq, Eq, Structural)]
pub struct Ipv6Net {
    pub addr: Ipv6Addr,
    pub prefix_len: u8,
}

/// A network of either family.
#[derive(Clone, Copy, Debug, PartialEq, Eq, Structural)]
pub enum IpNet {
    V4(Ipv4Net),
    V6(Ipv6Net),
}

impl Ipv4Addr {
    /// The address as a number, its first octet the most significant.
    pub open spec fn num(self) -> int {
        0x100_0000 * self.a + 0x1_0000 * self.b + 0x100 * self.c + self.d
    }

    proof fn lemma_num_octets(self)
        ensures
            self.num() / 0x100_0000 == self.a,
            (self.num() / 0x1_0000) % 0x100 == self.b,
            (self.num() / 0x100) % 0x100 == self.c,
            self.num() % 0x100 == self.d,
    {
        let (a, b, c, d) = (self.a as int, self.b as int, self.c as int, self.d as int);
        let n = self.num();
        let n1 = 0x1_0000 * a + 0x100 * b + c;
        let n2 = 0x100 * a + b;
        assert(n == 0x100 * n1 + d);
        assert(n / 0x100 == n1 && n % 0x100 == d);
        assert(n1 == 0x100 * n2 + c);
        assert(n1 / 0x100 == n2 && n1 % 0x100 == c);
        assert(n / 0x1_0000 == n2);
        assert(n2 / 0x100 == a && n2 % 0x100 == b);
        assert(n / 0x100_0000 == a);
    }
}

/// Addresses with the same number are the same.
pub proof fn lemma_num_injective(x: Ipv4Addr, y: Ipv4Addr)
    requires
        x.num() == y.num(),
    ensures
        x == y,
{
    x.lemma_num_octets();
    y.lemma_num_octets();
}

impl Ipv4Net {
    /// Whether the prefix is no longer than an address.
    pub open spec fn wf(self) -> bool {
        self.prefix_len <= 32
    }

    /// How many addresses share the prefix.
    pub open spec fn size(self) -> nat {
        pow2((32 - self.prefix_len) as nat)
    }

    /// The number of the network's first address.
    pub open spec fn network_num(self) -> int {
        self.addr.num() - self.addr.num() % (self.size() as int)
    }

    /// The number of the first address that a host can have: the network address itself is left
    /// out where there are more than two addresses.
    pub open spec fn first_host(self) -> int {
        if self.prefix_len < 31 {
            self.network_num() + 1
        } else {
            self.network_num()
        }
    }

    /// How many addresses hosts can have: the first and the last are left out where there are more
    /// than two.
    pub open spec fn host_count(self) -> int {
        if self.prefix_len < 31 {
            self.size() - 2
        } else {
            self.size() as int
        }
    }

    /// The first address of the network.
    pub fn network(&self) -> (r: Ipv4Addr)
        requires
            self.wf(),
        ensures
            r.num() == self.network_num(),
    {
        v4_network(*self)
    }
}

impl Ipv6Net {
    /// Whether the prefix is no longer than an address.
    pub open spec fn wf(self) -> bool {
        self.prefix_len <= 128
    }

    /// How many addresses share the prefix.
    pub open spec fn size(self) -> nat {
        pow2((128 - self.prefix_len) as nat)
    }

    /// The number of the network's first address.
    pub open spec fn network_num(self) -> int {
        self.addr.bits - self.addr.bits as int % (self.size() as int)
    }
}

impl IpNet {
    /// Whether the prefix is no longer than an address.
    pub open spec fn wf(self) -> bool {
        match self {
            IpNet::V4(n) => n.wf(),
            IpNet::V6(n) => n.wf(),
        }
    }

    /// The length of the prefix.
    pub open spec fn spec_prefix_len(self) -> u8 {
        match self {
            IpNet::V4(n) => n.prefix_len,
            IpNet::V6(n) => n.prefix_len,
        }
    }

    /// How many addresses hosts can have.
    pub open spec fn host_count(self) -> int {
        match self {
            IpNet::V4(n) => n.host_count(),
            IpNet::V6(n) => n.size() as int,
        }
    }

    /// Whether `ip` is the address of host `n`, counted from zero.
    pub open spec fn is_host(self, n: int, ip: IpAddr) -> bool {
        match (self, ip) {
            (IpNet::V4(net), IpAddr::V4(a)) => a.num() == net.first_host() + n,
            (IpNet::V6(net), IpAddr::V6(a)) => a.bits == net.network_num() + n,
            _ => false,
        }
    }

    /// The address of host `n`, where there is one.
    pub open spec fn host_at(self, n: int) -> Option<IpAddr> {
        if 0 <= n < self.host_count() {
            Some(choose|ip: IpAddr| self.is_host(n, ip))
        } else {
            None
        }
    }

    /// The length of the prefix.
    pub fn prefix_len(&self) -> (r: u8)
        ensures
            r == self.spec_prefix_len(),
    {
        match self {
            IpNet::V4(n) => n.prefix_len,
            IpNet::V6(n) => n.prefix_len,
        }
    }

    /// The address of host `n`, where there is one.
    pub fn host(&self, n: usize) -> (r: Option<IpAddr>)
        requires
            self.wf(),
        ensures
            r == self.host_at(n as int),
            r matches Some(ip) ==> self.is_host(n as int, ip),
            r is Some <==> n < self.host_count(),
    {
        let r: Option<IpAddr> = match self {
            IpNet::V4(net) => match v4_host(*net, n) {
                Some(a) => Some(IpAddr::V4(a)),
                None => None,
            },
            IpNet::V6(net) => match v6_host(*net, n) {
                Some(bits) => Some(IpAddr::V6(Ipv6Addr { bits })),
                None => None,
            },
        };
        proof {
            match r {
                Some(ip) => {
                    assert(self.is_host(n as int, ip));
                    let other = choose|x: IpAddr| self.is_host(n as int, x);
                    lemma_host_unique(*self, n as int, ip, other);
                },
                None => {},
            }
        }
        r
    }

    /// The network that `s` denotes.
    pub fn parse(s: &str) -> (r: Option<IpNet>)
        ensures
            r == net_of(s@),
            r matches Some(net) ==> net.wf(),
    {
        parse_net(s)
    }
}

/// Two addresses of one host are the same.
pub proof fn lemma_host_unique(net: IpNet, n: int, x: IpAddr, y: IpAddr)
    requires
        net.is_host(n, x),
        net.is_host(n, y),
    ensures
        x == y,
{
    match (x, y) {
        (IpAddr::V4(a), IpAddr::V4(b)) => {
            lemma_num_injective(a, b);
        },
        _ => {},
    }
}

/// The address with a number.
spec fn addr_at(v: int) -> Ipv4Addr {
    Ipv4Addr {
        a: (v / 0x100_0000) as u8,
        b: ((v / 0x1_0000) % 0x100) as u8,
        c: ((v / 0x100) % 0x100) as u8,
        d: (v % 0x100) as u8,
    }
}

proof fn lemma_addr_at(v: int)
    requires
        0 <= v < 0x1_0000_0000,
    ensures
        addr_at(v).num() == v,
{
    let v1 = v / 0x100;
    let v2 = v1 / 0x100;
    let v3 = v2 / 0x100;
    assert(v == 0x100 * v1 + v % 0x100);
    assert(v1 == 0x100 * v2 + v1 % 0x100);
    assert(v2 == 0x100 * v3 + v2 % 0x100);
    assert(v / 0x1_0000 == v2);
    assert(v / 0x100_0000 == v3);
    assert(0 <= v3 < 0x100);
}

/// The block of `size` numbers that holds `num` lies within the numbers below `size * blocks`.
proof fn lemma_block(num: int, size: int, blocks: int)
    by (nonlinear_arith)
    requires
        size > 0,
        0 <= num < size * blocks,
    ensures
        0 <= num - num % size,
        num - num % size + size <= size * blocks,
{
    let k = num / size;
    assert(num == size * k + num % size);
    assert(k < blocks);
    assert(size * (k + 1) <= size * blocks);
}

proof fn lemma_v4_size(net: Ipv4Net)
    requires
        net.wf(),
    ensures
        net.size() > 0,
        net.host_count() >= 1,
        net.size() * pow2(net.prefix_len as nat) == 0x1_0000_0000,
{
    let p = net.prefix_len;
    lemma_pow2_pos((32 - p) as nat);
    lemma_pow2_adds((32 - p) as nat, p as nat);
    lemma2_to64();
    if p < 31 {
        lemma_pow2_adds((30 - p) as nat, 2);
        lemma_pow2_pos((30 - p) as nat);
    }
}

/// Every host of an IPv4 network has an address, and there is at least one host.
pub proof fn lemma_v4_hosts(net: Ipv4Net, n: int)
    requires
        net.wf(),
    ensures
        net.host_count() >= 1,
        0 <= n < net.host_count() ==> exists|ip: IpAddr| #[trigger] IpNet::V4(net).is_host(n, ip),
        IpNet::V4(net).host_at(n) matches Some(ip) ==> IpNet::V4(net).is_host(n, ip),
{
    lemma_v4_size(net);
    if 0 <= n < net.host_count() {
        lemma_block(net.addr.num(), net.size() as int, pow2(net.prefix_len as nat) as int);
        let v = net.first_host() + n;
        lemma_addr_at(v);
        assert(IpNet::V4(net).is_host(n, IpAddr::V4(addr_at(v))));
    }
}

/// Every host of an IPv6 network has an address, and there is at least one host.
pub proof fn lemma_v6_hosts(net: Ipv6Net, n: int)
    requires
        net.wf(),
    ensures
        net.size() >= 1,
        0 <= n < net.size() ==> exists|ip: IpAddr| #[trigger] IpNet::V6(net).is_host(n, ip),
        IpNet::V6(net).host_at(n) matches Some(ip) ==> IpNet::V6(net).is_host(n, ip),
{
    let p = net.prefix_len;
    lemma_pow2_pos((128 - p) as nat);
    if 0 <= n < net.size() {
        lemma_pow2_adds((128 - p) as nat, p as nat);
        lemma_pow2_adds(64, 64);
        lemma2_to64();
        lemma_block(net.addr.bits as int, net.size() as int, pow2(p as nat) as int);
        let v = net.network_num() + n;
        assert(0 <= v <= u128::MAX);
        assert(IpNet::V6(net).is_host(n, IpAddr::V6(Ipv6Addr { bits: v as u128 })));
    }
}

/// The number that a run of at most `digits` decimal digits denotes, where it is below `bound`.
pub open spec fn numeral(s: Seq<char>, digits: nat, bound: nat) -> Option<u8> {
    if 1 <= s.len() <= digits && all_digits(s) && digits_value(s) < bound {
        Some(digits_value(s) as u8)
    } else {
        None
    }
}

/// The IPv4 network that `s` denotes: four octets of one to three digits with dots between them, a
/// slash, and a prefix length of one or two digits that is at most 32.
pub open spec fn v4_net_of(s: Seq<char>) -> Option<Ipv4Net> {
    let halves = split(s, Sep::Char('/'));
    let octets = split(halves[0], Sep::Char('.'));
    if halves.len() == 2 && octets.len() == 4 {
        match (
            numeral(octets[0], 3, 256),
            numeral(octets[1], 3, 256),
            numeral(octets[2], 3, 256),
            numeral(octets[3], 3, 256),
            numeral(halves[1], 2, 33),
        ) {
            (Some(a), Some(b), Some(c), Some(d), Some(prefix_len)) => Some(
                Ipv4Net { addr: Ipv4Addr { a, b, c, d }, prefix_len },
            ),
            _ => None,
        }
    } else {
        None
    }
}

/// The IPv6 network that a text denotes, where it denotes no IPv4 network: the address as a number,
/// and the length of the prefix.
pub uninterp spec fn v6_net_of(s: Seq<char>) -> Option<(u128, u8)>;

/// The network that `s` denotes.
pub open spec fn net_of(s: Seq<char>) -> Option<IpNet> {
    match v4_net_of(s) {
        Some(net) => Some(IpNet::V4(net)),
        None => match v6_net_of(s) {
            Some((bits, prefix_len)) => Some(
                IpNet::V6(Ipv6Net { addr: Ipv6Addr { bits }, prefix_len }),
            ),
            None => None,
        },
    }
}

/// `ipnet::Ipv4Net` from its text (`FromStr`). Claims that the texts taken are those of the grammar
/// of `v4_net_of`, and that the address and the prefix length are the ones written: the address is
/// not reduced to the network's first.
#[verifier::external_body]
pub(crate) fn parse_v4_net(s: &str) -> (r: Option<Ipv4Net>)
    ensures
        r == v4_net_of(s@),
{
    match s.parse::<ipnet::Ipv4Net>() {
        Ok(net) => {
            let [a, b, c, d] = net.addr().octets();
            Some(Ipv4Net { addr: Ipv4Addr { a, b, c, d }, prefix_len: net.prefix_len() })
        },
        Err(_) => None,
    }
}

/// `ipnet::IpNet` from its text (`FromStr`). Claims that an IPv4 network is tried first, with the
/// grammar of `v4_net_of`; that the outcome otherwise depends on the text alone; and that the prefix
/// of an IPv6 network is at most 128. The grammar of IPv6 networks is not stated.
#[verifier::external_body]
fn parse_net(s: &str) -> (r: Option<IpNet>)
    ensures
        match r {
            Some(IpNet::V4(net)) => v4_net_of(s@) == Some(net),
            Some(IpNet::V6(net)) => {
                &&& v4_net_of(s@) is None
                &&& v6_net_of(s@) == Some((net.addr.bits, net.prefix_len))
                &&& net.prefix_len <= 128
            },
            None => v4_net_of(s@) is None && v6_net_of(s@) is None,
        },
{
    match s.parse::<ipnet::IpNet>() {
        Ok(ipnet::IpNet::V4(net)) => {
            let [a, b, c, d] = net.addr().octets();
            Some(IpNet::V4(Ipv4Net { addr: Ipv4Addr { a, b, c, d }, prefix_len: net.prefix_len() }))
        },
        Ok(ipnet::IpNet::V6(net)) => {
            let addr = Ipv6Addr { bits: net.addr().into() };
            Some(IpNet::V6(Ipv6Net { addr, prefix_len: net.prefix_len() }))
        },
        Err(_) => None,
    }
}

/// `ipnet::Ipv4Net::network`. Claims that it is the address with the bits behind the prefix cleared.
/// A prefix longer than an address makes no network, so it is left out.
#[verifier::external_body]
fn v4_network(net: Ipv4Net) -> (r: Ipv4Addr)
    requires
        net.wf(),
    ensures
        r.num() == net.network_num(),
{
    let addr = [net.addr.a, net.addr.b, net.addr.c, net.addr.d];
    let [a, b, c, d] = ipnet::Ipv4Net::new_assert(addr.into(), net.prefix_len).network().octets();
    Ipv4Addr { a, b, c, d }
}

/// The `n`-th of `ipnet::Ipv4Net::hosts`. Claims that the hosts are the addresses of the network in
/// ascending order, without the first and the last where the prefix is shorter than 31. A prefix
/// longer than an address makes no network, so it is left out.
#[verifier::external_body]
fn v4_host(net: Ipv4Net, n: usize) -> (r: Option<Ipv4Addr>)
    requires
        net.wf(),
    ensures
        match r {
            Some(a) => n < net.host_count() && a.num() == net.first_host() + n,
            None => n >= net.host_count(),
        },
{
    let addr = [net.addr.a, net.addr.b, net.addr.c, net.addr.d];
    match ipnet::Ipv4Net::new_assert(addr.into(), net.prefix_len).hosts().nth(n) {
        Some(ip) => {
            let [a, b, c, d] = ip.octets();
            Some(Ipv4Addr { a, b, c, d })
        },
        None => None,
    }
}

/// The `n`-th of `ipnet::Ipv6Net::hosts`, as a number. Claims that the hosts are all addresses of
/// the network in ascending order. A prefix longer than an address makes no network, so it is left
/// out.
#[verifier::external_body]
fn v6_host(net: Ipv6Net, n: usize) -> (r: Option<u128>)
    requires
        net.wf(),
    ensures
        match r {
            Some(bits) => n < net.size() && bits == net.network_num() + n,
            None => n >= net.size(),
        },
{
    match ipnet::Ipv6Net::new_assert(net.addr.bits.into(), net.prefix_len).hosts().nth(n) {
        Some(ip) => Some(ip.into()),
        None => None,
    }
}

/// The text of an address with a slash and a prefix length behind it denotes the network of both.
pub proof fn lemma_net_text(ip: Ipv4Addr, prefix_len: u8)
    requires
        prefix_len <= 32,
    ensures
        v4_net_of(ip.spec_text() + "/"@ + decimal(prefix_len as nat)) == Some(
            (Ipv4Net { addr: ip, prefix_len }),
        ),
{
    reveal_strlit("/");
    let p = decimal(prefix_len as nat);
    let a = ip.spec_text();
    let s = a + "/"@ + p;
    let sep = Sep::Char('/');
    assert(s =~= a.push('/') + p);
    ip.lemma_text_chars();
    lemma_decimal(prefix_len as nat);
    lemma_split_single(a, sep);
    lemma_split_single(p, sep);
    lemma_split_join(a, '/', p, sep);
    assert(split(s, sep) =~= seq![a, p]);
    ip.lemma_text_pieces();
    lemma_short_numeral(ip.a as nat);
    lemma_short_numeral(ip.b as nat);
    lemma_short_numeral(ip.c as nat);
    lemma_short_numeral(ip.d as nat);
    lemma_short_numeral(prefix_len as nat);
}

proof fn lemma_short_numeral(n: nat)
    requires
        n < 256,
    ensures
        all_digits(decimal(n)),
        digits_value(decimal(n)) == n,
        1 <= decimal(n).len() <= 3,
        n < 100 ==> decimal(n).len() <= 2,
{
    lemma_decimal(n);
    reveal_with_fuel(decimal, 4);
}


}
