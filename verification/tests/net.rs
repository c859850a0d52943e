use arachne::net::{IpAddr, IpNet, Ipv4Addr, Ipv4Net, Ipv6Addr};

fn v4(s: &str) -> Ipv4Addr {
    Ipv4Addr::parse(s).unwrap()
}

#[test]
fn ipv4_addresses_are_read_and_written() {
    assert_eq!(Ipv4Addr::parse("10.244.1.5"), Some(Ipv4Addr::new(10, 244, 1, 5)));
    assert_eq!(Ipv4Addr::parse("255.255.255.255"), Some(Ipv4Addr::new(255, 255, 255, 255)));
    assert_eq!(Ipv4Addr::new(0, 10, 200, 9).text(), "0.10.200.9");
    assert_eq!(Ipv4Addr::new(1, 2, 3, 4).octets(), [1, 2, 3, 4]);
    for bad in [
        "", "1.2.3", "1.2.3.4.5", "256.1.1.1", "01.2.3.4", "+1.2.3.4", " 1.2.3.4", "1.2.3.4 ",
        "1..2.3", "a.b.c.d", "1.2.3.-4", "1.2.3.4/24", "::1", "00.0.0.0",
    ] {
        assert_eq!(Ipv4Addr::parse(bad), None, "{}", bad);
    }
}

#[test]
fn every_octet_reads_back() {
    for i in 0..=255u8 {
        let ip = Ipv4Addr::new(i, 255 - i, i / 2, i);
        assert_eq!(Ipv4Addr::parse(&ip.text()), Some(ip));
        assert_eq!(IpAddr::parse(&ip.text()), Some(IpAddr::V4(ip)));
    }
}

#[test]
fn ipv6_addresses_are_read_and_written() {
    let one = IpAddr::V6(Ipv6Addr { bits: 1 });
    assert_eq!(one.text(), "::1");
    assert_eq!(IpAddr::parse("::1"), Some(one));
    assert_eq!(IpAddr::parse("0:0:0:0:0:0:0:1"), Some(one));
    let mapped = IpAddr::V6(Ipv6Addr { bits: 0xffff_0102_0304 });
    assert_eq!(mapped.text(), "::ffff:1.2.3.4");
    assert_eq!(IpAddr::parse(&mapped.text()), Some(mapped));
    let long = IpAddr::V6(Ipv6Addr { bits: 0x2001_0db8_0000_0000_0001_0000_0000_00ab });
    assert_eq!(long.text(), "2001:db8::1:0:0:ab");
    assert_eq!(IpAddr::parse(&long.text()), Some(long));
    for bad in ["", ":", "1", "1::2::3", "g::", "::1 ", "10.0.0.1/8"] {
        assert_eq!(IpAddr::parse(bad), None, "{}", bad);
    }
}

#[test]
fn networks_are_read() {
    let net = IpNet::parse("10.244.1.7/24").unwrap();
    assert_eq!(net, IpNet::V4(Ipv4Net { addr: v4("10.244.1.7"), prefix_len: 24 }));
    assert_eq!(net.prefix_len(), 24);
    let zeros = IpNet::parse("010.000.1.009/08").unwrap();
    assert_eq!(zeros, IpNet::V4(Ipv4Net { addr: v4("10.0.1.9"), prefix_len: 8 }));
    match IpNet::parse("fd00::1/48") {
        Some(IpNet::V6(n)) => {
            assert_eq!(n.prefix_len, 48);
            assert_eq!(n.addr.bits, 0xfd00_0000_0000_0000_0000_0000_0000_0001);
        }
        _ => panic!("an IPv6 network"),
    }
    for bad in [
        "", "10.0.0.0", "10.0.0.0/", "10.0.0.0/33", "10.0.0.0/008", "10.0.0/8", "256.0.0.0/8",
        "0010.0.0.0/8", "10.0.0.0/8/8", "fd00::/129", "10.0.0.0/8 ", "10.0.0.0/-1",
    ] {
        assert_eq!(IpNet::parse(bad), None, "{}", bad);
    }
}

#[test]
fn the_first_address_of_a_network() {
    let net = |s: &str, prefix_len: u8| Ipv4Net { addr: v4(s), prefix_len };
    assert_eq!(net("172.16.123.123", 16).network(), v4("172.16.0.0"));
    assert_eq!(net("10.255.255.255", 12).network(), v4("10.240.0.0"));
    assert_eq!(net("255.255.255.255", 0).network(), v4("0.0.0.0"));
    assert_eq!(net("1.2.3.4", 32).network(), v4("1.2.3.4"));
    assert_eq!(net("1.2.3.5", 31).network(), v4("1.2.3.4"));
}

#[test]
fn the_hosts_of_a_network() {
    let hosts = |s: &str, n: usize| IpNet::parse(s).unwrap().host(n).map(|ip| ip.text());
    assert_eq!(hosts("10.0.0.9/29", 0), Some("10.0.0.9".to_string()));
    assert_eq!(hosts("10.0.0.9/29", 5), Some("10.0.0.14".to_string()));
    assert_eq!(hosts("10.0.0.9/29", 6), None);
    assert_eq!(hosts("10.0.0.9/31", 0), Some("10.0.0.8".to_string()));
    assert_eq!(hosts("10.0.0.9/31", 1), Some("10.0.0.9".to_string()));
    assert_eq!(hosts("10.0.0.9/31", 2), None);
    assert_eq!(hosts("10.0.0.9/32", 0), Some("10.0.0.9".to_string()));
    assert_eq!(hosts("10.0.0.9/32", 1), None);
    assert_eq!(hosts("10.0.0.9/0", 0), Some("0.0.0.1".to_string()));
    assert_eq!(hosts("10.0.0.9/0", 0xffff_fffd), Some("255.255.255.254".to_string()));
    assert_eq!(hosts("10.0.0.9/0", 0xffff_fffe), None);
    assert_eq!(hosts("10.1.0.0/16", 300), Some("10.1.1.45".to_string()));
    assert_eq!(hosts("fd00::5/126", 0), Some("fd00::4".to_string()));
    assert_eq!(hosts("fd00::5/126", 3), Some("fd00::7".to_string()));
    assert_eq!(hosts("fd00::5/126", 4), None);
    assert_eq!(hosts("::/0", 7), Some("::7".to_string()));
}
