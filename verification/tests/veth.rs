use arachne::cni::error::CniError;
use arachne::cni::veth::{
    host_veth_name, setup, short_id, teardown, Found, LinkAttribute, NetOp, SetupStep,
    TeardownStep,
};
use arachne::net::{IpAddr, Ipv4Addr, Ipv6Addr};

fn s(x: &str) -> String {
    x.to_string()
}

fn pod() -> IpAddr {
    IpAddr::V4(Ipv4Addr::new(10, 244, 1, 2))
}

fn gateway() -> IpAddr {
    IpAddr::V4(Ipv4Addr::new(10, 244, 1, 1))
}

fn show(op: &NetOp) -> String {
    match op {
        NetOp::OpenNetlink => s("open"),
        NetOp::CreateVeth(a, b) => format!("create {a} {b}"),
        NetOp::FindLink(a) => format!("find {a}"),
        NetOp::OpenPodNetns(p) => format!("netns {p}"),
        NetOp::MoveToPodNetns(i) => format!("move {i}"),
        NetOp::LinkUp(i) => format!("up {i}"),
        NetOp::WriteFile(p, c) => format!("write {p} {c}"),
        NetOp::AddHostRoute(a, i) => format!("route {} {i}", a.text()),
        NetOp::OpenHostNetns(p) => format!("host netns {p}"),
        NetOp::EnterPodNetns => s("enter"),
        NetOp::RenameLink(i, n) => format!("rename {i} {n}"),
        NetOp::AddAddress(i, a, p) => format!("address {i} {}/{p}", a.text()),
        NetOp::AddDefaultRoute(a) => format!("default {}", a.text()),
        NetOp::FindAttributes(n) => format!("attributes {n}"),
        NetOp::ReturnToHostNetns => s("return"),
        NetOp::DeleteLink(i) => format!("delete {i}"),
    }
}

fn answer(op: &NetOp) -> Found {
    match op {
        NetOp::FindLink(n) if n == "lo" => Found::Index(1),
        NetOp::FindLink(n) if n == "eth0" => Found::Index(3),
        NetOp::FindLink(n) if n.starts_with("peth") => Found::Index(11),
        NetOp::FindLink(_) => Found::Index(12),
        NetOp::FindAttributes(_) => Found::Attributes(vec![
            LinkAttribute::Other,
            LinkAttribute::Address(vec![1, 2, 3, 4]),
            LinkAttribute::Address(vec![1, 2, 3, 4, 5, 6]),
            LinkAttribute::Address(vec![6, 5, 4, 3, 2, 1]),
        ]),
        _ => Found::Nothing,
    }
}

/// Sets up, with the given outcome for operation number `at`; lists the operations.
fn run(at: usize, outcome: Result<Found, String>) -> (Vec<String>, Result<(u32, [u8; 6]), CniError>) {
    let mut outcome = Some(outcome);
    let mut ops = vec![];
    let mut step = setup("0123456789", "eth0", "/run/netns/x", pod(), 24, gateway());
    loop {
        match step {
            SetupStep::Ask(q) => {
                let op = q.op();
                let a = if ops.len() == at { outcome.take().unwrap() } else { Ok(answer(&op)) };
                ops.push(show(&op));
                step = q.resume(a);
            }
            SetupStep::Done(r) => return (ops, r),
        }
    }
}

fn plan() -> Vec<String> {
    [
        "open",
        "create veth01234567 peth01234567",
        "find peth01234567",
        "netns /run/netns/x",
        "move 11",
        "find veth01234567",
        "up 12",
        "write /proc/sys/net/ipv4/conf/veth01234567/proxy_arp 1",
        "route 10.244.1.2 12",
        "host netns /proc/self/ns/net",
        "enter",
        "open",
        "find lo",
        "up 1",
        "find peth01234567",
        "rename 11 eth0",
        "find eth0",
        "address 3 10.244.1.2/24",
        "up 3",
        "default 10.244.1.1",
        "attributes eth0",
        "return",
    ]
    .iter()
    .map(|x| s(x))
    .collect()
}

#[test]
fn interfaces_are_named_by_the_short_id() {
    assert_eq!(host_veth_name("0123456789abcdef"), "veth01234567");
    assert_eq!(host_veth_name("0123"), "veth0123");
    assert_eq!(host_veth_name(""), "veth");
    assert_eq!(short_id("caf\u{e9}-000-1"), "caf\u{e9}-00");
}

#[test]
fn a_setup_in_order() {
    let (ops, r) = run(usize::MAX, Ok(Found::Nothing));
    assert_eq!(ops, plan());
    assert_eq!(r, Ok((12, [1, 2, 3, 4, 5, 6])));
}

#[test]
fn every_failure_has_its_message() {
    let messages = [
        (100, "boom"),
        (100, "create veth: boom"),
        (100, "get link peth01234567: boom"),
        (5, "boom"),
        (100, "move peer to pod netns: boom"),
        (100, "get link veth01234567: boom"),
        (100, "bring up host veth: boom"),
        (5, "boom"),
        (100, "add host route: boom"),
        (5, "boom"),
        (100, "enter pod netns: boom"),
        (100, "boom"),
        (100, "get link lo: boom"),
        (100, "bring up lo: boom"),
        (100, "get link peth01234567: boom"),
        (100, "rename veth to eth0: boom"),
        (100, "get link eth0: boom"),
        (100, "assign pod IP: boom"),
        (100, "bring up eth0: boom"),
        (100, "add default route: boom"),
        (100, "get link eth0: boom"),
        (100, "return to host netns: boom"),
    ];
    for (i, (code, reason)) in messages.iter().enumerate() {
        let (ops, r) = run(i, Err(s("boom")));
        let e = r.unwrap_err();
        assert_eq!(e.code(), *code, "{}", i);
        let want = if *code == 5 { CniError::Io(s(reason)) } else { CniError::Netlink(s(reason)) };
        assert_eq!(e, want);
        let mut expected: Vec<String> = plan()[..=i].to_vec();
        if i > 10 && i < 21 {
            expected.push(s("return"));
        }
        assert_eq!(ops, expected, "{}", i);
    }
}

#[test]
fn links_that_are_not_there() {
    let missing = |i: usize, name: &str| {
        let (ops, r) = run(i, Ok(Found::Nothing));
        assert_eq!(r, Err(CniError::Netlink(format!("link not found: {name}"))));
        ops.last().unwrap() == "return"
    };
    assert!(!missing(2, "peth01234567"));
    assert!(!missing(5, "veth01234567"));
    assert!(missing(12, "lo"));
    assert!(missing(14, "peth01234567"));
    assert!(missing(16, "eth0"));
    assert!(missing(20, "eth0"));
    let (ops, r) = run(20, Ok(Found::Attributes(vec![LinkAttribute::Address(vec![1; 8])])));
    assert_eq!(r, Err(CniError::Netlink(s("no MAC on eth0"))));
    assert_eq!(ops.last().unwrap(), "return");
}

#[test]
fn ipv6_is_not_set_up() {
    let six = IpAddr::V6(Ipv6Addr { bits: 1 });
    for (a, g) in [(six, gateway()), (pod(), six), (six, six)] {
        match setup("0123456789", "eth0", "x", a, 64, g) {
            SetupStep::Done(r) => {
                assert_eq!(r, Err(CniError::Netlink(s("IPv6 not supported"))));
            }
            _ => panic!("it goes on"),
        }
    }
}

/// Tears down with these outcomes; lists the operations.
fn tear(outcomes: Vec<Result<Found, String>>) -> (Vec<String>, Result<(), CniError>) {
    let mut ops = vec![];
    let mut step = teardown("0123456789");
    let mut outcomes = outcomes.into_iter();
    loop {
        match step {
            TeardownStep::Ask(q) => {
                ops.push(show(&q.op()));
                step = q.resume(outcomes.next().unwrap());
            }
            TeardownStep::Done(r) => return (ops, r),
        }
    }
}

#[test]
fn a_teardown_deletes_the_host_side() {
    let ok = || Ok(Found::Nothing);
    let (ops, r) = tear(vec![ok(), Ok(Found::Index(5)), ok()]);
    assert_eq!(ops, vec![s("open"), s("find veth01234567"), s("delete 5")]);
    assert_eq!(r, Ok(()));
    assert_eq!(tear(vec![ok(), ok()]).1, Ok(()));
    assert_eq!(tear(vec![ok(), Err(s("x"))]).1, Ok(()));
    assert_eq!(tear(vec![Err(s("x"))]).1, Err(CniError::Netlink(s("x"))));
    assert_eq!(
        tear(vec![ok(), Ok(Found::Index(5)), Err(s("x"))]).1,
        Err(CniError::Netlink(s("delete host veth: x")))
    );
}
