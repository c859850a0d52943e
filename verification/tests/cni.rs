use arachne::bpf::MapOp;
use arachne::cni::command::{
    cmd_add, cmd_del, dispatch, endpoint_left, endpoint_of, start, Action, AddRequest, Start,
};
use arachne::cni::config::NetworkConfig;
use arachne::cni::connect::{connect, disconnect, AddStep, DelStep};
use arachne::cni::error::CniError;
use arachne::cni::ipam::Allocation;
use arachne::cni::params::{CniEnv, CniParams, Command};
use arachne::common::{endpoint_key, Endpoint};
use arachne::net::{IpAddr, IpNet, Ipv4Addr, Ipv6Addr};

fn s(x: &str) -> String {
    x.to_string()
}

fn env(command: &str) -> CniEnv {
    CniEnv {
        command: Some(s(command)),
        container_id: Some(s("0123456789")),
        netns: Some(s("/var/run/netns/x")),
        ifname: Some(s("eth0")),
        args: Some(s("K8S_POD_NAME=web;IgnoreUnknown=1")),
        path: Some(s("/opt/cni/bin")),
    }
}

fn config(subnet: Option<&str>) -> NetworkConfig {
    NetworkConfig {
        cni_version: s("1.1.0"),
        name: s("arachne"),
        type_: s("arachne"),
        subnet: subnet.map(s),
    }
}

fn params(command: &str) -> CniParams {
    CniParams::from_env(&env(command)).unwrap_or_else(|e| panic!("{:?}", e))
}

fn invalid(reason: &str) -> CniError {
    CniError::InvalidEnv(s(reason))
}

#[test]
fn commands_have_names() {
    let all = [
        ("ADD", Command::Add),
        ("DEL", Command::Del),
        ("CHECK", Command::Check),
        ("VERSION", Command::Version),
        ("GC", Command::Gc),
        ("STATUS", Command::Status),
    ];
    for (name, command) in all {
        assert_eq!(Command::parse(name), Ok(command));
        assert_eq!(name.parse::<Command>(), Ok(command));
    }
    assert_eq!(Command::parse("add"), Err(invalid("unknown CNI_COMMAND: add")));
    assert_eq!("".parse::<Command>(), Err(invalid("unknown CNI_COMMAND: ")));
}

#[test]
fn the_environment_is_read() {
    let mut e = env("ADD");
    e.args = Some(s("a=1;b=;=c;plain;a=2=3;"));
    e.path = Some(s("/a:::/b:"));
    let p = match CniParams::from_env(&e) {
        Ok(p) => p,
        Err(e) => panic!("{:?}", e),
    };
    assert_eq!(p.command, Command::Add);
    assert_eq!(p.container_id.as_deref(), Some("0123456789"));
    assert_eq!(p.netns.as_deref(), Some("/var/run/netns/x"));
    assert_eq!(p.ifname.as_deref(), Some("eth0"));
    assert_eq!(p.args.len(), 3);
    assert_eq!(p.args.get("a").map(|x| x.as_str()), Some("2=3"));
    assert_eq!(p.args.get("b").map(|x| x.as_str()), Some(""));
    assert_eq!(p.args.get("").map(|x| x.as_str()), Some("c"));
    assert_eq!(p.args.get("plain"), None);
    assert_eq!(p.path, vec![s("/a"), s("/b")]);
}

#[test]
fn an_empty_environment() {
    let nothing = CniEnv {
        command: None,
        container_id: None,
        netns: None,
        ifname: None,
        args: None,
        path: None,
    };
    assert_eq!(CniParams::from_env(&nothing).err(), Some(invalid("missing CNI_COMMAND")));
    let bare = CniEnv { command: Some(s("STATUS")), ..nothing };
    let p = match CniParams::from_env(&bare) {
        Ok(p) => p,
        Err(e) => panic!("{:?}", e),
    };
    assert_eq!(p.args.len(), 0);
    assert!(p.path.is_empty());
    assert_eq!((p.container_id, p.netns, p.ifname), (None, None, None));
}

#[test]
fn failures_have_codes_and_messages() {
    let all = [
        (CniError::UnsupportedVersion(s("0.1")), 1, "unsupported CNI version: 0.1"),
        (CniError::InvalidEnv(s("x")), 4, "invalid CNI environment: x"),
        (CniError::Io(s("x")), 5, "I/O error: x"),
        (CniError::Json(s("x")), 6, "failed to decode CNI config: x"),
        (CniError::Ipam(s("x")), 11, "IPAM error: x"),
        (CniError::Netlink(s("x")), 100, "network setup error: x"),
    ];
    for (e, code, message) in all {
        assert_eq!(e.code(), code);
        assert_eq!(e.message(), message);
        let r = e.response();
        assert_eq!(r.cni_version, "1.1.0");
        assert_eq!((r.code, r.msg.as_str(), r.details), (code, message, None));
    }
}

#[test]
fn versions_need_no_configuration() {
    match start(&env("VERSION")) {
        Ok(Start::Version(v)) => {
            assert_eq!(v.cni_version, "1.1.0");
            assert_eq!(v.supported_versions, vec![s("1.1.0")]);
        }
        _ => panic!("the versions"),
    }
    match start(&env("ADD")) {
        Ok(Start::NeedConfig(p)) => assert_eq!(p.command, Command::Add),
        _ => panic!("the configuration is needed"),
    }
    assert_eq!(start(&env("x")).err(), Some(invalid("unknown CNI_COMMAND: x")));
}

#[test]
fn requests_are_dispatched() {
    let c = config(Some("10.244.1.0/24"));
    assert!(matches!(dispatch(&params("CHECK"), &c), Ok(Action::Check)));
    assert!(matches!(dispatch(&params("GC"), &c), Ok(Action::Gc)));
    assert!(matches!(dispatch(&params("STATUS"), &c), Ok(Action::Status)));
    assert!(matches!(dispatch(&params("DEL"), &c), Ok(Action::Del(id)) if id == "0123456789"));
    match dispatch(&params("ADD"), &c) {
        Ok(Action::Add(r)) => {
            assert_eq!(r.container_id, "0123456789");
            assert_eq!(r.ifname, "eth0");
            assert_eq!(r.netns, "/var/run/netns/x");
            assert_eq!(Some(r.net), IpNet::parse("10.244.1.0/24"));
        }
        _ => panic!("a container to connect"),
    }
    let mut old = config(None);
    old.cni_version = s("1.0.0");
    assert_eq!(
        dispatch(&params("ADD"), &old).err(),
        Some(CniError::UnsupportedVersion(s("1.0.0")))
    );
}

#[test]
fn what_is_missing_is_named_in_order() {
    let mut p = params("ADD");
    let none = config(None);
    assert_eq!(cmd_add(&p, &none).err(), Some(invalid("missing subnet in config")));
    p.netns = None;
    assert_eq!(cmd_add(&p, &none).err(), Some(invalid("missing CNI_NETNS")));
    p.ifname = None;
    assert_eq!(cmd_add(&p, &none).err(), Some(invalid("missing CNI_IFNAME")));
    p.container_id = None;
    assert_eq!(cmd_add(&p, &none).err(), Some(invalid("missing CNI_CONTAINERID")));
    assert_eq!(cmd_del(&p).err(), Some(invalid("missing CNI_CONTAINERID")));
    assert_eq!(
        cmd_add(&params("ADD"), &config(Some("10.244.1.0"))).err(),
        Some(CniError::Ipam(s("invalid subnet: 10.244.1.0")))
    );
}

fn request() -> AddRequest {
    match cmd_add(&params("ADD"), &config(Some("10.244.1.0/24"))) {
        Ok(r) => r,
        Err(e) => panic!("{:?}", e),
    }
}

fn granted() -> Allocation {
    Allocation {
        address: IpAddr::V4(Ipv4Addr::new(10, 244, 1, 2)),
        gateway: IpAddr::V4(Ipv4Addr::new(10, 244, 1, 1)),
        prefix_len: 24,
    }
}

#[test]
fn the_answer_to_an_add() {
    let r = request().result(&granted());
    assert_eq!(r.cni_version, "1.1.0");
    assert_eq!(r.interfaces.len(), 1);
    assert_eq!(r.interfaces[0].name, "eth0");
    assert_eq!(r.interfaces[0].mac, "");
    assert_eq!(r.interfaces[0].sandbox, "/var/run/netns/x");
    assert_eq!(r.ips.len(), 1);
    assert_eq!(r.ips[0].address, "10.244.1.2/24");
    assert_eq!(r.ips[0].gateway.text(), "10.244.1.1");
    assert_eq!(r.ips[0].interface, 0);
    assert_eq!(r.routes.len(), 1);
    assert_eq!(r.routes[0].dst, "0.0.0.0/0");
    assert_eq!(r.routes[0].gw.text(), "10.244.1.1");
}

#[test]
fn endpoints_of_containers() {
    let key = endpoint_key(Ipv4Addr::new(10, 244, 1, 2));
    assert_eq!(
        endpoint_of(&granted(), 7, [1; 6]),
        Some(MapOp::EndpointsInsert(key, Endpoint { ifindex: 7, mac: [1; 6] }))
    );
    let six = Allocation { address: IpAddr::V6(Ipv6Addr { bits: 1 }), ..granted() };
    assert_eq!(endpoint_of(&six, 7, [1; 6]), None);
    assert_eq!(endpoint_left(&Some(s("10.244.1.2\n"))), Some(MapOp::EndpointsRemove(key)));
    assert_eq!(endpoint_left(&Some(s("::1"))), None);
    assert_eq!(endpoint_left(&Some(s("x"))), None);
    assert_eq!(endpoint_left(&None), None);
}

#[test]
fn connecting_takes_its_stages_in_order() {
    let AddStep::Allocate(q) = connect(request()) else { panic!() };
    let AddStep::SetUp(q) = q.resume(Ok(granted())) else { panic!() };
    let AddStep::Attach(q) = q.resume(Ok((7, [1; 6]))) else { panic!() };
    let AddStep::Record(q) = q.resume(Ok(())) else { panic!() };
    assert_eq!(Some(q.op), endpoint_of(&granted(), 7, [1; 6]));
    let AddStep::Done(Ok(r)) = q.resume(Ok(())) else { panic!() };
    assert_eq!(r.ips[0].address, "10.244.1.2/24");
}

#[test]
fn the_first_failure_ends_connecting() {
    let failed = |step: AddStep| match step {
        AddStep::Done(Err(e)) => e,
        _ => panic!("it goes on"),
    };
    let AddStep::Allocate(q) = connect(request()) else { panic!() };
    assert_eq!(failed(q.resume(Err(CniError::Ipam(s("a"))))), CniError::Ipam(s("a")));
    let AddStep::Allocate(q) = connect(request()) else { panic!() };
    let AddStep::SetUp(q) = q.resume(Ok(granted())) else { panic!() };
    assert_eq!(failed(q.resume(Err(CniError::Io(s("b"))))), CniError::Io(s("b")));
    let AddStep::Allocate(q) = connect(request()) else { panic!() };
    let AddStep::SetUp(q) = q.resume(Ok(granted())) else { panic!() };
    let AddStep::Attach(q) = q.resume(Ok((7, [1; 6]))) else { panic!() };
    assert_eq!(failed(q.resume(Err(s("c")))), CniError::Netlink(s("c")));
    let AddStep::Allocate(q) = connect(request()) else { panic!() };
    let AddStep::SetUp(q) = q.resume(Ok(granted())) else { panic!() };
    let AddStep::Attach(q) = q.resume(Ok((7, [1; 6]))) else { panic!() };
    let AddStep::Record(q) = q.resume(Ok(())) else { panic!() };
    assert_eq!(failed(q.resume(Err(s("d")))), CniError::Netlink(s("d")));
}

#[test]
fn disconnecting_takes_its_stages_in_order() {
    let DelStep::TearDown(q) = disconnect(s("c")) else { panic!() };
    let DelStep::Detach(q) = q.resume(Ok(())) else { panic!() };
    let DelStep::ReadRecord(q) = q.resume(Ok(())) else { panic!() };
    let DelStep::Forget(q) = q.resume(Some(s("10.244.1.2"))) else { panic!() };
    assert_eq!(q.op, MapOp::EndpointsRemove(endpoint_key(Ipv4Addr::new(10, 244, 1, 2))));
    let DelStep::Release(q) = q.resume() else { panic!() };
    assert_eq!(q.container_id, "c");
    assert!(matches!(q.resume(Ok(())), DelStep::Done(Ok(()))));
    let DelStep::TearDown(q) = disconnect(s("c")) else { panic!() };
    let DelStep::Detach(q) = q.resume(Ok(())) else { panic!() };
    let DelStep::ReadRecord(q) = q.resume(Ok(())) else { panic!() };
    let DelStep::Release(_) = q.resume(None) else { panic!() };
}

#[test]
fn the_first_failure_ends_disconnecting() {
    let failed = |step: DelStep| match step {
        DelStep::Done(Err(e)) => e,
        _ => panic!("it goes on"),
    };
    let DelStep::TearDown(q) = disconnect(s("c")) else { panic!() };
    assert_eq!(failed(q.resume(Err(CniError::Netlink(s("a"))))), CniError::Netlink(s("a")));
    let DelStep::TearDown(q) = disconnect(s("c")) else { panic!() };
    let DelStep::Detach(q) = q.resume(Ok(())) else { panic!() };
    assert_eq!(failed(q.resume(Err(s("b")))), CniError::Io(s("b")));
    let DelStep::TearDown(q) = disconnect(s("c")) else { panic!() };
    let DelStep::Detach(q) = q.resume(Ok(())) else { panic!() };
    let DelStep::ReadRecord(q) = q.resume(Ok(())) else { panic!() };
    let DelStep::Release(q) = q.resume(None) else { panic!() };
    assert_eq!(failed(q.resume(Err(CniError::Io(s("c"))))), CniError::Io(s("c")));
}
