use std::collections::HashMap;

use arachne::cni::error::CniError;
use arachne::cni::ipam::{
    allocate, release, AllocateStep, Allocation, Created, ReadFile, ReleaseStep, Removed,
};
use arachne::net::IpNet;

/// The two directories of records, in memory.
#[derive(Default)]
struct Store {
    by_ip: HashMap<String, String>,
    by_container: HashMap<String, String>,
}

fn allocate_in(store: &mut Store, net: &IpNet, id: &str) -> Result<Allocation, CniError> {
    let mut claimed = String::new();
    let mut step = allocate(net, id);
    loop {
        step = match step {
            AllocateStep::MakeDirs(q) => q.resume(Ok(())),
            AllocateStep::ReadRecord(q) => {
                let record = store.by_container.get(id).cloned();
                q.resume(record)
            }
            AllocateStep::Claim(q) => {
                claimed = q.file();
                if store.by_ip.contains_key(&claimed) {
                    assert!(q.n < usize::MAX);
                    q.resume(Created::Exists)
                } else {
                    store.by_ip.insert(claimed.clone(), String::new());
                    q.resume(Created::Yes)
                }
            }
            AllocateStep::WriteOwner(q) => {
                store.by_ip.insert(claimed.clone(), q.contents().to_string());
                q.resume(Ok(()))
            }
            AllocateStep::WriteRecord(q) => {
                store.by_container.insert(id.to_string(), q.contents());
                q.resume(Ok(()))
            }
            AllocateStep::Done(r) => return r,
        };
    }
}

fn release_in(store: &mut Store, id: &str) -> Result<(), CniError> {
    let mut step = release(id);
    loop {
        step = match step {
            ReleaseStep::ReadRecord(q) => match store.by_container.get(id) {
                Some(text) => q.resume(ReadFile::Contents(text.clone())),
                None => q.resume(ReadFile::NotFound),
            },
            ReleaseStep::RemoveAddress(q) => match store.by_ip.remove(&q.file) {
                Some(_) => q.resume(Removed::Yes),
                None => q.resume(Removed::NotFound),
            },
            ReleaseStep::RemoveRecord(q) => match store.by_container.remove(&q.container_id) {
                Some(_) => q.resume(Removed::Yes),
                None => q.resume(Removed::NotFound),
            },
            ReleaseStep::Done(r) => return r,
        };
    }
}

fn net(s: &str) -> IpNet {
    IpNet::parse(s).unwrap()
}

#[test]
fn reserves_gateway_and_is_idempotent() {
    let mut dir = Store::default();
    let net = net("10.244.1.0/24");

    let a = allocate_in(&mut dir, &net, "container-a").unwrap();
    assert_eq!(a.gateway.text(), "10.244.1.1");
    assert_eq!(a.address.text(), "10.244.1.2");
    assert_eq!(a.prefix_len, 24);

    let again = allocate_in(&mut dir, &net, "container-a").unwrap();
    assert_eq!(again.address, a.address);

    let b = allocate_in(&mut dir, &net, "container-b").unwrap();
    assert_eq!(b.address.text(), "10.244.1.3");
}

#[test]
fn release_frees_address_for_reuse() {
    let mut dir = Store::default();
    let net = net("10.244.1.0/24");

    let a = allocate_in(&mut dir, &net, "container-a").unwrap();
    release_in(&mut dir, "container-a").unwrap();
    release_in(&mut dir, "container-a").unwrap();

    let b = allocate_in(&mut dir, &net, "container-b").unwrap();
    assert_eq!(b.address, a.address);
}

#[test]
fn records_name_each_other() {
    let mut dir = Store::default();
    let net = net("10.244.1.0/24");
    allocate_in(&mut dir, &net, "a").unwrap();
    allocate_in(&mut dir, &net, "b").unwrap();
    assert_eq!(dir.by_ip["10.244.1.2"], "a");
    assert_eq!(dir.by_ip["10.244.1.3"], "b");
    assert_eq!(dir.by_container["a"], "10.244.1.2");
    release_in(&mut dir, "a").unwrap();
    assert_eq!(dir.by_ip.len(), 1);
    assert_eq!(dir.by_container.len(), 1);
    assert_eq!(dir.by_container["b"], "10.244.1.3");
}

#[test]
fn files_and_records_always_come_together() {
    for (cidr, gateway) in [("10.0.0.8/29", "10.0.0.9"), ("fd00:1::/125", "fd00:1::")] {
        let mut dir = Store::default();
        let net = net(cidr);
        let asks = ["+a", "+b", "-a", "-a", "+c", "+a", "-x", "+d", "-b", "+e", "+f", "+g", "+h", "-c"];
        for ask in asks {
            let id = &ask[1..];
            if ask.starts_with('+') {
                let _ = allocate_in(&mut dir, &net, id);
            } else {
                release_in(&mut dir, id).unwrap();
            }
            assert_eq!(dir.by_ip.len(), dir.by_container.len());
            for (file, owner) in &dir.by_ip {
                assert_eq!(&dir.by_container[owner], file);
            }
            for (id, file) in &dir.by_container {
                assert_eq!(&dir.by_ip[file], id);
            }
            assert!(!dir.by_ip.contains_key(gateway));
        }
        assert!(!dir.by_ip.is_empty());
    }
}

#[test]
fn a_subnet_runs_out() {
    let mut dir = Store::default();
    let net = net("10.0.0.4/30");
    let a = allocate_in(&mut dir, &net, "a").unwrap();
    assert_eq!((a.gateway.text().as_str(), a.address.text().as_str()), ("10.0.0.5", "10.0.0.6"));
    let before = dir.by_ip.clone();
    assert_eq!(
        allocate_in(&mut dir, &net, "b"),
        Err(CniError::Ipam("subnet exhausted".to_string()))
    );
    assert_eq!(dir.by_ip, before);
    assert!(!dir.by_container.contains_key("b"));
}

#[test]
fn the_smallest_subnets() {
    let mut dir = Store::default();
    let a = allocate_in(&mut dir, &net("10.0.0.8/31"), "a").unwrap();
    assert_eq!((a.gateway.text().as_str(), a.address.text().as_str()), ("10.0.0.8", "10.0.0.9"));
    assert_eq!(
        allocate_in(&mut dir, &net("10.0.0.1/32"), "b"),
        Err(CniError::Ipam("subnet exhausted".to_string()))
    );
}

#[test]
fn ipv6_subnets_work_too() {
    let mut dir = Store::default();
    let net = net("fd00:1::/64");
    let a = allocate_in(&mut dir, &net, "a").unwrap();
    assert_eq!(a.gateway.text(), "fd00:1::");
    assert_eq!(a.address.text(), "fd00:1::1");
    assert_eq!(a.prefix_len, 64);
    assert_eq!(allocate_in(&mut dir, &net, "a").unwrap(), a);
    assert_eq!(allocate_in(&mut dir, &net, "b").unwrap().address.text(), "fd00:1::2");
}

#[test]
fn a_record_is_trimmed_and_one_that_is_no_address_is_overwritten() {
    let mut dir = Store::default();
    let net = net("10.244.1.0/24");
    dir.by_container.insert("a".to_string(), " 10.244.1.77\n".to_string());
    assert_eq!(allocate_in(&mut dir, &net, "a").unwrap().address.text(), "10.244.1.77");
    dir.by_container.insert("b".to_string(), "10.244.01.78".to_string());
    assert_eq!(allocate_in(&mut dir, &net, "b").unwrap().address.text(), "10.244.1.2");
    assert_eq!(dir.by_container["b"], "10.244.1.2");
}

fn io(e: &str) -> Result<Allocation, CniError> {
    Err(CniError::Io(e.to_string()))
}

fn done(step: AllocateStep) -> Result<Allocation, CniError> {
    match step {
        AllocateStep::Done(r) => r,
        _ => panic!("it goes on"),
    }
}

#[test]
fn every_failure_of_a_file_operation_ends_the_allocation() {
    let net = net("10.244.1.0/24");
    let AllocateStep::MakeDirs(q) = allocate(&net, "a") else { panic!() };
    assert_eq!(done(q.resume(Err("no space".to_string()))), io("no space"));

    let AllocateStep::MakeDirs(q) = allocate(&net, "a") else { panic!() };
    let AllocateStep::ReadRecord(q) = q.resume(Ok(())) else { panic!() };
    let AllocateStep::Claim(q) = q.resume(None) else { panic!() };
    assert_eq!(q.file(), "10.244.1.2");
    assert_eq!(done(q.resume(Created::Failed("denied".to_string()))), io("denied"));

    let AllocateStep::MakeDirs(q) = allocate(&net, "a") else { panic!() };
    let AllocateStep::ReadRecord(q) = q.resume(Ok(())) else { panic!() };
    let AllocateStep::Claim(q) = q.resume(None) else { panic!() };
    let AllocateStep::Claim(q) = q.resume(Created::Exists) else { panic!() };
    assert_eq!(q.file(), "10.244.1.3");
    let AllocateStep::WriteOwner(q) = q.resume(Created::Yes) else { panic!() };
    assert_eq!(q.contents(), "a");
    let AllocateStep::WriteRecord(q) = q.resume(Ok(())) else { panic!() };
    assert_eq!(q.contents(), "10.244.1.3");
    assert_eq!(done(q.resume(Err("full".to_string()))), io("full"));

    let AllocateStep::MakeDirs(q) = allocate(&net, "a") else { panic!() };
    let AllocateStep::ReadRecord(q) = q.resume(Ok(())) else { panic!() };
    let AllocateStep::Claim(q) = q.resume(None) else { panic!() };
    let AllocateStep::WriteOwner(q) = q.resume(Created::Yes) else { panic!() };
    assert_eq!(done(q.resume(Err("gone".to_string()))), io("gone"));
}

#[test]
fn every_failure_of_a_file_operation_ends_the_release() {
    let failed = |step: ReleaseStep| match step {
        ReleaseStep::Done(r) => r,
        _ => panic!("it goes on"),
    };
    let io = |e: &str| Err(CniError::Io(e.to_string()));
    let ReleaseStep::ReadRecord(q) = release("a") else { panic!() };
    assert_eq!(failed(q.resume(ReadFile::Failed("x".to_string()))), io("x"));
    let ReleaseStep::ReadRecord(q) = release("a") else { panic!() };
    let ReleaseStep::RemoveAddress(q) = q.resume(ReadFile::Contents(" 10.0.0.2\n".to_string()))
    else {
        panic!()
    };
    assert_eq!(q.file, "10.0.0.2");
    assert_eq!(failed(q.resume(Removed::Failed("y".to_string()))), io("y"));
    let ReleaseStep::ReadRecord(q) = release("a") else { panic!() };
    let ReleaseStep::RemoveAddress(q) = q.resume(ReadFile::Contents("10.0.0.2".to_string())) else {
        panic!()
    };
    let ReleaseStep::RemoveRecord(q) = q.resume(Removed::NotFound) else { panic!() };
    assert_eq!(q.container_id, "a");
    assert_eq!(failed(q.resume(Removed::Failed("z".to_string()))), io("z"));
}
