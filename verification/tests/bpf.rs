use arachne::bpf::{
    backends_upsert, bpffs_mounted, counters_report, endpoints_insert, endpoints_remove,
    first_write, map_pin_path, next_write, node_pin_path, pod_pin_path, read_counters,
    services_remove, services_upsert, Counters, MapOp, MapResult,
};
use arachne::common::{
    endpoint_key, BackendKey, BackendVal, Endpoint, ServiceKey, ServiceVal, BACKENDS_MAP,
    ENDPOINTS_MAP, SERVICES_MAP,
};
use arachne::net::Ipv4Addr;

fn s(x: &str) -> String {
    x.to_string()
}

fn service() -> ServiceKey {
    ServiceKey { vip: 1, port: 2, proto: 6, _pad: 0 }
}

fn backend() -> (BackendKey, BackendVal) {
    (
        BackendKey { service_id: 1, index: 2, port: 3, proto: 6, _pad: 0 },
        BackendVal { pod_ip: 4, pod_port: 5, _pad: [0, 0] },
    )
}

#[test]
fn writes_name_their_map() {
    let ip = Ipv4Addr::new(10, 0, 0, 2);
    let insert = endpoints_insert(ip, 7, [1, 2, 3, 4, 5, 6]);
    let key = endpoint_key(ip);
    assert_eq!(
        insert,
        MapOp::EndpointsInsert(key, Endpoint { ifindex: 7, mac: [1, 2, 3, 4, 5, 6] })
    );
    assert_eq!(endpoints_remove(ip), MapOp::EndpointsRemove(key));
    let val = ServiceVal { service_id: 1, backend_count: 2 };
    assert_eq!(services_upsert(service(), val), MapOp::ServicesUpsert(service(), val));
    assert_eq!(services_remove(service()), MapOp::ServicesRemove(service()));
    let (k, v) = backend();
    assert_eq!(backends_upsert(k, v), MapOp::BackendsUpsert(k, v));
    assert_eq!(insert.map(), ENDPOINTS_MAP);
    assert_eq!(services_remove(service()).map(), SERVICES_MAP);
    assert_eq!(backends_upsert(k, v).map(), BACKENDS_MAP);
}

#[test]
fn failed_writes_have_messages() {
    let ip = Ipv4Addr::new(10, 0, 0, 2);
    let (k, v) = backend();
    let val = ServiceVal { service_id: 1, backend_count: 2 };
    let fails = |op: MapOp| op.outcome(&MapResult::OpFailed(s("boom"))).unwrap_err();
    assert_eq!(fails(endpoints_insert(ip, 7, [0; 6])), "insert ENDPOINTS entry: boom");
    assert_eq!(fails(endpoints_remove(ip)), "remove ENDPOINTS entry: boom");
    assert_eq!(fails(services_upsert(service(), val)), "insert SERVICES entry: boom");
    assert_eq!(fails(services_remove(service())), "remove SERVICES entry: boom");
    assert_eq!(fails(backends_upsert(k, v)), "insert BACKENDS entry: boom");
    let opens = |op: MapOp| op.outcome(&MapResult::OpenFailed(s("No such file"))).unwrap_err();
    assert_eq!(opens(services_remove(service())), "open SERVICES map: No such file");
    assert_eq!(opens(backends_upsert(k, v)), "open BACKENDS map: No such file");
    assert_eq!(opens(endpoints_remove(ip)), "open ENDPOINTS map: No such file");
    assert_eq!(endpoints_remove(ip).outcome(&MapResult::Done), Ok(()));
}

#[test]
fn a_missing_entry_is_a_failure_only_where_it_was_wanted() {
    let call = || MapResult::NotFound(s("`bpf_map_delete_elem` failed"));
    assert_eq!(services_remove(service()).outcome(&call()), Ok(()));
    assert_eq!(
        endpoints_remove(Ipv4Addr::new(10, 0, 0, 2)).outcome(&call()),
        Err(s("remove ENDPOINTS entry: `bpf_map_delete_elem` failed"))
    );
    let (k, v) = backend();
    assert_eq!(
        backends_upsert(k, v).outcome(&MapResult::NotFound(s("x"))),
        Err(s("insert BACKENDS entry: x"))
    );
    assert_eq!(
        services_remove(service()).outcome(&MapResult::OpFailed(s("`bpf_map_delete_elem` failed"))),
        Err(s("remove SERVICES entry: `bpf_map_delete_elem` failed"))
    );
}

#[test]
fn a_service_can_be_removed_twice() {
    let mut there = vec![service()];
    for _ in 0..2 {
        let op = services_remove(service());
        let result = match there.pop() {
            Some(_) => MapResult::Done,
            None => MapResult::NotFound(s("gone")),
        };
        assert_eq!(op.outcome(&result), Ok(()));
    }
}

/// Performs writes in order, where the write at `fails` fails; gives those that were performed.
fn perform(ops: &Vec<MapOp>, fails: Option<usize>) -> (Vec<MapOp>, Result<(), String>) {
    let mut done = vec![];
    let mut next = first_write(ops);
    while let Some(at) = next {
        done.push(ops[at]);
        let result = if fails == Some(at) {
            MapResult::OpFailed(s("boom"))
        } else {
            MapResult::Done
        };
        match next_write(ops, at, &result) {
            Ok(n) => next = n,
            Err(m) => return (done, Err(m)),
        }
    }
    (done, Ok(()))
}

#[test]
fn writes_stop_at_the_first_failure() {
    let (k, v) = backend();
    let val = ServiceVal { service_id: 1, backend_count: 1 };
    let ops = vec![
        services_upsert(service(), val),
        backends_upsert(k, v),
        services_remove(service()),
    ];
    assert_eq!(perform(&ops, None), (ops.clone(), Ok(())));
    assert_eq!(
        perform(&ops, Some(0)),
        (ops[..1].to_vec(), Err(s("insert SERVICES entry: boom")))
    );
    assert_eq!(
        perform(&ops, Some(1)),
        (ops[..2].to_vec(), Err(s("insert BACKENDS entry: boom")))
    );
    assert_eq!(perform(&ops, Some(2)), (ops.clone(), Err(s("remove SERVICES entry: boom"))));
    assert_eq!(perform(&vec![], None), (vec![], Ok(())));
    assert_eq!(next_write(&ops, 2, &MapResult::NotFound(s("gone"))), Ok(None));
    assert_eq!(next_write(&ops, 0, &MapResult::Done), Ok(Some(1)));
}

#[test]
fn a_service_that_is_gone_is_removed_already() {
    let gone = MapResult::OpFailed(s("syscall failed: No such file or directory (os error 2)"));
    assert_eq!(services_remove(service()).outcome(&gone), Ok(()));
    assert!(endpoints_remove(Ipv4Addr::new(10, 0, 0, 2)).outcome(&gone).is_err());
    let other = MapResult::OpFailed(s("No such fil"));
    assert!(services_remove(service()).outcome(&other).is_err());
}

#[test]
fn pins_have_paths() {
    assert_eq!(pod_pin_path("0123456789abcdef"), "/sys/fs/bpf/arachne/tc-01234567");
    assert_eq!(pod_pin_path("ab"), "/sys/fs/bpf/arachne/tc-ab");
    assert_eq!(node_pin_path("eth0"), "/sys/fs/bpf/arachne/tc-eth0");
    assert_eq!(map_pin_path("COUNTERS"), "/sys/fs/bpf/arachne/COUNTERS");
}

#[test]
fn the_mount_table_is_read() {
    assert!(bpffs_mounted("proc /proc proc rw 0 0\nbpf /sys/fs/bpf bpf rw,mode=700 0 0\n"));
    assert!(bpffs_mounted("none\t/sys/fs/bpf  bpf"));
    assert!(!bpffs_mounted(""));
    assert!(!bpffs_mounted("bpf /sys/fs/bpf tmpfs rw 0 0"));
    assert!(!bpffs_mounted("bpf /sys/fs/bpf/x bpf rw 0 0"));
    assert!(!bpffs_mounted("/sys/fs/bpf bpf"));
    assert!(!bpffs_mounted("bpf /sys/fs/bpf\nbpf x y"));
}

#[test]
fn counters_are_summed_over_the_cpus() {
    let per_cpu = [
        vec![1, 2],
        vec![3],
        vec![],
        vec![4, 5, 6],
        vec![7],
        vec![8],
        vec![u64::MAX - 1, 1],
    ];
    let c = read_counters(&per_cpu).unwrap();
    assert_eq!(
        c,
        Counters {
            map_hit: 3,
            fib_miss: 3,
            redirect: 0,
            service_punt: 15,
            service_dnat: 7,
            service_snat: 8,
            ct_evict: u64::MAX,
        }
    );
    let too_much =
        [vec![u64::MAX, 1], vec![], vec![], vec![], vec![], vec![], vec![]];
    assert_eq!(read_counters(&too_much), None);
}

#[test]
fn counters_are_reported() {
    let c = Counters {
        map_hit: 1,
        fib_miss: 20,
        redirect: 300,
        service_punt: 0,
        service_dnat: 5,
        service_snat: 6,
        ct_evict: 7,
    };
    assert_eq!(
        counters_report(&Ok(c)),
        "counters: map_hit=1 fib_miss=20 redirect=300 service_punt=0 svc_dnat=5 svc_snat=6 ct_evict=7"
    );
    assert_eq!(counters_report(&Err(s("gone"))), "counters: read failed: gone");
}
