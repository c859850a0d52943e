use arachne::agent::conntrack::{
    ct_gc, gc_interval, gc_tick, secs_to_ns, timeouts, CtEntry, CtTimeouts, GcStats,
};
use arachne::common::{NatKey, NatVal, CT_EST, CT_FIN_FWD, CT_FIN_REV};
use arachne::datapath::forward::{Effect, Half};

const SEC: u64 = 1_000_000_000;

#[test]
fn settings_and_their_defaults() {
    let d = timeouts(None, None);
    assert_eq!(d, CtTimeouts { established_ns: 86_400 * SEC, short_ns: 60 * SEC });
    let t = timeouts(Some("10"), Some("+3"));
    assert_eq!(t, CtTimeouts { established_ns: 10 * SEC, short_ns: 3 * SEC });
    for bad in ["0", "", "x", "-1", " 5", "1.5", "18446744073709551616"] {
        assert_eq!(timeouts(Some(bad), Some(bad)), d);
        assert_eq!(gc_interval(Some(bad)), 30);
    }
    assert_eq!(timeouts(Some("18446744073709551615"), None).established_ns, u64::MAX);
    assert_eq!(gc_interval(None), 30);
    assert_eq!(gc_interval(Some("7")), 7);
}

#[test]
fn timeouts_grow_up_to_the_largest() {
    assert_eq!(secs_to_ns(0), 0);
    assert_eq!(secs_to_ns(1), SEC);
    assert_eq!(secs_to_ns(18_446_744_073), 18_446_744_073_000_000_000);
    assert_eq!(secs_to_ns(18_446_744_074), u64::MAX);
    assert_eq!(secs_to_ns(u64::MAX), u64::MAX);
    let secs = [0, 1, 60, 86_400, 18_446_744_073, 18_446_744_074, u64::MAX];
    assert!(secs.windows(2).all(|w| secs_to_ns(w[0]) <= secs_to_ns(w[1])));
    assert_eq!(timeouts(Some("18446744073"), None).established_ns, 18_446_744_073_000_000_000);
}

fn key(n: u32, proto: u8) -> NatKey {
    NatKey { src_ip: n, dst_ip: n + 1, src_port: 1, dst_port: 2, proto, _pad: [0, 0, 0] }
}

fn val(state: u8, last_seen: u64, partner: NatKey) -> NatVal {
    NatVal { ip: 7, port: 8, state, _pad: 0, last_seen, partner }
}

/// The two entries of a flow.
fn flow(proto: u8, fwd: (u8, u64), rev: (u8, u64)) -> Vec<CtEntry> {
    let (k, p) = (key(1, proto), key(100, proto));
    let (f, r) = (val(fwd.0, fwd.1, p), val(rev.0, rev.1, k));
    vec![
        CtEntry { half: Half::Forward, key: k, val: f, other: Some(r) },
        CtEntry { half: Half::Reverse, key: p, val: r, other: Some(f) },
    ]
}

fn evicted(entries: &Vec<CtEntry>, now: u64) -> usize {
    let t = CtTimeouts { established_ns: 1000, short_ns: 60 };
    ct_gc(entries, now, t).stats.evicted
}

#[test]
fn an_idle_flow_is_forgotten_whole() {
    let entries = flow(6, (0, 10), (0, 20));
    let t = CtTimeouts { established_ns: 1000, short_ns: 60 };
    let sweep = ct_gc(&entries, 81, t);
    assert_eq!(sweep.stats, GcStats { scanned: 2, evicted: 2 });
    let (k, p) = (key(1, 6), key(100, 6));
    assert_eq!(
        sweep.removals,
        vec![
            Effect::Remove { half: Half::Forward, key: k },
            Effect::Remove { half: Half::Reverse, key: p },
            Effect::Remove { half: Half::Reverse, key: p },
            Effect::Remove { half: Half::Forward, key: k },
        ]
    );
    let sweep = ct_gc(&entries, 80, t);
    assert_eq!(sweep.stats, GcStats { scanned: 2, evicted: 0 });
    assert_eq!(sweep.removals, vec![]);
}

#[test]
fn traffic_in_one_direction_keeps_a_flow() {
    assert_eq!(evicted(&flow(17, (0, 500), (0, 10)), 560), 0);
    assert_eq!(evicted(&flow(17, (0, 10), (0, 500)), 560), 0);
    assert_eq!(evicted(&flow(17, (0, 10), (0, 500)), 561), 2);
}

#[test]
fn established_flows_last_longer() {
    assert_eq!(evicted(&flow(6, (CT_EST, 0), (CT_EST, 0)), 1000), 0);
    assert_eq!(evicted(&flow(6, (CT_EST, 0), (CT_EST, 0)), 1001), 2);
    assert_eq!(evicted(&flow(6, (CT_EST, 0), (0, 0)), 1000), 0);
    assert_eq!(evicted(&flow(6, (CT_EST, 0), (CT_EST | CT_FIN_FWD, 0)), 61), 2);
    assert_eq!(evicted(&flow(6, (CT_EST | CT_FIN_REV, 0), (CT_EST, 0)), 61), 2);
    assert_eq!(evicted(&flow(6, (0, 0), (0, 0)), 61), 2);
    assert_eq!(evicted(&flow(17, (CT_EST, 0), (CT_EST, 0)), 61), 2);
}

#[test]
fn a_half_on_its_own_goes_on_its_own() {
    let k = key(1, 6);
    let alone = vec![CtEntry {
        half: Half::Reverse,
        key: k,
        val: val(0, 0, key(100, 6)),
        other: None,
    }];
    let t = CtTimeouts { established_ns: 1000, short_ns: 60 };
    let sweep = ct_gc(&alone, 61, t);
    assert_eq!(sweep.removals, vec![Effect::Remove { half: Half::Reverse, key: k }]);
    let another = val(0, 50, key(7, 6));
    let taken = vec![CtEntry { other: Some(another), ..alone[0] }];
    let sweep = ct_gc(&taken, 61, t);
    assert_eq!(sweep.removals, vec![Effect::Remove { half: Half::Reverse, key: k }]);
}

#[test]
fn a_time_to_come_is_no_age() {
    assert_eq!(evicted(&flow(17, (0, 500), (0, 10)), 100), 0);
}

#[test]
fn sweeps_are_reported_where_there_is_something_to_say() {
    let stats = |scanned, evicted| Ok(GcStats { scanned, evicted });
    assert_eq!(gc_tick(&stats(10, 0)), None);
    assert_eq!(
        gc_tick(&stats(1234, 56)),
        Some("conntrack gc: scanned=1234 evicted=56".to_string())
    );
    assert_eq!(
        gc_tick(&Err("no map".to_string())),
        Some("conntrack gc: failed: no map".to_string())
    );
}
