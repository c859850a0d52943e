//! Endpoints that pods have left behind.
//!
//! A pod whose removal never ran leaves its entry in the map of endpoints. When the agent starts,
//! every entry is held against the addresses in use and the interfaces that are there.
use vstd::prelude::*;

use std::collections::HashSet;

use crate::bpf::MapOp;
use crate::common::{endpoint_key, key_of, Endpoint};
use crate::net::{addr_of, Ipv4Addr};
use crate::text::{
    decimal, decimal_text, join2, parse_unsigned, trim, trimmed, unsigned_value,
};

verus! {

broadcast use vstd::std_specs::hash::group_hash_axioms;

/// What a sweep of the endpoints has looked at, and what it has removed.
#[derive(Clone, Copy, Debug, PartialEq, Eq, Structural)]
pub struct EndpointStats {
    pub scanned: usize,
    pub removed: usize,
}

/// What a sweep of the endpoints comes to: the removals in order, and the counts.
pub struct EndpointSweep {
    pub removals: Vec<MapOp>,
    pub stats: EndpointStats,
}

/// Whether one of the names is the text of the address with key `k`.
pub open spec fn names_address(names: Seq<String>, k: u32) -> bool {
    exists|i: int|
        0 <= i < names.len() && (addr_of((#[trigger] names[i])@) matches Some(a) && key_of(a) == k)
}

/// The keys of the addresses in use, given the names under which addresses are recorded. A name
/// that is not the text of an IPv4 address is nothing.
pub fn allocated_ips(names: &Vec<String>) -> (r: HashSet<u32>)
    ensures
        r@ == Set::new(|k: u32| names_address(names@, k)),
{
    let mut out: HashSet<u32> = HashSet::new();
    let mut i: usize = 0;
    while i < names.len()
        invariant
            i <= names.len(),
            forall|k: u32| out@.contains(k) <==> #[trigger] names_address(names@.take(i as int), k),
        decreases names.len() - i,
    {
        let ghost before = out@;
        let found: Option<Ipv4Addr> = Ipv4Addr::parse(names[i].as_str());
        if let Some(a) = found {
            out.insert(endpoint_key(a));
        }
        proof {
            let now = names@.take(i + 1);
            let front = names@.take(i as int);
            assert forall|k: u32| out@.contains(k) <==> #[trigger] names_address(now, k) by {
                if names_address(front, k) {
                    let j = choose|j: int|
                        0 <= j < front.len() && (addr_of((#[trigger] front[j])@) matches Some(a)
                            && key_of(a) == k);
                    assert(now[j] == front[j]);
                }
                if names_address(now, k) {
                    let j = choose|j: int|
                        0 <= j < now.len() && (addr_of((#[trigger] now[j])@) matches Some(a)
                            && key_of(a) == k);
                    if j < i {
                        assert(front[j] == now[j]);
                    }
                }
                assert(now[i as int] == names@[i as int]);
                assert(before.contains(k) <==> names_address(front, k));
            }
        }
        i = i + 1;
    }
    assert(names@.take(i as int) == names@);
    out
}

/// The interface index that a text gives.
pub open spec fn ifindex_of(s: Seq<char>) -> Option<u32> {
    match unsigned_value(trimmed(s)) {
        Some(v) => if v <= u32::MAX {
            Some(v as u32)
        } else {
            None
        },
        None => None,
    }
}

/// Whether one of the texts gives the interface index `idx`.
pub open spec fn lists_ifindex(contents: Seq<String>, idx: u32) -> bool {
    exists|i: int| 0 <= i < contents.len() && ifindex_of((#[trigger] contents[i])@) == Some(idx)
}

/// The interface index that a text gives.
pub fn parse_ifindex(contents: &str) -> (r: Option<u32>)
    ensures
        r == ifindex_of(contents@),
{
    match parse_unsigned(trim(contents), 0xffff_ffff) {
        Some(v) => Some(v as u32),
        None => None,
    }
}

/// The indices of the interfaces that are there, given what each of them says of its index. What
/// gives no number is nothing.
pub fn live_ifindexes(contents: &Vec<String>) -> (r: HashSet<u32>)
    ensures
        r@ == Set::new(|idx: u32| lists_ifindex(contents@, idx)),
{
    let mut out: HashSet<u32> = HashSet::new();
    let mut i: usize = 0;
    while i < contents.len()
        invariant
            i <= contents.len(),
            forall|idx: u32|
                out@.contains(idx) <==> #[trigger] lists_ifindex(contents@.take(i as int), idx),
        decreases contents.len() - i,
    {
        let ghost before = out@;
        if let Some(idx) = parse_ifindex(contents[i].as_str()) {
            out.insert(idx);
        }
        proof {
            let now = contents@.take(i + 1);
            let front = contents@.take(i as int);
            assert forall|idx: u32| out@.contains(idx) <==> #[trigger] lists_ifindex(now, idx) by {
                if lists_ifindex(front, idx) {
                    let j = choose|j: int|
                        0 <= j < front.len() && ifindex_of((#[trigger] front[j])@) == Some(idx);
                    assert(now[j] == front[j]);
                }
                if lists_ifindex(now, idx) {
                    let j = choose|j: int|
                        0 <= j < now.len() && ifindex_of((#[trigger] now[j])@) == Some(idx);
                    if j < i {
                        assert(front[j] == now[j]);
                    }
                }
                assert(now[i as int] == contents@[i as int]);
                assert(before.contains(idx) <==> lists_ifindex(front, idx));
            }
        }
        i = i + 1;
    }
    assert(contents@.take(i as int) == contents@);
    out
}

/// Whether an entry was left behind: its address is not in use, or its interface is gone.
pub open spec fn left_behind(
    entry: (u32, Endpoint),
    allocated: Set<u32>,
    live: Set<u32>,
) -> bool {
    !allocated.contains(entry.0) || !live.contains(entry.1.ifindex)
}

/// The removals of the entries that were left behind, in order.
pub open spec fn endpoint_removals(
    entries: Seq<(u32, Endpoint)>,
    allocated: Set<u32>,
    live: Set<u32>,
) -> Seq<MapOp>
    decreases entries.len(),
{
    if entries.len() == 0 {
        Seq::empty()
    } else {
        let front = endpoint_removals(entries.drop_last(), allocated, live);
        if left_behind(entries.last(), allocated, live) {
            front.push(MapOp::EndpointsRemove(entries.last().0))
        } else {
            front
        }
    }
}

/// Looks at every entry of the map of endpoints, and gives the removals of those that were left
/// behind. `allocated` holds the keys of the addresses in use, `live` the indices of the interfaces
/// that are there.
pub fn endpoints_gc(
    entries: &Vec<(u32, Endpoint)>,
    allocated: &HashSet<u32>,
    live: &HashSet<u32>,
) -> (r: EndpointSweep)
    ensures
        r.removals@ == endpoint_removals(entries@, allocated@, live@),
        r.stats.scanned == entries@.len(),
        r.stats.removed == r.removals@.len(),
{
    let mut removals: Vec<MapOp> = Vec::new();
    let mut i: usize = 0;
    assert(entries@.take(0) == Seq::<(u32, Endpoint)>::empty());
    while i < entries.len()
        invariant
            i <= entries.len(),
            removals@ == endpoint_removals(entries@.take(i as int), allocated@, live@),
        decreases entries.len() - i,
    {
        assert(entries@.take(i + 1).drop_last() == entries@.take(i as int));
        assert(entries@.take(i + 1).last() == entries@[i as int]);
        let (key, endpoint): (u32, Endpoint) = entries[i];
        if !allocated.contains(&key) || !live.contains(&endpoint.ifindex) {
            removals.push(MapOp::EndpointsRemove(key));
        }
        i = i + 1;
    }
    assert(entries@.take(i as int) == entries@);
    let removed: usize = removals.len();
    EndpointSweep { removals, stats: EndpointStats { scanned: entries.len(), removed } }
}

/// Holds the map of endpoints against the addresses in use and the interfaces that are there. What
/// could not be read stops it, with a report: the names of the recorded addresses first, then what
/// the interfaces say of their indices, then the entries.
pub fn reconcile(
    store: &Result<Vec<String>, String>,
    interfaces: &Result<Vec<String>, String>,
    entries: &Result<Vec<(u32, Endpoint)>, String>,
) -> (r: Result<EndpointSweep, String>)
    ensures
        match (*store, *interfaces, *entries) {
            (Err(e), _, _) => r matches Err(m) && m@ == "endpoints gc: read IPAM store failed: "@
                + e@,
            (Ok(_), Err(e), _) => r matches Err(m) && m@
                == "endpoints gc: list interfaces failed: "@ + e@,
            (Ok(_), Ok(_), Err(e)) => r matches Err(m) && m@ == "endpoints gc: failed: "@ + e@,
            (Ok(names), Ok(contents), Ok(list)) => {
                &&& r matches Ok(sweep)
                &&& sweep.removals@ == endpoint_removals(
                    list@,
                    Set::new(|k: u32| names_address(names@, k)),
                    Set::new(|idx: u32| lists_ifindex(contents@, idx)),
                )
                &&& sweep.stats.scanned == list@.len()
                &&& sweep.stats.removed == sweep.removals@.len()
            },
        },
{
    let names: &Vec<String> = match store {
        Ok(names) => names,
        Err(e) => {
            return Err(join2("endpoints gc: read IPAM store failed: ", e.as_str()));
        },
    };
    let contents: &Vec<String> = match interfaces {
        Ok(contents) => contents,
        Err(e) => {
            return Err(join2("endpoints gc: list interfaces failed: ", e.as_str()));
        },
    };
    let list: &Vec<(u32, Endpoint)> = match entries {
        Ok(list) => list,
        Err(e) => {
            return Err(join2("endpoints gc: failed: ", e.as_str()));
        },
    };
    Ok(endpoints_gc(list, &allocated_ips(names), &live_ifindexes(contents)))
}

/// What is reported once the removals of a sweep were tried: what was removed, where there was
/// something, or why it failed.
pub fn report(result: &Result<EndpointStats, String>) -> (r: Option<String>)
    ensures
        match *result {
            Ok(stats) => if stats.removed > 0 {
                r matches Some(m) && m@ == "endpoints gc: scanned="@ + decimal(
                    stats.scanned as nat,
                ) + " removed="@ + decimal(stats.removed as nat)
            } else {
                r is None
            },
            Err(e) => r matches Some(m) && m@ == "endpoints gc: failed: "@ + e@,
        },
{
    match result {
        Ok(stats) => {
            if stats.removed > 0 {
                let mut m: String = join2(
                    "endpoints gc: scanned=",
                    decimal_text(stats.scanned as u64).as_str(),
                );
                m.append(" removed=");
                m.append(decimal_text(stats.removed as u64).as_str());
                Some(m)
            } else {
                None
            }
        },
        Err(e) => Some(join2("endpoints gc: failed: ", e.as_str())),
    }
}

/// A map of endpoints after removals in order.
pub open spec fn after_removals(m: Map<u32, Endpoint>, ops: Seq<MapOp>) -> Map<u32, Endpoint>
    decreases ops.len(),
{
    if ops.len() == 0 {
        m
    } else {
        match ops.last() {
            MapOp::EndpointsRemove(k) => after_removals(m, ops.drop_last()).remove(k),
            _ => after_removals(m, ops.drop_last()),
        }
    }
}

/// Whether `entries` lists a map.
pub open spec fn lists_map(entries: Seq<(u32, Endpoint)>, m: Map<u32, Endpoint>) -> bool {
    &&& forall|i: int|
        0 <= i < entries.len() ==> m.dom().contains((#[trigger] entries[i]).0) && m[entries[i].0]
            == entries[i].1
    &&& forall|k: u32| #[trigger] m.dom().contains(k) ==> entries.contains((k, m[k]))
}

proof fn lemma_after(
    m: Map<u32, Endpoint>,
    entries: Seq<(u32, Endpoint)>,
    allocated: Set<u32>,
    live: Set<u32>,
)
    requires
        forall|i: int|
            0 <= i < entries.len() ==> m.dom().contains((#[trigger] entries[i]).0)
                && m[entries[i].0] == entries[i].1,
    ensures
        ({
            let r = after_removals(m, endpoint_removals(entries, allocated, live));
            &&& r.submap_of(m)
            &&& forall|k: u32| #[trigger]
                m.dom().contains(k) ==> (!r.dom().contains(k) <==> entries.contains((k, m[k]))
                    && left_behind((k, m[k]), allocated, live))
        }),
    decreases entries.len(),
{
    let ops = endpoint_removals(entries, allocated, live);
    if entries.len() > 0 {
        let front = entries.drop_last();
        let last = entries[entries.len() - 1];
        assert forall|i: int| 0 <= i < front.len() implies m.dom().contains(
            (#[trigger] front[i]).0,
        ) && m[front[i].0] == front[i].1 by {
            assert(front[i] == entries[i]);
        }
        lemma_after(m, front, allocated, live);
        let ops0 = endpoint_removals(front, allocated, live);
        let r0 = after_removals(m, ops0);
        if left_behind(last, allocated, live) {
            assert(ops.drop_last() == ops0);
            assert(ops.last() == MapOp::EndpointsRemove(last.0));
        }
        let r = after_removals(m, ops);
        assert forall|k: u32| #[trigger] m.dom().contains(k) implies (!r.dom().contains(k)
            <==> entries.contains((k, m[k])) && left_behind((k, m[k]), allocated, live)) by {
            let x = (k, m[k]);
            if front.contains(x) {
                let j = choose|j: int| 0 <= j < front.len() && front[j] == x;
                assert(entries[j] == x);
            }
            if entries.contains(x) && x != last {
                let j = choose|j: int| 0 <= j < entries.len() && entries[j] == x;
                assert(front[j] == x);
            }
            if k == last.0 {
                assert(x == last);
                assert(entries[entries.len() - 1] == x);
            }
        }
    }
}

/// A sweep of the endpoints keeps exactly the entries whose address is in use and whose interface is
/// there.
pub proof fn law_sweep_keeps_live_endpoints(
    m: Map<u32, Endpoint>,
    entries: Seq<(u32, Endpoint)>,
    allocated: Set<u32>,
    live: Set<u32>,
)
    requires
        lists_map(entries, m),
    ensures
        ({
            let r = after_removals(m, endpoint_removals(entries, allocated, live));
            &&& r.submap_of(m)
            &&& forall|k: u32| #[trigger]
                r.dom().contains(k) <==> m.dom().contains(k) && allocated.contains(k)
                    && live.contains(m[k].ifindex)
        }),
{
    lemma_after(m, entries, allocated, live);
    let r = after_removals(m, endpoint_removals(entries, allocated, live));
    assert forall|k: u32| #[trigger] r.dom().contains(k) <==> m.dom().contains(k)
        && allocated.contains(k) && live.contains(m[k].ifindex) by {
        if m.dom().contains(k) {
            assert(entries.contains((k, m[k])));
        }
    }
}

/// An address is in use exactly where one of the names is its text.
pub proof fn law_names_tell_addresses(names: Seq<String>, ip: Ipv4Addr)
    ensures
        names_address(names, key_of(ip)) <==> exists|i: int|
            0 <= i < names.len() && (#[trigger] names[i])@ == ip.spec_text(),
{
    crate::net::lemma_addr_of(ip);
    if names_address(names, key_of(ip)) {
        let i = choose|i: int|
            0 <= i < names.len() && (addr_of((#[trigger] names[i])@) matches Some(a) && key_of(a)
                == key_of(ip));
        let a = addr_of(names[i]@)->0;
        crate::common::law_endpoint_key_injective(a, ip);
        assert(names[i]@ == ip.spec_text());
    }
    if exists|i: int| 0 <= i < names.len() && (#[trigger] names[i])@ == ip.spec_text() {
        let i = choose|i: int| 0 <= i < names.len() && (#[trigger] names[i])@ == ip.spec_text();
        assert(addr_of(names[i]@) == Some(ip));
    }
}

/// An interface says its index as a numeral, with whitespace around it or not: the numeral of the
/// index and a line feed give it, and one that does not fit in 32 bits, or anything but a numeral,
/// gives none.
pub proof fn law_interfaces_say_their_index(s: Seq<char>, idx: u32, n: nat)
    ensures
        ifindex_of(decimal(idx as nat)) == Some(idx),
        ifindex_of(decimal(idx as nat).push('\n')) == Some(idx),
        ifindex_of(s) == Some(idx) <==> unsigned_value(trimmed(s)) == Some(idx as nat),
        n > u32::MAX ==> ifindex_of(decimal(n)) is None,
{
    lemma_numeral_trimmed(idx as nat);
    lemma_numeral_trimmed(n);
    crate::text::law_numerals(s, idx as nat);
    crate::text::law_numerals(s, n);
}

proof fn lemma_numeral_trimmed(n: nat)
    ensures
        trimmed(decimal(n)) == decimal(n),
        trimmed(decimal(n).push('\n')) == decimal(n),
{
    crate::text::lemma_decimal(n);
    let d = decimal(n);
    let e = d.push('\n');
    assert('0' <= d[0] <= '9' && '0' <= d[d.len() - 1] <= '9');
    assert(e[0] == d[0]);
    assert(e.drop_last() =~= d);
    assert(crate::text::trim_end(d) == d);
    assert(crate::text::trim_end(e) == crate::text::trim_end(d));
}

/// A sweep, given the names of the addresses on record and what the interfaces say, keeps exactly the
/// entries whose address is on record and whose interface is there.
pub proof fn law_sweep_goes_by_the_records(
    m: Map<u32, Endpoint>,
    entries: Seq<(u32, Endpoint)>,
    names: Seq<String>,
    contents: Seq<String>,
    ip: Ipv4Addr,
)
    requires
        lists_map(entries, m),
        m.dom().contains(key_of(ip)),
    ensures
        ({
            let k = key_of(ip);
            let r = after_removals(
                m,
                endpoint_removals(
                    entries,
                    Set::new(|k: u32| names_address(names, k)),
                    Set::new(|idx: u32| lists_ifindex(contents, idx)),
                ),
            );
            &&& r.dom().contains(k) <==> (exists|i: int|
                0 <= i < names.len() && (#[trigger] names[i])@ == ip.spec_text()) && (exists|i: int|
                0 <= i < contents.len() && unsigned_value(trimmed((#[trigger] contents[i])@)) == Some(
                    m[k].ifindex as nat,
                ))
            &&& r.dom().contains(k) ==> r[k] == m[k]
        }),
{
    let k = key_of(ip);
    let a = Set::new(|k: u32| names_address(names, k));
    let l = Set::new(|idx: u32| lists_ifindex(contents, idx));
    law_sweep_keeps_live_endpoints(m, entries, a, l);
    law_names_tell_addresses(names, ip);
    let idx = m[k].ifindex;
    assert(a.contains(k) == names_address(names, k));
    assert(l.contains(idx) == lists_ifindex(contents, idx));
    if lists_ifindex(contents, idx) {
        let i = choose|i: int|
            0 <= i < contents.len() && ifindex_of((#[trigger] contents[i])@) == Some(idx);
        law_interfaces_say_their_index(contents[i]@, idx, 0);
    }
    if exists|i: int|
        0 <= i < contents.len() && unsigned_value(trimmed((#[trigger] contents[i])@)) == Some(
            idx as nat,
        ) {
        let i = choose|i: int|
            0 <= i < contents.len() && unsigned_value(trimmed((#[trigger] contents[i])@)) == Some(
                idx as nat,
            );
        law_interfaces_say_their_index(contents[i]@, idx, 0);
    }
}


}
