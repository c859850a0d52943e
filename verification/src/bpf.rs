//! The maps shared with the kernel, where they are pinned, and what is written to them.
use vstd::prelude::*;

use crate::cni::veth::{can_shorten, short_id, short_id_of};
use crate::common::{
    endpoint_key, key_of, BackendKey, BackendVal, Endpoint, ServiceKey, ServiceVal, BACKENDS_MAP,
    COUNTER_CT_EVICT, COUNTER_FIB_MISS, COUNTER_MAP_HIT, COUNTER_REDIRECT, COUNTER_SERVICE_DNAT,
    COUNTER_SERVICE_PUNT, COUNTER_SERVICE_SNAT, ENDPOINTS_MAP, SERVICES_MAP,
};
use crate::net::Ipv4Addr;
use crate::text::{
    contains_text, decimal, decimal_text, is_white, join2, law_words_come_one_by_one, non_empty,
    occurs_in, same_text, split, split_non_empty, split_text, texts, Sep,
};

verus! {

/// The directory in which programs and maps are pinned.
pub const PIN_DIR: &'static str = "/sys/fs/bpf/arachne";

/// A write to one of the shared maps.
#[derive(Clone, Copy, Debug, PartialEq, Eq)]
pub enum MapOp {
    EndpointsInsert(u32, Endpoint),
    EndpointsRemove(u32),
    ServicesUpsert(ServiceKey, ServiceVal),
    ServicesRemove(ServiceKey),
    BackendsUpsert(BackendKey, BackendVal),
}

/// How a write went: done, or failed at opening the map or at the write itself, with the reason. That
/// there is no entry under the key is told apart.
pub enum MapResult {
    Done,
    NotFound(String),
    OpenFailed(String),
    OpFailed(String),
}

/// Words in a reason which also say that there is no such entry.
pub const NOT_FOUND: &'static str = "No such file";

impl MapOp {
    /// The name of the map that is written to.
    pub open spec fn map_name(self) -> Seq<char> {
        match self {
            MapOp::EndpointsInsert(..) => ENDPOINTS_MAP@,
            MapOp::EndpointsRemove(..) => ENDPOINTS_MAP@,
            MapOp::ServicesUpsert(..) => SERVICES_MAP@,
            MapOp::ServicesRemove(..) => SERVICES_MAP@,
            MapOp::BackendsUpsert(..) => BACKENDS_MAP@,
        }
    }

    /// What is done to the map.
    pub open spec fn verb(self) -> Seq<char> {
        match self {
            MapOp::EndpointsRemove(..) => "remove"@,
            MapOp::ServicesRemove(..) => "remove"@,
            _ => "insert"@,
        }
    }

    /// Whether the write wanted to have an entry gone that is gone: a service may have been removed
    /// already.
    pub open spec fn forgives(self, result: MapResult) -> bool {
        self is ServicesRemove && match result {
            MapResult::NotFound(_) => true,
            MapResult::OpFailed(e) => occurs_in(e@, NOT_FOUND@),
            _ => false,
        }
    }

    /// The message of a write that failed.
    pub open spec fn failure(self, result: MapResult) -> Option<Seq<char>> {
        if self.forgives(result) {
            None
        } else {
            match result {
                MapResult::Done => None,
                MapResult::OpenFailed(e) => Some("open "@ + self.map_name() + " map: "@ + e@),
                MapResult::NotFound(e) => Some(self.entry_failure(e@)),
                MapResult::OpFailed(e) => Some(self.entry_failure(e@)),
            }
        }
    }

    /// The message of a write that failed at the entry itself.
    pub open spec fn entry_failure(self, reason: Seq<char>) -> Seq<char> {
        self.verb() + " "@ + self.map_name() + " entry: "@ + reason
    }

    /// The map that is written to.
    pub fn map(&self) -> (r: &'static str)
        ensures
            r@ == self.map_name(),
    {
        match self {
            MapOp::EndpointsInsert(..) => ENDPOINTS_MAP,
            MapOp::EndpointsRemove(..) => ENDPOINTS_MAP,
            MapOp::ServicesUpsert(..) => SERVICES_MAP,
            MapOp::ServicesRemove(..) => SERVICES_MAP,
            MapOp::BackendsUpsert(..) => BACKENDS_MAP,
        }
    }

    fn entry_message(&self, reason: &str) -> (r: String)
        ensures
            r@ == self.entry_failure(reason@),
    {
        let verb: &str = match self {
            MapOp::EndpointsRemove(..) => "remove",
            MapOp::ServicesRemove(..) => "remove",
            _ => "insert",
        };
        let mut m: String = join2(verb, " ");
        m.append(self.map());
        m.append(" entry: ");
        m.append(reason);
        m
    }

    /// What a write comes to, given how it went: nothing, or the message of its failure. That a
    /// service to be removed is not there is no failure.
    pub fn outcome(&self, result: &MapResult) -> (r: Result<(), String>)
        ensures
            match self.failure(*result) {
                None => r is Ok,
                Some(m) => r matches Err(text) && text@ == m,
            },
    {
        match result {
            MapResult::Done => Ok(()),
            MapResult::NotFound(e) => match self {
                MapOp::ServicesRemove(..) => Ok(()),
                _ => Err(self.entry_message(e.as_str())),
            },
            MapResult::OpenFailed(e) => {
                let mut m: String = join2("open ", self.map());
                m.append(" map: ");
                m.append(e.as_str());
                Err(m)
            },
            MapResult::OpFailed(e) => {
                if let MapOp::ServicesRemove(..) = self {
                    if contains_text(e.as_str(), NOT_FOUND) {
                        return Ok(());
                    }
                }
                Err(self.entry_message(e.as_str()))
            },
        }
    }
}

// ── Writes one after another ─────────────────────────────────────────────────

/// The first of some writes, where there is one.
pub open spec fn start_of(ops: Seq<MapOp>) -> Option<int> {
    if ops.len() > 0 {
        Some(0)
    } else {
        None
    }
}

/// What comes once write `at` went as `result` says: the message of its failure, else the write
/// behind it or the end.
pub open spec fn step_from(ops: Seq<MapOp>, at: int, result: MapResult) -> Result<
    Option<int>,
    Seq<char>,
> {
    match ops[at].failure(result) {
        Some(m) => Err(m),
        None => Ok(
            if at + 1 < ops.len() {
                Some(at + 1)
            } else {
                None
            },
        ),
    }
}

/// The write to begin with: none where there is nothing to write.
pub fn first_write(ops: &Vec<MapOp>) -> (r: Option<usize>)
    ensures
        match r {
            Some(n) => start_of(ops@) == Some(n as int),
            None => start_of(ops@) is None,
        },
{
    if ops.len() > 0 {
        Some(0)
    } else {
        None
    }
}

/// The write that follows write `at`, given how that one went: none at the end. The first failure is
/// the end of all, with its message.
pub fn next_write(ops: &Vec<MapOp>, at: usize, result: &MapResult) -> (r: Result<
    Option<usize>,
    String,
>)
    requires
        at < ops@.len(),
    ensures
        match r {
            Ok(Some(n)) => step_from(ops@, at as int, *result) == Ok::<Option<int>, Seq<char>>(
                Some(n as int),
            ),
            Ok(None) => step_from(ops@, at as int, *result) == Ok::<Option<int>, Seq<char>>(None),
            Err(m) => step_from(ops@, at as int, *result) == Err::<Option<int>, Seq<char>>(m@),
        },
{
    match ops[at].outcome(result) {
        Ok(_) => {
            if at < ops.len() - 1 {
                Ok(Some(at + 1))
            } else {
                Ok(None)
            }
        },
        Err(m) => Err(m),
    }
}

/// What writes come to that are performed one after another: those that were performed, and the
/// message of the failure at which they ended.
pub struct Performed {
    pub ops: Seq<MapOp>,
    pub failure: Option<Seq<char>>,
}

/// Performs writes from write `at` on, where write `i` goes as `results(i)` says.
pub open spec fn perform_from(
    ops: Seq<MapOp>,
    at: int,
    results: spec_fn(int) -> MapResult,
) -> Performed
    decreases ops.len() - at,
{
    match step_from(ops, at, results(at)) {
        Err(m) => Performed { ops: seq![ops[at]], failure: Some(m) },
        Ok(Some(next)) => {
            let rest = perform_from(ops, next, results);
            Performed { ops: seq![ops[at]] + rest.ops, failure: rest.failure }
        },
        Ok(None) => Performed { ops: seq![ops[at]], failure: None },
    }
}

/// Performs writes in order, where write `i` goes as `results(i)` says.
pub open spec fn perform_all(ops: Seq<MapOp>, results: spec_fn(int) -> MapResult) -> Performed {
    match start_of(ops) {
        Some(at) => perform_from(ops, at, results),
        None => Performed { ops: Seq::empty(), failure: None },
    }
}

proof fn lemma_perform_from(ops: Seq<MapOp>, n: int, results: spec_fn(int) -> MapResult)
    requires
        0 <= n < ops.len(),
    ensures
        ({
            let p = perform_from(ops, n, results);
            let end = n + p.ops.len();
            &&& n < end <= ops.len()
            &&& p.ops == ops.subrange(n, end)
            &&& forall|i: int|
                n <= i < end - 1 ==> (#[trigger] ops[i]).failure(results(i)) is None
            &&& p.failure == ops[end - 1].failure(results(end - 1))
            &&& p.failure is None ==> end == ops.len()
        }),
    decreases ops.len() - n,
{
    let p = perform_from(ops, n, results);
    match step_from(ops, n, results(n)) {
        Err(m) => {
            assert(p.ops =~= ops.subrange(n, n + 1));
        },
        Ok(Some(next)) => {
            lemma_perform_from(ops, next, results);
            assert(p.ops =~= ops.subrange(n, n + p.ops.len()));
        },
        Ok(None) => {
            assert(p.ops =~= ops.subrange(n, n + 1));
        },
    }
}

/// Writes are performed in order up to the first that fails: those performed are the first of them,
/// all of these but the last went well, and the outcome is that of the last. Only where none fails
/// are all performed.
pub proof fn law_writes_stop_at_the_first_failure(
    ops: Seq<MapOp>,
    results: spec_fn(int) -> MapResult,
)
    ensures
        ({
            let p = perform_all(ops, results);
            let end = p.ops.len() as int;
            &&& end <= ops.len()
            &&& p.ops == ops.take(end)
            &&& forall|i: int| 0 <= i < end - 1 ==> (#[trigger] ops[i]).failure(results(i)) is None
            &&& match p.failure {
                Some(m) => end > 0 && ops[end - 1].failure(results(end - 1)) == Some(m),
                None => end == ops.len() && forall|i: int|
                    0 <= i < ops.len() ==> (#[trigger] ops[i]).failure(results(i)) is None,
            }
        }),
{
    if ops.len() > 0 {
        lemma_perform_from(ops, 0, results);
    }
}

/// Records where the packets of a pod go.
pub fn endpoints_insert(pod_ip: Ipv4Addr, ifindex: u32, mac: [u8; 6]) -> (r: MapOp)
    ensures
        r == MapOp::EndpointsInsert(key_of(pod_ip), (Endpoint { ifindex, mac })),
{
    MapOp::EndpointsInsert(endpoint_key(pod_ip), Endpoint { ifindex, mac })
}

/// Forgets where the packets of a pod go.
pub fn endpoints_remove(pod_ip: Ipv4Addr) -> (r: MapOp)
    ensures
        r == MapOp::EndpointsRemove(key_of(pod_ip)),
{
    MapOp::EndpointsRemove(endpoint_key(pod_ip))
}

/// Records a port of a service.
pub fn services_upsert(key: ServiceKey, val: ServiceVal) -> (r: MapOp)
    ensures
        r == MapOp::ServicesUpsert(key, val),
{
    MapOp::ServicesUpsert(key, val)
}

/// Forgets a port of a service.
pub fn services_remove(key: ServiceKey) -> (r: MapOp)
    ensures
        r == MapOp::ServicesRemove(key),
{
    MapOp::ServicesRemove(key)
}

/// Records a backend of a service.
pub fn backends_upsert(key: BackendKey, val: BackendVal) -> (r: MapOp)
    ensures
        r == MapOp::BackendsUpsert(key, val),
{
    MapOp::BackendsUpsert(key, val)
}

/// Where a program is pinned that is attached for `suffix`.
fn program_pin(suffix: &str) -> (r: String)
    ensures
        r@ == PIN_DIR@ + "/tc-"@ + suffix@,
{
    let mut out: String = join2(PIN_DIR, "/tc-");
    out.append(suffix);
    out
}

/// Where the program of a container's host-side interface is pinned.
pub fn pod_pin_path(container_id: &str) -> (r: String)
    requires
        can_shorten(container_id@),
    ensures
        r@ == PIN_DIR@ + "/tc-"@ + short_id_of(container_id@),
{
    program_pin(short_id(container_id))
}

/// Where the program of one of the node's own interfaces is pinned.
pub fn node_pin_path(ifname: &str) -> (r: String)
    ensures
        r@ == PIN_DIR@ + "/tc-"@ + ifname@,
{
    program_pin(ifname)
}

/// Where a map is pinned.
pub fn map_pin_path(map: &str) -> (r: String)
    ensures
        r@ == PIN_DIR@ + "/"@ + map@,
{
    let mut out: String = join2(PIN_DIR, "/");
    out.append(map);
    out
}

/// Whether a line of the mount table mounts the BPF file system: its second field is the mount
/// point, its third the type.
pub open spec fn line_mounts_bpffs(line: Seq<char>) -> bool {
    let fields = non_empty(split(line, Sep::Whitespace));
    fields.len() >= 3 && fields[1] == "/sys/fs/bpf"@ && fields[2] == "bpf"@
}

/// Whether the mount table holds the BPF file system.
pub fn bpffs_mounted(mounts: &str) -> (r: bool)
    ensures
        r == exists|i: int|
            0 <= i < split(mounts@, Sep::Char('\n')).len() && line_mounts_bpffs(
                #[trigger] split(mounts@, Sep::Char('\n'))[i],
            ),
{
    let lines: Vec<String> = split_text(mounts, Sep::Char('\n'));
    let ghost all = split(mounts@, Sep::Char('\n'));
    let mut i: usize = 0;
    while i < lines.len()
        invariant
            i <= lines.len(),
            texts(lines@) == all,
            all == split(mounts@, Sep::Char('\n')),
            forall|j: int| 0 <= j < i ==> !line_mounts_bpffs(#[trigger] all[j]),
        decreases lines.len() - i,
    {
        assert(all[i as int] == lines@[i as int]@);
        let fields: Vec<String> = split_non_empty(lines[i].as_str(), Sep::Whitespace);
        let ghost words = texts(fields@);
        if fields.len() >= 3 {
            assert(words[1] == fields@[1]@ && words[2] == fields@[2]@);
            if same_text(fields[1].as_str(), "/sys/fs/bpf") && same_text(
                fields[2].as_str(),
                "bpf",
            ) {
                assert(line_mounts_bpffs(all[i as int]));
                return true;
            }
        }
        i = i + 1;
    }
    assert(all.len() == lines.len());
    false
}

/// What the datapath has counted.
#[derive(Clone, Copy, Debug, PartialEq, Eq, Structural)]
pub struct Counters {
    pub map_hit: u64,
    pub fib_miss: u64,
    pub redirect: u64,
    pub service_punt: u64,
    pub service_dnat: u64,
    pub service_snat: u64,
    pub ct_evict: u64,
}

/// The sum of the values of a counter on each CPU.
pub open spec fn total(vals: Seq<u64>) -> nat
    decreases vals.len(),
{
    if vals.len() == 0 {
        0
    } else {
        total(vals.drop_last()) + vals.last() as nat
    }
}

proof fn lemma_total_grows(vals: Seq<u64>, i: int)
    requires
        0 <= i <= vals.len(),
    ensures
        total(vals.take(i)) <= total(vals),
    decreases vals.len() - i,
{
    if i < vals.len() {
        assert(vals.take(i + 1).drop_last() == vals.take(i));
        lemma_total_grows(vals, i + 1);
    } else {
        assert(vals.take(i) == vals);
    }
}

fn sum(vals: &Vec<u64>) -> (r: Option<u64>)
    ensures
        r == (if total(vals@) <= u64::MAX {
            Some(total(vals@) as u64)
        } else {
            None
        }),
{
    let mut acc: u64 = 0;
    let mut i: usize = 0;
    assert(vals@.take(0) == Seq::<u64>::empty());
    while i < vals.len()
        invariant
            i <= vals.len(),
            acc == total(vals@.take(i as int)),
        decreases vals.len() - i,
    {
        proof {
            assert(vals@.take(i + 1).drop_last() == vals@.take(i as int));
            lemma_total_grows(vals@, i + 1);
        }
        match acc.checked_add(vals[i]) {
            Some(next) => {
                acc = next;
            },
            None => {
                return None;
            },
        }
        i = i + 1;
    }
    assert(vals@.take(i as int) == vals@);
    Some(acc)
}

/// The counters, given the values of each on each CPU. None where a sum exceeds 64 bits.
pub fn read_counters(per_cpu: &[Vec<u64>; 7]) -> (r: Option<Counters>)
    ensures
        match r {
            Some(c) => {
                &&& c.map_hit == total(per_cpu@[COUNTER_MAP_HIT as int]@)
                &&& c.fib_miss == total(per_cpu@[COUNTER_FIB_MISS as int]@)
                &&& c.redirect == total(per_cpu@[COUNTER_REDIRECT as int]@)
                &&& c.service_punt == total(per_cpu@[COUNTER_SERVICE_PUNT as int]@)
                &&& c.service_dnat == total(per_cpu@[COUNTER_SERVICE_DNAT as int]@)
                &&& c.service_snat == total(per_cpu@[COUNTER_SERVICE_SNAT as int]@)
                &&& c.ct_evict == total(per_cpu@[COUNTER_CT_EVICT as int]@)
            },
            None => exists|i: int| 0 <= i < 7 && #[trigger] total(per_cpu@[i]@) > u64::MAX,
        },
{
    let map_hit: Option<u64> = sum(&per_cpu[COUNTER_MAP_HIT as usize]);
    let fib_miss: Option<u64> = sum(&per_cpu[COUNTER_FIB_MISS as usize]);
    let redirect: Option<u64> = sum(&per_cpu[COUNTER_REDIRECT as usize]);
    let service_punt: Option<u64> = sum(&per_cpu[COUNTER_SERVICE_PUNT as usize]);
    let service_dnat: Option<u64> = sum(&per_cpu[COUNTER_SERVICE_DNAT as usize]);
    let service_snat: Option<u64> = sum(&per_cpu[COUNTER_SERVICE_SNAT as usize]);
    let ct_evict: Option<u64> = sum(&per_cpu[COUNTER_CT_EVICT as usize]);
    match (map_hit, fib_miss, redirect, service_punt, service_dnat, service_snat, ct_evict) {
        (
            Some(map_hit),
            Some(fib_miss),
            Some(redirect),
            Some(service_punt),
            Some(service_dnat),
            Some(service_snat),
            Some(ct_evict),
        ) => Some(
            Counters {
                map_hit,
                fib_miss,
                redirect,
                service_punt,
                service_dnat,
                service_snat,
                ct_evict,
            },
        ),
        _ => None,
    }
}

/// One counter as it is reported.
pub open spec fn counter_text(name: Seq<char>, value: u64) -> Seq<char> {
    name + decimal(value as nat)
}

/// What is reported of the counters.
pub open spec fn counters_line(c: Counters) -> Seq<char> {
    counter_text("counters: map_hit="@, c.map_hit) + counter_text(" fib_miss="@, c.fib_miss)
        + counter_text(" redirect="@, c.redirect) + counter_text(
        " service_punt="@,
        c.service_punt,
    ) + counter_text(" svc_dnat="@, c.service_dnat) + counter_text(" svc_snat="@, c.service_snat)
        + counter_text(" ct_evict="@, c.ct_evict)
}

fn append_counter(out: &mut String, name: &str, value: u64)
    ensures
        final(out)@ == old(out)@ + counter_text(name@, value),
{
    let ghost before = out@;
    out.append(name);
    out.append(decimal_text(value).as_str());
    assert(out@ == before + counter_text(name@, value));
}

/// What is reported of the counters, given what reading them came to.
pub fn counters_report(result: &Result<Counters, String>) -> (r: String)
    ensures
        match *result {
            Ok(c) => r@ == counters_line(c),
            Err(e) => r@ == "counters: read failed: "@ + e@,
        },
{
    match result {
        Ok(c) => {
            let mut m: String = String::new();
            append_counter(&mut m, "counters: map_hit=", c.map_hit);
            append_counter(&mut m, " fib_miss=", c.fib_miss);
            append_counter(&mut m, " redirect=", c.redirect);
            append_counter(&mut m, " service_punt=", c.service_punt);
            append_counter(&mut m, " svc_dnat=", c.service_dnat);
            append_counter(&mut m, " svc_snat=", c.service_snat);
            append_counter(&mut m, " ct_evict=", c.ct_evict);
            assert(m@ == counters_line(*c));
            m
        },
        Err(e) => join2("counters: read failed: ", e.as_str()),
    }
}

/// A write fails exactly where it was not done, but for the removal of a service that is not there.
/// What failed is told in its message, at the end.
pub proof fn law_what_failed_is_told(op: MapOp, result: MapResult)
    ensures
        match result {
            MapResult::Done => op.failure(result) is None,
            MapResult::NotFound(e) => if op is ServicesRemove {
                op.failure(result) is None
            } else {
                op.failure(result) matches Some(m) && e@.is_suffix_of(m)
            },
            MapResult::OpenFailed(e) => op.failure(result) matches Some(m) && e@.is_suffix_of(m),
            MapResult::OpFailed(e) => {
                &&& !(op is ServicesRemove) ==> (op.failure(result) matches Some(m)
                    && e@.is_suffix_of(m))
                &&& op.failure(result) is None ==> op is ServicesRemove && exists|i: int|
                    0 <= i && i + "No such file"@.len() <= e@.len() && #[trigger] e@.subrange(
                        i,
                        i + "No such file"@.len(),
                    ) == "No such file"@
            },
        },
{
    if let MapResult::OpFailed(e) = result {
        if op.failure(result) is None {
            let i = choose|i: int| crate::text::occurs_at(e@, NOT_FOUND@, i);
            assert(e@.subrange(i, i + "No such file"@.len()) == "No such file"@);
        }
    }
    let reason = match result {
        MapResult::Done => Seq::empty(),
        MapResult::NotFound(e) => e@,
        MapResult::OpenFailed(e) => e@,
        MapResult::OpFailed(e) => e@,
    };
    let a = "open "@ + op.map_name() + " map: "@;
    assert((a + reason).skip(a.len() as int) =~= reason);
    let b = op.verb() + " "@ + op.map_name() + " entry: "@;
    assert((b + reason).skip(b.len() as int) =~= reason);
    lemma_suffix(a, reason);
    lemma_suffix(b, reason);
}

proof fn lemma_suffix(a: Seq<char>, b: Seq<char>)
    ensures
        b.is_suffix_of(a + b),
{
    assert((a + b).subrange(a.len() as int, (a + b).len() as int) =~= b);
}

/// A line of the mount table mounts the BPF file system exactly where its second word is the mount
/// point and its third the type, whatever the device and the options are.
pub proof fn law_mount_lines(
    device: Seq<char>,
    point: Seq<char>,
    kind: Seq<char>,
    rest: Seq<char>,
)
    requires
        device.len() > 0 && point.len() > 0 && kind.len() > 0,
        forall|i: int| 0 <= i < device.len() ==> !is_white(#[trigger] device[i]),
        forall|i: int| 0 <= i < point.len() ==> !is_white(#[trigger] point[i]),
        forall|i: int| 0 <= i < kind.len() ==> !is_white(#[trigger] kind[i]),
    ensures
        line_mounts_bpffs(
            device.push(' ') + (point.push(' ') + (kind.push(' ') + rest)),
        ) <==> point == "/sys/fs/bpf"@ && kind == "bpf"@,
        !line_mounts_bpffs(device.push(' ') + point),
{
    let c = kind.push(' ') + rest;
    let b = point.push(' ') + c;
    law_words_come_one_by_one(kind, ' ', rest);
    law_words_come_one_by_one(point, ' ', c);
    law_words_come_one_by_one(device, ' ', b);
    law_words_come_one_by_one(device, ' ', point);
    let words = non_empty(split(device.push(' ') + b, Sep::Whitespace));
    let more = non_empty(split(rest, Sep::Whitespace));
    assert(words =~= seq![device] + (seq![point] + (seq![kind] + more)));
    assert(words[1] == point && words[2] == kind);
    let two = non_empty(split(device.push(' ') + point, Sep::Whitespace));
    assert(two == seq![device] + seq![point]);
    assert(two.len() == 2);
}

/// The values of a counter add up over the CPUs.
pub proof fn law_counters_add_up(a: Seq<u64>, b: Seq<u64>, x: u64)
    ensures
        total(a + b) == total(a) + total(b),
        total(seq![x]) == x,
        total(Seq::empty()) == 0,
    decreases b.len(),
{
    assert(seq![x].drop_last() =~= Seq::<u64>::empty());
    assert(total(Seq::<u64>::empty()) == 0);
    if b.len() > 0 {
        law_counters_add_up(a, b.drop_last(), x);
        assert((a + b).drop_last() =~= a + b.drop_last());
        assert((a + b).last() == b.last());
    } else {
        assert(a + b =~= a);
    }
}

}
