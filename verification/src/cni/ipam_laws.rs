//! What holds of addresses over many requests: the records as mathematical maps, and what taking an
//! address and giving it back do to them.
use vstd::prelude::*;

use crate::cni::error::ipam_failure;
use crate::cni::ipam::{
    allocate_start, recorded, removal_failure, AllocatePoint, Allocation, ReleasePoint, Removed,
    RequestView,
};
use crate::net::{
    ip_of, law_v4_reads_back, lemma_host_unique, lemma_v4_hosts, lemma_v6_hosts, IpAddr, IpNet,
};
use crate::text::trimmed;

verus! {

/// The files of the two directories: names to contents.
#[verifier::ext_equal]
pub struct Store {
    pub by_ip: Map<Seq<char>, Seq<char>>,
    pub by_container: Map<Seq<char>, Seq<char>>,
}

impl Store {
    /// The store without files.
    pub open spec fn empty() -> Store {
        Store { by_ip: Map::empty(), by_container: Map::empty() }
    }

    /// The record of a container.
    pub open spec fn record(self, id: Seq<char>) -> Option<Seq<char>> {
        if self.by_container.dom().contains(id) {
            Some(self.by_container[id])
        } else {
            None
        }
    }

    /// Whether an address has a file.
    pub open spec fn taken(self, ip: IpAddr) -> bool {
        self.by_ip.dom().contains(ip.spec_text())
    }

    /// The store in which a container has an address.
    pub open spec fn with(self, ip: IpAddr, id: Seq<char>) -> Store {
        Store {
            by_ip: self.by_ip.insert(ip.spec_text(), id),
            by_container: self.by_container.insert(id, ip.spec_text()),
        }
    }

    /// Performs the file operation that taking an address asks for.
    pub open spec fn perform(self, at: AllocatePoint) -> (Store, AllocatePoint) {
        match at {
            AllocatePoint::MakeDirs(q) => (self, AllocatePoint::ReadRecord(q)),
            AllocatePoint::ReadRecord(q) => (self, q.after_record(self.record(q.container_id))),
            AllocatePoint::Claim(q, n, ip) => if self.taken(ip) {
                (self, q.turn(n + 1))
            } else {
                (
                    Store { by_ip: self.by_ip.insert(ip.spec_text(), Seq::empty()), ..self },
                    AllocatePoint::WriteOwner(q, ip),
                )
            },
            AllocatePoint::WriteOwner(q, ip) => (
                Store { by_ip: self.by_ip.insert(ip.spec_text(), q.container_id), ..self },
                AllocatePoint::WriteRecord(q, ip),
            ),
            AllocatePoint::WriteRecord(q, ip) => (
                Store {
                    by_container: self.by_container.insert(q.container_id, ip.spec_text()),
                    ..self
                },
                AllocatePoint::Done(Ok(q.grant(ip))),
            ),
            AllocatePoint::Done(_) => (self, at),
        }
    }

    /// Performs file operations until the end: at most `fuel` of them.
    pub open spec fn run(self, at: AllocatePoint, fuel: nat) -> (Store, AllocatePoint)
        decreases fuel,
    {
        if fuel == 0 {
            (self, at)
        } else {
            let (store, next) = self.perform(at);
            store.run(next, (fuel - 1) as nat)
        }
    }

    /// Performs the file operation that giving an address back asks for.
    pub open spec fn perform_release(self, at: ReleasePoint) -> (Store, ReleasePoint) {
        match at {
            ReleasePoint::ReadRecord(id) => match self.record(id) {
                Some(text) => (self, ReleasePoint::RemoveAddress(id, trimmed(text))),
                None => (self, ReleasePoint::Done(Ok(()))),
            },
            ReleasePoint::RemoveAddress(id, file) => (
                Store { by_ip: self.by_ip.remove(file), ..self },
                ReleasePoint::RemoveRecord(id),
            ),
            ReleasePoint::RemoveRecord(id) => (
                Store { by_container: self.by_container.remove(id), ..self },
                ReleasePoint::Done(Ok(())),
            ),
            ReleasePoint::Done(_) => (self, at),
        }
    }

    /// Performs file operations until the end: at most `fuel` of them.
    pub open spec fn run_release(self, at: ReleasePoint, fuel: nat) -> (Store, ReleasePoint)
        decreases fuel,
    {
        if fuel == 0 {
            (self, at)
        } else {
            let (store, next) = self.perform_release(at);
            store.run_release(next, (fuel - 1) as nat)
        }
    }

    /// Whether host `n` is the lowest behind the gateway whose address is free.
    pub open spec fn lowest_free(self, net: IpNet, n: int) -> bool {
        &&& n >= 1
        &&& net.host_at(n) matches Some(ip)
        &&& !self.taken(ip)
        &&& forall|m: int|
            1 <= m < n ==> (#[trigger] net.host_at(m) matches Some(x) ==> self.taken(x))
    }

    /// What taking an address comes to: the store after it, and the outcome.
    pub open spec fn allocated(self, net: IpNet, id: Seq<char>) -> (
        Store,
        Result<Allocation, (u32, Seq<char>)>,
    ) {
        match net.host_at(0) {
            Some(gateway) => {
                let q = RequestView { net, gateway, container_id: id };
                match recorded(self.record(id)) {
                    Some(ip) => (self, Ok(q.grant(ip))),
                    None => if exists|n: int| self.lowest_free(net, n) {
                        let ip = net.host_at(choose|n: int| self.lowest_free(net, n))->0;
                        (self.with(ip, id), Ok(q.grant(ip)))
                    } else {
                        (self, Err(ipam_failure("subnet exhausted"@)))
                    },
                }
            },
            None => (self, Err(ipam_failure("subnet too small"@))),
        }
    }

    /// The store after a container's address was given back.
    pub open spec fn released(self, id: Seq<char>) -> Store {
        match self.record(id) {
            Some(text) => Store {
                by_ip: self.by_ip.remove(trimmed(text)),
                by_container: self.by_container.remove(id),
            },
            None => self,
        }
    }

    /// Whether each record names an address whose file names the container.
    pub open spec fn sound(self) -> bool {
        forall|id: Seq<char>| #[trigger]
            self.by_container.dom().contains(id) ==> {
                let file = trimmed(self.by_container[id]);
                self.by_ip.dom().contains(file) && self.by_ip[file] == id
            }
    }

    /// Whether the two directories say the same of a network: each record names an address whose file
    /// names the container, each file of an address names a container whose record names the address,
    /// and the gateway has no file.
    pub open spec fn exact(self, net: IpNet) -> bool {
        &&& self.sound()
        &&& forall|id: Seq<char>| #[trigger]
            self.by_container.dom().contains(id) ==> recorded(self.record(id)) is Some
        &&& forall|file: Seq<char>| #[trigger]
            self.by_ip.dom().contains(file) ==> {
                let id = self.by_ip[file];
                self.by_container.dom().contains(id) && trimmed(self.by_container[id]) == file
            }
        &&& net.host_at(0) matches Some(gateway) ==> !self.taken(gateway)
    }

    /// The store after a request.
    pub open spec fn after(self, net: IpNet, asked: Asked) -> Store {
        match asked {
            Asked::Take(id) => self.allocated(net, id).0,
            Asked::GiveBack(id) => self.released(id),
        }
    }

    /// The store after requests in order.
    pub open spec fn after_all(self, net: IpNet, asked: Seq<Asked>) -> Store
        decreases asked.len(),
    {
        if asked.len() == 0 {
            self
        } else {
            self.after_all(net, asked.drop_last()).after(net, asked.last())
        }
    }
}

/// A request: a container takes an address, or gives it back.
pub enum Asked {
    Take(Seq<char>),
    GiveBack(Seq<char>),
}

/// Whether the text of each host of a network reads back as its address.
pub open spec fn hosts_read_back(net: IpNet) -> bool {
    forall|n: int| #[trigger] net.host_at(n) matches Some(ip) ==> ip.reads_back()
}

proof fn lemma_done(store: Store, out: Result<Allocation, (u32, Seq<char>)>, fuel: nat)
    ensures
        store.run(AllocatePoint::Done(out), fuel) == (store, AllocatePoint::Done(out)),
    decreases fuel,
{
    if fuel > 0 {
        lemma_done(store, out, (fuel - 1) as nat);
    }
}

proof fn lemma_lowest_unique(store: Store, net: IpNet, n: int, m: int)
    requires
        store.lowest_free(net, n),
        store.lowest_free(net, m),
    ensures
        n == m,
{
    if n < m {
        assert(net.host_at(n) matches Some(x) ==> store.taken(x));
    } else if m < n {
        assert(net.host_at(m) matches Some(x) ==> store.taken(x));
    }
}

/// From the turn of host `n` on, where those before it are taken.
proof fn lemma_turns(store: Store, q: RequestView, n: int, fuel: nat)
    requires
        n >= 1,
        recorded(store.record(q.container_id)) is None,
        q.net.host_at(0) == Some(q.gateway),
        forall|m: int|
            1 <= m < n ==> (#[trigger] q.net.host_at(m) matches Some(x) ==> store.taken(x)),
        fuel >= 4,
        fuel >= q.net.host_count() - n + 4,
    ensures
        store.run(q.turn(n), fuel) == (
            store.allocated(q.net, q.container_id).0,
            AllocatePoint::Done(store.allocated(q.net, q.container_id).1),
        ),
    decreases q.net.host_count() - n,
{
    let net = q.net;
    let id = q.container_id;
    let at = q.turn(n);
    let q0 = RequestView { net, gateway: net.host_at(0)->0, container_id: id };
    assert(q0 == q);
    match net.host_at(n) {
        None => {
            assert forall|m: int| !store.lowest_free(net, m) by {
                if store.lowest_free(net, m) && m < n {
                    assert(net.host_at(m) matches Some(x) ==> store.taken(x));
                }
            }
            lemma_done(store, Err(ipam_failure("subnet exhausted"@)), fuel);
        },
        Some(ip) => {
            if store.taken(ip) {
                assert forall|m: int| 1 <= m < n + 1 implies (#[trigger] net.host_at(
                    m,
                ) matches Some(x) ==> store.taken(x)) by {}
                assert(store.perform(at) == (store, q.turn(n + 1)));
                lemma_turns(store, q, n + 1, (fuel - 1) as nat);
            } else {
                assert(store.lowest_free(net, n));
                let c = choose|c: int| store.lowest_free(net, c);
                lemma_lowest_unique(store, net, n, c);
                let s1 = Store { by_ip: store.by_ip.insert(ip.spec_text(), Seq::empty()), ..store };
                let s2 = Store { by_ip: s1.by_ip.insert(ip.spec_text(), id), ..s1 };
                let s3 = Store {
                    by_container: s2.by_container.insert(id, ip.spec_text()),
                    ..s2
                };
                assert(s2.by_ip =~= store.by_ip.insert(ip.spec_text(), id));
                assert(s3 == store.with(ip, id));
                let p1 = AllocatePoint::WriteOwner(q, ip);
                let p2 = AllocatePoint::WriteRecord(q, ip);
                let p3 = AllocatePoint::Done(Ok(q.grant(ip)));
                assert(store.perform(at) == (s1, p1));
                assert(s1.perform(p1) == (s2, p2));
                assert(s2.perform(p2) == (s3, p3));
                lemma_done(s3, Ok(q.grant(ip)), (fuel - 3) as nat);
                assert(store.run(at, fuel) == s1.run(p1, (fuel - 1) as nat));
                assert(s1.run(p1, (fuel - 1) as nat) == s2.run(p2, (fuel - 2) as nat));
                assert(s2.run(p2, (fuel - 2) as nat) == s3.run(p3, (fuel - 3) as nat));
            }
        },
    }
}

/// Taking an address ends, and comes to `allocated`: the address on record, else the lowest free one
/// behind the gateway, which is then recorded; where none is free, nothing changes.
pub proof fn law_allocate_ends(store: Store, net: IpNet, id: Seq<char>, fuel: nat)
    requires
        fuel >= net.host_count() + 6,
        fuel >= 6,
    ensures
        store.run(allocate_start(net, id), fuel) == (
            store.allocated(net, id).0,
            AllocatePoint::Done(store.allocated(net, id).1),
        ),
{
    let at = allocate_start(net, id);
    match net.host_at(0) {
        Some(gateway) => {
            let q = RequestView { net, gateway, container_id: id };
            let p1 = AllocatePoint::ReadRecord(q);
            let p2 = q.after_record(store.record(id));
            assert(store.perform(at) == (store, p1));
            assert(store.perform(p1) == (store, p2));
            assert(store.run(at, fuel) == store.run(p1, (fuel - 1) as nat));
            assert(store.run(p1, (fuel - 1) as nat) == store.run(p2, (fuel - 2) as nat));
            match recorded(store.record(id)) {
                Some(ip) => {
                    lemma_done(store, Ok(q.grant(ip)), (fuel - 2) as nat);
                },
                None => {
                    lemma_turns(store, q, 1, (fuel - 2) as nat);
                },
            }
        },
        None => {
            lemma_done(store, Err(ipam_failure("subnet too small"@)), fuel);
        },
    }
}

/// Giving an address back ends, and comes to `released`: the file of the address and the record are
/// gone. A container without a record changes nothing.
pub proof fn law_release_ends(store: Store, id: Seq<char>)
    ensures
        store.run_release(ReleasePoint::ReadRecord(id), 4) == (
            store.released(id),
            ReleasePoint::Done(Ok(())),
        ),
{
    reveal_with_fuel(Store::run_release, 5);
}

/// An address that was handed out anew and reads back is handed out again to its container, and
/// nothing changes. Every IPv4 address reads back.
pub proof fn law_allocate_is_idempotent(store: Store, net: IpNet, id: Seq<char>, a: Allocation)
    requires
        store.allocated(net, id).1 == Ok::<Allocation, (u32, Seq<char>)>(a),
        recorded(store.record(id)) is None ==> a.address.reads_back(),
    ensures
        store.allocated(net, id).0.allocated(net, id) == store.allocated(net, id),
{
    let (s1, r1) = store.allocated(net, id);
    match recorded(store.record(id)) {
        Some(ip) => {},
        None => {
            assert(s1 == store.with(a.address, id));
            assert(s1.record(id) == Some(a.address.spec_text()));
            assert(recorded(s1.record(id)) == Some(a.address));
        },
    }
}

/// An address of an IPv4 network that is handed out anew reads back.
pub proof fn law_v4_addresses_read_back(store: Store, net: IpNet, id: Seq<char>, a: Allocation)
    requires
        net is V4,
        net.wf(),
        recorded(store.record(id)) is None,
        store.allocated(net, id).1 == Ok::<Allocation, (u32, Seq<char>)>(a),
    ensures
        a.address.reads_back(),
{
    let n = choose|n: int| store.lowest_free(net, n);
    assert(store.lowest_free(net, n));
    lemma_v4_hosts(net->V4_0, n);
    let ip = net.host_at(n)->0;
    assert(net.is_host(n, ip));
    law_v4_reads_back(ip->V4_0);
}

/// The gateway is the first host, and an address that is handed out anew is another host of the
/// network: the lowest that was free.
pub proof fn law_gateway_is_reserved(store: Store, net: IpNet, id: Seq<char>, a: Allocation)
    requires
        net.wf(),
        recorded(store.record(id)) is None,
        store.allocated(net, id).1 == Ok::<Allocation, (u32, Seq<char>)>(a),
    ensures
        net.is_host(0, a.gateway),
        a.prefix_len == net.spec_prefix_len(),
        exists|n: int| #[trigger] store.lowest_free(net, n) && net.is_host(n, a.address),
        a.address != a.gateway,
        !store.taken(a.address),
{
    let n = choose|n: int| store.lowest_free(net, n);
    assert(store.lowest_free(net, n));
    match net {
        IpNet::V4(v) => {
            lemma_v4_hosts(v, n);
            lemma_v4_hosts(v, 0);
        },
        IpNet::V6(v) => {
            lemma_v6_hosts(v, n);
            lemma_v6_hosts(v, 0);
        },
    }
    assert(net.is_host(n, a.address));
}

/// Every network has a gateway: taking an address never fails because the network is too small for
/// one.
pub proof fn law_no_network_is_too_small(net: IpNet)
    requires
        net.wf(),
    ensures
        net.host_at(0) is Some,
        allocate_start(net, Seq::empty()) is MakeDirs,
{
    match net {
        IpNet::V4(v) => {
            lemma_v4_hosts(v, 0);
        },
        IpNet::V6(v) => {
            lemma_v6_hosts(v, 0);
        },
    }
}

/// Records stay sound when an address is taken or given back.
pub proof fn law_records_stay_sound(store: Store, net: IpNet, id: Seq<char>)
    requires
        store.sound(),
        recorded(store.record(id)) is None ==> (store.allocated(net, id).1 matches Ok(a)
            ==> a.address.reads_back()),
    ensures
        store.allocated(net, id).0.sound(),
        store.released(id).sound(),
{
    let s1 = store.allocated(net, id).0;
    if s1 != store {
        let n = choose|n: int| store.lowest_free(net, n);
        let ip = net.host_at(n)->0;
        assert(store.lowest_free(net, n));
        assert(s1 == store.with(ip, id));
        assert forall|x: Seq<char>| #[trigger] s1.by_container.dom().contains(x) implies {
            let file = trimmed(s1.by_container[x]);
            s1.by_ip.dom().contains(file) && s1.by_ip[file] == x
        } by {
            if x != id {
                assert(store.by_container.dom().contains(x));
            }
        }
    }
    let s2 = store.released(id);
    assert forall|x: Seq<char>| #[trigger] s2.by_container.dom().contains(x) implies {
        let file = trimmed(s2.by_container[x]);
        s2.by_ip.dom().contains(file) && s2.by_ip[file] == x
    } by {
        assert(store.by_container.dom().contains(x));
    }
}

/// The hosts of every IPv4 network read back.
pub proof fn law_v4_hosts_read_back(net: IpNet)
    requires
        net is V4,
        net.wf(),
    ensures
        hosts_read_back(net),
{
    assert forall|n: int| (#[trigger] net.host_at(n)) is Some implies net.host_at(
        n,
    )->0.reads_back() by {
        lemma_v4_hosts(net->V4_0, n);
        let ip = net.host_at(n)->0;
        law_v4_reads_back(ip->V4_0);
    }
}

/// The two directories go on saying the same when an address is taken or given back.
pub proof fn law_records_stay_exact(store: Store, net: IpNet, asked: Asked)
    requires
        net.wf(),
        hosts_read_back(net),
        store.exact(net),
    ensures
        store.after(net, asked).exact(net),
{
    let r = store.after(net, asked);
    match asked {
        Asked::Take(id) => {
            law_no_network_is_too_small(net);
            let gateway = net.host_at(0)->0;
            assert(gateway.reads_back());
            if recorded(store.record(id)) is None && (exists|n: int| store.lowest_free(net, n)) {
                let a = store.allocated(net, id).1->Ok_0;
                law_gateway_is_reserved(store, net, id, a);
                let n = choose|n: int| store.lowest_free(net, n);
                assert(store.lowest_free(net, n));
                assert(net.host_at(n) == Some(a.address));
                let text = a.address.spec_text();
                assert(r == store.with(a.address, id));
                assert(!store.by_container.dom().contains(id));
                assert(a.gateway == gateway);
                assert(gateway.spec_text() != text);
                law_records_stay_sound(store, net, id);
                assert forall|file: Seq<char>| #[trigger] r.by_ip.dom().contains(file) implies {
                    let x = r.by_ip[file];
                    r.by_container.dom().contains(x) && trimmed(r.by_container[x]) == file
                } by {
                    if file != text {
                        assert(store.by_ip.dom().contains(file));
                    }
                }
                assert forall|x: Seq<char>| #[trigger]
                    r.by_container.dom().contains(x) implies recorded(r.record(x)) is Some by {
                    if x != id {
                        assert(store.by_container.dom().contains(x));
                    }
                }
            }
        },
        Asked::GiveBack(id) => {
            if store.by_container.dom().contains(id) {
                let gone = trimmed(store.by_container[id]);
                assert forall|x: Seq<char>| #[trigger] r.by_container.dom().contains(x) implies {
                    let file = trimmed(r.by_container[x]);
                    &&& r.by_ip.dom().contains(file)
                    &&& r.by_ip[file] == x
                    &&& recorded(r.record(x)) is Some
                } by {
                    assert(store.by_container.dom().contains(x));
                }
                assert forall|file: Seq<char>| #[trigger] r.by_ip.dom().contains(file) implies {
                    let x = r.by_ip[file];
                    r.by_container.dom().contains(x) && trimmed(r.by_container[x]) == file
                } by {
                    assert(store.by_ip.dom().contains(file));
                }
            }
        },
    }
}

/// Whatever containers take addresses and give them back, from the first on: a record and the file of
/// an address always come together, each file of an address is named by the record of the container
/// that it names, and neither a file nor a record holds the gateway.
pub proof fn law_records_are_exact(net: IpNet, asked: Seq<Asked>)
    requires
        net.wf(),
        hosts_read_back(net),
    ensures
        ({
            let store = Store::empty().after_all(net, asked);
            let gateway = net.host_at(0)->0;
            &&& store.exact(net)
            &&& net.host_at(0) is Some
            &&& !store.by_ip.dom().contains(gateway.spec_text())
            &&& forall|id: Seq<char>| #[trigger]
                store.by_container.dom().contains(id) ==> trimmed(store.by_container[id])
                    != gateway.spec_text()
        }),
    decreases asked.len(),
{
    law_no_network_is_too_small(net);
    if asked.len() > 0 {
        law_records_are_exact(net, asked.drop_last());
        law_records_stay_exact(
            Store::empty().after_all(net, asked.drop_last()),
            net,
            asked.last(),
        );
    }
}

/// No address is on record for two containers.
pub proof fn law_no_address_is_shared(store: Store, id: Seq<char>, other: Seq<char>)
    requires
        store.sound(),
        store.by_container.dom().contains(id),
        store.by_container.dom().contains(other),
        trimmed(store.by_container[id]) == trimmed(store.by_container[other]),
    ensures
        id == other,
{
}

/// An address that is handed out anew was on record for no container.
pub proof fn law_new_address_is_nobodys(
    store: Store,
    net: IpNet,
    id: Seq<char>,
    a: Allocation,
    other: Seq<char>,
)
    requires
        store.sound(),
        net.wf(),
        recorded(store.record(id)) is None,
        store.allocated(net, id).1 == Ok::<Allocation, (u32, Seq<char>)>(a),
        store.by_container.dom().contains(other),
    ensures
        trimmed(store.by_container[other]) != a.address.spec_text(),
{
    law_gateway_is_reserved(store, net, id, a);
}

/// Giving back undoes taking: where a container without a record takes an address and gives it back,
/// the records are as they were.
pub proof fn law_release_undoes_allocate(store: Store, net: IpNet, id: Seq<char>, a: Allocation)
    requires
        !store.by_container.dom().contains(id),
        store.allocated(net, id).1 == Ok::<Allocation, (u32, Seq<char>)>(a),
        a.address.reads_back(),
    ensures
        store.allocated(net, id).0.released(id) == store,
{
    let s1 = store.allocated(net, id).0;
    let n = choose|n: int| store.lowest_free(net, n);
    assert(store.lowest_free(net, n));
    assert(s1 == store.with(a.address, id));
    let s2 = s1.released(id);
    assert(s2.by_ip =~= store.by_ip);
    assert(s2.by_container =~= store.by_container);
}

/// An address that was given back is free again: the next container gets it.
pub proof fn law_released_address_is_reused(
    store: Store,
    net: IpNet,
    id: Seq<char>,
    other: Seq<char>,
    a: Allocation,
)
    requires
        !store.by_container.dom().contains(id),
        !store.by_container.dom().contains(other),
        store.allocated(net, id).1 == Ok::<Allocation, (u32, Seq<char>)>(a),
        a.address.reads_back(),
    ensures
        store.allocated(net, id).0.released(id).allocated(net, other).1 == Ok::<
            Allocation,
            (u32, Seq<char>),
        >(a),
{
    law_release_undoes_allocate(store, net, id, a);
}

/// Giving an address back twice is giving it back once.
pub proof fn law_release_is_idempotent(store: Store, id: Seq<char>)
    ensures
        store.released(id).released(id) == store.released(id),
        !store.released(id).by_container.dom().contains(id),
{
}

/// Giving an address back leaves the records of other containers and the files of their addresses as
/// they are.
pub proof fn law_release_touches_one_container(store: Store, id: Seq<char>, other: Seq<char>)
    requires
        store.sound(),
        other != id,
        store.by_container.dom().contains(other),
    ensures
        ({
            let r = store.released(id);
            let file = trimmed(store.by_container[other]);
            &&& r.record(other) == store.record(other)
            &&& r.by_ip.dom().contains(file)
            &&& r.by_ip[file] == other
        }),
{
}

/// A container that has an address on record gets that one again, with the gateway and the prefix
/// length of the network, and nothing changes.
pub proof fn law_records_are_honoured(store: Store, net: IpNet, id: Seq<char>, ip: IpAddr)
    requires
        net.wf(),
        store.by_container.dom().contains(id),
        ip_of(trimmed(store.by_container[id])) == Some(ip),
    ensures
        ({
            let (s, r) = store.allocated(net, id);
            &&& s == store
            &&& r matches Ok(a) && a.address == ip && net.is_host(0, a.gateway) && a.prefix_len
                == net.spec_prefix_len()
        }),
{
    match net {
        IpNet::V4(v) => {
            lemma_v4_hosts(v, 0);
        },
        IpNet::V6(v) => {
            lemma_v6_hosts(v, 0);
        },
    }
}

/// A container without an address gets the lowest host behind the gateway that has no file: every
/// host before it has one. The file of the address then names the container, its record the address,
/// and nothing else changes.
pub proof fn law_lowest_free_host_is_taken(store: Store, net: IpNet, id: Seq<char>, a: Allocation)
    requires
        net.wf(),
        recorded(store.record(id)) is None,
        store.allocated(net, id).1 == Ok::<Allocation, (u32, Seq<char>)>(a),
    ensures
        exists|n: int| #[trigger]
            net.is_host(n, a.address) && 1 <= n < net.host_count() && forall|m: int, x: IpAddr|
                1 <= m < n && #[trigger] net.is_host(m, x) ==> store.by_ip.dom().contains(
                    x.spec_text(),
                ),
        !store.by_ip.dom().contains(a.address.spec_text()),
        store.allocated(net, id).0.by_ip == store.by_ip.insert(a.address.spec_text(), id),
        store.allocated(net, id).0.by_container == store.by_container.insert(
            id,
            a.address.spec_text(),
        ),
{
    law_gateway_is_reserved(store, net, id, a);
    let n = choose|n: int| #[trigger] store.lowest_free(net, n) && net.is_host(n, a.address);
    let c = choose|n: int| store.lowest_free(net, n);
    lemma_lowest_unique(store, net, n, c);
    assert forall|m: int, x: IpAddr|
        1 <= m < n && #[trigger] net.is_host(m, x) implies store.by_ip.dom().contains(
        x.spec_text(),
    ) by {
        assert(net.host_at(m) is Some);
        match net {
            IpNet::V4(v) => {
                lemma_v4_hosts(v, m);
            },
            IpNet::V6(v) => {
                lemma_v6_hosts(v, m);
            },
        }
        let y = net.host_at(m)->0;
        lemma_host_unique(net, m, x, y);
        assert(store.taken(y));
    }
}

/// The network is exhausted only where every host behind the gateway has a file, and then nothing
/// changes.
pub proof fn law_exhaustion(store: Store, net: IpNet, id: Seq<char>, n: int, ip: IpAddr)
    requires
        net.wf(),
        store.allocated(net, id).1 is Err,
        1 <= n < net.host_count(),
        net.is_host(n, ip),
    ensures
        store.by_ip.dom().contains(ip.spec_text()),
        store.allocated(net, id).0 == store,
    decreases n,
{
    law_no_network_is_too_small(net);
    match net {
        IpNet::V4(v) => {
            lemma_v4_hosts(v, n);
        },
        IpNet::V6(v) => {
            lemma_v6_hosts(v, n);
        },
    }
    let y = net.host_at(n)->0;
    lemma_host_unique(net, n, ip, y);
    assert forall|m: int| 1 <= m < n implies (#[trigger] net.host_at(m) matches Some(x)
        ==> store.taken(x)) by {
        match net {
            IpNet::V4(v) => {
                lemma_v4_hosts(v, m);
            },
            IpNet::V6(v) => {
                lemma_v6_hosts(v, m);
            },
        }
        law_exhaustion(store, net, id, m, net.host_at(m)->0);
    }
    if !store.taken(y) {
        assert(store.lowest_free(net, n));
    }
}


/// A file that is gone already is as good as removed; one that cannot be removed is a failure of the
/// file system, with its reason.
pub proof fn law_removal_wants_the_file_gone(removed: Removed)
    ensures
        removal_failure(removed) is Some <==> removed is Failed,
        removed matches Removed::Failed(e) ==> removal_failure(removed) == Some((5u32, e@)),
{
}

}
