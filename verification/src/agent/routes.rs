//! Routes to the pods of other nodes.
//!
//! For each other node that is ready there is a route: its pods' network by way of its address. The
//! nodes are watched, and each report leads to at most one change of routes.
use vstd::prelude::*;

use crate::agent::watch::Event;
use crate::net::{addr_of, parse_v4_net, v4_net_of, Ipv4Addr, Ipv4Net};
use crate::text::same_text;

verus! {

/// A condition of a node.
pub struct NodeCondition {
    pub type_: String,
    pub status: String,
}

/// An address of a node.
pub struct NodeAddress {
    pub type_: String,
    pub address: String,
}

/// What is said of the state of a node.
pub struct NodeStatus {
    pub conditions: Option<Vec<NodeCondition>>,
    pub addresses: Option<Vec<NodeAddress>>,
}

/// A node as the cluster describes it.
pub struct Node {
    pub name: Option<String>,
    pub pod_cidr: Option<String>,
    pub status: Option<NodeStatus>,
}

/// A change of routes.
#[derive(Clone, Copy, Debug, PartialEq, Eq, Structural)]
pub enum RouteAction {
    /// None.
    Skip,
    /// Packets to the network `dest`/`prefix_len` go by way of `via`, whatever held before.
    Upsert { dest: Ipv4Addr, prefix_len: u8, via: Ipv4Addr },
    /// The first route to the network is deleted, where there is one.
    Delete(Ipv4Net),
}

/// The pod network of a node is not one.
#[derive(Clone, Copy, Debug, PartialEq, Eq, Structural)]
pub struct InvalidPodCidr;

/// An attribute of a route.
#[derive(Clone, Copy, Debug, PartialEq, Eq, Structural)]
pub enum RouteAttribute {
    /// The destination, an IPv4 address.
    Destination(Ipv4Addr),
    /// Anything else.
    Other,
}

/// A route as the kernel lists it.
pub struct RouteMessage {
    pub destination_prefix_length: u8,
    pub attributes: Vec<RouteAttribute>,
}

/// Whether a condition says that the node is ready.
pub open spec fn says_ready(c: NodeCondition) -> bool {
    c.type_@ == "Ready"@ && c.status@ == "True"@
}

/// Whether a node is ready: one of its conditions says so.
pub open spec fn is_node_ready(node: Node) -> bool {
    node.status matches Some(status) && status.conditions matches Some(conditions) && exists|i: int|
        0 <= i < conditions@.len() && says_ready(#[trigger] conditions@[i])
}

/// The first internal address among `addresses`, where it is the text of an IPv4 address.
pub open spec fn internal_ip_of(addresses: Seq<NodeAddress>) -> Option<Ipv4Addr>
    decreases addresses.len(),
{
    if addresses.len() == 0 {
        None
    } else if addresses[0].type_@ == "InternalIP"@ {
        addr_of(addresses[0].address@)
    } else {
        internal_ip_of(addresses.drop_first())
    }
}

/// The internal address of a node.
pub open spec fn internal_ip(node: Node) -> Option<Ipv4Addr> {
    match node.status {
        Some(status) => match status.addresses {
            Some(addresses) => internal_ip_of(addresses@),
            None => None,
        },
        None => None,
    }
}

/// Whether a change of routes makes packets to `net` go by way of `via`.
pub open spec fn routes_to(action: RouteAction, net: Ipv4Net, via: Ipv4Addr) -> bool {
    action matches RouteAction::Upsert { dest, prefix_len, via: v } && dest.num()
        == net.network_num() && prefix_len == net.prefix_len && v == via
}

fn node_is_ready(node: &Node) -> (r: bool)
    ensures
        r == is_node_ready(*node),
{
    let conditions: &Vec<NodeCondition> = match &node.status {
        Some(status) => match &status.conditions {
            Some(conditions) => conditions,
            None => {
                return false;
            },
        },
        None => {
            return false;
        },
    };
    let mut i: usize = 0;
    while i < conditions.len()
        invariant
            i <= conditions.len(),
            forall|j: int| 0 <= j < i ==> !says_ready(#[trigger] conditions@[j]),
            node.status matches Some(status) && status.conditions matches Some(all) && all
                == *conditions,
        decreases conditions.len() - i,
    {
        let c: &NodeCondition = &conditions[i];
        if same_text(c.type_.as_str(), "Ready") && same_text(c.status.as_str(), "True") {
            assert(says_ready(conditions@[i as int]));
            return true;
        }
        i = i + 1;
    }
    false
}

fn node_internal_ip(node: &Node) -> (r: Option<Ipv4Addr>)
    ensures
        r == internal_ip(*node),
{
    let addresses: &Vec<NodeAddress> = match &node.status {
        Some(status) => match &status.addresses {
            Some(addresses) => addresses,
            None => {
                return None;
            },
        },
        None => {
            return None;
        },
    };
    let mut i: usize = 0;
    assert(addresses@.skip(0) == addresses@);
    while i < addresses.len()
        invariant
            i <= addresses.len(),
            internal_ip(*node) == internal_ip_of(addresses@.skip(i as int)),
        decreases addresses.len() - i,
    {
        let ghost rest = addresses@.skip(i as int);
        assert(rest[0] == addresses@[i as int]);
        assert(rest.drop_first() == addresses@.skip(i + 1));
        let a: &NodeAddress = &addresses[i];
        if same_text(a.type_.as_str(), "InternalIP") {
            return Ipv4Addr::parse(a.address.as_str());
        }
        i = i + 1;
    }
    None
}

/// What a report of the watch of nodes leads to. A node that is new or changed gets a route where it
/// is ready and has an internal address, and loses it where it is not ready; the agent's own node,
/// and one without a name or a pod network, is passed over. A node that is gone loses its route.
/// `None` is no change; a pod network that is not one is an error.
pub open spec fn wanted(event: Event<Node>, my_node: Seq<char>) -> Result<
    Option<(Ipv4Net, Option<Ipv4Addr>)>,
    InvalidPodCidr,
> {
    match event {
        Event::Apply(node) => wanted_for(node, my_node),
        Event::InitApply(node) => wanted_for(node, my_node),
        Event::Delete(node) => match node.pod_cidr {
            Some(cidr) => match v4_net_of(cidr@) {
                Some(net) => Ok(Some((net, None))),
                None => Err(InvalidPodCidr),
            },
            None => Ok(None),
        },
        Event::Init => Ok(None),
        Event::InitDone => Ok(None),
    }
}

/// The network of a new or changed node, and the address by way of which it is reached; no address
/// where it is not to be reached.
pub open spec fn wanted_for(node: Node, my_node: Seq<char>) -> Result<
    Option<(Ipv4Net, Option<Ipv4Addr>)>,
    InvalidPodCidr,
> {
    match (node.name, node.pod_cidr) {
        (Some(name), Some(cidr)) => if name@ == my_node {
            Ok(None)
        } else {
            match v4_net_of(cidr@) {
                Some(net) => if !is_node_ready(node) {
                    Ok(Some((net, None)))
                } else {
                    match internal_ip(node) {
                        Some(ip) => Ok(Some((net, Some(ip)))),
                        None => Ok(None),
                    }
                },
                None => Err(InvalidPodCidr),
            }
        },
        _ => Ok(None),
    }
}

/// Whether an action is what is wanted.
pub open spec fn carries_out(
    action: Result<RouteAction, InvalidPodCidr>,
    what: Result<Option<(Ipv4Net, Option<Ipv4Addr>)>, InvalidPodCidr>,
) -> bool {
    match what {
        Ok(Some((net, Some(via)))) => action matches Ok(a) && routes_to(a, net, via),
        Ok(Some((net, None))) => action == Ok::<RouteAction, InvalidPodCidr>(
            RouteAction::Delete(net),
        ),
        Ok(None) => action == Ok::<RouteAction, InvalidPodCidr>(RouteAction::Skip),
        Err(e) => action == Err::<RouteAction, InvalidPodCidr>(e),
    }
}

fn upsert_route(net: Ipv4Net, via: Ipv4Addr) -> (r: RouteAction)
    requires
        net.wf(),
    ensures
        routes_to(r, net, via),
{
    RouteAction::Upsert { dest: net.network(), prefix_len: net.prefix_len, via }
}

fn route_for_node(node: &Node, my_node: &str) -> (r: Result<RouteAction, InvalidPodCidr>)
    ensures
        carries_out(r, wanted_for(*node, my_node@)),
{
    let name: &String = match &node.name {
        Some(name) => name,
        None => {
            return Ok(RouteAction::Skip);
        },
    };
    if same_text(name.as_str(), my_node) {
        return Ok(RouteAction::Skip);
    }
    let cidr: &String = match &node.pod_cidr {
        Some(cidr) => cidr,
        None => {
            return Ok(RouteAction::Skip);
        },
    };
    match parse_v4_net(cidr.as_str()) {
        Some(net) => {
            if node_is_ready(node) {
                match node_internal_ip(node) {
                    Some(ip) => Ok(upsert_route(net, ip)),
                    None => Ok(RouteAction::Skip),
                }
            } else {
                Ok(RouteAction::Delete(net))
            }
        },
        None => Err(InvalidPodCidr),
    }
}

/// What a report of the watch of nodes leads to.
pub fn on_node_event(event: &Event<Node>, my_node: &str) -> (r: Result<
    RouteAction,
    InvalidPodCidr,
>)
    ensures
        carries_out(r, wanted(*event, my_node@)),
{
    match event {
        Event::Apply(node) => route_for_node(node, my_node),
        Event::InitApply(node) => route_for_node(node, my_node),
        Event::Delete(node) => match &node.pod_cidr {
            Some(cidr) => match parse_v4_net(cidr.as_str()) {
                Some(net) => Ok(RouteAction::Delete(net)),
                None => Err(InvalidPodCidr),
            },
            None => Ok(RouteAction::Skip),
        },
        Event::Init => Ok(RouteAction::Skip),
        Event::InitDone => Ok(RouteAction::Skip),
    }
}

/// Whether a route leads to a network: it has its prefix length, and its first address for a
/// destination.
pub open spec fn leads_to(route: RouteMessage, net: Ipv4Net) -> bool {
    &&& route.destination_prefix_length == net.prefix_len
    &&& exists|i: int|
        0 <= i < route.attributes@.len() && (#[trigger] route.attributes@[i] matches
            RouteAttribute::Destination(ip) && ip.num() == net.network_num())
}

/// Whether a route leads to a network.
pub fn route_matches_net(route: &RouteMessage, net: Ipv4Net) -> (r: bool)
    requires
        net.wf(),
    ensures
        r == leads_to(*route, net),
{
    if route.destination_prefix_length != net.prefix_len {
        return false;
    }
    let network: Ipv4Addr = net.network();
    let mut i: usize = 0;
    while i < route.attributes.len()
        invariant
            i <= route.attributes.len(),
            network.num() == net.network_num(),
            route.destination_prefix_length == net.prefix_len,
            forall|j: int|
                0 <= j < i ==> !(#[trigger] route.attributes@[j] matches
                    RouteAttribute::Destination(ip) && ip.num() == net.network_num()),
        decreases route.attributes.len() - i,
    {
        if let RouteAttribute::Destination(ip) = route.attributes[i] {
            if ip == network {
                assert(route.attributes@[i as int] matches RouteAttribute::Destination(x)
                    && x.num() == net.network_num());
                return true;
            }
            proof {
                if ip.num() == network.num() {
                    crate::net::lemma_num_injective(ip, network);
                }
            }
        }
        i = i + 1;
    }
    false
}

/// The route that a change of routes makes is the one that is found when the network loses its
/// route.
pub proof fn law_own_routes_are_found(
    action: RouteAction,
    net: Ipv4Net,
    via: Ipv4Addr,
    dest: Ipv4Addr,
    prefix_len: u8,
    route: RouteMessage,
)
    requires
        action == (RouteAction::Upsert { dest, prefix_len, via }),
        routes_to(action, net, via),
        route.destination_prefix_length == prefix_len,
        route.attributes@.contains(RouteAttribute::Destination(dest)),
    ensures
        leads_to(route, net),
{
    let i = choose|i: int|
        0 <= i < route.attributes@.len() && route.attributes@[i] == RouteAttribute::Destination(
            dest,
        );
    assert(route.attributes@[i] matches RouteAttribute::Destination(ip) && ip.num()
        == net.network_num());
}

/// A report of the agent's own node as new or changed never changes a route.
pub proof fn law_own_node_is_passed_over(node: Node, my_node: Seq<char>)
    requires
        node.name matches Some(name) && name@ == my_node,
    ensures
        wanted(Event::Apply(node), my_node) == Ok::<_, InvalidPodCidr>(
            None::<(Ipv4Net, Option<Ipv4Addr>)>,
        ),
        wanted(Event::InitApply(node), my_node) == Ok::<_, InvalidPodCidr>(
            None::<(Ipv4Net, Option<Ipv4Addr>)>,
        ),
{
}

/// Whether address `j` is the first internal one.
pub open spec fn first_internal(addresses: Seq<NodeAddress>, j: int) -> bool {
    &&& 0 <= j < addresses.len()
    &&& addresses[j].type_@ == "InternalIP"@
    &&& forall|n: int| 0 <= n < j ==> (#[trigger] addresses[n]).type_@ != "InternalIP"@
}

proof fn lemma_internal_ip(addresses: Seq<NodeAddress>, j: int)
    requires
        first_internal(addresses, j),
    ensures
        internal_ip_of(addresses) == addr_of(addresses[j].address@),
    decreases j,
{
    if j > 0 {
        let rest = addresses.drop_first();
        assert(addresses[0].type_@ != "InternalIP"@);
        assert(rest[j - 1] == addresses[j]);
        assert forall|n: int| 0 <= n < j - 1 implies (#[trigger] rest[n]).type_@
            != "InternalIP"@ by {
            assert(rest[n] == addresses[n + 1]);
        }
        lemma_internal_ip(rest, j - 1);
    }
}

proof fn lemma_no_internal_ip(addresses: Seq<NodeAddress>)
    requires
        forall|n: int|
            0 <= n < addresses.len() ==> (#[trigger] addresses[n]).type_@ != "InternalIP"@,
    ensures
        internal_ip_of(addresses) is None,
    decreases addresses.len(),
{
    if addresses.len() > 0 {
        let rest = addresses.drop_first();
        assert(addresses[0].type_@ != "InternalIP"@);
        assert forall|n: int| 0 <= n < rest.len() implies (#[trigger] rest[n]).type_@
            != "InternalIP"@ by {
            assert(rest[n] == addresses[n + 1]);
        }
        lemma_no_internal_ip(rest);
    }
}

/// Another node that is ready is reached by way of its first internal address: packets to the network
/// of its pods go there, from the network's first address on and under its prefix.
pub proof fn law_ready_nodes_are_reached(
    node: Node,
    my_node: Seq<char>,
    net: Ipv4Net,
    i: int,
    j: int,
    ip: Ipv4Addr,
    action: Result<RouteAction, InvalidPodCidr>,
)
    requires
        node.name matches Some(name) && name@ != my_node,
        node.pod_cidr matches Some(cidr) && v4_net_of(cidr@) == Some(net),
        node.status matches Some(status) && status.conditions matches Some(cs) && 0 <= i < cs@.len()
            && cs@[i].type_@ == "Ready"@ && cs@[i].status@ == "True"@,
        node.status matches Some(status) && status.addresses matches Some(xs) && first_internal(
            xs@,
            j,
        ) && xs@[j].address@ == ip.spec_text(),
        carries_out(action, wanted(Event::Apply(node), my_node)) || carries_out(
            action,
            wanted(Event::InitApply(node), my_node),
        ),
    ensures
        action matches Ok(RouteAction::Upsert { dest, prefix_len, via }) && via == ip && prefix_len
            == net.prefix_len && dest.num() == net.addr.num() - net.addr.num()
            % (vstd::arithmetic::power2::pow2((32 - net.prefix_len) as nat) as int),
{
    let status = node.status->0;
    assert(says_ready(status.conditions->0@[i]));
    lemma_internal_ip(status.addresses->0@, j);
    crate::net::lemma_addr_of(ip);
}

/// Another node that no condition says to be ready loses its route, and so does every node that is
/// gone.
pub proof fn law_lost_nodes_lose_their_routes(
    node: Node,
    my_node: Seq<char>,
    net: Ipv4Net,
    event: Event<Node>,
    action: Result<RouteAction, InvalidPodCidr>,
)
    requires
        node.pod_cidr matches Some(cidr) && v4_net_of(cidr@) == Some(net),
        event == Event::Delete(node) || ((event == Event::Apply(node) || event == Event::InitApply(
            node,
        )) && node.name is Some && node.name->0@ != my_node && (node.status matches Some(status)
            ==> (status.conditions matches Some(cs) ==> forall|i: int|
            0 <= i < cs@.len() ==> !((#[trigger] cs@[i]).type_@ == "Ready"@ && cs@[i].status@
                == "True"@)))),
        carries_out(action, wanted(event, my_node)),
    ensures
        action == Ok::<RouteAction, InvalidPodCidr>(RouteAction::Delete(net)),
{
}

/// No route changes where there is nothing to go by: a node without a pod network, a new or changed
/// one without a name, and one that is ready but has no internal address, or none whose text is that
/// of an IPv4 address.
pub proof fn law_nothing_to_go_by(
    node: Node,
    my_node: Seq<char>,
    event: Event<Node>,
    i: int,
    action: Result<RouteAction, InvalidPodCidr>,
)
    requires
        event == Event::Delete(node) || event == Event::Apply(node) || event == Event::InitApply(
            node,
        ),
        carries_out(action, wanted(event, my_node)),
        node.pod_cidr is None || (event != Event::Delete(node) && (node.name is None || ({
            &&& v4_net_of(node.pod_cidr->0@) is Some
            &&& node.status matches Some(status) && status.conditions matches Some(cs) && 0 <= i
                < cs@.len() && cs@[i].type_@ == "Ready"@ && cs@[i].status@ == "True"@
            &&& node.status->0.addresses matches Some(xs) ==> {
                ||| forall|n: int| 0 <= n < xs@.len() ==> (#[trigger] xs@[n]).type_@ != "InternalIP"@
                ||| exists|j: int|
                    first_internal(xs@, j) && forall|ip: Ipv4Addr|
                        xs@[j].address@ != #[trigger] ip.spec_text()
            }
        }))),
    ensures
        action == Ok::<RouteAction, InvalidPodCidr>(RouteAction::Skip),
{
    if node.pod_cidr is Some && node.name is Some {
        let status = node.status->0;
        assert(says_ready(status.conditions->0@[i]));
        if let Some(xs) = status.addresses {
            if forall|n: int| 0 <= n < xs@.len() ==> (#[trigger] xs@[n]).type_@ != "InternalIP"@ {
                lemma_no_internal_ip(xs@);
            } else {
                let j = choose|j: int|
                    first_internal(xs@, j) && forall|ip: Ipv4Addr|
                        xs@[j].address@ != #[trigger] ip.spec_text();
                lemma_internal_ip(xs@, j);
            }
        }
    }
}

/// A pod network that is not one is refused, wherever a route would follow from it.
pub proof fn law_bad_networks_are_refused(
    node: Node,
    my_node: Seq<char>,
    event: Event<Node>,
    action: Result<RouteAction, InvalidPodCidr>,
)
    requires
        node.pod_cidr matches Some(cidr) && v4_net_of(cidr@) is None,
        event == Event::Delete(node) || ((event == Event::Apply(node) || event == Event::InitApply(
            node,
        )) && node.name is Some && node.name->0@ != my_node),
        carries_out(action, wanted(event, my_node)),
    ensures
        action is Err,
{
}

/// The marks of the beginning and the end of a watch change no route.
pub proof fn law_marks_change_no_route(
    my_node: Seq<char>,
    action: Result<RouteAction, InvalidPodCidr>,
)
    requires
        carries_out(action, wanted(Event::Init, my_node)) || carries_out(
            action,
            wanted(Event::InitDone, my_node),
        ),
    ensures
        action == Ok::<RouteAction, InvalidPodCidr>(RouteAction::Skip),
{
}

/// A route with one destination leads to one network only: to two of them only where they have the
/// same prefix length and the same first address.
pub proof fn law_routes_lead_to_one_network(
    route: RouteMessage,
    dest: Ipv4Addr,
    net: Ipv4Net,
    other: Ipv4Net,
)
    requires
        forall|i: int|
            0 <= i < route.attributes@.len() ==> (#[trigger] route.attributes@[i]
                == RouteAttribute::Other || route.attributes@[i] == RouteAttribute::Destination(dest)),
        leads_to(route, net),
    ensures
        route.destination_prefix_length == net.prefix_len,
        dest.num() == net.network_num(),
        leads_to(route, other) ==> other.prefix_len == net.prefix_len && other.network_num()
            == net.network_num(),
{
}

}
