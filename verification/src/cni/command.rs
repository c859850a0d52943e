//! What a request asks for, and how it is answered.
use vstd::prelude::*;

use crate::agent::startup::CNI_VERSION;
use crate::bpf::{endpoints_insert, endpoints_remove, MapOp};
use crate::cni::config::NetworkConfig;
use crate::cni::error::{invalid_env, ipam_failure, CniError};
use crate::cni::ipam::{recorded, Allocation};
use crate::cni::params::{CniEnv, CniParams, Command};
use crate::cni::result::{CniResult, Interface, IpConfig, Route};
use crate::common::{key_of, Endpoint};
use crate::net::{lemma_net_text, net_of, v4_net_of, IpAddr, IpNet, Ipv4Addr, Ipv4Net};
use crate::text::{decimal, decimal_text, join2, same_text, texts, trim};

verus! {

/// The answer to a request for the versions.
pub struct VersionInfo {
    pub cni_version: String,
    pub supported_versions: Vec<String>,
}

/// What a request needs first: for the versions it can be answered, for anything else the network
/// configuration must be read.
pub enum Start {
    Version(VersionInfo),
    NeedConfig(CniParams),
}

/// A container that is to be connected.
pub struct AddRequest {
    pub container_id: String,
    pub ifname: String,
    pub netns: String,
    pub net: IpNet,
}

/// What a request asks for.
pub enum Action {
    /// Connect a container.
    Add(AddRequest),
    /// Disconnect the container with this id.
    Del(String),
    /// Check a container's connection.
    Check,
    /// Clean up what is stale.
    Gc,
    /// Nothing: the plugin is ready.
    Status,
}

/// The answer to a request for the versions.
pub fn version_info() -> (r: VersionInfo)
    ensures
        r.cni_version@ == CNI_VERSION@,
        texts(r.supported_versions@) == seq![CNI_VERSION@],
{
    let mut supported_versions: Vec<String> = Vec::new();
    supported_versions.push(CNI_VERSION.to_owned());
    assert(texts(supported_versions@) == seq![CNI_VERSION@]);
    VersionInfo { cni_version: CNI_VERSION.to_owned(), supported_versions }
}

/// What a request needs first, given its environment.
pub fn start(env: &CniEnv) -> (r: Result<Start, CniError>)
    ensures
        match env.command {
            None => r matches Err(e) && e@ == invalid_env("missing CNI_COMMAND"@),
            Some(name) => match Command::named(name@) {
                None => r matches Err(e) && e@ == invalid_env("unknown CNI_COMMAND: "@ + name@),
                Some(Command::Version) => {
                    &&& r matches Ok(Start::Version(info))
                    &&& info.cni_version@ == CNI_VERSION@
                    &&& texts(info.supported_versions@) == seq![CNI_VERSION@]
                },
                Some(command) => r matches Ok(Start::NeedConfig(p)) && p.reflects(*env, command),
            },
        },
{
    match CniParams::from_env(env) {
        Ok(params) => {
            if params.command == Command::Version {
                Ok(Start::Version(version_info()))
            } else {
                Ok(Start::NeedConfig(params))
            }
        },
        Err(e) => Err(e),
    }
}

/// Why a container cannot be connected, given the parameters and the configuration: the first of
/// what is missing, or a subnet that is not one.
pub open spec fn add_failure(params: CniParams, config: NetworkConfig) -> Option<
    (u32, Seq<char>),
> {
    if params.container_id is None {
        Some(invalid_env("missing CNI_CONTAINERID"@))
    } else if params.ifname is None {
        Some(invalid_env("missing CNI_IFNAME"@))
    } else if params.netns is None {
        Some(invalid_env("missing CNI_NETNS"@))
    } else {
        match config.subnet {
            None => Some(invalid_env("missing subnet in config"@)),
            Some(subnet) => if net_of(subnet@) is None {
                Some(ipam_failure("invalid subnet: "@ + subnet@))
            } else {
                None
            },
        }
    }
}

/// The container that is to be connected, or why it cannot be.
pub fn cmd_add(params: &CniParams, config: &NetworkConfig) -> (r: Result<AddRequest, CniError>)
    ensures
        match add_failure(*params, *config) {
            Some(e) => r matches Err(x) && x@ == e,
            None => {
                &&& r matches Ok(req)
                &&& req.container_id@ == params.container_id->0@
                &&& req.ifname@ == params.ifname->0@
                &&& req.netns@ == params.netns->0@
                &&& Some(req.net) == net_of(config.subnet->0@)
                &&& req.net.wf()
            },
        },
{
    let container_id: &String = match &params.container_id {
        Some(id) => id,
        None => {
            return Err(CniError::InvalidEnv("missing CNI_CONTAINERID".to_owned()));
        },
    };
    let ifname: &String = match &params.ifname {
        Some(name) => name,
        None => {
            return Err(CniError::InvalidEnv("missing CNI_IFNAME".to_owned()));
        },
    };
    let netns: &String = match &params.netns {
        Some(path) => path,
        None => {
            return Err(CniError::InvalidEnv("missing CNI_NETNS".to_owned()));
        },
    };
    let subnet: &String = match &config.subnet {
        Some(subnet) => subnet,
        None => {
            return Err(CniError::InvalidEnv("missing subnet in config".to_owned()));
        },
    };
    match IpNet::parse(subnet.as_str()) {
        Some(net) => Ok(
            AddRequest {
                container_id: container_id.clone(),
                ifname: ifname.clone(),
                netns: netns.clone(),
                net,
            },
        ),
        None => Err(CniError::Ipam(join2("invalid subnet: ", subnet.as_str()))),
    }
}

/// The container that is to be disconnected.
pub fn cmd_del(params: &CniParams) -> (r: Result<String, CniError>)
    ensures
        match params.container_id {
            Some(id) => r matches Ok(x) && x@ == id@,
            None => r matches Err(e) && e@ == invalid_env("missing CNI_CONTAINERID"@),
        },
{
    match &params.container_id {
        Some(id) => Ok(id.clone()),
        None => Err(CniError::InvalidEnv("missing CNI_CONTAINERID".to_owned())),
    }
}

/// What a request asks for, once its configuration was read. A configuration of another version is
/// refused before anything else is looked at.
pub fn dispatch(params: &CniParams, config: &NetworkConfig) -> (r: Result<Action, CniError>)
    requires
        params.command != Command::Version,
    ensures
        if config.cni_version@ != CNI_VERSION@ {
            r matches Err(e) && e@ == (1u32, config.cni_version@)
        } else {
            match params.command {
                Command::Add => match add_failure(*params, *config) {
                    Some(e) => r matches Err(x) && x@ == e,
                    None => {
                        &&& r matches Ok(Action::Add(req))
                        &&& req.container_id@ == params.container_id->0@
                        &&& req.ifname@ == params.ifname->0@
                        &&& req.netns@ == params.netns->0@
                        &&& Some(req.net) == net_of(config.subnet->0@)
                        &&& req.net.wf()
                    },
                },
                Command::Del => match params.container_id {
                    Some(id) => r matches Ok(Action::Del(x)) && x@ == id@,
                    None => r matches Err(e) && e@ == invalid_env("missing CNI_CONTAINERID"@),
                },
                Command::Check => r == Ok::<Action, CniError>(Action::Check),
                Command::Gc => r == Ok::<Action, CniError>(Action::Gc),
                _ => r == Ok::<Action, CniError>(Action::Status),
            }
        },
{
    if !same_text(config.cni_version.as_str(), CNI_VERSION) {
        return Err(CniError::UnsupportedVersion(config.cni_version.clone()));
    }
    match params.command {
        Command::Add => match cmd_add(params, config) {
            Ok(req) => Ok(Action::Add(req)),
            Err(e) => Err(e),
        },
        Command::Del => match cmd_del(params) {
            Ok(id) => Ok(Action::Del(id)),
            Err(e) => Err(e),
        },
        Command::Check => Ok(Action::Check),
        Command::Gc => Ok(Action::Gc),
        _ => Ok(Action::Status),
    }
}

/// The destination of the route to everywhere.
pub const ANYWHERE: &'static str = "0.0.0.0/0";

impl AddRequest {
    /// Whether `r` is the answer to the request of a container that has `alloc`: one interface
    /// without a hardware address, its address with the prefix length, and the route to everywhere
    /// by way of the gateway.
    pub open spec fn answers(self, alloc: Allocation, r: CniResult) -> bool {
        &&& r.cni_version@ == CNI_VERSION@
        &&& r.interfaces@.len() == 1
        &&& r.interfaces@[0].name@ == self.ifname@
        &&& r.interfaces@[0].mac@ == ""@
        &&& r.interfaces@[0].sandbox@ == self.netns@
        &&& r.ips@.len() == 1
        &&& r.ips@[0].address@ == alloc.address.spec_text() + "/"@ + decimal(
            alloc.prefix_len as nat,
        )
        &&& r.ips@[0].gateway == alloc.gateway
        &&& r.ips@[0].interface == 0
        &&& r.routes@.len() == 1
        &&& r.routes@[0].dst@ == ANYWHERE@
        &&& r.routes@[0].gw == alloc.gateway
    }

    /// The answer to the request, once the container is connected: its interface, its address and
    /// the route to everywhere by way of the gateway.
    pub fn result(&self, alloc: &Allocation) -> (r: CniResult)
        ensures
            self.answers(*alloc, r),
    {
        let mut interfaces: Vec<Interface> = Vec::new();
        interfaces.push(
            Interface {
                name: self.ifname.clone(),
                mac: "".to_owned(),
                sandbox: self.netns.clone(),
            },
        );
        let mut address: String = join2(alloc.address.text().as_str(), "/");
        address.append(decimal_text(alloc.prefix_len as u64).as_str());
        let mut ips: Vec<IpConfig> = Vec::new();
        ips.push(IpConfig { address, gateway: alloc.gateway, interface: 0 });
        let mut routes: Vec<Route> = Vec::new();
        routes.push(Route { dst: ANYWHERE.to_owned(), gw: alloc.gateway });
        CniResult { cni_version: CNI_VERSION.to_owned(), interfaces, ips, routes }
    }
}

/// The record of where the packets of a connected container go: for its address, the host-side
/// interface and the hardware address of the container's. Only IPv4 addresses are recorded.
pub fn endpoint_of(alloc: &Allocation, ifindex: u32, mac: [u8; 6]) -> (r: Option<MapOp>)
    ensures
        r == match alloc.address {
            IpAddr::V4(ip) => Some(
                MapOp::EndpointsInsert(key_of(ip), (Endpoint { ifindex, mac })),
            ),
            IpAddr::V6(_) => None,
        },
{
    match alloc.address {
        IpAddr::V4(ip) => Some(endpoints_insert(ip, ifindex, mac)),
        IpAddr::V6(_) => None,
    }
}

/// The removal of the record of where the packets of a container go, given what its address record
/// holds; `None` where there is no such record, or it names no IPv4 address.
pub fn endpoint_left(record: &Option<String>) -> (r: Option<MapOp>)
    ensures
        r == match recorded(
            match *record {
                Some(text) => Some(text@),
                None => None,
            },
        ) {
            Some(IpAddr::V4(ip)) => Some(MapOp::EndpointsRemove(key_of(ip))),
            _ => None,
        },
{
    match record {
        Some(text) => match IpAddr::parse(trim(text.as_str())) {
            Some(IpAddr::V4(ip)) => Some(endpoints_remove(ip)),
            _ => None,
        },
        None => None,
    }
}

/// A container is connected only where nothing is missing: the container's id, the name of its
/// interface, its network namespace and a subnet that is one.
pub proof fn law_nothing_may_be_missing(params: CniParams, config: NetworkConfig)
    ensures
        add_failure(params, config) is None <==> params.container_id is Some && params.ifname is Some
            && params.netns is Some && (config.subnet matches Some(s) && net_of(s@) is Some),
        params.container_id is None || params.ifname is None || params.netns is None
            || config.subnet is None ==> (add_failure(params, config) matches Some(e) && e.0 == 4),
{
}

/// The address in the answer for an IPv4 container reads back as the address that was handed out and
/// the length of the prefix, and the route leads to every address.
pub proof fn law_answers_read_back(req: AddRequest, alloc: Allocation, r: CniResult, ip: Ipv4Addr)
    requires
        req.answers(alloc, r),
        alloc.address == IpAddr::V4(ip),
        alloc.prefix_len <= 32,
    ensures
        v4_net_of(r.ips@[0].address@) == Some(
            (Ipv4Net { addr: ip, prefix_len: alloc.prefix_len }),
        ),
        r.ips@[0].interface < r.interfaces@.len(),
        r.ips@[0].gateway == alloc.gateway && r.routes@[0].gw == alloc.gateway,
        v4_net_of(r.routes@[0].dst@) == Some(
            (Ipv4Net { addr: Ipv4Addr { a: 0, b: 0, c: 0, d: 0 }, prefix_len: 0 }),
        ),
{
    reveal_strlit("/");
    lemma_net_text(ip, alloc.prefix_len);
    let zero = Ipv4Addr { a: 0, b: 0, c: 0, d: 0 };
    lemma_net_text(zero, 0);
    reveal_strlit("0.0.0.0/0");
    assert(decimal(0) =~= seq!['0']);
    assert(ANYWHERE@ =~= zero.spec_text() + "/"@ + decimal(0));
}


}
