//! What the agent does when it starts.
use vstd::prelude::*;

verus! {

/// Where the network configuration is written.
pub const CNI_CONF_PATH: &'static str = "/etc/cni/net.d/10-arachne.conflist";

/// The version of the CNI protocol.
pub const CNI_VERSION: &'static str = "1.1.0";

/// How long to wait before the node is asked again for its pod network, in seconds.
pub const POD_CIDR_RETRY_SECS: u64 = 2;

/// A plugin of the network configuration.
pub struct PluginConf {
    pub type_: String,
    pub subnet: String,
}

/// The network configuration that is written for the container runtime.
pub struct Conflist {
    pub cni_version: String,
    pub name: String,
    pub plugins: Vec<PluginConf>,
}

/// The network configuration of a node whose pods have addresses of `pod_cidr`: one plugin, this
/// one.
pub fn conflist(pod_cidr: &str) -> (r: Conflist)
    ensures
        r.cni_version@ == CNI_VERSION@,
        r.name@ == "arachne"@,
        r.plugins@.len() == 1,
        r.plugins@[0].type_@ == "arachne"@,
        r.plugins@[0].subnet@ == pod_cidr@,
{
    let mut plugins: Vec<PluginConf> = Vec::new();
    plugins.push(PluginConf { type_: "arachne".to_owned(), subnet: pod_cidr.to_owned() });
    Conflist { cni_version: CNI_VERSION.to_owned(), name: "arachne".to_owned(), plugins }
}

/// What to do once the node was asked for its pod network.
pub enum PodCidr {
    /// The pod network is known.
    Known(String),
    /// It is not known yet: ask again after so many seconds.
    AskAgain(u64),
}

/// What to do, given what the node says of its pod network.
pub fn pod_cidr_step(pod_cidr: Option<String>) -> (r: PodCidr)
    ensures
        match pod_cidr {
            Some(cidr) => r matches PodCidr::Known(c) && c@ == cidr@,
            None => r == PodCidr::AskAgain(POD_CIDR_RETRY_SECS),
        },
{
    match pod_cidr {
        Some(cidr) => PodCidr::Known(cidr),
        None => PodCidr::AskAgain(POD_CIDR_RETRY_SECS),
    }
}

}
