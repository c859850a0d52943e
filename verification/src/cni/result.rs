//! The answer to a request to add a container.
use vstd::prelude::*;

use crate::net::IpAddr;

verus! {

/// What was set up for a container.
pub struct CniResult {
    pub cni_version: String,
    pub interfaces: Vec<Interface>,
    pub ips: Vec<IpConfig>,
    pub routes: Vec<Route>,
}

/// An interface of a container.
pub struct Interface {
    pub name: String,
    pub mac: String,
    pub sandbox: String,
}

/// An address of a container, its gateway and the position of its interface.
pub struct IpConfig {
    pub address: String,
    pub gateway: IpAddr,
    pub interface: usize,
}

/// A route of a container.
pub struct Route {
    pub dst: String,
    pub gw: IpAddr,
}

}
