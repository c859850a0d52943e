//! The verified core of a pod network: packet forwarding, service load balancing, connection
//! tracking, address management and the CNI protocol, as functions on plain values.

pub mod agent;
pub mod bpf;
pub mod cni;
pub mod common;
pub mod datapath;
pub mod net;
pub mod strmap;
pub mod text;
