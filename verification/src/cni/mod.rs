//! The CNI plugin: its parameters, its answers and the steps it takes.

pub mod command;
pub mod config;
pub mod connect;
pub mod error;
pub mod ipam;
pub mod ipam_laws;
pub mod params;
pub mod result;
pub mod veth;
pub mod veth_laws;
