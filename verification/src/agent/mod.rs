//! The long-running agent of a node.
pub mod conntrack;
pub mod conntrack_laws;
pub mod endpoints;
pub mod routes;
pub mod service_laws;
pub mod services;
pub mod slice_laws;
pub mod startup;
pub mod watch;
