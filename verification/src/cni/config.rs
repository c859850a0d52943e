//! The configuration of the network.
use vstd::prelude::*;

verus! {

/// The configuration that comes with a request, as far as it matters here.
pub struct NetworkConfig {
    pub cni_version: String,
    pub name: String,
    pub type_: String,
    pub subnet: Option<String>,
}

}
