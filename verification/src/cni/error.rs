//! What can go wrong, and how it is answered.
use vstd::prelude::*;

use crate::agent::startup::CNI_VERSION;
use crate::text::join2;

verus! {

/// What went wrong, with what is known of it.
#[derive(Debug, PartialEq, Eq)]
pub enum CniError {
    InvalidEnv(String),
    Io(String),
    Json(String),
    UnsupportedVersion(String),
    Ipam(String),
    Netlink(String),
}

/// The answer to a request that failed.
#[derive(Debug, PartialEq, Eq)]
pub struct CniErrorResponse {
    pub cni_version: String,
    pub code: u32,
    pub msg: String,
    pub details: Option<String>,
}

impl CniError {
    /// The number of the kind of failure.
    pub open spec fn spec_code(self) -> u32 {
        match self {
            CniError::UnsupportedVersion(_) => 1,
            CniError::InvalidEnv(_) => 4,
            CniError::Io(_) => 5,
            CniError::Json(_) => 6,
            CniError::Ipam(_) => 11,
            CniError::Netlink(_) => 100,
        }
    }

    /// What is known of it.
    pub open spec fn reason(self) -> Seq<char> {
        match self {
            CniError::InvalidEnv(s) => s@,
            CniError::Io(s) => s@,
            CniError::Json(s) => s@,
            CniError::UnsupportedVersion(s) => s@,
            CniError::Ipam(s) => s@,
            CniError::Netlink(s) => s@,
        }
    }

    /// How its message begins.
    pub open spec fn lead(self) -> Seq<char> {
        match self {
            CniError::InvalidEnv(_) => "invalid CNI environment: "@,
            CniError::Io(_) => "I/O error: "@,
            CniError::Json(_) => "failed to decode CNI config: "@,
            CniError::UnsupportedVersion(_) => "unsupported CNI version: "@,
            CniError::Ipam(_) => "IPAM error: "@,
            CniError::Netlink(_) => "network setup error: "@,
        }
    }

    /// The number of the kind of failure.
    pub fn code(&self) -> (r: u32)
        ensures
            r == self.spec_code(),
    {
        match self {
            CniError::UnsupportedVersion(_) => 1,
            CniError::InvalidEnv(_) => 4,
            CniError::Io(_) => 5,
            CniError::Json(_) => 6,
            CniError::Ipam(_) => 11,
            CniError::Netlink(_) => 100,
        }
    }

    /// The message: the kind of failure, then what is known of it.
    pub fn message(&self) -> (r: String)
        ensures
            r@ == self.lead() + self.reason(),
    {
        match self {
            CniError::InvalidEnv(s) => join2("invalid CNI environment: ", s.as_str()),
            CniError::Io(s) => join2("I/O error: ", s.as_str()),
            CniError::Json(s) => join2("failed to decode CNI config: ", s.as_str()),
            CniError::UnsupportedVersion(s) => join2("unsupported CNI version: ", s.as_str()),
            CniError::Ipam(s) => join2("IPAM error: ", s.as_str()),
            CniError::Netlink(s) => join2("network setup error: ", s.as_str()),
        }
    }

    /// The answer to a request that failed with this.
    pub fn response(&self) -> (r: CniErrorResponse)
        ensures
            r.cni_version@ == CNI_VERSION@,
            r.code == self.spec_code(),
            r.msg@ == self.lead() + self.reason(),
            r.details is None,
    {
        CniErrorResponse {
            cni_version: CNI_VERSION.to_owned(),
            code: self.code(),
            msg: self.message(),
            details: None,
        }
    }
}

impl View for CniError {
    type V = (u32, Seq<char>);

    /// The number of the kind of failure, and what is known of it.
    open spec fn view(&self) -> (u32, Seq<char>) {
        (self.spec_code(), self.reason())
    }
}

/// A failure of an invalid environment.
pub open spec fn invalid_env(reason: Seq<char>) -> (u32, Seq<char>) {
    (4, reason)
}

/// A failure of a file operation.
pub open spec fn io_failure(reason: Seq<char>) -> (u32, Seq<char>) {
    (5, reason)
}

/// A failure to get an address.
pub open spec fn ipam_failure(reason: Seq<char>) -> (u32, Seq<char>) {
    (11, reason)
}

/// A failure to set the network up.
pub open spec fn netlink_failure(reason: Seq<char>) -> (u32, Seq<char>) {
    (100, reason)
}

/// Failures of different kinds have different numbers.
pub proof fn law_codes_tell_kinds_apart(x: CniError, y: CniError)
    requires
        x.spec_code() == y.spec_code(),
    ensures
        x.lead() == y.lead(),
{
}

}
