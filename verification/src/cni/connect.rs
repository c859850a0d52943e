//! Connecting a container and disconnecting it.
//!
//! Each is a row of larger pieces of work: addresses, interfaces, programs and maps. A stage yields
//! the next piece of work, whose outcome is handed to `resume`, or the end. The first failure ends
//! the row.
use vstd::prelude::*;

use crate::bpf::MapOp;
use crate::cni::command::{endpoint_left, endpoint_of, AddRequest};
use crate::cni::error::{io_failure, netlink_failure, CniError};
use crate::cni::ipam::{recorded, Allocation};
use crate::cni::result::CniResult;
use crate::common::{key_of, Endpoint};
use crate::net::IpAddr;

verus! {

/// What connecting a container needs next.
pub enum AddStep {
    /// Take an address of the network for the container.
    Allocate(Allocating),
    /// Set up the interface pair.
    SetUp(SettingUp),
    /// Attach the forwarding program to the host-side interface.
    Attach(Attaching),
    /// Record where the container's packets go.
    Record(Recording),
    /// The answer, or why there is none.
    Done(Result<CniResult, CniError>),
}

/// An address is to be taken.
pub struct Allocating {
    pub req: AddRequest,
}

/// The interface pair is to be set up.
pub struct SettingUp {
    pub req: AddRequest,
    pub alloc: Allocation,
}

/// The forwarding program is to be attached.
pub struct Attaching {
    pub req: AddRequest,
    pub alloc: Allocation,
    pub ifindex: u32,
    pub mac: [u8; 6],
}

/// Where the container's packets go is to be recorded.
pub struct Recording {
    pub req: AddRequest,
    pub alloc: Allocation,
    pub op: MapOp,
}

/// Whether `r` is the end with the failure `e`.
pub open spec fn add_failed(r: AddStep, e: (u32, Seq<char>)) -> bool {
    r matches AddStep::Done(Err(x)) && x@ == e
}

/// Whether `r` is the end with the answer to `req`.
pub open spec fn add_answered(r: AddStep, req: AddRequest, alloc: Allocation) -> bool {
    r matches AddStep::Done(Ok(answer)) && req.answers(alloc, answer)
}

/// Connects a container. Taking an address comes first.
pub fn connect(req: AddRequest) -> (r: AddStep)
    ensures
        r == AddStep::Allocate(Allocating { req }),
{
    AddStep::Allocate(Allocating { req })
}

impl Allocating {
    /// Goes on with the address. The interface pair comes next.
    pub fn resume(self, outcome: Result<Allocation, CniError>) -> (r: AddStep)
        ensures
            match outcome {
                Ok(alloc) => r == AddStep::SetUp(SettingUp { req: self.req, alloc }),
                Err(e) => add_failed(r, e@),
            },
    {
        match outcome {
            Ok(alloc) => AddStep::SetUp(SettingUp { req: self.req, alloc }),
            Err(e) => AddStep::Done(Err(e)),
        }
    }
}

impl SettingUp {
    /// Goes on with the index of the host-side interface and the hardware address of the
    /// container's. The program comes next.
    pub fn resume(self, outcome: Result<(u32, [u8; 6]), CniError>) -> (r: AddStep)
        ensures
            match outcome {
                Ok((ifindex, mac)) => r == AddStep::Attach(
                    Attaching { req: self.req, alloc: self.alloc, ifindex, mac },
                ),
                Err(e) => add_failed(r, e@),
            },
    {
        match outcome {
            Ok((ifindex, mac)) => AddStep::Attach(
                Attaching { req: self.req, alloc: self.alloc, ifindex, mac },
            ),
            Err(e) => AddStep::Done(Err(e)),
        }
    }
}

impl Attaching {
    /// Goes on once the program is attached, or could not be. The record comes next; a container
    /// without an IPv4 address has none.
    pub fn resume(self, outcome: Result<(), String>) -> (r: AddStep)
        ensures
            match outcome {
                Ok(_) => match self.alloc.address {
                    IpAddr::V4(ip) => r == AddStep::Record(
                        Recording {
                            req: self.req,
                            alloc: self.alloc,
                            op: MapOp::EndpointsInsert(
                                key_of(ip),
                                Endpoint { ifindex: self.ifindex, mac: self.mac },
                            ),
                        },
                    ),
                    IpAddr::V6(_) => add_answered(r, self.req, self.alloc),
                },
                Err(e) => add_failed(r, netlink_failure(e@)),
            },
    {
        match outcome {
            Ok(_) => match endpoint_of(&self.alloc, self.ifindex, self.mac) {
                Some(op) => AddStep::Record(Recording { req: self.req, alloc: self.alloc, op }),
                None => AddStep::Done(Ok(self.req.result(&self.alloc))),
            },
            Err(e) => AddStep::Done(Err(CniError::Netlink(e))),
        }
    }
}

impl Recording {
    /// Ends once the record is written, or could not be.
    pub fn resume(self, outcome: Result<(), String>) -> (r: AddStep)
        ensures
            match outcome {
                Ok(_) => add_answered(r, self.req, self.alloc),
                Err(e) => add_failed(r, netlink_failure(e@)),
            },
    {
        match outcome {
            Ok(_) => AddStep::Done(Ok(self.req.result(&self.alloc))),
            Err(e) => AddStep::Done(Err(CniError::Netlink(e))),
        }
    }
}

/// What disconnecting a container needs next.
pub enum DelStep {
    /// Tear down the interface pair.
    TearDown(TearingDown),
    /// Remove the pin of the forwarding program, where it is there.
    Detach(Detaching),
    /// Read the address record of the container.
    ReadRecord(Reading),
    /// Remove the record of where the container's packets went.
    Forget(Forgetting),
    /// Give the container's address back.
    Release(Releasing),
    /// It is done, or failed.
    Done(Result<(), CniError>),
}

/// The interface pair is to be torn down.
pub struct TearingDown {
    pub container_id: String,
}

/// The pin of the forwarding program is to be removed.
pub struct Detaching {
    pub container_id: String,
}

/// The address record is to be read.
pub struct Reading {
    pub container_id: String,
}

/// The record of where the container's packets went is to be removed.
pub struct Forgetting {
    pub container_id: String,
    pub op: MapOp,
}

/// The address is to be given back.
pub struct Releasing {
    pub container_id: String,
}

/// Whether `r` is the end with the failure `e`.
pub open spec fn del_failed(r: DelStep, e: (u32, Seq<char>)) -> bool {
    r matches DelStep::Done(Err(x)) && x@ == e
}

/// Disconnects a container. Tearing down the interface pair comes first.
pub fn disconnect(container_id: String) -> (r: DelStep)
    ensures
        r == DelStep::TearDown(TearingDown { container_id }),
{
    DelStep::TearDown(TearingDown { container_id })
}

impl TearingDown {
    /// Goes on once the interface pair is gone, or could not be torn down.
    pub fn resume(self, outcome: Result<(), CniError>) -> (r: DelStep)
        ensures
            match outcome {
                Ok(_) => r == DelStep::Detach(Detaching { container_id: self.container_id }),
                Err(e) => del_failed(r, e@),
            },
    {
        match outcome {
            Ok(_) => DelStep::Detach(Detaching { container_id: self.container_id }),
            Err(e) => DelStep::Done(Err(e)),
        }
    }
}

impl Detaching {
    /// Goes on once the pin is gone, or could not be removed.
    pub fn resume(self, outcome: Result<(), String>) -> (r: DelStep)
        ensures
            match outcome {
                Ok(_) => r == DelStep::ReadRecord(Reading { container_id: self.container_id }),
                Err(e) => del_failed(r, io_failure(e@)),
            },
    {
        match outcome {
            Ok(_) => DelStep::ReadRecord(Reading { container_id: self.container_id }),
            Err(e) => DelStep::Done(Err(CniError::Io(e))),
        }
    }
}

impl Reading {
    /// Goes on with what the address record holds; `None` where it could not be read.
    pub fn resume(self, record: Option<String>) -> (r: DelStep)
        ensures
            match recorded(
                match record {
                    Some(text) => Some(text@),
                    None => None,
                },
            ) {
                Some(IpAddr::V4(ip)) => r == DelStep::Forget(
                    Forgetting {
                        container_id: self.container_id,
                        op: MapOp::EndpointsRemove(key_of(ip)),
                    },
                ),
                _ => r == DelStep::Release(Releasing { container_id: self.container_id }),
            },
    {
        match endpoint_left(&record) {
            Some(op) => DelStep::Forget(Forgetting { container_id: self.container_id, op }),
            None => DelStep::Release(Releasing { container_id: self.container_id }),
        }
    }
}

impl Forgetting {
    /// Goes on once the removal was tried. What is left behind is swept later.
    pub fn resume(self) -> (r: DelStep)
        ensures
            r == DelStep::Release(Releasing { container_id: self.container_id }),
    {
        DelStep::Release(Releasing { container_id: self.container_id })
    }
}

impl Releasing {
    /// Ends once the address is given back, or could not be.
    pub fn resume(self, outcome: Result<(), CniError>) -> (r: DelStep)
        ensures
            match outcome {
                Ok(_) => r == DelStep::Done(Ok(())),
                Err(e) => del_failed(r, e@),
            },
    {
        match outcome {
            Ok(_) => DelStep::Done(Ok(())),
            Err(e) => DelStep::Done(Err(e)),
        }
    }
}

}
