//! Addresses for containers.
//!
//! The addresses in use are recorded in two directories of files. A file in `by-ip` is named by an
//! address and holds the id of its container; a file in `by-container` is named by a container id
//! and holds the text of its address. A file of the first kind is created only where there is none,
//! so that of two plugins that run at once only one gets an address.
//!
//! Taking and giving back an address alternate between decisions and file operations. Each decision
//! yields a step: a file operation whose outcome is handed to `resume`, or the end.
use vstd::prelude::*;

use crate::cni::error::{io_failure, ipam_failure, CniError};
use crate::net::{ip_of, IpAddr, IpNet};
use crate::text::{trim, trimmed};

verus! {

/// The directory of the two directories of records.
pub const DATA_DIR: &'static str = "/var/lib/cni/arachne";

/// The directory of the files that are named by addresses.
pub const BY_IP: &'static str = "by-ip";

/// The directory of the files that are named by container ids.
pub const BY_CONTAINER: &'static str = "by-container";

/// An address for a container, its gateway and the length of its network's prefix.
#[derive(Clone, Copy, Debug, PartialEq, Eq, Structural)]
pub struct Allocation {
    pub address: IpAddr,
    pub gateway: IpAddr,
    pub prefix_len: u8,
}

/// A request for an address: from which network, for which container. The first host of the network
/// is its gateway.
pub struct Request {
    pub net: IpNet,
    pub gateway: IpAddr,
    pub container_id: String,
}

/// What a `Request` holds.
#[verifier::ext_equal]
pub struct RequestView {
    pub net: IpNet,
    pub gateway: IpAddr,
    pub container_id: Seq<char>,
}

impl View for Request {
    type V = RequestView;

    open spec fn view(&self) -> RequestView {
        RequestView {
            net: self.net,
            gateway: self.gateway,
            container_id: self.container_id@,
        }
    }
}

/// What taking an address asks next.
pub enum AllocateStep {
    /// Make the two directories, where they are not there.
    MakeDirs(MakeDirs),
    /// Read the record of the container.
    ReadRecord(ReadRecord),
    /// Create the file of an address, unless it is there.
    Claim(Claim),
    /// Write the container's id into the file that was created.
    WriteOwner(WriteOwner),
    /// Write the address into the record of the container.
    WriteRecord(WriteRecord),
    /// The address, or why there is none.
    Done(Result<Allocation, CniError>),
}

/// What an `AllocateStep` holds. A failure is the number of its kind and its reason.
pub enum AllocatePoint {
    MakeDirs(RequestView),
    ReadRecord(RequestView),
    Claim(RequestView, int, IpAddr),
    WriteOwner(RequestView, IpAddr),
    WriteRecord(RequestView, IpAddr),
    Done(Result<Allocation, (u32, Seq<char>)>),
}

impl View for AllocateStep {
    type V = AllocatePoint;

    open spec fn view(&self) -> AllocatePoint {
        match *self {
            AllocateStep::MakeDirs(q) => AllocatePoint::MakeDirs(q.req@),
            AllocateStep::ReadRecord(q) => AllocatePoint::ReadRecord(q.req@),
            AllocateStep::Claim(q) => AllocatePoint::Claim(q.req@, q.n as int, q.address),
            AllocateStep::WriteOwner(q) => AllocatePoint::WriteOwner(q.req@, q.address),
            AllocateStep::WriteRecord(q) => AllocatePoint::WriteRecord(q.req@, q.address),
            AllocateStep::Done(Ok(a)) => AllocatePoint::Done(Ok(a)),
            AllocateStep::Done(Err(e)) => AllocatePoint::Done(Err(e@)),
        }
    }
}

/// How the creation of a file went.
pub enum Created {
    Yes,
    Exists,
    Failed(String),
}

/// The two directories are to be made.
pub struct MakeDirs {
    pub req: Request,
}

/// The record of the container is to be read.
pub struct ReadRecord {
    pub req: Request,
}

/// The address of host `n` is to be claimed.
pub struct Claim {
    pub req: Request,
    pub n: usize,
    pub address: IpAddr,
}

/// The address was claimed; the container's id is to be written into its file.
pub struct WriteOwner {
    pub req: Request,
    pub address: IpAddr,
}

/// The address is to be written into the record of the container.
pub struct WriteRecord {
    pub req: Request,
    pub address: IpAddr,
}

impl RequestView {
    /// The outcome that hands out `address`.
    pub open spec fn grant(self, address: IpAddr) -> Allocation {
        Allocation { address, gateway: self.gateway, prefix_len: self.net.spec_prefix_len() }
    }

    /// What comes when it is host `n`'s turn: its address is claimed, or there is no such host.
    pub open spec fn turn(self, n: int) -> AllocatePoint {
        match self.net.host_at(n) {
            Some(ip) => AllocatePoint::Claim(self, n, ip),
            None => AllocatePoint::Done(Err(ipam_failure("subnet exhausted"@))),
        }
    }

    /// What comes once the record of the container was read: the address that it holds, else host 1
    /// has its turn.
    pub open spec fn after_record(self, contents: Option<Seq<char>>) -> AllocatePoint {
        match recorded(contents) {
            Some(ip) => AllocatePoint::Done(Ok(self.grant(ip))),
            None => self.turn(1),
        }
    }
}

/// The address that a record holds, where it is the text of one.
pub open spec fn recorded(contents: Option<Seq<char>>) -> Option<IpAddr> {
    match contents {
        Some(text) => ip_of(trimmed(text)),
        None => None,
    }
}

/// What taking an address begins with.
pub open spec fn allocate_start(net: IpNet, container_id: Seq<char>) -> AllocatePoint {
    match net.host_at(0) {
        Some(gateway) => AllocatePoint::MakeDirs(RequestView { net, gateway, container_id }),
        None => AllocatePoint::Done(Err(ipam_failure("subnet too small"@))),
    }
}

impl Request {
    fn grant(&self, address: IpAddr) -> (r: Allocation)
        ensures
            r == self@.grant(address),
    {
        Allocation { address, gateway: self.gateway, prefix_len: self.net.prefix_len() }
    }

    fn try_host(self, n: usize) -> (r: AllocateStep)
        requires
            self.net.wf(),
        ensures
            r@ == self@.turn(n as int),
    {
        match self.net.host(n) {
            Some(address) => AllocateStep::Claim(Claim { req: self, n, address }),
            None => AllocateStep::Done(Err(CniError::Ipam("subnet exhausted".to_owned()))),
        }
    }
}

/// Takes an address of `net` for a container: the one that it has on record, else the lowest that is
/// free. The first host is the gateway and is not handed out.
pub fn allocate(net: &IpNet, container_id: &str) -> (r: AllocateStep)
    requires
        net.wf(),
    ensures
        r@ == allocate_start(*net, container_id@),
{
    match net.host(0) {
        Some(gateway) => AllocateStep::MakeDirs(
            MakeDirs { req: Request { net: *net, gateway, container_id: container_id.to_owned() } },
        ),
        None => AllocateStep::Done(Err(CniError::Ipam("subnet too small".to_owned()))),
    }
}

impl MakeDirs {
    /// Goes on once the directories are there, or could not be made.
    pub fn resume(self, made: Result<(), String>) -> (r: AllocateStep)
        ensures
            match made {
                Ok(_) => r@ == AllocatePoint::ReadRecord(self.req@),
                Err(e) => r@ == AllocatePoint::Done(Err(io_failure(e@))),
            },
    {
        match made {
            Ok(_) => AllocateStep::ReadRecord(ReadRecord { req: self.req }),
            Err(e) => AllocateStep::Done(Err(CniError::Io(e))),
        }
    }
}

impl ReadRecord {
    /// Goes on with what the record holds; `None` where it could not be read. A record that is not
    /// the text of an address is as good as none.
    pub fn resume(self, contents: Option<String>) -> (r: AllocateStep)
        requires
            self.req.net.wf(),
        ensures
            r@ == self.req@.after_record(
                match contents {
                    Some(text) => Some(text@),
                    None => None,
                },
            ),
    {
        if let Some(text) = &contents {
            if let Some(address) = IpAddr::parse(trim(text.as_str())) {
                return AllocateStep::Done(Ok(self.req.grant(address)));
            }
        }
        self.req.try_host(1)
    }
}

impl Claim {
    /// The name of the file to be created.
    pub fn file(&self) -> (r: String)
        ensures
            r@ == self.address.spec_text(),
            self.address.reads_back(),
    {
        self.address.text()
    }

    /// Goes on once the file was created, was there, or could not be created.
    pub fn resume(self, created: Created) -> (r: AllocateStep)
        requires
            self.req.net.wf(),
            created is Exists ==> self.n < usize::MAX,
        ensures
            match created {
                Created::Yes => r@ == AllocatePoint::WriteOwner(self.req@, self.address),
                Created::Exists => r@ == self.req@.turn(self.n + 1),
                Created::Failed(e) => r@ == AllocatePoint::Done(Err(io_failure(e@))),
            },
    {
        match created {
            Created::Yes => AllocateStep::WriteOwner(
                WriteOwner { req: self.req, address: self.address },
            ),
            Created::Exists => self.req.try_host(self.n + 1),
            Created::Failed(e) => AllocateStep::Done(Err(CniError::Io(e))),
        }
    }
}

impl WriteOwner {
    /// What is to be written into the file of the address.
    pub fn contents(&self) -> (r: &str)
        ensures
            r@ == self.req@.container_id,
    {
        self.req.container_id.as_str()
    }

    /// Goes on once it was written, or could not be.
    pub fn resume(self, written: Result<(), String>) -> (r: AllocateStep)
        ensures
            match written {
                Ok(_) => r@ == AllocatePoint::WriteRecord(self.req@, self.address),
                Err(e) => r@ == AllocatePoint::Done(Err(io_failure(e@))),
            },
    {
        match written {
            Ok(_) => AllocateStep::WriteRecord(
                WriteRecord { req: self.req, address: self.address },
            ),
            Err(e) => AllocateStep::Done(Err(CniError::Io(e))),
        }
    }
}

impl WriteRecord {
    /// What is to be written into the record of the container.
    pub fn contents(&self) -> (r: String)
        ensures
            r@ == self.address.spec_text(),
            self.address.reads_back(),
    {
        self.address.text()
    }

    /// Ends once it was written, or could not be.
    pub fn resume(self, written: Result<(), String>) -> (r: AllocateStep)
        ensures
            match written {
                Ok(_) => r@ == AllocatePoint::Done(Ok(self.req@.grant(self.address))),
                Err(e) => r@ == AllocatePoint::Done(Err(io_failure(e@))),
            },
    {
        match written {
            Ok(_) => AllocateStep::Done(Ok(self.req.grant(self.address))),
            Err(e) => AllocateStep::Done(Err(CniError::Io(e))),
        }
    }
}

// ── Giving an address back ───────────────────────────────────────────────────

/// What giving an address back asks next.
pub enum ReleaseStep {
    /// Read the record of the container.
    ReadRecord(ReleaseRecord),
    /// Remove the file of the address.
    RemoveAddress(RemoveAddress),
    /// Remove the record of the container.
    RemoveRecord(RemoveRecord),
    /// It is done, or failed.
    Done(Result<(), CniError>),
}

/// What a `ReleaseStep` holds. A failure is the number of its kind and its reason.
pub enum ReleasePoint {
    ReadRecord(Seq<char>),
    RemoveAddress(Seq<char>, Seq<char>),
    RemoveRecord(Seq<char>),
    Done(Result<(), (u32, Seq<char>)>),
}

impl View for ReleaseStep {
    type V = ReleasePoint;

    open spec fn view(&self) -> ReleasePoint {
        match *self {
            ReleaseStep::ReadRecord(q) => ReleasePoint::ReadRecord(q.container_id@),
            ReleaseStep::RemoveAddress(q) => ReleasePoint::RemoveAddress(
                q.container_id@,
                q.file@,
            ),
            ReleaseStep::RemoveRecord(q) => ReleasePoint::RemoveRecord(q.container_id@),
            ReleaseStep::Done(Ok(_)) => ReleasePoint::Done(Ok(())),
            ReleaseStep::Done(Err(e)) => ReleasePoint::Done(Err(e@)),
        }
    }
}

/// How the reading of a file went.
pub enum ReadFile {
    Contents(String),
    NotFound,
    Failed(String),
}

/// How the removal of a file went.
pub enum Removed {
    Yes,
    NotFound,
    Failed(String),
}

/// The record of the container is to be read.
pub struct ReleaseRecord {
    pub container_id: String,
}

/// The file of the address is to be removed.
pub struct RemoveAddress {
    pub container_id: String,
    pub file: String,
}

/// The record of the container is to be removed.
pub struct RemoveRecord {
    pub container_id: String,
}

/// Gives the address of a container back. A container without a record has none.
pub fn release(container_id: &str) -> (r: ReleaseStep)
    ensures
        r@ == ReleasePoint::ReadRecord(container_id@),
{
    ReleaseStep::ReadRecord(ReleaseRecord { container_id: container_id.to_owned() })
}

impl ReleaseRecord {
    /// Goes on with what the record holds.
    pub fn resume(self, read: ReadFile) -> (r: ReleaseStep)
        ensures
            match read {
                ReadFile::Contents(text) => r@ == ReleasePoint::RemoveAddress(
                    self.container_id@,
                    trimmed(text@),
                ),
                ReadFile::NotFound => r@ == ReleasePoint::Done(Ok(())),
                ReadFile::Failed(e) => r@ == ReleasePoint::Done(Err(io_failure(e@))),
            },
    {
        match read {
            ReadFile::Contents(text) => ReleaseStep::RemoveAddress(
                RemoveAddress {
                    container_id: self.container_id,
                    file: trim(text.as_str()).to_owned(),
                },
            ),
            ReadFile::NotFound => ReleaseStep::Done(Ok(())),
            ReadFile::Failed(e) => ReleaseStep::Done(Err(CniError::Io(e))),
        }
    }
}

/// Why a file is still there after its removal; a file that was not there is removed already.
pub open spec fn removal_failure(removed: Removed) -> Option<(u32, Seq<char>)> {
    match removed {
        Removed::Yes => None,
        Removed::NotFound => None,
        Removed::Failed(e) => Some(io_failure(e@)),
    }
}

fn remove_if_exists(removed: Removed) -> (r: Result<(), CniError>)
    ensures
        match removal_failure(removed) {
            None => r is Ok,
            Some(e) => r matches Err(x) && x@ == e,
        },
{
    match removed {
        Removed::Yes => Ok(()),
        Removed::NotFound => Ok(()),
        Removed::Failed(e) => Err(CniError::Io(e)),
    }
}

impl RemoveAddress {
    /// Goes on once the file of the address is gone, or could not be removed.
    pub fn resume(self, removed: Removed) -> (r: ReleaseStep)
        ensures
            r@ == match removal_failure(removed) {
                None => ReleasePoint::RemoveRecord(self.container_id@),
                Some(e) => ReleasePoint::Done(Err(e)),
            },
    {
        match remove_if_exists(removed) {
            Ok(_) => ReleaseStep::RemoveRecord(RemoveRecord { container_id: self.container_id }),
            Err(e) => ReleaseStep::Done(Err(e)),
        }
    }
}

impl RemoveRecord {
    /// Ends once the record is gone, or could not be removed.
    pub fn resume(self, removed: Removed) -> (r: ReleaseStep)
        ensures
            r@ == match removal_failure(removed) {
                None => ReleasePoint::Done(Ok(())),
                Some(e) => ReleasePoint::Done(Err(e)),
            },
    {
        match remove_if_exists(removed) {
            Ok(_) => ReleaseStep::Done(Ok(())),
            Err(e) => ReleaseStep::Done(Err(e)),
        }
    }
}

}
