//! The pair of virtual interfaces that connects a pod to its node.
//!
//! Setting it up and tearing it down alternate between decisions and operations that only the
//! kernel can perform. Each decision yields an operation whose outcome is handed to `resume`, or the
//! end.
use vstd::prelude::*;
use vstd::utf8::{decode_utf8, encode_utf8, is_char_boundary};

use crate::cni::error::{io_failure, netlink_failure, CniError};
use crate::net::{IpAddr, Ipv4Addr};
use crate::text::join2;

verus! {

/// How many bytes of a container id go into names.
pub open spec fn short_len(id: Seq<char>) -> int {
    if encode_utf8(id).len() < 8 {
        encode_utf8(id).len() as int
    } else {
        8
    }
}

/// Whether a container id can be cut to its short form: the cut does not fall inside a character.
pub open spec fn can_shorten(id: Seq<char>) -> bool {
    is_char_boundary(encode_utf8(id), short_len(id))
}

/// The short form of a container id: its first eight bytes, or all of it where it is shorter.
pub open spec fn short_id_of(id: Seq<char>) -> Seq<char> {
    decode_utf8(encode_utf8(id).take(short_len(id)))
}

/// The short form of a container id.
pub fn short_id(container_id: &str) -> (r: &str)
    requires
        can_shorten(container_id@),
    ensures
        r@ == short_id_of(container_id@),
{
    let n: usize = container_id.as_bytes().len();
    let m: usize = if n < 8 {
        n
    } else {
        8
    };
    let (head, _tail) = container_id.split_at(m);
    proof {
        vstd::utf8::encode_utf8_decode_utf8(head@);
        assert(encode_utf8(container_id@).take(m as int) == encode_utf8(container_id@).subrange(
            0,
            m as int,
        ));
    }
    head
}

/// The name of the host-side interface of a container.
pub fn host_veth_name(container_id: &str) -> (r: String)
    requires
        can_shorten(container_id@),
    ensures
        r@ == "veth"@ + short_id_of(container_id@),
{
    join2("veth", short_id(container_id))
}

/// An id of ASCII characters can be shortened, and its short form is its first eight characters.
pub proof fn law_ascii_ids_shorten(id: Seq<char>)
    requires
        vstd::utf8::is_ascii_chars(id),
    ensures
        can_shorten(id),
        short_id_of(id) == id.take(if id.len() < 8 {
            id.len() as int
        } else {
            8
        }),
{
    let m: int = if id.len() < 8 {
        id.len() as int
    } else {
        8
    };
    vstd::utf8::is_ascii_chars_encode_utf8(id);
    let bytes = encode_utf8(id);
    vstd::utf8::encode_utf8_valid_utf8(id);
    vstd::utf8::is_char_boundary_start_end_of_seq(bytes);
    if m < bytes.len() {
        vstd::utf8::is_char_boundary_iff_not_is_continuation_byte(bytes, m);
        assert(bytes[m] == id[m] as u8);
    }
    let head = id.take(m);
    assert(vstd::utf8::is_ascii_chars(head)) by {
        assert forall|i: int| 0 <= i < head.len() implies '\0' <= #[trigger] head[i] <= '\u{7f}' by {
            assert(head[i] == id[i]);
        }
    }
    vstd::utf8::is_ascii_chars_encode_utf8(head);
    assert(encode_utf8(head) == bytes.take(m));
    vstd::utf8::encode_utf8_decode_utf8(head);
}


// ── Setting up ───────────────────────────────────────────────────────────────

/// Where the network namespace of the process is.
pub const SELF_NETNS: &'static str = "/proc/self/ns/net";

/// An operation that only the kernel can perform.
pub enum NetOp {
    /// Open a connection for the operations on links, addresses and routes, in the network
    /// namespace that the process is in.
    OpenNetlink,
    /// Create a pair of virtual interfaces with these names.
    CreateVeth(String, String),
    /// Find the index of the link with this name.
    FindLink(String),
    /// Open the network namespace of the pod.
    OpenPodNetns(String),
    /// Move a link to the network namespace of the pod.
    MoveToPodNetns(u32),
    /// Bring a link up.
    LinkUp(u32),
    /// Write to a file.
    WriteFile(String, String),
    /// Send what goes to this one address out of a link.
    AddHostRoute(Ipv4Addr, u32),
    /// Open the network namespace that the process is in, to come back to it.
    OpenHostNetns(String),
    /// Enter the network namespace of the pod.
    EnterPodNetns,
    /// Give a link a name.
    RenameLink(u32, String),
    /// Give a link an address with this prefix length.
    AddAddress(u32, Ipv4Addr, u8),
    /// Send everything else by way of this address.
    AddDefaultRoute(Ipv4Addr),
    /// Find the attributes of the link with this name.
    FindAttributes(String),
    /// Come back to the network namespace of the node.
    ReturnToHostNetns,
    /// Delete a link.
    DeleteLink(u32),
}

/// What a `NetOp` holds.
pub enum NetOpView {
    OpenNetlink,
    CreateVeth(Seq<char>, Seq<char>),
    FindLink(Seq<char>),
    OpenPodNetns(Seq<char>),
    MoveToPodNetns(u32),
    LinkUp(u32),
    WriteFile(Seq<char>, Seq<char>),
    AddHostRoute(Ipv4Addr, u32),
    OpenHostNetns(Seq<char>),
    EnterPodNetns,
    RenameLink(u32, Seq<char>),
    AddAddress(u32, Ipv4Addr, u8),
    AddDefaultRoute(Ipv4Addr),
    FindAttributes(Seq<char>),
    ReturnToHostNetns,
    DeleteLink(u32),
}

impl View for NetOp {
    type V = NetOpView;

    open spec fn view(&self) -> NetOpView {
        match *self {
            NetOp::OpenNetlink => NetOpView::OpenNetlink,
            NetOp::CreateVeth(a, b) => NetOpView::CreateVeth(a@, b@),
            NetOp::FindLink(a) => NetOpView::FindLink(a@),
            NetOp::OpenPodNetns(a) => NetOpView::OpenPodNetns(a@),
            NetOp::MoveToPodNetns(i) => NetOpView::MoveToPodNetns(i),
            NetOp::LinkUp(i) => NetOpView::LinkUp(i),
            NetOp::WriteFile(a, b) => NetOpView::WriteFile(a@, b@),
            NetOp::AddHostRoute(a, i) => NetOpView::AddHostRoute(a, i),
            NetOp::OpenHostNetns(a) => NetOpView::OpenHostNetns(a@),
            NetOp::EnterPodNetns => NetOpView::EnterPodNetns,
            NetOp::RenameLink(i, a) => NetOpView::RenameLink(i, a@),
            NetOp::AddAddress(i, a, p) => NetOpView::AddAddress(i, a, p),
            NetOp::AddDefaultRoute(a) => NetOpView::AddDefaultRoute(a),
            NetOp::FindAttributes(a) => NetOpView::FindAttributes(a@),
            NetOp::ReturnToHostNetns => NetOpView::ReturnToHostNetns,
            NetOp::DeleteLink(i) => NetOpView::DeleteLink(i),
        }
    }
}

/// An attribute of a link.
pub enum LinkAttribute {
    /// The hardware address.
    Address(Vec<u8>),
    /// Anything else.
    Other,
}

/// What an operation that succeeded has found: nothing, where it was to find nothing or there is no
/// such link.
pub enum Found {
    Nothing,
    Index(u32),
    Attributes(Vec<LinkAttribute>),
}

/// What is to be set up.
pub struct Job {
    pub host_veth: String,
    pub peer_veth: String,
    pub ifname: String,
    pub netns: String,
    pub pod_ip: Ipv4Addr,
    pub prefix_len: u8,
    pub gateway: Ipv4Addr,
}

/// What a `Job` holds.
pub struct JobView {
    pub host_veth: Seq<char>,
    pub peer_veth: Seq<char>,
    pub ifname: Seq<char>,
    pub netns: Seq<char>,
    pub pod_ip: Ipv4Addr,
    pub prefix_len: u8,
    pub gateway: Ipv4Addr,
}

impl View for Job {
    type V = JobView;

    open spec fn view(&self) -> JobView {
        JobView {
            host_veth: self.host_veth@,
            peer_veth: self.peer_veth@,
            ifname: self.ifname@,
            netns: self.netns@,
            pod_ip: self.pod_ip,
            prefix_len: self.prefix_len,
            gateway: self.gateway,
        }
    }
}

/// Which operation is asked for. From `PodOpen` to `Leave` the process is in the network namespace
/// of the pod. `host` is the index of the host-side interface, `link` that of another.
pub enum Phase {
    Open,
    Create,
    FindPeer,
    OpenNetns { link: u32 },
    Move { link: u32 },
    FindHost,
    HostUp { host: u32 },
    ProxyArp { host: u32 },
    HostRoute { host: u32 },
    OpenHostNetns { host: u32 },
    Enter { host: u32 },
    PodOpen { host: u32 },
    FindLo { host: u32 },
    LoUp { host: u32, link: u32 },
    FindPodPeer { host: u32 },
    Rename { host: u32, link: u32 },
    FindIface { host: u32 },
    Address { host: u32, link: u32 },
    IfaceUp { host: u32, link: u32 },
    DefaultRoute { host: u32 },
    FindMac { host: u32 },
    Leave { host: u32, outcome: Result<[u8; 6], CniError> },
}

/// What a `Phase` holds. A failure is the number of its kind and its reason.
pub enum PhaseView {
    Open,
    Create,
    FindPeer,
    OpenNetns { link: u32 },
    Move { link: u32 },
    FindHost,
    HostUp { host: u32 },
    ProxyArp { host: u32 },
    HostRoute { host: u32 },
    OpenHostNetns { host: u32 },
    Enter { host: u32 },
    PodOpen { host: u32 },
    FindLo { host: u32 },
    LoUp { host: u32, link: u32 },
    FindPodPeer { host: u32 },
    Rename { host: u32, link: u32 },
    FindIface { host: u32 },
    Address { host: u32, link: u32 },
    IfaceUp { host: u32, link: u32 },
    DefaultRoute { host: u32 },
    FindMac { host: u32 },
    Leave { host: u32, outcome: Result<[u8; 6], (u32, Seq<char>)> },
}

impl View for Phase {
    type V = PhaseView;

    open spec fn view(&self) -> PhaseView {
        match *self {
            Phase::Open => PhaseView::Open,
            Phase::Create => PhaseView::Create,
            Phase::FindPeer => PhaseView::FindPeer,
            Phase::OpenNetns { link } => PhaseView::OpenNetns { link },
            Phase::Move { link } => PhaseView::Move { link },
            Phase::FindHost => PhaseView::FindHost,
            Phase::HostUp { host } => PhaseView::HostUp { host },
            Phase::ProxyArp { host } => PhaseView::ProxyArp { host },
            Phase::HostRoute { host } => PhaseView::HostRoute { host },
            Phase::OpenHostNetns { host } => PhaseView::OpenHostNetns { host },
            Phase::Enter { host } => PhaseView::Enter { host },
            Phase::PodOpen { host } => PhaseView::PodOpen { host },
            Phase::FindLo { host } => PhaseView::FindLo { host },
            Phase::LoUp { host, link } => PhaseView::LoUp { host, link },
            Phase::FindPodPeer { host } => PhaseView::FindPodPeer { host },
            Phase::Rename { host, link } => PhaseView::Rename { host, link },
            Phase::FindIface { host } => PhaseView::FindIface { host },
            Phase::Address { host, link } => PhaseView::Address { host, link },
            Phase::IfaceUp { host, link } => PhaseView::IfaceUp { host, link },
            Phase::DefaultRoute { host } => PhaseView::DefaultRoute { host },
            Phase::FindMac { host } => PhaseView::FindMac { host },
            Phase::Leave { host, outcome: Ok(mac) } => PhaseView::Leave { host, outcome: Ok(mac) },
            Phase::Leave { host, outcome: Err(e) } => PhaseView::Leave {
                host,
                outcome: Err(e@),
            },
        }
    }
}

/// The interface pair of a pod is being set up.
pub struct Setup {
    pub job: Job,
    pub phase: Phase,
}

/// What setting up asks next. The outcome is the index of the host-side interface and the hardware
/// address of the pod's.
pub enum SetupStep {
    Ask(Setup),
    Done(Result<(u32, [u8; 6]), CniError>),
}

/// What a `SetupStep` holds. A failure is the number of its kind and its reason.
pub enum SetupPoint {
    Ask(JobView, PhaseView),
    Done(Result<(u32, [u8; 6]), (u32, Seq<char>)>),
}

impl View for SetupStep {
    type V = SetupPoint;

    open spec fn view(&self) -> SetupPoint {
        match *self {
            SetupStep::Ask(s) => SetupPoint::Ask(s.job@, s.phase@),
            SetupStep::Done(Ok(r)) => SetupPoint::Done(Ok(r)),
            SetupStep::Done(Err(e)) => SetupPoint::Done(Err(e@)),
        }
    }
}

/// The file by which the host-side interface answers for the addresses behind it.
pub open spec fn proxy_arp_path(host_veth: Seq<char>) -> Seq<char> {
    "/proc/sys/net/ipv4/conf/"@ + host_veth + "/proxy_arp"@
}

/// The hardware address among the attributes of a link: the first of six bytes.
pub open spec fn mac_of(attrs: Seq<LinkAttribute>) -> Option<[u8; 6]>
    decreases attrs.len(),
{
    if attrs.len() == 0 {
        None
    } else {
        match attrs[0] {
            LinkAttribute::Address(b) => if b@.len() == 6 {
                Some([b@[0], b@[1], b@[2], b@[3], b@[4], b@[5]])
            } else {
                mac_of(attrs.drop_first())
            },
            LinkAttribute::Other => mac_of(attrs.drop_first()),
        }
    }
}

impl PhaseView {
    /// The operation that is asked for.
    pub open spec fn op(self, job: JobView) -> NetOpView {
        match self {
            PhaseView::Open => NetOpView::OpenNetlink,
            PhaseView::Create => NetOpView::CreateVeth(job.host_veth, job.peer_veth),
            PhaseView::FindPeer => NetOpView::FindLink(job.peer_veth),
            PhaseView::OpenNetns { .. } => NetOpView::OpenPodNetns(job.netns),
            PhaseView::Move { link } => NetOpView::MoveToPodNetns(link),
            PhaseView::FindHost => NetOpView::FindLink(job.host_veth),
            PhaseView::HostUp { host } => NetOpView::LinkUp(host),
            PhaseView::ProxyArp { .. } => NetOpView::WriteFile(
                proxy_arp_path(job.host_veth),
                "1"@,
            ),
            PhaseView::HostRoute { host } => NetOpView::AddHostRoute(job.pod_ip, host),
            PhaseView::OpenHostNetns { .. } => NetOpView::OpenHostNetns(SELF_NETNS@),
            PhaseView::Enter { .. } => NetOpView::EnterPodNetns,
            PhaseView::PodOpen { .. } => NetOpView::OpenNetlink,
            PhaseView::FindLo { .. } => NetOpView::FindLink("lo"@),
            PhaseView::LoUp { link, .. } => NetOpView::LinkUp(link),
            PhaseView::FindPodPeer { .. } => NetOpView::FindLink(job.peer_veth),
            PhaseView::Rename { link, .. } => NetOpView::RenameLink(link, job.ifname),
            PhaseView::FindIface { .. } => NetOpView::FindLink(job.ifname),
            PhaseView::Address { link, .. } => NetOpView::AddAddress(
                link,
                job.pod_ip,
                job.prefix_len,
            ),
            PhaseView::IfaceUp { link, .. } => NetOpView::LinkUp(link),
            PhaseView::DefaultRoute { .. } => NetOpView::AddDefaultRoute(job.gateway),
            PhaseView::FindMac { .. } => NetOpView::FindAttributes(job.ifname),
            PhaseView::Leave { .. } => NetOpView::ReturnToHostNetns,
        }
    }

    /// What the failure of the operation comes to.
    pub open spec fn failure(self, job: JobView, e: Seq<char>) -> (u32, Seq<char>) {
        match self {
            PhaseView::Open => netlink_failure(e),
            PhaseView::Create => netlink_failure("create veth: "@ + e),
            PhaseView::FindPeer => netlink_failure(get_link_failed(job.peer_veth, e)),
            PhaseView::OpenNetns { .. } => io_failure(e),
            PhaseView::Move { .. } => netlink_failure("move peer to pod netns: "@ + e),
            PhaseView::FindHost => netlink_failure(get_link_failed(job.host_veth, e)),
            PhaseView::HostUp { .. } => netlink_failure("bring up host veth: "@ + e),
            PhaseView::ProxyArp { .. } => io_failure(e),
            PhaseView::HostRoute { .. } => netlink_failure("add host route: "@ + e),
            PhaseView::OpenHostNetns { .. } => io_failure(e),
            PhaseView::Enter { .. } => netlink_failure("enter pod netns: "@ + e),
            PhaseView::PodOpen { .. } => netlink_failure(e),
            PhaseView::FindLo { .. } => netlink_failure(get_link_failed("lo"@, e)),
            PhaseView::LoUp { .. } => netlink_failure("bring up lo: "@ + e),
            PhaseView::FindPodPeer { .. } => netlink_failure(get_link_failed(job.peer_veth, e)),
            PhaseView::Rename { .. } => netlink_failure(
                "rename veth to "@ + job.ifname + ": "@ + e,
            ),
            PhaseView::FindIface { .. } => netlink_failure(get_link_failed(job.ifname, e)),
            PhaseView::Address { .. } => netlink_failure("assign pod IP: "@ + e),
            PhaseView::IfaceUp { .. } => netlink_failure("bring up "@ + job.ifname + ": "@ + e),
            PhaseView::DefaultRoute { .. } => netlink_failure("add default route: "@ + e),
            PhaseView::FindMac { .. } => netlink_failure(get_link_failed(job.ifname, e)),
            PhaseView::Leave { .. } => netlink_failure("return to host netns: "@ + e),
        }
    }

    /// The index of the host-side interface, where the process is in the network namespace of the
    /// pod.
    pub open spec fn in_pod(self) -> Option<u32> {
        match self {
            PhaseView::PodOpen { host } => Some(host),
            PhaseView::FindLo { host } => Some(host),
            PhaseView::LoUp { host, .. } => Some(host),
            PhaseView::FindPodPeer { host } => Some(host),
            PhaseView::Rename { host, .. } => Some(host),
            PhaseView::FindIface { host } => Some(host),
            PhaseView::Address { host, .. } => Some(host),
            PhaseView::IfaceUp { host, .. } => Some(host),
            PhaseView::DefaultRoute { host } => Some(host),
            PhaseView::FindMac { host } => Some(host),
            PhaseView::Leave { host, .. } => Some(host),
            _ => None,
        }
    }

    /// What a failure leads to: in the network namespace of the pod, back to that of the node;
    /// elsewhere, and on the way back, to the end.
    pub open spec fn fail(self, job: JobView, e: (u32, Seq<char>)) -> SetupPoint {
        match self.in_pod() {
            Some(host) => if self is Leave {
                SetupPoint::Done(Err(e))
            } else {
                SetupPoint::Ask(job, PhaseView::Leave { host, outcome: Err(e) })
            },
            None => SetupPoint::Done(Err(e)),
        }
    }

    /// What the index of a link leads to, where one was to be found.
    pub open spec fn with_index(self, job: JobView, found: Found) -> SetupPoint {
        match (self, found) {
            (PhaseView::FindPeer, Found::Index(link)) => SetupPoint::Ask(
                job,
                PhaseView::OpenNetns { link },
            ),
            (PhaseView::FindHost, Found::Index(host)) => SetupPoint::Ask(
                job,
                PhaseView::HostUp { host },
            ),
            (PhaseView::FindLo { host }, Found::Index(link)) => SetupPoint::Ask(
                job,
                PhaseView::LoUp { host, link },
            ),
            (PhaseView::FindPodPeer { host }, Found::Index(link)) => SetupPoint::Ask(
                job,
                PhaseView::Rename { host, link },
            ),
            (PhaseView::FindIface { host }, Found::Index(link)) => SetupPoint::Ask(
                job,
                PhaseView::Address { host, link },
            ),
            (PhaseView::FindPeer, _) => self.fail(job, link_missing(job.peer_veth)),
            (PhaseView::FindHost, _) => self.fail(job, link_missing(job.host_veth)),
            (PhaseView::FindLo { .. }, _) => self.fail(job, link_missing("lo"@)),
            (PhaseView::FindPodPeer { .. }, _) => self.fail(job, link_missing(job.peer_veth)),
            _ => self.fail(job, link_missing(job.ifname)),
        }
    }

    /// What the success of the operation leads to.
    pub open spec fn succeed(self, job: JobView, found: Found) -> SetupPoint {
        match self {
            PhaseView::Open => SetupPoint::Ask(job, PhaseView::Create),
            PhaseView::Create => SetupPoint::Ask(job, PhaseView::FindPeer),
            PhaseView::FindPeer => self.with_index(job, found),
            PhaseView::OpenNetns { link } => SetupPoint::Ask(job, PhaseView::Move { link }),
            PhaseView::Move { .. } => SetupPoint::Ask(job, PhaseView::FindHost),
            PhaseView::FindHost => self.with_index(job, found),
            PhaseView::HostUp { host } => SetupPoint::Ask(job, PhaseView::ProxyArp { host }),
            PhaseView::ProxyArp { host } => SetupPoint::Ask(job, PhaseView::HostRoute { host }),
            PhaseView::HostRoute { host } => SetupPoint::Ask(
                job,
                PhaseView::OpenHostNetns { host },
            ),
            PhaseView::OpenHostNetns { host } => SetupPoint::Ask(job, PhaseView::Enter { host }),
            PhaseView::Enter { host } => SetupPoint::Ask(job, PhaseView::PodOpen { host }),
            PhaseView::PodOpen { host } => SetupPoint::Ask(job, PhaseView::FindLo { host }),
            PhaseView::FindLo { .. } => self.with_index(job, found),
            PhaseView::LoUp { host, .. } => SetupPoint::Ask(job, PhaseView::FindPodPeer { host }),
            PhaseView::FindPodPeer { .. } => self.with_index(job, found),
            PhaseView::Rename { host, .. } => SetupPoint::Ask(job, PhaseView::FindIface { host }),
            PhaseView::FindIface { .. } => self.with_index(job, found),
            PhaseView::Address { host, link } => SetupPoint::Ask(
                job,
                PhaseView::IfaceUp { host, link },
            ),
            PhaseView::IfaceUp { host, .. } => SetupPoint::Ask(
                job,
                PhaseView::DefaultRoute { host },
            ),
            PhaseView::DefaultRoute { host } => SetupPoint::Ask(job, PhaseView::FindMac { host }),
            PhaseView::FindMac { host } => match found {
                Found::Attributes(attrs) => match mac_of(attrs@) {
                    Some(mac) => SetupPoint::Ask(
                        job,
                        PhaseView::Leave { host, outcome: Ok(mac) },
                    ),
                    None => self.fail(job, netlink_failure("no MAC on "@ + job.ifname)),
                },
                _ => self.fail(job, link_missing(job.ifname)),
            },
            PhaseView::Leave { host, outcome } => SetupPoint::Done(
                match outcome {
                    Ok(mac) => Ok((host, mac)),
                    Err(e) => Err(e),
                },
            ),
        }
    }

    /// What the outcome of the operation leads to.
    pub open spec fn after(self, job: JobView, answer: Result<Found, String>) -> SetupPoint {
        match answer {
            Ok(found) => self.succeed(job, found),
            Err(e) => self.fail(job, self.failure(job, e@)),
        }
    }
}

/// Why the index of a link could not be had.
pub open spec fn get_link_failed(name: Seq<char>, e: Seq<char>) -> Seq<char> {
    "get link "@ + name + ": "@ + e
}

/// There is no link of this name.
pub open spec fn link_missing(name: Seq<char>) -> (u32, Seq<char>) {
    netlink_failure("link not found: "@ + name)
}

fn link_not_found(name: &str) -> (r: CniError)
    ensures
        r@ == link_missing(name@),
{
    CniError::Netlink(join2("link not found: ", name))
}

fn get_link(name: &str, e: &str) -> (r: CniError)
    ensures
        r@ == netlink_failure(get_link_failed(name@, e@)),
{
    let mut m: String = join2("get link ", name);
    m.append(": ");
    m.append(e);
    CniError::Netlink(m)
}

fn link_mac(attrs: &Vec<LinkAttribute>) -> (r: Option<[u8; 6]>)
    ensures
        r == mac_of(attrs@),
{
    let mut i: usize = 0;
    assert(attrs@.skip(0) == attrs@);
    while i < attrs.len()
        invariant
            i <= attrs.len(),
            mac_of(attrs@) == mac_of(attrs@.skip(i as int)),
        decreases attrs.len() - i,
    {
        assert(attrs@.skip(i as int)[0] == attrs@[i as int]);
        assert(attrs@.skip(i as int).drop_first() == attrs@.skip(i + 1));
        if let LinkAttribute::Address(b) = &attrs[i] {
            if b.len() == 6 {
                return Some([b[0], b[1], b[2], b[3], b[4], b[5]]);
            }
        }
        i = i + 1;
    }
    None
}

/// Sets up the interface pair of a pod: creates it, moves one end to the pod, routes the pod's address
/// to the other, and then, in the network namespace of the pod, gives the pod's end its name, its
/// address and the default route. Only IPv4 is supported.
pub fn setup(
    container_id: &str,
    ifname: &str,
    netns: &str,
    pod_ip: IpAddr,
    prefix_len: u8,
    gateway: IpAddr,
) -> (r: SetupStep)
    requires
        pod_ip is V4 && gateway is V4 ==> can_shorten(container_id@),
    ensures
        r@ == match (pod_ip, gateway) {
            (IpAddr::V4(pod_ip), IpAddr::V4(gateway)) => SetupPoint::Ask(
                (JobView {
                    host_veth: "veth"@ + short_id_of(container_id@),
                    peer_veth: "peth"@ + short_id_of(container_id@),
                    ifname: ifname@,
                    netns: netns@,
                    pod_ip,
                    prefix_len,
                    gateway,
                }),
                PhaseView::Open,
            ),
            _ => SetupPoint::Done(Err(netlink_failure("IPv6 not supported"@))),
        },
{
    match (pod_ip, gateway) {
        (IpAddr::V4(pod_ip), IpAddr::V4(gateway)) => {
            let job = Job {
                host_veth: host_veth_name(container_id),
                peer_veth: join2("peth", short_id(container_id)),
                ifname: ifname.to_owned(),
                netns: netns.to_owned(),
                pod_ip,
                prefix_len,
                gateway,
            };
            SetupStep::Ask(Setup { job, phase: Phase::Open })
        },
        _ => SetupStep::Done(Err(CniError::Netlink("IPv6 not supported".to_owned()))),
    }
}

impl Setup {
    /// The operation that is asked for.
    pub fn op(&self) -> (r: NetOp)
        ensures
            r@ == self.phase@.op(self.job@),
    {
        let job: &Job = &self.job;
        match &self.phase {
            Phase::Open => NetOp::OpenNetlink,
            Phase::Create => NetOp::CreateVeth(job.host_veth.clone(), job.peer_veth.clone()),
            Phase::FindPeer => NetOp::FindLink(job.peer_veth.clone()),
            Phase::OpenNetns { .. } => NetOp::OpenPodNetns(job.netns.clone()),
            Phase::Move { link } => NetOp::MoveToPodNetns(*link),
            Phase::FindHost => NetOp::FindLink(job.host_veth.clone()),
            Phase::HostUp { host } => NetOp::LinkUp(*host),
            Phase::ProxyArp { .. } => {
                let mut path: String = join2("/proc/sys/net/ipv4/conf/", job.host_veth.as_str());
                path.append("/proxy_arp");
                NetOp::WriteFile(path, "1".to_owned())
            },
            Phase::HostRoute { host } => NetOp::AddHostRoute(job.pod_ip, *host),
            Phase::OpenHostNetns { .. } => NetOp::OpenHostNetns(SELF_NETNS.to_owned()),
            Phase::Enter { .. } => NetOp::EnterPodNetns,
            Phase::PodOpen { .. } => NetOp::OpenNetlink,
            Phase::FindLo { .. } => NetOp::FindLink("lo".to_owned()),
            Phase::LoUp { link, .. } => NetOp::LinkUp(*link),
            Phase::FindPodPeer { .. } => NetOp::FindLink(job.peer_veth.clone()),
            Phase::Rename { link, .. } => NetOp::RenameLink(*link, job.ifname.clone()),
            Phase::FindIface { .. } => NetOp::FindLink(job.ifname.clone()),
            Phase::Address { link, .. } => NetOp::AddAddress(*link, job.pod_ip, job.prefix_len),
            Phase::IfaceUp { link, .. } => NetOp::LinkUp(*link),
            Phase::DefaultRoute { .. } => NetOp::AddDefaultRoute(job.gateway),
            Phase::FindMac { .. } => NetOp::FindAttributes(job.ifname.clone()),
            Phase::Leave { .. } => NetOp::ReturnToHostNetns,
        }
    }

    fn failure(&self, e: &str) -> (r: CniError)
        ensures
            r@ == self.phase@.failure(self.job@, e@),
    {
        let job: &Job = &self.job;
        match &self.phase {
            Phase::Open => CniError::Netlink(e.to_owned()),
            Phase::Create => CniError::Netlink(join2("create veth: ", e)),
            Phase::FindPeer => get_link(job.peer_veth.as_str(), e),
            Phase::OpenNetns { .. } => CniError::Io(e.to_owned()),
            Phase::Move { .. } => CniError::Netlink(join2("move peer to pod netns: ", e)),
            Phase::FindHost => get_link(job.host_veth.as_str(), e),
            Phase::HostUp { .. } => CniError::Netlink(join2("bring up host veth: ", e)),
            Phase::ProxyArp { .. } => CniError::Io(e.to_owned()),
            Phase::HostRoute { .. } => CniError::Netlink(join2("add host route: ", e)),
            Phase::OpenHostNetns { .. } => CniError::Io(e.to_owned()),
            Phase::Enter { .. } => CniError::Netlink(join2("enter pod netns: ", e)),
            Phase::PodOpen { .. } => CniError::Netlink(e.to_owned()),
            Phase::FindLo { .. } => get_link("lo", e),
            Phase::LoUp { .. } => CniError::Netlink(join2("bring up lo: ", e)),
            Phase::FindPodPeer { .. } => get_link(job.peer_veth.as_str(), e),
            Phase::Rename { .. } => {
                let mut m: String = join2("rename veth to ", job.ifname.as_str());
                m.append(": ");
                m.append(e);
                CniError::Netlink(m)
            },
            Phase::FindIface { .. } => get_link(job.ifname.as_str(), e),
            Phase::Address { .. } => CniError::Netlink(join2("assign pod IP: ", e)),
            Phase::IfaceUp { .. } => {
                let mut m: String = join2("bring up ", job.ifname.as_str());
                m.append(": ");
                m.append(e);
                CniError::Netlink(m)
            },
            Phase::DefaultRoute { .. } => CniError::Netlink(join2("add default route: ", e)),
            Phase::FindMac { .. } => get_link(job.ifname.as_str(), e),
            Phase::Leave { .. } => CniError::Netlink(join2("return to host netns: ", e)),
        }
    }

    fn fail(self, e: CniError) -> (r: SetupStep)
        ensures
            r@ == self.phase@.fail(self.job@, e@),
    {
        let host: u32 = match self.phase {
            Phase::PodOpen { host } => host,
            Phase::FindLo { host } => host,
            Phase::LoUp { host, .. } => host,
            Phase::FindPodPeer { host } => host,
            Phase::Rename { host, .. } => host,
            Phase::FindIface { host } => host,
            Phase::Address { host, .. } => host,
            Phase::IfaceUp { host, .. } => host,
            Phase::DefaultRoute { host } => host,
            Phase::FindMac { host } => host,
            _ => {
                return SetupStep::Done(Err(e));
            },
        };
        SetupStep::Ask(Setup { job: self.job, phase: Phase::Leave { host, outcome: Err(e) } })
    }

    fn go(self, phase: Phase) -> (r: SetupStep)
        ensures
            r@ == SetupPoint::Ask(self.job@, phase@),
    {
        SetupStep::Ask(Setup { job: self.job, phase })
    }

    /// Goes on with the outcome of the operation: what it has found, or why it failed.
    pub fn resume(self, answer: Result<Found, String>) -> (r: SetupStep)
        ensures
            r@ == self.phase@.after(self.job@, answer),
    {
        let found: Found = match answer {
            Ok(found) => found,
            Err(e) => {
                let failure: CniError = self.failure(e.as_str());
                return self.fail(failure);
            },
        };
        match self.phase {
            Phase::Open => self.go(Phase::Create),
            Phase::Create => self.go(Phase::FindPeer),
            Phase::FindPeer => match found {
                Found::Index(link) => self.go(Phase::OpenNetns { link }),
                _ => {
                    let e: CniError = link_not_found(self.job.peer_veth.as_str());
                    self.fail(e)
                },
            },
            Phase::OpenNetns { link } => self.go(Phase::Move { link }),
            Phase::Move { .. } => self.go(Phase::FindHost),
            Phase::FindHost => match found {
                Found::Index(host) => self.go(Phase::HostUp { host }),
                _ => {
                    let e: CniError = link_not_found(self.job.host_veth.as_str());
                    self.fail(e)
                },
            },
            Phase::HostUp { host } => self.go(Phase::ProxyArp { host }),
            Phase::ProxyArp { host } => self.go(Phase::HostRoute { host }),
            Phase::HostRoute { host } => self.go(Phase::OpenHostNetns { host }),
            Phase::OpenHostNetns { host } => self.go(Phase::Enter { host }),
            Phase::Enter { host } => self.go(Phase::PodOpen { host }),
            Phase::PodOpen { host } => self.go(Phase::FindLo { host }),
            Phase::FindLo { host } => match found {
                Found::Index(link) => self.go(Phase::LoUp { host, link }),
                _ => self.fail(link_not_found("lo")),
            },
            Phase::LoUp { host, .. } => self.go(Phase::FindPodPeer { host }),
            Phase::FindPodPeer { host } => match found {
                Found::Index(link) => self.go(Phase::Rename { host, link }),
                _ => {
                    let e: CniError = link_not_found(self.job.peer_veth.as_str());
                    self.fail(e)
                },
            },
            Phase::Rename { host, .. } => self.go(Phase::FindIface { host }),
            Phase::FindIface { host } => match found {
                Found::Index(link) => self.go(Phase::Address { host, link }),
                _ => {
                    let e: CniError = link_not_found(self.job.ifname.as_str());
                    self.fail(e)
                },
            },
            Phase::Address { host, link } => self.go(Phase::IfaceUp { host, link }),
            Phase::IfaceUp { host, .. } => self.go(Phase::DefaultRoute { host }),
            Phase::DefaultRoute { host } => self.go(Phase::FindMac { host }),
            Phase::FindMac { host } => match found {
                Found::Attributes(attrs) => match link_mac(&attrs) {
                    Some(mac) => self.go(Phase::Leave { host, outcome: Ok(mac) }),
                    None => {
                        let e: CniError = CniError::Netlink(
                            join2("no MAC on ", self.job.ifname.as_str()),
                        );
                        self.fail(e)
                    },
                },
                _ => {
                    let e: CniError = link_not_found(self.job.ifname.as_str());
                    self.fail(e)
                },
            },
            Phase::Leave { host, outcome } => match outcome {
                Ok(mac) => SetupStep::Done(Ok((host, mac))),
                Err(e) => SetupStep::Done(Err(e)),
            },
        }
    }
}


// ── Tearing down ─────────────────────────────────────────────────────────────

/// Which operation is asked for when the interface pair is torn down.
#[derive(Clone, Copy, Debug, PartialEq, Eq, Structural)]
pub enum TeardownPhase {
    Open,
    Find,
    Delete { link: u32 },
}

/// The interface pair of a pod is being torn down.
pub struct Teardown {
    pub host_veth: String,
    pub phase: TeardownPhase,
}

/// What tearing down asks next.
pub enum TeardownStep {
    Ask(Teardown),
    Done(Result<(), CniError>),
}

/// What a `TeardownStep` holds. A failure is the number of its kind and its reason.
pub enum TeardownPoint {
    Ask(Seq<char>, TeardownPhase),
    Done(Result<(), (u32, Seq<char>)>),
}

impl View for TeardownStep {
    type V = TeardownPoint;

    open spec fn view(&self) -> TeardownPoint {
        match *self {
            TeardownStep::Ask(t) => TeardownPoint::Ask(t.host_veth@, t.phase),
            TeardownStep::Done(Ok(_)) => TeardownPoint::Done(Ok(())),
            TeardownStep::Done(Err(e)) => TeardownPoint::Done(Err(e@)),
        }
    }
}

impl TeardownPhase {
    /// The operation that is asked for.
    pub open spec fn op(self, host_veth: Seq<char>) -> NetOpView {
        match self {
            TeardownPhase::Open => NetOpView::OpenNetlink,
            TeardownPhase::Find => NetOpView::FindLink(host_veth),
            TeardownPhase::Delete { link } => NetOpView::DeleteLink(link),
        }
    }

    /// What the outcome of the operation leads to. An interface that cannot be found is gone.
    pub open spec fn after(
        self,
        host_veth: Seq<char>,
        answer: Result<Found, String>,
    ) -> TeardownPoint {
        match (self, answer) {
            (TeardownPhase::Open, Ok(_)) => TeardownPoint::Ask(host_veth, TeardownPhase::Find),
            (TeardownPhase::Open, Err(e)) => TeardownPoint::Done(Err(netlink_failure(e@))),
            (TeardownPhase::Find, Ok(Found::Index(link))) => TeardownPoint::Ask(
                host_veth,
                TeardownPhase::Delete { link },
            ),
            (TeardownPhase::Find, _) => TeardownPoint::Done(Ok(())),
            (TeardownPhase::Delete { .. }, Ok(_)) => TeardownPoint::Done(Ok(())),
            (TeardownPhase::Delete { .. }, Err(e)) => TeardownPoint::Done(
                Err(netlink_failure("delete host veth: "@ + e@)),
            ),
        }
    }
}

/// Tears down the interface pair of a pod: deletes the host-side interface, and the pod's with it.
pub fn teardown(container_id: &str) -> (r: TeardownStep)
    requires
        can_shorten(container_id@),
    ensures
        r@ == TeardownPoint::Ask("veth"@ + short_id_of(container_id@), TeardownPhase::Open),
{
    TeardownStep::Ask(
        Teardown { host_veth: host_veth_name(container_id), phase: TeardownPhase::Open },
    )
}

impl Teardown {
    /// The operation that is asked for.
    pub fn op(&self) -> (r: NetOp)
        ensures
            r@ == self.phase.op(self.host_veth@),
    {
        match self.phase {
            TeardownPhase::Open => NetOp::OpenNetlink,
            TeardownPhase::Find => NetOp::FindLink(self.host_veth.clone()),
            TeardownPhase::Delete { link } => NetOp::DeleteLink(link),
        }
    }

    /// Goes on with the outcome of the operation: what it has found, or why it failed.
    pub fn resume(self, answer: Result<Found, String>) -> (r: TeardownStep)
        ensures
            r@ == self.phase.after(self.host_veth@, answer),
    {
        match self.phase {
            TeardownPhase::Open => match answer {
                Ok(_) => TeardownStep::Ask(
                    Teardown { host_veth: self.host_veth, phase: TeardownPhase::Find },
                ),
                Err(e) => TeardownStep::Done(Err(CniError::Netlink(e))),
            },
            TeardownPhase::Find => match answer {
                Ok(Found::Index(link)) => TeardownStep::Ask(
                    Teardown { host_veth: self.host_veth, phase: TeardownPhase::Delete { link } },
                ),
                _ => TeardownStep::Done(Ok(())),
            },
            TeardownPhase::Delete { .. } => match answer {
                Ok(_) => TeardownStep::Done(Ok(())),
                Err(e) => TeardownStep::Done(
                    Err(CniError::Netlink(join2("delete host veth: ", e.as_str()))),
                ),
            },
        }
    }
}

}
