//! What holds of setting up the interface pair of a pod, whatever the kernel answers.
use vstd::prelude::*;

use crate::cni::veth::{
    mac_of, proxy_arp_path, Found, JobView, LinkAttribute, NetOpView, PhaseView, SetupPoint,
    TeardownPhase, TeardownPoint, SELF_NETNS,
};

verus! {

/// How many operations can still be asked for.
pub open spec fn remaining(at: SetupPoint) -> nat {
    match at {
        SetupPoint::Done(_) => 0,
        SetupPoint::Ask(_, phase) => match phase {
            PhaseView::Open => 22,
            PhaseView::Create => 21,
            PhaseView::FindPeer => 20,
            PhaseView::OpenNetns { .. } => 19,
            PhaseView::Move { .. } => 18,
            PhaseView::FindHost => 17,
            PhaseView::HostUp { .. } => 16,
            PhaseView::ProxyArp { .. } => 15,
            PhaseView::HostRoute { .. } => 14,
            PhaseView::OpenHostNetns { .. } => 13,
            PhaseView::Enter { .. } => 12,
            PhaseView::PodOpen { .. } => 11,
            PhaseView::FindLo { .. } => 10,
            PhaseView::LoUp { .. } => 9,
            PhaseView::FindPodPeer { .. } => 8,
            PhaseView::Rename { .. } => 7,
            PhaseView::FindIface { .. } => 6,
            PhaseView::Address { .. } => 5,
            PhaseView::IfaceUp { .. } => 4,
            PhaseView::DefaultRoute { .. } => 3,
            PhaseView::FindMac { .. } => 2,
            PhaseView::Leave { .. } => 1,
        },
    }
}

/// Setting up ends after at most 22 operations: each outcome brings the end nearer.
pub proof fn law_setup_ends(job: JobView, phase: PhaseView, answer: Result<Found, String>)
    ensures
        remaining(phase.after(job, answer)) < remaining(SetupPoint::Ask(job, phase)),
{
}

/// Operations with their outcomes, from a point on: the operations that were asked for, and where
/// they led. The first outcome comes first; outcomes behind the end are not used.
pub open spec fn drive(at: SetupPoint, answers: Seq<Result<Found, String>>) -> (
    Seq<NetOpView>,
    SetupPoint,
)
    decreases answers.len(),
{
    match at {
        SetupPoint::Done(_) => (Seq::empty(), at),
        SetupPoint::Ask(job, phase) => if answers.len() == 0 {
            (Seq::empty(), at)
        } else {
            let (ops, end) = drive(phase.after(job, answers[0]), answers.drop_first());
            (seq![phase.op(job)] + ops, end)
        },
    }
}

/// Whether the process is in the network namespace of the pod.
pub open spec fn in_pod(at: SetupPoint) -> bool {
    at matches SetupPoint::Ask(_, phase) && phase.in_pod() is Some
}

/// Once the process is in the network namespace of the pod, the last thing that setting up asks for
/// is the return to that of the node, whatever fails before.
pub proof fn law_pod_netns_is_left(at: SetupPoint, answers: Seq<Result<Found, String>>)
    requires
        drive(at, answers).1 is Done,
        in_pod(at),
    ensures
        drive(at, answers).0.len() > 0,
        drive(at, answers).0.last() == NetOpView::ReturnToHostNetns,
    decreases answers.len(),
{
    match at {
        SetupPoint::Ask(job, phase) => {
            let next = phase.after(job, answers[0]);
            let rest = answers.drop_first();
            let ops = drive(next, rest).0;
            if phase is Leave {
                assert(next is Done);
                assert(seq![phase.op(job)] + ops == seq![phase.op(job)]);
            } else {
                assert(in_pod(next));
                law_pod_netns_is_left(next, rest);
                assert((seq![phase.op(job)] + ops).last() == ops.last());
            }
        },
        SetupPoint::Done(_) => {},
    }
}

/// Only entering the network namespace of the pod, with success, leads into it.
pub proof fn law_only_entering_enters(job: JobView, phase: PhaseView, answer: Result<Found, String>)
    requires
        !in_pod(SetupPoint::Ask(job, phase)),
        in_pod(phase.after(job, answer)),
    ensures
        phase.op(job) == NetOpView::EnterPodNetns,
        answer is Ok,
{
}

/// Where the return to the network namespace of the node fails, that is the outcome, whatever came
/// before; where it succeeds, the outcome is that of the work in the pod.
pub proof fn law_return_decides(
    job: JobView,
    host: u32,
    outcome: Result<[u8; 6], (u32, Seq<char>)>,
    answer: Result<Found, String>,
)
    ensures
        (PhaseView::Leave { host, outcome }).after(job, answer) == SetupPoint::Done(
            match answer {
                Ok(_) => match outcome {
                    Ok(mac) => Ok((host, mac)),
                    Err(e) => Err(e),
                },
                Err(e) => Err((100u32, "return to host netns: "@ + e@)),
            },
        ),
{
}

/// A failure before the pod's network namespace is entered ends the setup at once.
pub proof fn law_early_failure_ends(job: JobView, phase: PhaseView, e: String)
    requires
        !in_pod(SetupPoint::Ask(job, phase)),
    ensures
        phase.after(job, Err(e)) == SetupPoint::Done(Err(phase.failure(job, e@))),
{
}

/// The outcomes of a setup in which everything succeeds.
pub open spec fn good_answers(
    peer: u32,
    host: u32,
    lo: u32,
    pod_peer: u32,
    iface: u32,
    attrs: Vec<LinkAttribute>,
) -> Seq<Result<Found, String>> {
    let ok = Ok::<Found, String>(Found::Nothing);
    seq![
        ok,
        ok,
        Ok(Found::Index(peer)),
        ok,
        ok,
        Ok(Found::Index(host)),
        ok,
        ok,
        ok,
        ok,
        ok,
        ok,
        Ok(Found::Index(lo)),
        ok,
        Ok(Found::Index(pod_peer)),
        ok,
        Ok(Found::Index(iface)),
        ok,
        ok,
        ok,
        Ok(Found::Attributes(attrs)),
        ok,
    ]
}

/// The operations of a setup in which everything succeeds.
pub open spec fn good_ops(
    job: JobView,
    peer: u32,
    host: u32,
    lo: u32,
    pod_peer: u32,
    iface: u32,
) -> Seq<NetOpView> {
    seq![
        NetOpView::OpenNetlink,
        NetOpView::CreateVeth(job.host_veth, job.peer_veth),
        NetOpView::FindLink(job.peer_veth),
        NetOpView::OpenPodNetns(job.netns),
        NetOpView::MoveToPodNetns(peer),
        NetOpView::FindLink(job.host_veth),
        NetOpView::LinkUp(host),
        NetOpView::WriteFile(proxy_arp_path(job.host_veth), "1"@),
        NetOpView::AddHostRoute(job.pod_ip, host),
        NetOpView::OpenHostNetns(SELF_NETNS@),
        NetOpView::EnterPodNetns,
        NetOpView::OpenNetlink,
        NetOpView::FindLink("lo"@),
        NetOpView::LinkUp(lo),
        NetOpView::FindLink(job.peer_veth),
        NetOpView::RenameLink(pod_peer, job.ifname),
        NetOpView::FindLink(job.ifname),
        NetOpView::AddAddress(iface, job.pod_ip, job.prefix_len),
        NetOpView::LinkUp(iface),
        NetOpView::AddDefaultRoute(job.gateway),
        NetOpView::FindAttributes(job.ifname),
        NetOpView::ReturnToHostNetns,
    ]
}

proof fn lemma_drive_step(at: SetupPoint, answers: Seq<Result<Found, String>>, i: int)
    requires
        0 <= i < answers.len(),
        at is Ask,
    ensures
        drive(at, answers.skip(i)) == ({
            let (ops, end) = drive(at->Ask_1.after(at->Ask_0, answers[i]), answers.skip(i + 1));
            (seq![at->Ask_1.op(at->Ask_0)] + ops, end)
        }),
{
    assert(answers.skip(i)[0] == answers[i]);
    assert(answers.skip(i).drop_first() == answers.skip(i + 1));
}

/// A setup in which everything succeeds performs these operations in this order, and its outcome is
/// the index of the host-side interface and the hardware address of the pod's.
pub proof fn law_successful_setup(
    job: JobView,
    peer: u32,
    host: u32,
    lo: u32,
    pod_peer: u32,
    iface: u32,
    attrs: Vec<LinkAttribute>,
    mac: [u8; 6],
)
    requires
        mac_of(attrs@) == Some(mac),
    ensures
        drive(
            SetupPoint::Ask(job, PhaseView::Open),
            good_answers(peer, host, lo, pod_peer, iface, attrs),
        ) == (
            good_ops(job, peer, host, lo, pod_peer, iface),
            SetupPoint::Done(Ok((host, mac))),
        ),
{
    let all = good_answers(peer, host, lo, pod_peer, iface, attrs);
    let ops = good_ops(job, peer, host, lo, pod_peer, iface);
    let end = SetupPoint::Done(Ok((host, mac)));
    let p = seq![
        PhaseView::Open,
        PhaseView::Create,
        PhaseView::FindPeer,
        PhaseView::OpenNetns { link: peer },
        PhaseView::Move { link: peer },
        PhaseView::FindHost,
        PhaseView::HostUp { host },
        PhaseView::ProxyArp { host },
        PhaseView::HostRoute { host },
        PhaseView::OpenHostNetns { host },
        PhaseView::Enter { host },
        PhaseView::PodOpen { host },
        PhaseView::FindLo { host },
        PhaseView::LoUp { host, link: lo },
        PhaseView::FindPodPeer { host },
        PhaseView::Rename { host, link: pod_peer },
        PhaseView::FindIface { host },
        PhaseView::Address { host, link: iface },
        PhaseView::IfaceUp { host, link: iface },
        PhaseView::DefaultRoute { host },
        PhaseView::FindMac { host },
        PhaseView::Leave { host, outcome: Ok(mac) },
    ];
    assert(p[21].after(job, all[21]) == end);
    assert forall|i: int| 0 <= i < 22 implies #[trigger] p[i].op(job) == ops[i] by {}
    assert forall|i: int| 0 <= i < 21 implies (#[trigger] p[i]).after(job, all[i])
        == SetupPoint::Ask(job, p[i + 1]) by {}
    lemma_good(job, p, all, ops, end, 0);
    assert(all.skip(0) == all);
    assert(ops.skip(0) == ops);
}

proof fn lemma_good(
    job: JobView,
    p: Seq<PhaseView>,
    all: Seq<Result<Found, String>>,
    ops: Seq<NetOpView>,
    end: SetupPoint,
    i: int,
)
    requires
        p.len() == 22,
        all.len() == 22,
        ops.len() == 22,
        0 <= i < 22,
        end is Done,
        p[21].after(job, all[21]) == end,
        forall|j: int| 0 <= j < 22 ==> #[trigger] p[j].op(job) == ops[j],
        forall|j: int|
            0 <= j < 21 ==> (#[trigger] p[j]).after(job, all[j]) == SetupPoint::Ask(job, p[j + 1]),
    ensures
        drive(SetupPoint::Ask(job, p[i]), all.skip(i)) == (ops.skip(i), end),
    decreases 22 - i,
{
    lemma_drive_step(SetupPoint::Ask(job, p[i]), all, i);
    if i == 21 {
        assert(drive(end, all.skip(22)) == (Seq::<NetOpView>::empty(), end));
        assert(seq![p[21].op(job)] + Seq::<NetOpView>::empty() == ops.skip(21));
    } else {
        lemma_good(job, p, all, ops, end, i + 1);
        assert(seq![p[i].op(job)] + ops.skip(i + 1) == ops.skip(i));
    }
}

/// A failure in the network namespace of the pod is not lost: the next thing asked for is the return,
/// and what failed is what it comes to.
pub proof fn law_pod_failures_are_kept(
    job: JobView,
    phase: PhaseView,
    e: String,
    answer: Result<Found, String>,
)
    requires
        in_pod(SetupPoint::Ask(job, phase)),
        !(phase is Leave),
        answer is Ok,
    ensures
        phase.after(job, Err(e)) matches SetupPoint::Ask(j, p) && j == job && p.op(job)
            == NetOpView::ReturnToHostNetns && p.after(job, answer) == SetupPoint::Done(
            Err(phase.failure(job, e@)),
        ),
{
}

/// A link that is looked for and is not there is named in the failure; a search that itself fails
/// names the link and the reason.
pub proof fn law_missing_links_are_named(
    job: JobView,
    phase: PhaseView,
    name: Seq<char>,
    e: String,
)
    requires
        phase.op(job) == NetOpView::FindLink(name),
    ensures
        phase.failure(job, e@) == (100u32, "get link "@ + name + ": "@ + e@),
        phase.after(job, Ok(Found::Nothing)) == phase.fail(
            job,
            (100u32, "link not found: "@ + name),
        ),
{
}

/// Every failure tells its reason, at the end. Of the failures, those of files are answered with 5, all
/// others with 100.
pub proof fn law_failures_tell_their_reason(job: JobView, phase: PhaseView, e: Seq<char>)
    ensures
        e.is_suffix_of(phase.failure(job, e).1),
        phase.failure(job, e).0 == (match phase.op(job) {
            NetOpView::OpenPodNetns(_) => 5u32,
            NetOpView::WriteFile(..) => 5u32,
            NetOpView::OpenHostNetns(_) => 5u32,
            _ => 100u32,
        }),
{
    let all = phase.failure(job, e).1;
    assert(all.subrange(all.len() - e.len(), all.len() as int) =~= e);
}

/// The hardware address of a link is the first of its attributes that is one of six bytes, as it
/// stands there; without such an attribute there is none.
pub proof fn law_hardware_address(attrs: Seq<LinkAttribute>, i: int)
    requires
        forall|j: int|
            0 <= j < i && j < attrs.len() ==> !(#[trigger] attrs[j] matches LinkAttribute::Address(b)
                && b@.len() == 6),
        0 <= i <= attrs.len(),
        i < attrs.len() ==> (attrs[i] matches LinkAttribute::Address(b) && b@.len() == 6),
    ensures
        i == attrs.len() ==> mac_of(attrs) is None,
        i < attrs.len() ==> (mac_of(attrs) matches Some(mac) && mac@
            == attrs[i]->Address_0@),
    decreases i,
{
    if i > 0 {
        let rest = attrs.drop_first();
        assert(!(attrs[0] matches LinkAttribute::Address(b) && b@.len() == 6));
        assert forall|j: int| 0 <= j < i - 1 && j < rest.len() implies !(#[trigger] rest[j] matches
            LinkAttribute::Address(b) && b@.len() == 6) by {
            assert(rest[j] == attrs[j + 1]);
        }
        if i < attrs.len() {
            assert(rest[i - 1] == attrs[i]);
        }
        law_hardware_address(rest, i - 1);
    } else if attrs.len() > 0 {
        let b = attrs[0]->Address_0;
        let mac = mac_of(attrs)->0;
        assert(mac@ =~= b@);
    }
}

/// Operations with their outcomes when an interface pair is torn down: those that were asked for, and
/// where they led.
pub open spec fn drive_down(at: TeardownPoint, answers: Seq<Result<Found, String>>) -> (
    Seq<NetOpView>,
    TeardownPoint,
)
    decreases answers.len(),
{
    match at {
        TeardownPoint::Done(_) => (Seq::empty(), at),
        TeardownPoint::Ask(name, phase) => if answers.len() == 0 {
            (Seq::empty(), at)
        } else {
            let (ops, end) = drive_down(phase.after(name, answers[0]), answers.drop_first());
            (seq![phase.op(name)] + ops, end)
        },
    }
}

/// Tearing down looks for the host-side interface by its name and deletes the link that was found,
/// and only that. An interface that is not there, or cannot be looked for, is gone; only a link that
/// cannot be deleted, and a connection that cannot be opened, is a failure.
pub proof fn law_teardown(
    name: Seq<char>,
    opened: Result<Found, String>,
    found: Result<Found, String>,
    deleted: Result<Found, String>,
)
    ensures
        ({
            let (ops, end) = drive_down(
                TeardownPoint::Ask(name, TeardownPhase::Open),
                seq![opened, found, deleted],
            );
            match (opened, found, deleted) {
                (Err(e), _, _) => ops == seq![NetOpView::OpenNetlink] && end == TeardownPoint::Done(
                    Err((100u32, e@)),
                ),
                (Ok(_), Ok(Found::Index(link)), Ok(_)) => ops == seq![
                    NetOpView::OpenNetlink,
                    NetOpView::FindLink(name),
                    NetOpView::DeleteLink(link),
                ] && end == TeardownPoint::Done(Ok(())),
                (Ok(_), Ok(Found::Index(link)), Err(e)) => ops == seq![
                    NetOpView::OpenNetlink,
                    NetOpView::FindLink(name),
                    NetOpView::DeleteLink(link),
                ] && (end matches TeardownPoint::Done(Err(x)) && x.0 == 100 && e@.is_suffix_of(x.1)),
                _ => ops == seq![NetOpView::OpenNetlink, NetOpView::FindLink(name)] && end
                    == TeardownPoint::Done(Ok(())),
            }
        }),
{
    reveal_with_fuel(drive_down, 4);
    let all = seq![opened, found, deleted];
    assert(all.drop_first() =~= seq![found, deleted]);
    assert(seq![found, deleted].drop_first() =~= seq![deleted]);
    assert(seq![deleted].drop_first() =~= Seq::<Result<Found, String>>::empty());
    let (ops, end) = drive_down(TeardownPoint::Ask(name, TeardownPhase::Open), all);
    match (opened, found, deleted) {
        (Err(e), _, _) => {
            assert(ops =~= seq![NetOpView::OpenNetlink]);
        },
        (Ok(_), Ok(Found::Index(link)), d) => {
            assert(ops =~= seq![
                NetOpView::OpenNetlink,
                NetOpView::FindLink(name),
                NetOpView::DeleteLink(link),
            ]);
            if let Err(e) = d {
                let x = "delete host veth: "@ + e@;
                assert(x.subrange(x.len() - e@.len(), x.len() as int) =~= e@);
            }
        },
        _ => {
            assert(ops =~= seq![NetOpView::OpenNetlink, NetOpView::FindLink(name)]);
        },
    }
}


}
