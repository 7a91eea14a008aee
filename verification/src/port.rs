//! A pass for a port: the sockets bound to it, and the processes that hold
//! one of them among their descriptors.

use crate::access::ProcAccess;
use crate::holders::{
    command_text, empty_pass, lemma_some_item_last, outcome_view, recorded, reported, some_item,
    sole_reason, CorrelationPass,
    CorrelationResult, PassView, Finding, FindingView,
};
use crate::net::{
    collect_inodes, inodes_where, proto_label, proto_label_text, socket_state_label,
    state_label_text, ProcNetSocketEntry,
};
use crate::order::reversed;
use crate::procfs::{descriptor_views, DescriptorEntry};
use crate::scan::{
    checked, parse_socket_inode, read_comm_best_effort, scan_pid_open_fd_socket, socket_inode_of,
    some_socket_among, Reason,
};
use crate::text::{parsed_items, sort_dedup_texts, sorted_unique_texts, text_views};
use std::collections::BTreeSet;
use vstd::prelude::*;
use vstd::string::StringExecFns;

verus! {

broadcast use {vstd::std_specs::btree::group_btree_axioms, vstd::laws_cmp::group_laws_cmp};

/// What was seen of one process in a pass for a port: its descriptors and
/// its command name, each as the read came out.
#[derive(Debug)]
pub struct DescriptorProbe {
    pub pid: i32,
    pub links: ProcAccess<Vec<DescriptorEntry>>,
    pub command: ProcAccess<String>,
}

/// The inodes of the sockets whose local port is `port`, whatever their
/// protocol and address family.
pub open spec fn port_inodes(sockets: Seq<ProcNetSocketEntry>, port: u16) -> Set<u64> {
    Set::new(
        |inode: u64|
            exists|i: int|
                0 <= i < sockets.len() && (#[trigger] sockets[i]).local_port == port
                    && sockets[i].inode == inode,
    )
}

/// The inodes of the sockets bound to a port.
pub fn target_inodes(sockets: &Vec<ProcNetSocketEntry>, port: u16) -> (set: BTreeSet<u64>)
    ensures
        set@ == port_inodes(sockets@, port),
{
    assert(inodes_where(sockets@, Some(port)) =~= port_inodes(sockets@, port));
    collect_inodes(sockets, Some(port))
}

/// What a process contributes to a pass for a port when only holders are
/// asked for, from the outcome of its socket check. There is one check, so a
/// refusal of it makes the process a skipped one.
pub open spec fn holder_port_finding(check: ProcAccess<bool>) -> FindingView {
    match check {
        ProcAccess::Success(true) => FindingView::Holder(sole_reason(Reason::OpenFd)),
        ProcAccess::Success(false) => FindingView::Clear,
        ProcAccess::PermissionDenied => FindingView::Skipped,
        ProcAccess::Gone => FindingView::Clear,
        ProcAccess::Fatal(e) => FindingView::Fatal(e),
    }
}

/// The finding on a process for a port when only holders are asked for.
pub fn holder_finding_for_port(check: ProcAccess<bool>) -> (v: Finding)
    ensures
        v@ == holder_port_finding(check),
{
    match check {
        ProcAccess::Success(true) => {
            let mut reasons: Vec<String> = Vec::new();
            reasons.push(String::from_str(Reason::OpenFd.as_str()));
            assert(text_views(reasons@) =~= sole_reason(Reason::OpenFd));
            Finding::Holder(reasons)
        },
        ProcAccess::Success(false) => Finding::Clear,
        ProcAccess::PermissionDenied => Finding::Skipped,
        ProcAccess::Gone => Finding::Clear,
        ProcAccess::Fatal(e) => Finding::Fatal(e),
    }
}

/// How a socket reads as a reason: `socket`, its protocol and its state.
pub open spec fn socket_label_text(s: ProcNetSocketEntry) -> Seq<char> {
    "socket "@ + proto_label_text(s.proto) + " "@ + state_label_text(s.proto, s.state)
}

/// How a socket reads as a reason.
pub fn socket_label(s: &ProcNetSocketEntry) -> (r: String)
    ensures
        r@ == socket_label_text(*s),
{
    let mut out = String::from_str("socket ");
    out.append(proto_label(s.proto));
    out.append(" ");
    let state = socket_state_label(s.proto, s.state);
    out.append(state.as_str());
    out
}

/// The label of a socket where it is bound to `port` and has this inode.
pub open spec fn label_if_bound(port: u16, inode: u64) -> spec_fn(ProcNetSocketEntry) -> Option<
    Seq<char>,
> {
    |s: ProcNetSocketEntry|
        if s.local_port == port && s.inode == inode {
            Some(socket_label_text(s))
        } else {
            None
        }
}

/// The labels of the sockets bound to `port` that have this inode, in table
/// order.
pub open spec fn inode_labels(sockets: Seq<ProcNetSocketEntry>, port: u16, inode: u64) -> Seq<
    Seq<char>,
> {
    parsed_items(sockets, label_if_bound(port, inode))
}

/// The labels that the descriptors of a process give: for each descriptor
/// that is a socket, in the order of the descriptors, the labels of the
/// sockets bound to the port that have its inode.
pub open spec fn link_labels(
    links: Seq<DescriptorEntry>,
    sockets: Seq<ProcNetSocketEntry>,
    port: u16,
) -> Seq<Seq<char>>
    decreases links.len(),
{
    if links.len() == 0 {
        Seq::empty()
    } else {
        let before = link_labels(links.drop_last(), sockets, port);
        match socket_inode_of(links.last().link_target@) {
            Some(inode) => before + inode_labels(sockets, port, inode),
            None => before,
        }
    }
}

/// What a process contributes to a pass for a port when the reasons are
/// asked for: it is a holder where its descriptors give a label, with the
/// labels in dictionary order and each once.
pub open spec fn reasons_port_finding(
    links: ProcAccess<Vec<DescriptorEntry>>,
    sockets: Seq<ProcNetSocketEntry>,
    port: u16,
) -> FindingView {
    match links {
        ProcAccess::Success(l) => {
            let labels = link_labels(l@, sockets, port);
            if labels.len() == 0 {
                FindingView::Clear
            } else {
                FindingView::Holder(sorted_unique_texts(labels))
            }
        },
        ProcAccess::PermissionDenied => FindingView::Skipped,
        ProcAccess::Gone => FindingView::Clear,
        ProcAccess::Fatal(e) => FindingView::Fatal(e),
    }
}

/// Appends the labels of the sockets bound to `port` that have this inode.
fn push_inode_labels(
    out: &mut Vec<String>,
    sockets: &Vec<ProcNetSocketEntry>,
    port: u16,
    inode: u64,
)
    ensures
        text_views(final(out)@) == text_views(old(out)@) + inode_labels(sockets@, port, inode),
{
    let ghost start = text_views(out@);
    let ghost pick = label_if_bound(port, inode);
    let mut i: usize = 0;
    assert(sockets@.take(0) =~= Seq::<ProcNetSocketEntry>::empty());
    assert(start + Seq::<Seq<char>>::empty() =~= start);
    while i < sockets.len()
        invariant
            i <= sockets.len(),
            pick == label_if_bound(port, inode),
            text_views(out@) == start + parsed_items(sockets@.take(i as int), pick),
        decreases sockets.len() - i,
    {
        assert(sockets@.take(i + 1).drop_last() =~= sockets@.take(i as int));
        assert(sockets@.take(i + 1).last() == sockets@[i as int]);
        let ghost done = parsed_items(sockets@.take(i as int), pick);
        if sockets[i].local_port == port && sockets[i].inode == inode {
            let label = socket_label(&sockets[i]);
            let ghost held = out@;
            out.push(label);
            assert(text_views(held.push(label)) =~= text_views(held).push(label@));
            assert(text_views(out@) =~= start + done.push(label@));
        }
        i += 1;
    }
    assert(sockets@.take(i as int) =~= sockets@);
}

/// The finding on a process for a port when the reasons are asked for.
pub fn reasons_finding_for_port(
    links: ProcAccess<Vec<DescriptorEntry>>,
    sockets: &Vec<ProcNetSocketEntry>,
    port: u16,
) -> (v: Finding)
    ensures
        v@ == reasons_port_finding(links, sockets@, port),
{
    let entries = match links {
        ProcAccess::Success(l) => l,
        ProcAccess::PermissionDenied => {
            return Finding::Skipped;
        },
        ProcAccess::Gone => {
            return Finding::Clear;
        },
        ProcAccess::Fatal(e) => {
            return Finding::Fatal(e);
        },
    };
    let mut labels: Vec<String> = Vec::new();
    let mut i: usize = 0;
    assert(entries@.take(0) =~= Seq::<DescriptorEntry>::empty());
    assert(text_views(labels@) =~= Seq::<Seq<char>>::empty());
    while i < entries.len()
        invariant
            i <= entries.len(),
            text_views(labels@) == link_labels(entries@.take(i as int), sockets@, port),
        decreases entries.len() - i,
    {
        assert(entries@.take(i + 1).drop_last() =~= entries@.take(i as int));
        assert(entries@.take(i + 1).last() == entries@[i as int]);
        match parse_socket_inode(entries[i].link_target.as_str()) {
            Some(inode) => {
                push_inode_labels(&mut labels, sockets, port, inode);
            },
            None => {},
        }
        i += 1;
    }
    assert(entries@.take(i as int) =~= entries@);
    assert(text_views(labels@).len() == labels@.len());
    if labels.len() == 0 {
        Finding::Clear
    } else {
        Finding::Holder(sort_dedup_texts(labels))
    }
}

/// The finding on a process for a port, from its descriptors.
pub open spec fn links_finding(
    links: ProcAccess<Vec<DescriptorEntry>>,
    sockets: Seq<ProcNetSocketEntry>,
    port: u16,
    explain: bool,
) -> FindingView {
    if explain {
        reasons_port_finding(links, sockets, port)
    } else {
        holder_port_finding(
            checked(
                links,
                |l: Vec<DescriptorEntry>| some_socket_among(l@, port_inodes(sockets, port)),
            ),
        )
    }
}

/// The finding on a process for a port.
pub open spec fn port_finding(
    probe: DescriptorProbe,
    sockets: Seq<ProcNetSocketEntry>,
    port: u16,
    explain: bool,
) -> FindingView {
    links_finding(probe.links, sockets, port, explain)
}

/// A scan for a port over the processes seen, in their order: each process
/// is entered by its finding, and the first fatal finding ends the scan.
pub open spec fn port_scan(
    sockets: Seq<ProcNetSocketEntry>,
    port: u16,
    probes: Seq<DescriptorProbe>,
    explain: bool,
) -> Result<PassView, std::io::Error>
    decreases probes.len(),
{
    if probes.len() == 0 {
        Ok(empty_pass())
    } else {
        match port_scan(sockets, port, probes.drop_last(), explain) {
            Ok(pass) => recorded(
                pass,
                probes.last().pid,
                command_text(probes.last().command),
                port_finding(probes.last(), sockets, port, explain),
            ),
            Err(e) => Err(e),
        }
    }
}

/// A pass for a port. Where no socket is bound to the port there is nothing
/// to look for: no process is looked at, none is a holder and none is
/// skipped, whatever was seen of the processes.
pub open spec fn port_pass(
    sockets: Seq<ProcNetSocketEntry>,
    port: u16,
    probes: Seq<DescriptorProbe>,
    explain: bool,
) -> Result<PassView, std::io::Error> {
    if port_inodes(sockets, port).is_empty() {
        Ok(empty_pass())
    } else {
        port_scan(sockets, port, probes, explain)
    }
}

/// Once a scan has failed, the processes that follow change nothing.
pub proof fn lemma_port_scan_stays_failed(
    sockets: Seq<ProcNetSocketEntry>,
    port: u16,
    probes: Seq<DescriptorProbe>,
    k: int,
    explain: bool,
)
    requires
        0 <= k <= probes.len(),
        port_scan(sockets, port, probes.take(k), explain) is Err,
    ensures
        port_scan(sockets, port, probes, explain) == port_scan(
            sockets,
            port,
            probes.take(k),
            explain,
        ),
    decreases probes.len(),
{
    if k == probes.len() {
        assert(probes.take(k) =~= probes);
    } else {
        assert(probes.drop_last().take(k) =~= probes.take(k));
        lemma_port_scan_stays_failed(sockets, port, probes.drop_last(), k, explain);
    }
}

/// Runs a pass for a port over the processes seen.
fn run_port_pass(
    port: u16,
    sockets: &Vec<ProcNetSocketEntry>,
    probes: Vec<DescriptorProbe>,
    explain: bool,
) -> (r: Result<CorrelationResult, std::io::Error>)
    ensures
        outcome_view(r) == reported(port_pass(sockets@, port, probes@, explain)),
{
    let ghost all = probes@;
    let mut pass = CorrelationPass::new();
    let inodes = target_inodes(sockets, port);
    if inodes.is_empty() {
        return Ok(pass.finish());
    }
    let mut rest = reversed(probes);
    assert(all.take(0) =~= Seq::<DescriptorProbe>::empty());
    while rest.len() > 0
        invariant
            all == probes@,
            inodes@ == port_inodes(sockets@, port),
            !port_inodes(sockets@, port).is_empty(),
            rest@.len() <= all.len(),
            forall|i: int| 0 <= i < rest@.len() ==> rest@[i] == all[all.len() - 1 - i],
            port_scan(sockets@, port, all.take(all.len() - rest@.len()), explain) == Ok::<
                PassView,
                std::io::Error,
            >(pass@),
        decreases rest@.len(),
    {
        let ghost k = all.len() - rest@.len();
        let probe = rest.pop().unwrap();
        proof {
            assert(probe == all[k]);
            assert(all.take(k + 1).drop_last() =~= all.take(k));
            assert(all.take(k + 1).last() == probe);
        }
        let DescriptorProbe { pid, links, command } = probe;
        let finding = if explain {
            reasons_finding_for_port(links, sockets, port)
        } else {
            holder_finding_for_port(scan_pid_open_fd_socket(links, &inodes))
        };
        match pass.record(pid, read_comm_best_effort(command), finding) {
            Ok(()) => {},
            Err(e) => {
                proof {
                    lemma_port_scan_stays_failed(sockets@, port, all, k + 1, explain);
                }
                return Err(e);
            },
        }
    }
    assert(all.take(all.len() as int) =~= all);
    Ok(pass.finish())
}

/// Finds the processes that hold a port: those with a descriptor that is a
/// socket bound to the port. Each holder has the reason `open fd`.
pub fn whoholds_port(port: u16, sockets: &Vec<ProcNetSocketEntry>, probes: Vec<DescriptorProbe>) -> (r:
    Result<CorrelationResult, std::io::Error>)
    ensures
        outcome_view(r) == reported(port_pass(sockets@, port, probes@, false)),
{
    run_port_pass(port, sockets, probes, false)
}

/// Finds the processes that hold a port, each with the labels of the sockets
/// it holds as its reasons.
pub fn whyopen_port(port: u16, sockets: &Vec<ProcNetSocketEntry>, probes: Vec<DescriptorProbe>) -> (r:
    Result<CorrelationResult, std::io::Error>)
    ensures
        outcome_view(r) == reported(port_pass(sockets@, port, probes@, true)),
{
    run_port_pass(port, sockets, probes, true)
}

/// For a port that no socket is bound to, a pass finds no holder and skips
/// no process, whatever was seen of the processes.
pub proof fn lemma_unused_port_has_no_holders(
    sockets: Seq<ProcNetSocketEntry>,
    port: u16,
    probes: Seq<DescriptorProbe>,
    explain: bool,
)
    requires
        forall|i: int| 0 <= i < sockets.len() ==> (#[trigger] sockets[i]).local_port != port,
    ensures
        reported(port_pass(sockets, port, probes, explain)) == Ok::<
            crate::holders::ResultView,
            std::io::Error,
        >(
            crate::holders::ResultView {
                holders: Map::empty(),
                skipped_permission_denied: 0,
            },
        ),
{
    assert(port_inodes(sockets, port) =~= Set::<u64>::empty());
}

/// A process has this id and its descriptors could not be read for lack of
/// permission.
pub open spec fn denied_as(pid: i32) -> spec_fn(DescriptorProbe) -> bool {
    |probe: DescriptorProbe| probe.pid == pid && probe.links is PermissionDenied
}

/// A process has this id and the finding on it is that it holds the port.
pub open spec fn holds_port_as(
    pid: i32,
    sockets: Seq<ProcNetSocketEntry>,
    port: u16,
    explain: bool,
) -> spec_fn(DescriptorProbe) -> bool {
    |probe: DescriptorProbe|
        probe.pid == pid && port_finding(probe, sockets, port, explain) is Holder
}

/// In a scan for a port, the processes skipped are those whose descriptors
/// could not be read for lack of permission; there is a holder under a
/// process id exactly where the finding on a process with this id is that it
/// holds the port; and each holder carries the id that it stands under.
pub proof fn lemma_port_scan_accounts(
    sockets: Seq<ProcNetSocketEntry>,
    port: u16,
    probes: Seq<DescriptorProbe>,
    explain: bool,
)
    requires
        port_scan(sockets, port, probes, explain) is Ok,
    ensures
        forall|pid: i32|
            port_scan(sockets, port, probes, explain)->Ok_0.skipped.contains(pid) <==> some_item(
                probes,
                denied_as(pid),
            ),
        forall|pid: i32|
            port_scan(sockets, port, probes, explain)->Ok_0.holders.contains_key(pid)
                <==> some_item(probes, holds_port_as(pid, sockets, port, explain)),
        forall|pid: i32|
            port_scan(sockets, port, probes, explain)->Ok_0.holders.contains_key(pid) ==> (#[trigger] port_scan(
                sockets,
                port,
                probes,
                explain,
            )->Ok_0.holders[pid]).pid == pid,
    decreases probes.len(),
{
    if probes.len() > 0 {
        lemma_port_scan_accounts(sockets, port, probes.drop_last(), explain);
        assert forall|pid: i32|
            port_scan(sockets, port, probes, explain)->Ok_0.skipped.contains(pid) <==> some_item(
                probes,
                denied_as(pid),
            ) by {
            lemma_some_item_last(probes, denied_as(pid));
        }
        assert forall|pid: i32|
            port_scan(sockets, port, probes, explain)->Ok_0.holders.contains_key(pid)
                <==> some_item(probes, holds_port_as(pid, sockets, port, explain)) by {
            lemma_some_item_last(probes, holds_port_as(pid, sockets, port, explain));
        }
    }
}

/// Two reads of a process's descriptors that came out the same: the same
/// descriptors, or the same failure.
pub open spec fn same_links(
    a: ProcAccess<Vec<DescriptorEntry>>,
    b: ProcAccess<Vec<DescriptorEntry>>,
) -> bool {
    match (a, b) {
        (ProcAccess::Success(x), ProcAccess::Success(y)) => descriptor_views(x@)
            == descriptor_views(y@),
        (ProcAccess::PermissionDenied, ProcAccess::PermissionDenied) => true,
        (ProcAccess::Gone, ProcAccess::Gone) => true,
        (ProcAccess::Fatal(e), ProcAccess::Fatal(f)) => e == f,
        _ => false,
    }
}

/// Two sequences of sightings in which each process was seen with the same
/// id, the same descriptors and the same command name.
pub open spec fn same_descriptor_sightings(a: Seq<DescriptorProbe>, b: Seq<DescriptorProbe>) -> bool {
    &&& a.len() == b.len()
    &&& forall|i: int|
        0 <= i < a.len() ==> {
            &&& (#[trigger] a[i]).pid == b[i].pid
            &&& same_links(a[i].links, b[i].links)
            &&& command_text(a[i].command) == command_text(b[i].command)
        }
}

/// The labels that descriptors give depend on what the descriptors link to
/// and on nothing else.
pub proof fn lemma_link_labels_by_view(
    x: Seq<DescriptorEntry>,
    y: Seq<DescriptorEntry>,
    sockets: Seq<ProcNetSocketEntry>,
    port: u16,
)
    requires
        descriptor_views(x) == descriptor_views(y),
    ensures
        link_labels(x, sockets, port) == link_labels(y, sockets, port),
    decreases x.len(),
{
    assert(x.len() == descriptor_views(x).len());
    assert(y.len() == descriptor_views(y).len());
    if x.len() > 0 {
        assert(descriptor_views(x.drop_last()) =~= descriptor_views(x).drop_last());
        assert(descriptor_views(y.drop_last()) =~= descriptor_views(y).drop_last());
        lemma_link_labels_by_view(x.drop_last(), y.drop_last(), sockets, port);
        assert(x.last()@ == descriptor_views(x)[x.len() - 1]);
        assert(y.last()@ == descriptor_views(y)[y.len() - 1]);
    }
}

/// Whether descriptors include one of the sockets looked for depends on what
/// the descriptors link to and on nothing else.
pub proof fn lemma_some_socket_by_view(
    x: Seq<DescriptorEntry>,
    y: Seq<DescriptorEntry>,
    inodes: Set<u64>,
)
    requires
        descriptor_views(x) == descriptor_views(y),
    ensures
        some_socket_among(x, inodes) ==> some_socket_among(y, inodes),
{
    assert(x.len() == descriptor_views(x).len());
    assert(y.len() == descriptor_views(y).len());
    if some_socket_among(x, inodes) {
        let i = choose|i: int|
            0 <= i < x.len() && (#[trigger] socket_inode_of(x[i].link_target@) matches Some(
                inode,
            ) && inodes.contains(inode));
        assert(x[i]@ == descriptor_views(x)[i]);
        assert(y[i]@ == descriptor_views(y)[i]);
        assert(socket_inode_of(y[i].link_target@) == socket_inode_of(x[i].link_target@));
    }
}

/// A pass for a port is repeatable: two passes over the same sockets that
/// see the same of every process end with the same holders and the same
/// skipped processes, or with the same error.
pub proof fn lemma_port_pass_repeatable(
    sockets: Seq<ProcNetSocketEntry>,
    port: u16,
    a: Seq<DescriptorProbe>,
    b: Seq<DescriptorProbe>,
    explain: bool,
)
    requires
        same_descriptor_sightings(a, b),
    ensures
        port_pass(sockets, port, a, explain) == port_pass(sockets, port, b, explain),
{
    lemma_port_scan_repeatable(sockets, port, a, b, explain);
}

/// A scan for a port is repeatable.
pub proof fn lemma_port_scan_repeatable(
    sockets: Seq<ProcNetSocketEntry>,
    port: u16,
    a: Seq<DescriptorProbe>,
    b: Seq<DescriptorProbe>,
    explain: bool,
)
    requires
        same_descriptor_sightings(a, b),
    ensures
        port_scan(sockets, port, a, explain) == port_scan(sockets, port, b, explain),
    decreases a.len(),
{
    if a.len() > 0 {
        assert(same_descriptor_sightings(a.drop_last(), b.drop_last())) by {
            assert forall|i: int| 0 <= i < a.drop_last().len() implies {
                &&& (#[trigger] a.drop_last()[i]).pid == b.drop_last()[i].pid
                &&& same_links(a.drop_last()[i].links, b.drop_last()[i].links)
                &&& command_text(a.drop_last()[i].command) == command_text(
                    b.drop_last()[i].command,
                )
            } by {
                assert(a.drop_last()[i] == a[i]);
                assert(b.drop_last()[i] == b[i]);
            }
        }
        lemma_port_scan_repeatable(sockets, port, a.drop_last(), b.drop_last(), explain);
        let p = a.last();
        let q = b.last();
        assert(p == a[a.len() - 1]);
        assert(q == b[a.len() - 1]);
        assert(same_links(p.links, q.links));
        match (p.links, q.links) {
            (ProcAccess::Success(x), ProcAccess::Success(y)) => {
                lemma_link_labels_by_view(x@, y@, sockets, port);
                lemma_some_socket_by_view(x@, y@, port_inodes(sockets, port));
                lemma_some_socket_by_view(y@, x@, port_inodes(sockets, port));
            },
            _ => {},
        }
        assert(port_finding(p, sockets, port, explain) == port_finding(q, sockets, port, explain));
    }
}

} // verus!
