//! A pass made step by step: the sweep says what to read next, the caller
//! reads it and hands back what the read came to. Nothing is read that the
//! pass does not need: no process where there is nothing to look for, no
//! memory map where the descriptors have settled the matter, and the command
//! name only of a process that holds the target.

use crate::access::ProcAccess;
use crate::holders::{
    command_text, descriptor_check_of, empty_pass, finished, holder_finding_for_path,
    mapping_check_of, outcome_view, path_finding, path_pass, recorded, reasons_finding_for_path,
    reported, CorrelationPass, CorrelationResult, Finding, FindingView, PassView, PathProbe,
    ResultView,
};
use crate::identity::{dev_major_minor, FileId};
use crate::net::ProcNetSocketEntry;
use crate::port::{
    holder_finding_for_port, links_finding, port_inodes, port_pass, port_scan,
    reasons_finding_for_port, target_inodes, DescriptorProbe,
};
use crate::procfs::{DescriptorEntry, ProcMapEntry};
use crate::scan::{
    read_comm_best_effort, scan_pid_mmap_file, scan_pid_open_fd_file, scan_pid_open_fd_socket,
};
use vstd::prelude::*;

verus! {

broadcast use {vstd::std_specs::btree::group_btree_axioms, vstd::laws_cmp::group_laws_cmp};

/// What the caller of a sweep is asked to do next.
#[derive(Clone, Copy, Debug, PartialEq, Eq, Structural)]
pub enum SweepAction {
    /// List the ids of the live processes.
    ListProcesses,
    /// Find for each descriptor of this process the identity of what it
    /// refers to.
    ReadDescriptorIds(i32),
    /// Read the memory map of this process.
    ReadMappings(i32),
    /// Read the descriptors of this process.
    ReadDescriptors(i32),
    /// Read the command name of this process.
    ReadCommand(i32),
    /// Nothing: the sweep has ended.
    Finished,
}

/// What a caller hands back to a sweep: what the read that was asked for
/// came to.
#[derive(Debug)]
pub enum SweepEvent {
    Listed(Result<Vec<i32>, std::io::Error>),
    DescriptorIds(ProcAccess<Vec<Option<FileId>>>),
    Mappings(ProcAccess<Vec<ProcMapEntry>>),
    Descriptors(ProcAccess<Vec<DescriptorEntry>>),
    Named(ProcAccess<String>),
}

/// What a sweep looks for.
pub enum GoalView {
    /// The holders of a file; with `explain`, all their reasons.
    Path { target: FileId, explain: bool },
    /// The holders of a port, given the socket tables.
    Port { sockets: Seq<ProcNetSocketEntry>, port: u16, explain: bool },
}

/// What a sweep waits for.
pub enum StageView {
    /// The list of processes.
    AwaitPids,
    /// The descriptors of the process at hand.
    AwaitDescriptors,
    /// The memory map of the process at hand, whose descriptor check came
    /// out like this.
    AwaitMappings(ProcAccess<bool>),
    /// The command name of the process at hand, which holds the target for
    /// these reasons.
    AwaitName(Seq<Seq<char>>),
    /// Nothing more.
    Done,
}

/// A sweep as a value: what it looks for, the processes to look at, how many
/// of them are dealt with, what it waits for, what the pass has found so far,
/// and the failure that ended it, if one did.
pub struct SweepView {
    pub goal: GoalView,
    pub pids: Seq<i32>,
    pub at: int,
    pub stage: StageView,
    pub pass: PassView,
    pub failure: Option<std::io::Error>,
}

/// A sweep for a file at its beginning.
pub open spec fn begun_for_path(target: FileId, explain: bool) -> SweepView {
    SweepView {
        goal: GoalView::Path { target, explain },
        pids: Seq::empty(),
        at: 0,
        stage: StageView::AwaitPids,
        pass: empty_pass(),
        failure: None,
    }
}

/// A sweep for a port at its beginning. Where no socket is bound to the
/// port it has ended already, and no process is listed.
pub open spec fn begun_for_port(sockets: Seq<ProcNetSocketEntry>, port: u16, explain: bool) -> SweepView {
    SweepView {
        goal: GoalView::Port { sockets, port, explain },
        pids: Seq::empty(),
        at: 0,
        stage: if port_inodes(sockets, port).is_empty() {
            StageView::Done
        } else {
            StageView::AwaitPids
        },
        pass: empty_pass(),
        failure: None,
    }
}

/// Whether a sweep has a process at hand.
pub open spec fn at_hand(v: SweepView) -> bool {
    0 <= v.at < v.pids.len()
}

/// What a sweep asks for.
pub open spec fn next_action(v: SweepView) -> SweepAction {
    if v.stage is AwaitPids {
        SweepAction::ListProcesses
    } else if v.stage is Done || !at_hand(v) {
        SweepAction::Finished
    } else {
        match v.stage {
            StageView::AwaitDescriptors => if v.goal is Path {
                SweepAction::ReadDescriptorIds(v.pids[v.at])
            } else {
                SweepAction::ReadDescriptors(v.pids[v.at])
            },
            StageView::AwaitMappings(_) => SweepAction::ReadMappings(v.pids[v.at]),
            _ => SweepAction::ReadCommand(v.pids[v.at]),
        }
    }
}

/// A sweep that turns to the next process, or ends where there is none.
pub open spec fn turned(v: SweepView, pass: PassView) -> SweepView {
    SweepView {
        at: v.at + 1,
        stage: if v.at + 1 < v.pids.len() {
            StageView::AwaitDescriptors
        } else {
            StageView::Done
        },
        pass,
        ..v
    }
}

/// A sweep that has a finding on the process at hand. For a holder the
/// command name is asked for; a fatal finding ends the sweep with its error;
/// any other finding is entered, and the sweep turns to the next process.
pub open spec fn found(v: SweepView, finding: FindingView) -> SweepView {
    match finding {
        FindingView::Holder(reasons) => SweepView { stage: StageView::AwaitName(reasons), ..v },
        FindingView::Fatal(e) => SweepView { stage: StageView::Done, failure: Some(e), ..v },
        _ => turned(v, recorded(v.pass, v.pids[v.at], Seq::empty(), finding)->Ok_0),
    }
}

/// The descriptor check settles the finding: whatever the memory map, the
/// finding is the same.
pub open spec fn settles(descriptors: ProcAccess<bool>, explain: bool) -> bool {
    descriptors is Gone || descriptors is Fatal || (!explain && descriptors
        == ProcAccess::<bool>::Success(true))
}

/// A sweep after an event. An event that was not asked for changes nothing.
///
/// The list of processes starts the round over the processes, in the order
/// of the list; a failure to list them ends the sweep with the error. In a
/// sweep for a file the descriptors are checked first, and the memory map is
/// asked for unless they settle the finding. In a sweep for a port the
/// descriptors give the finding. The command name, once read, enters the
/// holder, and the sweep turns to the next process.
pub open spec fn stepped(v: SweepView, event: SweepEvent) -> SweepView {
    match (v.stage, event) {
        (StageView::AwaitPids, SweepEvent::Listed(Ok(pids))) => SweepView {
            pids: pids@,
            at: 0,
            stage: if pids@.len() > 0 {
                StageView::AwaitDescriptors
            } else {
                StageView::Done
            },
            ..v
        },
        (StageView::AwaitPids, SweepEvent::Listed(Err(e))) => SweepView {
            stage: StageView::Done,
            failure: Some(e),
            ..v
        },
        (StageView::AwaitDescriptors, SweepEvent::DescriptorIds(ids)) => match v.goal {
            GoalView::Path { target, explain } => if at_hand(v) {
                let check = descriptor_check_of(ids, target);
                if settles(check, explain) {
                    found(v, path_finding(check, ProcAccess::Gone, explain))
                } else {
                    SweepView { stage: StageView::AwaitMappings(check), ..v }
                }
            } else {
                v
            },
            _ => v,
        },
        (StageView::AwaitMappings(check), SweepEvent::Mappings(maps)) => match v.goal {
            GoalView::Path { target, explain } => if at_hand(v) {
                found(v, path_finding(check, mapping_check_of(maps, target), explain))
            } else {
                v
            },
            _ => v,
        },
        (StageView::AwaitDescriptors, SweepEvent::Descriptors(links)) => match v.goal {
            GoalView::Port { sockets, port, explain } => if at_hand(v) {
                found(v, links_finding(links, sockets, port, explain))
            } else {
                v
            },
            _ => v,
        },
        (StageView::AwaitName(reasons), SweepEvent::Named(read)) => if at_hand(v) {
            turned(
                v,
                recorded(
                    v.pass,
                    v.pids[v.at],
                    command_text(read),
                    FindingView::Holder(reasons),
                )->Ok_0,
            )
        } else {
            v
        },
        _ => v,
    }
}

/// What a sweep reports: the failure that ended it, or what its pass has
/// found.
pub open spec fn sweep_outcome(v: SweepView) -> Result<ResultView, std::io::Error> {
    match v.failure {
        Some(e) => Err(e),
        None => Ok(finished(v.pass)),
    }
}

/// What a sweep looks for.
#[derive(Debug)]
enum Goal {
    Path { target: FileId, explain: bool },
    Port { sockets: Vec<ProcNetSocketEntry>, port: u16, explain: bool },
}

/// What a sweep waits for.
#[derive(Debug)]
enum Stage {
    AwaitPids,
    AwaitDescriptors,
    AwaitMappings(ProcAccess<bool>),
    AwaitName(Vec<String>),
    Done,
}

/// A pass that is made step by step.
#[derive(Debug)]
pub struct Sweep {
    goal: Goal,
    pids: Vec<i32>,
    at: usize,
    stage: Stage,
    pass: CorrelationPass,
    failure: Option<std::io::Error>,
}

impl View for Sweep {
    type V = SweepView;

    closed spec fn view(&self) -> SweepView {
        SweepView {
            goal: match self.goal {
                Goal::Path { target, explain } => GoalView::Path { target, explain },
                Goal::Port { sockets, port, explain } => GoalView::Port {
                    sockets: sockets@,
                    port,
                    explain,
                },
            },
            pids: self.pids@,
            at: self.at as int,
            stage: match self.stage {
                Stage::AwaitPids => StageView::AwaitPids,
                Stage::AwaitDescriptors => StageView::AwaitDescriptors,
                Stage::AwaitMappings(check) => StageView::AwaitMappings(check),
                Stage::AwaitName(reasons) => StageView::AwaitName(
                    crate::text::text_views(reasons@),
                ),
                Stage::Done => StageView::Done,
            },
            pass: self.pass@,
            failure: self.failure,
        }
    }
}

/// Whether the descriptor check settles the finding.
fn descriptors_settle(check: &ProcAccess<bool>, explain: bool) -> (r: bool)
    ensures
        r == settles(*check, explain),
{
    match check {
        ProcAccess::Gone => true,
        ProcAccess::Fatal(_) => true,
        ProcAccess::Success(found) => !explain && *found,
        ProcAccess::PermissionDenied => false,
    }
}

/// The finding on a process for a file, from the outcomes of its two checks.
fn finding_for_path(descriptors: ProcAccess<bool>, mappings: ProcAccess<bool>, explain: bool) -> (f:
    Finding)
    ensures
        f@ == path_finding(descriptors, mappings, explain),
{
    if explain {
        reasons_finding_for_path(descriptors, mappings)
    } else {
        holder_finding_for_path(descriptors, mappings)
    }
}

impl Sweep {
    /// Begins a sweep for the holders of a file; with `explain`, for all
    /// their reasons.
    pub fn for_path(target: FileId, explain: bool) -> (sweep: Sweep)
        ensures
            sweep@ == begun_for_path(target, explain),
    {
        Sweep {
            goal: Goal::Path { target, explain },
            pids: Vec::new(),
            at: 0,
            stage: Stage::AwaitPids,
            pass: CorrelationPass::new(),
            failure: None,
        }
    }

    /// Begins a sweep for the holders of a port, given the socket tables;
    /// with `explain`, for all their reasons.
    pub fn for_port(sockets: Vec<ProcNetSocketEntry>, port: u16, explain: bool) -> (sweep: Sweep)
        ensures
            sweep@ == begun_for_port(sockets@, port, explain),
    {
        let unused = target_inodes(&sockets, port).is_empty();
        Sweep {
            goal: Goal::Port { sockets, port, explain },
            pids: Vec::new(),
            at: 0,
            stage: if unused {
                Stage::Done
            } else {
                Stage::AwaitPids
            },
            pass: CorrelationPass::new(),
            failure: None,
        }
    }

    /// What is to be done next.
    pub fn action(&self) -> (a: SweepAction)
        ensures
            a == next_action(self@),
    {
        if self.at >= self.pids.len() {
            return match &self.stage {
                Stage::AwaitPids => SweepAction::ListProcesses,
                _ => SweepAction::Finished,
            };
        }
        let pid = self.pids[self.at];
        match &self.stage {
            Stage::AwaitPids => SweepAction::ListProcesses,
            Stage::AwaitDescriptors => match &self.goal {
                Goal::Path { .. } => SweepAction::ReadDescriptorIds(pid),
                Goal::Port { .. } => SweepAction::ReadDescriptors(pid),
            },
            Stage::AwaitMappings(_) => SweepAction::ReadMappings(pid),
            Stage::AwaitName(_) => SweepAction::ReadCommand(pid),
            Stage::Done => SweepAction::Finished,
        }
    }

    /// Turns to the next process.
    fn turn(&mut self)
        requires
            old(self).at < old(self).pids@.len(),
        ensures
            final(self)@ == turned(old(self)@, old(self)@.pass),
    {
        let count = self.pids.len();
        self.at = self.at + 1;
        if self.at < count {
            self.stage = Stage::AwaitDescriptors;
        } else {
            self.stage = Stage::Done;
        }
    }

    /// Takes in a finding on the process at hand.
    fn take_finding(&mut self, finding: Finding)
        requires
            old(self).at < old(self).pids@.len(),
        ensures
            final(self)@ == found(old(self)@, finding@),
    {
        match finding {
            Finding::Holder(reasons) => {
                self.stage = Stage::AwaitName(reasons);
            },
            Finding::Fatal(e) => {
                self.stage = Stage::Done;
                self.failure = Some(e);
            },
            other => {
                let pid = self.pids[self.at];
                let _ = self.pass.record(pid, String::new(), other);
                self.turn();
            },
        }
    }

    /// Takes in what the caller has read.
    pub fn step(&mut self, event: SweepEvent)
        ensures
            final(self)@ == stepped(old(self)@, event),
    {
        let has_process = self.at < self.pids.len();
        let mut stage = Stage::Done;
        std::mem::swap(&mut self.stage, &mut stage);
        match (stage, event) {
            (Stage::AwaitPids, SweepEvent::Listed(Ok(pids))) => {
                self.at = 0;
                self.stage = if pids.len() > 0 {
                    Stage::AwaitDescriptors
                } else {
                    Stage::Done
                };
                self.pids = pids;
            },
            (Stage::AwaitPids, SweepEvent::Listed(Err(e))) => {
                self.failure = Some(e);
            },
            (Stage::AwaitDescriptors, SweepEvent::DescriptorIds(ids)) => {
                match &self.goal {
                    Goal::Path { target, explain } => {
                        if has_process {
                            let explain = *explain;
                            let check = scan_pid_open_fd_file(ids, *target);
                            if descriptors_settle(&check, explain) {
                                self.stage = Stage::AwaitDescriptors;
                                self.take_finding(
                                    finding_for_path(check, ProcAccess::Gone, explain),
                                );
                            } else {
                                self.stage = Stage::AwaitMappings(check);
                            }
                        } else {
                            self.stage = Stage::AwaitDescriptors;
                        }
                    },
                    Goal::Port { .. } => {
                        self.stage = Stage::AwaitDescriptors;
                    },
                }
            },
            (Stage::AwaitMappings(check), SweepEvent::Mappings(maps)) => {
                match &self.goal {
                    Goal::Path { target, explain } => {
                        if has_process {
                            let explain = *explain;
                            let (major, minor) = dev_major_minor(target.dev);
                            let mapped = scan_pid_mmap_file(maps, major, minor, target.inode);
                            self.stage = Stage::AwaitDescriptors;
                            self.take_finding(finding_for_path(check, mapped, explain));
                        } else {
                            self.stage = Stage::AwaitMappings(check);
                        }
                    },
                    Goal::Port { .. } => {
                        self.stage = Stage::AwaitMappings(check);
                    },
                }
            },
            (Stage::AwaitDescriptors, SweepEvent::Descriptors(links)) => {
                match &self.goal {
                    Goal::Port { sockets, port, explain } => {
                        if has_process {
                            let finding = if *explain {
                                reasons_finding_for_port(links, sockets, *port)
                            } else {
                                let inodes = target_inodes(sockets, *port);
                                holder_finding_for_port(scan_pid_open_fd_socket(links, &inodes))
                            };
                            self.stage = Stage::AwaitDescriptors;
                            self.take_finding(finding);
                        } else {
                            self.stage = Stage::AwaitDescriptors;
                        }
                    },
                    Goal::Path { .. } => {
                        self.stage = Stage::AwaitDescriptors;
                    },
                }
            },
            (Stage::AwaitName(reasons), SweepEvent::Named(read)) => {
                if has_process {
                    let pid = self.pids[self.at];
                    let name = read_comm_best_effort(read);
                    let _ = self.pass.record(pid, name, Finding::Holder(reasons));
                    self.turn();
                } else {
                    self.stage = Stage::AwaitName(reasons);
                }
            },
            (waiting, _) => {
                self.stage = waiting;
            },
        }
    }

    /// Ends the sweep and hands out what it has come to.
    pub fn finish(self) -> (r: Result<CorrelationResult, std::io::Error>)
        ensures
            outcome_view(r) == sweep_outcome(self@),
    {
        match self.failure {
            Some(e) => Err(e),
            None => Ok(self.pass.finish()),
        }
    }
}

/// The ids of the processes that were seen.
pub open spec fn probe_pids(probes: Seq<PathProbe>) -> Seq<i32> {
    probes.map_values(|p: PathProbe| p.pid)
}

/// A sweep for a file after a process was dealt with: the sweep is handed
/// what it asks for, one read after the other, from what is to be seen of the
/// process.
pub open spec fn after_path_probe(v: SweepView, probe: PathProbe) -> SweepView {
    let checked = stepped(v, SweepEvent::DescriptorIds(probe.descriptors));
    let mapped = if checked.stage is AwaitMappings {
        stepped(checked, SweepEvent::Mappings(probe.mappings))
    } else {
        checked
    };
    if mapped.stage is AwaitName {
        stepped(mapped, SweepEvent::Named(probe.command))
    } else {
        mapped
    }
}

/// A sweep for a file after some processes were dealt with, one after the
/// other.
pub open spec fn after_path_probes(v: SweepView, probes: Seq<PathProbe>) -> SweepView
    decreases probes.len(),
{
    if probes.len() == 0 {
        v
    } else {
        after_path_probe(after_path_probes(v, probes.drop_last()), probes.last())
    }
}

/// A sweep for a file that has dealt with the first `k` processes has found
/// what a pass over these finds.
pub proof fn lemma_path_sweep_so_far(
    target: FileId,
    explain: bool,
    pids: Vec<i32>,
    probes: Seq<PathProbe>,
    k: int,
)
    requires
        pids@ == probe_pids(probes),
        0 <= k <= probes.len(),
        probes.len() > 0,
    ensures
        ({
            let start = stepped(begun_for_path(target, explain), SweepEvent::Listed(Ok(pids)));
            let now = after_path_probes(start, probes.take(k));
            match path_pass(target, probes.take(k), explain) {
                Ok(pass) => now == (SweepView {
                    goal: GoalView::Path { target, explain },
                    pids: pids@,
                    at: k,
                    stage: if k < probes.len() {
                        StageView::AwaitDescriptors
                    } else {
                        StageView::Done
                    },
                    pass,
                    failure: None,
                }),
                Err(e) => now.stage is Done && now.failure == Some(e),
            }
        }),
    decreases k,
{
    if k > 0 {
        lemma_path_sweep_so_far(target, explain, pids, probes, k - 1);
        assert(probes.take(k).drop_last() =~= probes.take(k - 1));
        assert(probes.take(k).last() == probes[k - 1]);
        assert(pids@[k - 1] == probes[k - 1].pid);
    } else {
        assert(probes.take(0) =~= Seq::<PathProbe>::empty());
    }
}

/// A sweep for a file, handed what it asks for until it has ended, reports
/// what a pass over the processes reports: the lazy reads change nothing.
pub proof fn lemma_path_sweep_makes_the_pass(
    target: FileId,
    explain: bool,
    pids: Vec<i32>,
    probes: Seq<PathProbe>,
)
    requires
        pids@ == probe_pids(probes),
    ensures
        ({
            let start = stepped(begun_for_path(target, explain), SweepEvent::Listed(Ok(pids)));
            let end = after_path_probes(start, probes);
            end.stage is Done && sweep_outcome(end) == reported(path_pass(target, probes, explain))
        }),
{
    if probes.len() > 0 {
        lemma_path_sweep_so_far(target, explain, pids, probes, probes.len() as int);
        assert(probes.take(probes.len() as int) =~= probes);
    }
}

/// The ids of the processes that were seen.
pub open spec fn descriptor_probe_pids(probes: Seq<DescriptorProbe>) -> Seq<i32> {
    probes.map_values(|p: DescriptorProbe| p.pid)
}

/// A sweep for a port after a process was dealt with: the sweep is handed
/// what it asks for, one read after the other, from what is to be seen of the
/// process.
pub open spec fn after_port_probe(v: SweepView, probe: DescriptorProbe) -> SweepView {
    let read = stepped(v, SweepEvent::Descriptors(probe.links));
    if read.stage is AwaitName {
        stepped(read, SweepEvent::Named(probe.command))
    } else {
        read
    }
}

/// A sweep for a port after some processes were dealt with, one after the
/// other.
pub open spec fn after_port_probes(v: SweepView, probes: Seq<DescriptorProbe>) -> SweepView
    decreases probes.len(),
{
    if probes.len() == 0 {
        v
    } else {
        after_port_probe(after_port_probes(v, probes.drop_last()), probes.last())
    }
}

/// A sweep for a port that has dealt with the first `k` processes has found
/// what a scan of these finds.
pub proof fn lemma_port_sweep_so_far(
    sockets: Seq<ProcNetSocketEntry>,
    port: u16,
    explain: bool,
    pids: Vec<i32>,
    probes: Seq<DescriptorProbe>,
    k: int,
)
    requires
        pids@ == descriptor_probe_pids(probes),
        0 <= k <= probes.len(),
        probes.len() > 0,
        !port_inodes(sockets, port).is_empty(),
    ensures
        ({
            let start = stepped(
                begun_for_port(sockets, port, explain),
                SweepEvent::Listed(Ok(pids)),
            );
            let now = after_port_probes(start, probes.take(k));
            match port_scan(sockets, port, probes.take(k), explain) {
                Ok(pass) => now == (SweepView {
                    goal: GoalView::Port { sockets, port, explain },
                    pids: pids@,
                    at: k,
                    stage: if k < probes.len() {
                        StageView::AwaitDescriptors
                    } else {
                        StageView::Done
                    },
                    pass,
                    failure: None,
                }),
                Err(e) => now.stage is Done && now.failure == Some(e),
            }
        }),
    decreases k,
{
    if k > 0 {
        lemma_port_sweep_so_far(sockets, port, explain, pids, probes, k - 1);
        assert(probes.take(k).drop_last() =~= probes.take(k - 1));
        assert(probes.take(k).last() == probes[k - 1]);
        assert(pids@[k - 1] == probes[k - 1].pid);
    } else {
        assert(probes.take(0) =~= Seq::<DescriptorProbe>::empty());
    }
}

/// A sweep that has ended stays as it is, whatever it is handed.
pub proof fn lemma_ended_port_sweep_stays(v: SweepView, probes: Seq<DescriptorProbe>)
    requires
        v.stage is Done,
    ensures
        after_port_probes(v, probes) == v,
    decreases probes.len(),
{
    if probes.len() > 0 {
        lemma_ended_port_sweep_stays(v, probes.drop_last());
    }
}

/// A sweep for a port, handed what it asks for until it has ended, reports
/// what a pass over the processes reports; and for a port that no socket is
/// bound to it has ended before a process is listed.
pub proof fn lemma_port_sweep_makes_the_pass(
    sockets: Seq<ProcNetSocketEntry>,
    port: u16,
    explain: bool,
    pids: Vec<i32>,
    probes: Seq<DescriptorProbe>,
)
    requires
        pids@ == descriptor_probe_pids(probes),
    ensures
        port_inodes(sockets, port).is_empty() ==> next_action(
            begun_for_port(sockets, port, explain),
        ) == SweepAction::Finished,
        ({
            let start = stepped(
                begun_for_port(sockets, port, explain),
                SweepEvent::Listed(Ok(pids)),
            );
            let end = after_port_probes(start, probes);
            end.stage is Done && sweep_outcome(end) == reported(
                port_pass(sockets, port, probes, explain),
            )
        }),
{
    let start = stepped(begun_for_port(sockets, port, explain), SweepEvent::Listed(Ok(pids)));
    if port_inodes(sockets, port).is_empty() {
        lemma_ended_port_sweep_stays(start, probes);
    } else if probes.len() > 0 {
        lemma_port_sweep_so_far(sockets, port, explain, pids, probes, probes.len() as int);
        assert(probes.take(probes.len() as int) =~= probes);
    }
}

} // verus!
