//! One pass over the process table: what each process contributes, and the
//! holders and the count of skipped processes that the pass ends with.

use crate::access::ProcAccess;
use crate::identity::{dev_major, dev_major_minor, dev_minor, FileId};
use crate::order::reversed;
use crate::procfs::ProcMapEntry;
use crate::scan::{
    checked, read_comm_best_effort, reason_text, scan_pid_mmap_file, scan_pid_open_fd_file,
    some_descriptor_is, some_region_maps, unknown_command, Reason,
};
use crate::text::text_views;
use std::collections::BTreeMap;
use std::collections::BTreeSet;
use vstd::prelude::*;
use vstd::string::StringExecFns;

verus! {

broadcast use {vstd::std_specs::btree::group_btree_axioms, vstd::laws_cmp::group_laws_cmp};

/// A process that holds the target, with the reasons for which it does.
#[derive(Clone, Debug, PartialEq, Eq)]
pub struct HolderRecord {
    pub pid: i32,
    pub command: String,
    pub reasons: Vec<String>,
}

/// A holder as a value: its texts as sequences of characters.
pub struct HolderView {
    pub pid: i32,
    pub command: Seq<char>,
    pub reasons: Seq<Seq<char>>,
}

impl View for HolderRecord {
    type V = HolderView;

    open spec fn view(&self) -> HolderView {
        HolderView { pid: self.pid, command: self.command@, reasons: text_views(self.reasons@) }
    }
}

/// What a pass has found: the holders by process id, and how many processes
/// could not be looked into for lack of permission.
#[derive(Clone, Debug, PartialEq, Eq)]
pub struct CorrelationResult {
    pub holders: BTreeMap<i32, HolderRecord>,
    pub skipped_permission_denied: usize,
}

/// The result of a pass as a value.
pub struct ResultView {
    pub holders: Map<i32, HolderView>,
    pub skipped_permission_denied: nat,
}

impl View for CorrelationResult {
    type V = ResultView;

    open spec fn view(&self) -> ResultView {
        ResultView {
            holders: self.holders@.map_values(|h: HolderRecord| h@),
            skipped_permission_denied: self.skipped_permission_denied as nat,
        }
    }
}

/// What one process contributes to a pass.
#[derive(Debug)]
pub enum Finding {
    /// It holds the target, for these reasons.
    Holder(Vec<String>),
    /// It could not be looked into: every check was refused.
    Skipped,
    /// It contributes nothing: it does not hold the target, as far as could
    /// be seen, or it was gone.
    Clear,
    /// A check failed in an unexpected way; the pass ends without a result.
    Fatal(std::io::Error),
}

/// A finding as a value.
pub enum FindingView {
    Holder(Seq<Seq<char>>),
    Skipped,
    Clear,
    Fatal(std::io::Error),
}

impl View for Finding {
    type V = FindingView;

    open spec fn view(&self) -> FindingView {
        match self {
            Finding::Holder(reasons) => FindingView::Holder(text_views(reasons@)),
            Finding::Skipped => FindingView::Skipped,
            Finding::Clear => FindingView::Clear,
            Finding::Fatal(e) => FindingView::Fatal(*e),
        }
    }
}

/// A pass in progress: the holders found so far and the processes skipped so
/// far.
#[derive(Debug)]
pub struct CorrelationPass {
    pub holders: BTreeMap<i32, HolderRecord>,
    pub skipped: BTreeSet<i32>,
}

/// A pass in progress as a value.
pub struct PassView {
    pub holders: Map<i32, HolderView>,
    pub skipped: Set<i32>,
}

impl View for CorrelationPass {
    type V = PassView;

    open spec fn view(&self) -> PassView {
        PassView { holders: self.holders@.map_values(|h: HolderRecord| h@), skipped: self.skipped@ }
    }
}

/// A pass that has seen no process.
pub open spec fn empty_pass() -> PassView {
    PassView { holders: Map::empty(), skipped: Set::empty() }
}

/// The pass after one more process: a holder is entered under its process
/// id, a skipped process joins the skipped ones, a clear one changes nothing,
/// and a fatal finding ends the pass with its error.
pub open spec fn recorded(pass: PassView, pid: i32, command: Seq<char>, finding: FindingView) -> Result<
    PassView,
    std::io::Error,
> {
    match finding {
        FindingView::Holder(reasons) => Ok(
            PassView {
                holders: pass.holders.insert(pid, HolderView { pid, command, reasons }),
                skipped: pass.skipped,
            },
        ),
        FindingView::Skipped => Ok(
            PassView { holders: pass.holders, skipped: pass.skipped.insert(pid) },
        ),
        FindingView::Clear => Ok(pass),
        FindingView::Fatal(e) => Err(e),
    }
}

/// What a finished pass reports: its holders, and the number of processes
/// it skipped.
pub open spec fn finished(pass: PassView) -> ResultView {
    ResultView { holders: pass.holders, skipped_permission_denied: pass.skipped.len() }
}

/// What a pass reports that has ended, with its holders or with an error.
pub open spec fn reported(pass: Result<PassView, std::io::Error>) -> Result<
    ResultView,
    std::io::Error,
> {
    match pass {
        Ok(p) => Ok(finished(p)),
        Err(e) => Err(e),
    }
}

/// The outcome of a pass as a value.
pub open spec fn outcome_view(r: Result<CorrelationResult, std::io::Error>) -> Result<
    ResultView,
    std::io::Error,
> {
    match r {
        Ok(result) => Ok(result@),
        Err(e) => Err(e),
    }
}

/// The command name that a read of it gives: the name, or `<unknown>`.
pub open spec fn command_text(read: ProcAccess<String>) -> Seq<char> {
    match read {
        ProcAccess::Success(name) => name@,
        _ => unknown_command(),
    }
}

impl CorrelationPass {
    /// A pass that has seen no process.
    pub fn new() -> (pass: Self)
        ensures
            pass@ == empty_pass(),
    {
        let pass = CorrelationPass { holders: BTreeMap::new(), skipped: BTreeSet::new() };
        assert(pass@.holders =~= Map::<i32, HolderView>::empty());
        pass
    }

    /// Enters what one process contributes. On a fatal finding the pass is
    /// left as it was and the error is handed back.
    pub fn record(&mut self, pid: i32, command: String, finding: Finding) -> (r: Result<
        (),
        std::io::Error,
    >)
        ensures
            match recorded(old(self)@, pid, command@, finding@) {
                Ok(pass) => r is Ok && final(self)@ == pass,
                Err(e) => r == Err::<(), std::io::Error>(e) && final(self)@ == old(self)@,
            },
    {
        match finding {
            Finding::Holder(reasons) => {
                let record = HolderRecord { pid, command, reasons };
                let ghost before = self.holders@;
                self.holders.insert(pid, record);
                assert(self.holders@.map_values(|h: HolderRecord| h@) =~= before.map_values(
                    |h: HolderRecord| h@,
                ).insert(pid, record@));
                Ok(())
            },
            Finding::Skipped => {
                self.skipped.insert(pid);
                Ok(())
            },
            Finding::Clear => Ok(()),
            Finding::Fatal(e) => Err(e),
        }
    }

    /// Ends the pass.
    pub fn finish(self) -> (result: CorrelationResult)
        ensures
            result@ == finished(self@),
    {
        let skipped_permission_denied = self.skipped.len();
        CorrelationResult { holders: self.holders, skipped_permission_denied }
    }
}

/// The single reason of a holder that is only reported as one.
pub open spec fn sole_reason(reason: Reason) -> Seq<Seq<char>> {
    seq![reason_text(reason)]
}

/// What a process contributes to a pass for a file when only holders are
/// asked for. An open descriptor settles it; else a mapping makes it a
/// holder. A process that was gone at either check contributes nothing, a
/// fatal outcome of a check that was reached is fatal, and the process counts
/// as skipped only where both checks were refused.
pub open spec fn holder_path_finding(descriptors: ProcAccess<bool>, mappings: ProcAccess<bool>) -> FindingView {
    match descriptors {
        ProcAccess::Success(true) => FindingView::Holder(sole_reason(Reason::OpenFd)),
        ProcAccess::Gone => FindingView::Clear,
        ProcAccess::Fatal(e) => FindingView::Fatal(e),
        _ => match mappings {
            ProcAccess::Success(true) => FindingView::Holder(sole_reason(Reason::Mmap)),
            ProcAccess::Success(false) => FindingView::Clear,
            ProcAccess::Gone => FindingView::Clear,
            ProcAccess::Fatal(e) => FindingView::Fatal(e),
            ProcAccess::PermissionDenied => if descriptors is PermissionDenied {
                FindingView::Skipped
            } else {
                FindingView::Clear
            },
        },
    }
}

/// The reasons of a holder in dictionary order: `memory mapped` before
/// `open fd`.
pub open spec fn path_reasons(open: bool, mapped: bool) -> Seq<Seq<char>> {
    (if mapped {
        seq!["memory mapped"@]
    } else {
        Seq::empty()
    }) + (if open {
        seq!["open fd"@]
    } else {
        Seq::empty()
    })
}

/// The reasons of a holder of a file are in dictionary order, and none
/// occurs twice.
pub proof fn lemma_path_reasons_sorted(open: bool, mapped: bool)
    ensures
        crate::order::in_order(path_reasons(open, mapped), crate::text::in_dictionary_order()),
        path_reasons(open, mapped).no_duplicates(),
{
    reveal_strlit("memory mapped");
    reveal_strlit("open fd");
    assert(crate::text::lex_le("memory mapped"@, "open fd"@));
    assert("memory mapped"@ != "open fd"@) by {
        assert("memory mapped"@[0] == 'm');
        assert("open fd"@[0] == 'o');
    }
}

/// What a process contributes to a pass for a file when the reasons are
/// asked for. Both checks count: each that finds the target gives a reason.
/// A process that was gone at either check contributes nothing, a fatal
/// outcome is fatal, and a process without a reason counts as skipped only
/// where both checks were refused.
pub open spec fn reasons_path_finding(descriptors: ProcAccess<bool>, mappings: ProcAccess<bool>) -> FindingView {
    match descriptors {
        ProcAccess::Gone => FindingView::Clear,
        ProcAccess::Fatal(e) => FindingView::Fatal(e),
        _ => match mappings {
            ProcAccess::Gone => FindingView::Clear,
            ProcAccess::Fatal(e) => FindingView::Fatal(e),
            _ => {
                let open = descriptors == ProcAccess::Success(true);
                let mapped = mappings == ProcAccess::Success(true);
                if open || mapped {
                    FindingView::Holder(path_reasons(open, mapped))
                } else if descriptors is PermissionDenied && mappings is PermissionDenied {
                    FindingView::Skipped
                } else {
                    FindingView::Clear
                }
            },
        },
    }
}

/// The finding on a process for a file, from the outcomes of its two checks.
pub open spec fn path_finding(
    descriptors: ProcAccess<bool>,
    mappings: ProcAccess<bool>,
    explain: bool,
) -> FindingView {
    if explain {
        reasons_path_finding(descriptors, mappings)
    } else {
        holder_path_finding(descriptors, mappings)
    }
}

/// A vector that holds one text.
fn one_text(text: &str) -> (v: Vec<String>)
    ensures
        text_views(v@) == seq![text@],
{
    let mut v: Vec<String> = Vec::new();
    v.push(String::from_str(text));
    assert(text_views(v@) =~= seq![text@]);
    v
}

/// The finding on a process for a file when only holders are asked for.
pub fn holder_finding_for_path(descriptors: ProcAccess<bool>, mappings: ProcAccess<bool>) -> (v:
    Finding)
    ensures
        v@ == holder_path_finding(descriptors, mappings),
{
    let descriptors_denied = match descriptors {
        ProcAccess::Success(true) => {
            return Finding::Holder(one_text(Reason::OpenFd.as_str()));
        },
        ProcAccess::Success(false) => false,
        ProcAccess::PermissionDenied => true,
        ProcAccess::Gone => {
            return Finding::Clear;
        },
        ProcAccess::Fatal(e) => {
            return Finding::Fatal(e);
        },
    };
    match mappings {
        ProcAccess::Success(true) => Finding::Holder(one_text(Reason::Mmap.as_str())),
        ProcAccess::Success(false) => Finding::Clear,
        ProcAccess::PermissionDenied => if descriptors_denied {
            Finding::Skipped
        } else {
            Finding::Clear
        },
        ProcAccess::Gone => Finding::Clear,
        ProcAccess::Fatal(e) => Finding::Fatal(e),
    }
}

/// The finding on a process for a file when the reasons are asked for.
pub fn reasons_finding_for_path(descriptors: ProcAccess<bool>, mappings: ProcAccess<bool>) -> (v:
    Finding)
    ensures
        v@ == reasons_path_finding(descriptors, mappings),
{
    let (open, descriptors_denied) = match descriptors {
        ProcAccess::Success(found) => (found, false),
        ProcAccess::PermissionDenied => (false, true),
        ProcAccess::Gone => {
            return Finding::Clear;
        },
        ProcAccess::Fatal(e) => {
            return Finding::Fatal(e);
        },
    };
    let (mapped, mappings_denied) = match mappings {
        ProcAccess::Success(found) => (found, false),
        ProcAccess::PermissionDenied => (false, true),
        ProcAccess::Gone => {
            return Finding::Clear;
        },
        ProcAccess::Fatal(e) => {
            return Finding::Fatal(e);
        },
    };
    if open || mapped {
        let mut reasons: Vec<String> = Vec::new();
        if mapped {
            reasons.push(String::from_str("memory mapped"));
        }
        if open {
            reasons.push(String::from_str("open fd"));
        }
        assert(text_views(reasons@) =~= path_reasons(open, mapped));
        Finding::Holder(reasons)
    } else if descriptors_denied && mappings_denied {
        Finding::Skipped
    } else {
        Finding::Clear
    }
}

/// What was seen of one process in a pass for a file: for each of its
/// descriptors the identity of what it refers to, where that could be had;
/// its memory map; and its command name. Each as the read came out.
#[derive(Debug)]
pub struct PathProbe {
    pub pid: i32,
    pub descriptors: ProcAccess<Vec<Option<FileId>>>,
    pub mappings: ProcAccess<Vec<ProcMapEntry>>,
    pub command: ProcAccess<String>,
}

/// The outcome of the open-descriptor check against a file, from the
/// identities of what the descriptors refer to.
pub open spec fn descriptor_check_of(ids: ProcAccess<Vec<Option<FileId>>>, target: FileId) -> ProcAccess<
    bool,
> {
    checked(ids, |held: Vec<Option<FileId>>| some_descriptor_is(held@, target))
}

/// The outcome of the mapping check against a file, from the memory map: a
/// region matches by the major and minor number of the file's device and by
/// its inode.
pub open spec fn mapping_check_of(maps: ProcAccess<Vec<ProcMapEntry>>, target: FileId) -> ProcAccess<
    bool,
> {
    checked(
        maps,
        |regions: Vec<ProcMapEntry>|
            some_region_maps(regions@, dev_major(target.dev), dev_minor(target.dev), target.inode),
    )
}

/// The outcome of the open-descriptor check of a process against a file.
pub open spec fn descriptor_check(probe: PathProbe, target: FileId) -> ProcAccess<bool> {
    descriptor_check_of(probe.descriptors, target)
}

/// The outcome of the mapping check of a process against a file.
pub open spec fn mapping_check(probe: PathProbe, target: FileId) -> ProcAccess<bool> {
    mapping_check_of(probe.mappings, target)
}

/// A pass for a file over the processes seen, in their order: each process
/// is entered by its finding, and the first fatal finding ends the pass.
pub open spec fn path_pass(target: FileId, probes: Seq<PathProbe>, explain: bool) -> Result<
    PassView,
    std::io::Error,
>
    decreases probes.len(),
{
    if probes.len() == 0 {
        Ok(empty_pass())
    } else {
        match path_pass(target, probes.drop_last(), explain) {
            Ok(pass) => recorded(
                pass,
                probes.last().pid,
                command_text(probes.last().command),
                path_finding(
                    descriptor_check(probes.last(), target),
                    mapping_check(probes.last(), target),
                    explain,
                ),
            ),
            Err(e) => Err(e),
        }
    }
}

impl CorrelationPass {
    /// Enters one process into a pass for a file.
    pub fn observe_path(&mut self, target: FileId, probe: PathProbe, explain: bool) -> (r: Result<
        (),
        std::io::Error,
    >)
        ensures
            match recorded(
                old(self)@,
                probe.pid,
                command_text(probe.command),
                path_finding(
                    descriptor_check(probe, target),
                    mapping_check(probe, target),
                    explain,
                ),
            ) {
                Ok(pass) => r is Ok && final(self)@ == pass,
                Err(e) => r == Err::<(), std::io::Error>(e) && final(self)@ == old(self)@,
            },
    {
        let PathProbe { pid, descriptors, mappings, command } = probe;
        let (major, minor) = dev_major_minor(target.dev);
        let open = scan_pid_open_fd_file(descriptors, target);
        let mapped = scan_pid_mmap_file(mappings, major, minor, target.inode);
        let finding = if explain {
            reasons_finding_for_path(open, mapped)
        } else {
            holder_finding_for_path(open, mapped)
        };
        self.record(pid, read_comm_best_effort(command), finding)
    }
}

/// Runs a pass for a file over the processes seen.
fn run_path_pass(target: FileId, probes: Vec<PathProbe>, explain: bool) -> (r: Result<
    CorrelationResult,
    std::io::Error,
>)
    ensures
        outcome_view(r) == reported(path_pass(target, probes@, explain)),
{
    let ghost all = probes@;
    let mut rest = reversed(probes);
    let mut pass = CorrelationPass::new();
    assert(all.take(0) =~= Seq::<PathProbe>::empty());
    while rest.len() > 0
        invariant
            all == probes@,
            rest@.len() <= all.len(),
            forall|i: int| 0 <= i < rest@.len() ==> rest@[i] == all[all.len() - 1 - i],
            path_pass(target, all.take(all.len() - rest@.len()), explain) == Ok::<
                PassView,
                std::io::Error,
            >(pass@),
        decreases rest@.len(),
    {
        let ghost k = all.len() - rest@.len();
        let probe = rest.pop().unwrap();
        proof {
            assert(probe == all[k]);
            assert(all.take(k + 1).drop_last() =~= all.take(k));
            assert(all.take(k + 1).last() == probe);
        }
        match pass.observe_path(target, probe, explain) {
            Ok(()) => {},
            Err(e) => {
                proof {
                    lemma_path_pass_stays_failed(target, all, k + 1, explain);
                }
                return Err(e);
            },
        }
    }
    assert(all.take(all.len() as int) =~= all);
    Ok(pass.finish())
}

/// Once a pass has failed, the processes that follow change nothing.
pub proof fn lemma_path_pass_stays_failed(
    target: FileId,
    probes: Seq<PathProbe>,
    k: int,
    explain: bool,
)
    requires
        0 <= k <= probes.len(),
        path_pass(target, probes.take(k), explain) is Err,
    ensures
        path_pass(target, probes, explain) == path_pass(target, probes.take(k), explain),
    decreases probes.len(),
{
    if k == probes.len() {
        assert(probes.take(k) =~= probes);
    } else {
        assert(probes.drop_last().take(k) =~= probes.take(k));
        lemma_path_pass_stays_failed(target, probes.drop_last(), k, explain);
    }
}

/// Finds the processes that hold a file, from what was seen of each process:
/// a process is a holder with the reason `open fd` where one of its
/// descriptors refers to the file, else with the reason `mmap` where it maps
/// the file.
pub fn whoholds_path(target: FileId, probes: Vec<PathProbe>) -> (r: Result<
    CorrelationResult,
    std::io::Error,
>)
    ensures
        outcome_view(r) == reported(path_pass(target, probes@, false)),
{
    run_path_pass(target, probes, false)
}

/// Finds the processes that hold a file, each with all its reasons: `open
/// fd` where one of its descriptors refers to the file, `memory mapped`
/// where it maps the file.
pub fn whyopen_path(target: FileId, probes: Vec<PathProbe>) -> (r: Result<
    CorrelationResult,
    std::io::Error,
>)
    ensures
        outcome_view(r) == reported(path_pass(target, probes@, true)),
{
    run_path_pass(target, probes, true)
}

/// The finding on one process in a pass for a file.
pub open spec fn probe_finding(target: FileId, probe: PathProbe, explain: bool) -> FindingView {
    path_finding(descriptor_check(probe, target), mapping_check(probe, target), explain)
}

/// A process counts as skipped exactly where both of its checks were
/// refused. One check refused and the other made, with or without a match,
/// does not make it a skipped one.
pub proof fn lemma_skipped_only_when_both_refused(
    descriptors: ProcAccess<bool>,
    mappings: ProcAccess<bool>,
    explain: bool,
)
    ensures
        path_finding(descriptors, mappings, explain) is Skipped <==> (descriptors
            is PermissionDenied && mappings is PermissionDenied),
{
}

/// One of the items has the property.
pub open spec fn some_item<T>(items: Seq<T>, has: spec_fn(T) -> bool) -> bool {
    exists|i: int| 0 <= i < items.len() && has(#[trigger] items[i])
}

/// One of the items has a property exactly if the last one has it or one
/// before the last.
pub proof fn lemma_some_item_last<T>(items: Seq<T>, has: spec_fn(T) -> bool)
    requires
        items.len() > 0,
    ensures
        some_item(items, has) <==> some_item(items.drop_last(), has) || has(items.last()),
{
    let front = items.drop_last();
    if some_item(front, has) {
        let i = choose|i: int| 0 <= i < front.len() && has(#[trigger] front[i]);
        assert(items[i] == front[i]);
    }
    if has(items.last()) {
        assert(items[items.len() - 1] == items.last());
    }
    if some_item(items, has) {
        let i = choose|i: int| 0 <= i < items.len() && has(#[trigger] items[i]);
        if i < front.len() {
            assert(front[i] == items[i]);
        }
    }
}

/// A process has this id and both of its checks were refused.
pub open spec fn refused_as(pid: i32, target: FileId) -> spec_fn(PathProbe) -> bool {
    |probe: PathProbe|
        probe.pid == pid && descriptor_check(probe, target) is PermissionDenied && mapping_check(
            probe,
            target,
        ) is PermissionDenied
}

/// A process has this id and the finding on it is that it holds the file.
pub open spec fn holds_as(pid: i32, target: FileId, explain: bool) -> spec_fn(PathProbe) -> bool {
    |probe: PathProbe| probe.pid == pid && probe_finding(target, probe, explain) is Holder
}

/// The processes that a pass for a file has skipped are those for which both
/// checks were refused; it has a holder under a process id exactly where the
/// finding on a process with this id is that it holds the file; and each
/// holder carries the id that it stands under.
pub proof fn lemma_path_pass_accounts(target: FileId, probes: Seq<PathProbe>, explain: bool)
    requires
        path_pass(target, probes, explain) is Ok,
    ensures
        forall|pid: i32|
            path_pass(target, probes, explain)->Ok_0.skipped.contains(pid) <==> some_item(
                probes,
                refused_as(pid, target),
            ),
        forall|pid: i32|
            path_pass(target, probes, explain)->Ok_0.holders.contains_key(pid) <==> some_item(
                probes,
                holds_as(pid, target, explain),
            ),
        forall|pid: i32|
            path_pass(target, probes, explain)->Ok_0.holders.contains_key(pid) ==> (#[trigger] path_pass(
                target,
                probes,
                explain,
            )->Ok_0.holders[pid]).pid == pid,
    decreases probes.len(),
{
    if probes.len() > 0 {
        let last = probes.last();
        lemma_path_pass_accounts(target, probes.drop_last(), explain);
        lemma_skipped_only_when_both_refused(
            descriptor_check(last, target),
            mapping_check(last, target),
            explain,
        );
        assert forall|pid: i32|
            path_pass(target, probes, explain)->Ok_0.skipped.contains(pid) <==> some_item(
                probes,
                refused_as(pid, target),
            ) by {
            lemma_some_item_last(probes, refused_as(pid, target));
        }
        assert forall|pid: i32|
            path_pass(target, probes, explain)->Ok_0.holders.contains_key(pid) <==> some_item(
                probes,
                holds_as(pid, target, explain),
            ) by {
            lemma_some_item_last(probes, holds_as(pid, target, explain));
        }
    }
}

/// Where every process was seen once, a process that the pass has skipped is
/// none of its holders.
pub proof fn lemma_skipped_are_no_holders(target: FileId, probes: Seq<PathProbe>, explain: bool)
    requires
        path_pass(target, probes, explain) is Ok,
        forall|i: int, j: int|
            0 <= i < j < probes.len() ==> (#[trigger] probes[i]).pid != (#[trigger] probes[j]).pid,
    ensures
        forall|pid: i32|
            path_pass(target, probes, explain)->Ok_0.skipped.contains(pid) ==> !path_pass(
                target,
                probes,
                explain,
            )->Ok_0.holders.contains_key(pid),
{
    lemma_path_pass_accounts(target, probes, explain);
    let pass = path_pass(target, probes, explain)->Ok_0;
    assert forall|pid: i32| pass.skipped.contains(pid) implies !pass.holders.contains_key(pid) by {
        if pass.holders.contains_key(pid) {
            let i = choose|i: int|
                0 <= i < probes.len() && refused_as(pid, target)(#[trigger] probes[i]);
            let j = choose|j: int|
                0 <= j < probes.len() && holds_as(pid, target, explain)(#[trigger] probes[j]);
            lemma_skipped_only_when_both_refused(
                descriptor_check(probes[i], target),
                mapping_check(probes[i], target),
                explain,
            );
            assert(i == j);
        }
    }
}

/// Two sequences of sightings in which each process was seen with the same
/// id, the same outcome of both checks and the same command name.
pub open spec fn same_sightings(target: FileId, a: Seq<PathProbe>, b: Seq<PathProbe>) -> bool {
    &&& a.len() == b.len()
    &&& forall|i: int|
        0 <= i < a.len() ==> {
            &&& (#[trigger] a[i]).pid == b[i].pid
            &&& descriptor_check(a[i], target) == descriptor_check(b[i], target)
            &&& mapping_check(a[i], target) == mapping_check(b[i], target)
            &&& command_text(a[i].command) == command_text(b[i].command)
        }
}

/// A pass for a file is repeatable: two passes that see the same of every
/// process end with the same holders and the same skipped processes, or with
/// the same error.
pub proof fn lemma_path_pass_repeatable(
    target: FileId,
    a: Seq<PathProbe>,
    b: Seq<PathProbe>,
    explain: bool,
)
    requires
        same_sightings(target, a, b),
    ensures
        path_pass(target, a, explain) == path_pass(target, b, explain),
    decreases a.len(),
{
    if a.len() > 0 {
        assert(same_sightings(target, a.drop_last(), b.drop_last())) by {
            assert forall|i: int| 0 <= i < a.drop_last().len() implies {
                &&& (#[trigger] a.drop_last()[i]).pid == b.drop_last()[i].pid
                &&& descriptor_check(a.drop_last()[i], target) == descriptor_check(
                    b.drop_last()[i],
                    target,
                )
                &&& mapping_check(a.drop_last()[i], target) == mapping_check(
                    b.drop_last()[i],
                    target,
                )
                &&& command_text(a.drop_last()[i].command) == command_text(
                    b.drop_last()[i].command,
                )
            } by {
                assert(a.drop_last()[i] == a[i]);
                assert(b.drop_last()[i] == b[i]);
            }
        }
        lemma_path_pass_repeatable(target, a.drop_last(), b.drop_last(), explain);
        assert(a.last() == a[a.len() - 1]);
        assert(b.last() == b[a.len() - 1]);
    }
}

} // verus!
