//! The self-check: the state of each check, how the checks tally, and the
//! exit code that the tally gives.

use crate::access::{error_text, ProcAccess};
use crate::buildinfo::{short_sha, short_sha_text};
use crate::number::{decimal_text, push_decimal};
use crate::text::text_eq;
use vstd::prelude::*;
use vstd::string::StringExecFns;

verus! {

/// How a check came out.
#[derive(Clone, Copy, Debug, PartialEq, Eq, Structural)]
pub enum CheckStatus {
    Pass,
    Warn,
    Fail,
}

/// One check of the self-check: its name, how it came out, and what it has to
/// say.
#[derive(Clone, Debug)]
pub struct CheckResult {
    pub check: &'static str,
    pub status: CheckStatus,
    pub message: String,
}

/// How many checks passed, warned and failed.
#[derive(Clone, Copy, Debug, PartialEq, Eq, Structural)]
pub struct Tally {
    pub ok: usize,
    pub warn: usize,
    pub fail: usize,
}

/// The states of some checks.
pub open spec fn statuses(checks: Seq<CheckResult>) -> Seq<CheckStatus> {
    checks.map_values(|c: CheckResult| c.status)
}

/// How often a state occurs among some.
pub open spec fn count_of(all: Seq<CheckStatus>, status: CheckStatus) -> nat
    decreases all.len(),
{
    if all.len() == 0 {
        0
    } else {
        count_of(all.drop_last(), status) + if all.last() == status {
            1nat
        } else {
            0nat
        }
    }
}

/// A state occurs at most as often as there are checks.
pub proof fn lemma_count_bounded(all: Seq<CheckStatus>, status: CheckStatus)
    ensures
        count_of(all, status) <= all.len(),
    decreases all.len(),
{
    if all.len() > 0 {
        lemma_count_bounded(all.drop_last(), status);
    }
}

/// Tallies the checks.
pub fn tally(checks: &Vec<CheckResult>) -> (t: Tally)
    ensures
        t.ok == count_of(statuses(checks@), CheckStatus::Pass),
        t.warn == count_of(statuses(checks@), CheckStatus::Warn),
        t.fail == count_of(statuses(checks@), CheckStatus::Fail),
{
    let ghost all = statuses(checks@);
    let mut ok: usize = 0;
    let mut warn: usize = 0;
    let mut fail: usize = 0;
    let mut i: usize = 0;
    while i < checks.len()
        invariant
            i <= checks.len(),
            all == statuses(checks@),
            ok == count_of(all.take(i as int), CheckStatus::Pass),
            warn == count_of(all.take(i as int), CheckStatus::Warn),
            fail == count_of(all.take(i as int), CheckStatus::Fail),
        decreases checks.len() - i,
    {
        proof {
            assert(all.take(i + 1).drop_last() =~= all.take(i as int));
            assert(all.take(i + 1).last() == checks@[i as int].status);
            lemma_count_bounded(all.take(i as int), CheckStatus::Pass);
            lemma_count_bounded(all.take(i as int), CheckStatus::Warn);
            lemma_count_bounded(all.take(i as int), CheckStatus::Fail);
        }
        match checks[i].status {
            CheckStatus::Pass => {
                ok += 1;
            },
            CheckStatus::Warn => {
                warn += 1;
            },
            CheckStatus::Fail => {
                fail += 1;
            },
        }
        i += 1;
    }
    assert(all.take(i as int) =~= all);
    Tally { ok, warn, fail }
}

impl Tally {
    /// The exit code of the self-check: 2 where a check failed, else 1 where
    /// one warned, else 0.
    pub fn exit_code(&self) -> (code: i32)
        ensures
            code == if self.fail > 0 {
                2i32
            } else if self.warn > 0 {
                1i32
            } else {
                0i32
            },
    {
        if self.fail > 0 {
            2
        } else if self.warn > 0 {
            1
        } else {
            0
        }
    }
}

/// What the check of the build stamps has to say.
pub open spec fn build_metadata_message(target: Seq<char>, sha: Seq<char>) -> Seq<char> {
    if target == "unknown"@ && sha == "unknown"@ {
        "build target and git sha are unknown (local builds may omit env vars)"@
    } else if target == "unknown"@ {
        "build target is unknown"@
    } else if sha == "unknown"@ {
        "git sha is unknown"@
    } else {
        target + " ("@ + short_sha_text(sha) + ")"@
    }
}

/// What the check of the build stamps comes to: it warns where one of them
/// is unknown, and else passes with the target and the short revision.
pub open spec fn build_metadata_check(target: Seq<char>, sha: Seq<char>) -> CheckView {
    CheckView {
        check: "build_meta"@,
        status: if target == "unknown"@ || sha == "unknown"@ {
            CheckStatus::Warn
        } else {
            CheckStatus::Pass
        },
        message: build_metadata_message(target, sha),
    }
}

/// Checks the build stamps.
pub fn check_build_metadata(target: &str, sha: &str) -> (r: CheckResult)
    ensures
        r@ == build_metadata_check(target@, sha@),
{
    let no_target = text_eq(target, "unknown");
    let no_sha = text_eq(sha, "unknown");
    if no_target && no_sha {
        return CheckResult {
            check: "build_meta",
            status: CheckStatus::Warn,
            message: String::from_str(
                "build target and git sha are unknown (local builds may omit env vars)",
            ),
        };
    }
    if no_target {
        return CheckResult {
            check: "build_meta",
            status: CheckStatus::Warn,
            message: String::from_str("build target is unknown"),
        };
    }
    if no_sha {
        return CheckResult {
            check: "build_meta",
            status: CheckStatus::Warn,
            message: String::from_str("git sha is unknown"),
        };
    }
    let mut message = String::from_str(target);
    message.append(" (");
    message.append(short_sha(sha));
    message.append(")");
    CheckResult { check: "build_meta", status: CheckStatus::Pass, message }
}

/// A check as a value: its texts as sequences of characters.
pub struct CheckView {
    pub check: Seq<char>,
    pub status: CheckStatus,
    pub message: Seq<char>,
}

impl View for CheckResult {
    type V = CheckView;

    open spec fn view(&self) -> CheckView {
        CheckView { check: self.check@, status: self.status, message: self.message@ }
    }
}

/// A check with a message made of a fixed part and a detail.
fn report(check: &'static str, status: CheckStatus, fixed: &str, detail: &str) -> (r: CheckResult)
    ensures
        r@ == (CheckView { check: check@, status, message: fixed@ + detail@ }),
{
    let mut message = String::from_str(fixed);
    message.append(detail);
    CheckResult { check, status, message }
}

/// A check with a message made of a count and a fixed part.
fn report_count(check: &'static str, count: usize, fixed: &str) -> (r: CheckResult)
    ensures
        r@ == (CheckView {
            check: check@,
            status: CheckStatus::Pass,
            message: decimal_text(count as nat) + fixed@,
        }),
{
    let mut message = String::new();
    push_decimal(&mut message, count as u64);
    message.append(fixed);
    assert(message@ =~= decimal_text(count as nat) + fixed@);
    CheckResult { check, status: CheckStatus::Pass, message }
}

/// What the check of the operating system comes to.
pub open spec fn os_check(os: Seq<char>) -> CheckView {
    if os == "linux"@ {
        CheckView { check: "os"@, status: CheckStatus::Pass, message: "linux"@ }
    } else {
        CheckView { check: "os"@, status: CheckStatus::Fail, message: "unsupported OS: "@ + os }
    }
}

/// Checks the operating system: only Linux is supported.
pub fn check_os(os: &str) -> (r: CheckResult)
    ensures
        r@ == os_check(os@),
{
    if text_eq(os, "linux") {
        let r = report("os", CheckStatus::Pass, "linux", "");
        assert("linux"@ + ""@ =~= "linux"@) by {
            reveal_strlit("");
        }
        r
    } else {
        report("os", CheckStatus::Fail, "unsupported OS: ", os)
    }
}

/// What the check of the process-information filesystem comes to, from
/// whether its root is a directory or from the failure to look.
pub open spec fn procfs_check(looked: Result<bool, String>) -> CheckView {
    match looked {
        Ok(true) => CheckView {
            check: "procfs"@,
            status: CheckStatus::Pass,
            message: "/proc present"@,
        },
        Ok(false) => CheckView {
            check: "procfs"@,
            status: CheckStatus::Fail,
            message: "/proc is not a directory"@,
        },
        Err(e) => CheckView {
            check: "procfs"@,
            status: CheckStatus::Fail,
            message: "/proc not accessible: "@ + e@,
        },
    }
}

/// Checks the process-information filesystem.
pub fn check_procfs(looked: Result<bool, String>) -> (r: CheckResult)
    ensures
        r@ == procfs_check(looked),
{
    proof {
        reveal_strlit("");
        assert("/proc present"@ + ""@ =~= "/proc present"@);
        assert("/proc is not a directory"@ + ""@ =~= "/proc is not a directory"@);
    }
    match looked {
        Ok(true) => report("procfs", CheckStatus::Pass, "/proc present", ""),
        Ok(false) => report("procfs", CheckStatus::Fail, "/proc is not a directory", ""),
        Err(e) => report("procfs", CheckStatus::Fail, "/proc not accessible: ", e.as_str()),
    }
}

/// What a check comes to that counts what could be read: it passes with the
/// count, or fails with the failure.
pub open spec fn counting_check(
    check: Seq<char>,
    counted: Result<usize, String>,
    unit: Seq<char>,
    failure: Seq<char>,
) -> CheckView {
    match counted {
        Ok(n) => CheckView {
            check,
            status: CheckStatus::Pass,
            message: decimal_text(n as nat) + unit,
        },
        Err(e) => CheckView { check, status: CheckStatus::Fail, message: failure + e@ },
    }
}

/// Checks that the processes can be listed.
pub fn check_list_pids(listed: Result<usize, String>) -> (r: CheckResult)
    ensures
        r@ == counting_check("pids"@, listed, " processes visible"@, "cannot list /proc: "@),
{
    match listed {
        Ok(n) => report_count("pids", n, " processes visible"),
        Err(e) => report("pids", CheckStatus::Fail, "cannot list /proc: ", e.as_str()),
    }
}

/// Checks that the socket tables can be read.
pub fn check_proc_net(parsed: Result<usize, String>) -> (r: CheckResult)
    ensures
        r@ == counting_check(
            "proc_net"@,
            parsed,
            " sockets parsed"@,
            "cannot read /proc/net/*: "@,
        ),
{
    match parsed {
        Ok(n) => report_count("proc_net", n, " sockets parsed"),
        Err(e) => report("proc_net", CheckStatus::Fail, "cannot read /proc/net/*: ", e.as_str()),
    }
}

/// What was found of the audit log.
#[derive(Clone, Debug, PartialEq, Eq)]
pub enum AuditLogState {
    Readable,
    Unreadable(String),
    Missing,
    Unknown(String),
}

/// What the check of the audit log comes to. It never fails: without the
/// log other sources are asked.
pub open spec fn audit_log_check(state: AuditLogState) -> CheckView {
    match state {
        AuditLogState::Readable => CheckView {
            check: "audit_log"@,
            status: CheckStatus::Pass,
            message: "audit log readable"@,
        },
        AuditLogState::Unreadable(e) => CheckView {
            check: "audit_log"@,
            status: CheckStatus::Warn,
            message: "audit log not readable: "@ + e@,
        },
        AuditLogState::Missing => CheckView {
            check: "audit_log"@,
            status: CheckStatus::Warn,
            message: "audit log not present (lasttouch will use metadata/journal)"@,
        },
        AuditLogState::Unknown(e) => CheckView {
            check: "audit_log"@,
            status: CheckStatus::Warn,
            message: "audit log metadata error: "@ + e@,
        },
    }
}

/// Checks the audit log.
pub fn check_audit_log(state: AuditLogState) -> (r: CheckResult)
    ensures
        r@ == audit_log_check(state),
{
    proof {
        reveal_strlit("");
        assert("audit log readable"@ + ""@ =~= "audit log readable"@);
        assert("audit log not present (lasttouch will use metadata/journal)"@ + ""@
            =~= "audit log not present (lasttouch will use metadata/journal)"@);
    }
    match state {
        AuditLogState::Readable => report("audit_log", CheckStatus::Pass, "audit log readable", ""),
        AuditLogState::Unreadable(e) => report(
            "audit_log",
            CheckStatus::Warn,
            "audit log not readable: ",
            e.as_str(),
        ),
        AuditLogState::Missing => report(
            "audit_log",
            CheckStatus::Warn,
            "audit log not present (lasttouch will use metadata/journal)",
            "",
        ),
        AuditLogState::Unknown(e) => report(
            "audit_log",
            CheckStatus::Warn,
            "audit log metadata error: ",
            e.as_str(),
        ),
    }
}

/// What the check of the journal's command comes to, from whether it ran
/// with success or from the failure to run it. It never fails.
pub open spec fn journalctl_check(ran: Result<bool, String>) -> CheckView {
    match ran {
        Ok(true) => CheckView {
            check: "journalctl"@,
            status: CheckStatus::Pass,
            message: "available"@,
        },
        Ok(false) => CheckView {
            check: "journalctl"@,
            status: CheckStatus::Warn,
            message: "present but returned non-zero"@,
        },
        Err(e) => CheckView {
            check: "journalctl"@,
            status: CheckStatus::Warn,
            message: "not available: "@ + e@,
        },
    }
}

/// Checks the journal's command.
pub fn check_journalctl(ran: Result<bool, String>) -> (r: CheckResult)
    ensures
        r@ == journalctl_check(ran),
{
    proof {
        reveal_strlit("");
        assert("available"@ + ""@ =~= "available"@);
        assert("present but returned non-zero"@ + ""@ =~= "present but returned non-zero"@);
    }
    match ran {
        Ok(true) => report("journalctl", CheckStatus::Pass, "available", ""),
        Ok(false) => report("journalctl", CheckStatus::Warn, "present but returned non-zero", ""),
        Err(e) => report("journalctl", CheckStatus::Warn, "not available: ", e.as_str()),
    }
}

/// Whether a check is the one of the access to a process, made from a read
/// of the command name of the first process: it passes where the read
/// succeeded, and warns where it did not, whatever the reason; for a fatal
/// failure its message ends with the text of the error.
pub open spec fn is_proc_access_check(read: ProcAccess<String>, r: CheckView) -> bool {
    &&& r.check == "proc_access"@
    &&& r.status == if read is Success {
        CheckStatus::Pass
    } else {
        CheckStatus::Warn
    }
    &&& match read {
        ProcAccess::Success(_) => r.message == "can read /proc/1/comm"@,
        ProcAccess::PermissionDenied => r.message
            == "permission denied reading /proc/1/comm (hidepid?)"@,
        ProcAccess::Gone => r.message == "/proc/1/comm not found"@,
        ProcAccess::Fatal(_) => exists|text: Seq<char>|
            r.message == "error reading /proc/1/comm: "@ + text,
    }
}

/// Checks that the command name of the first process can be read.
pub fn check_proc_access_smoke(read: ProcAccess<String>) -> (r: CheckResult)
    ensures
        is_proc_access_check(read, r@),
{
    proof {
        reveal_strlit("");
        assert("can read /proc/1/comm"@ + ""@ =~= "can read /proc/1/comm"@);
        assert("permission denied reading /proc/1/comm (hidepid?)"@ + ""@
            =~= "permission denied reading /proc/1/comm (hidepid?)"@);
        assert("/proc/1/comm not found"@ + ""@ =~= "/proc/1/comm not found"@);
    }
    match read {
        ProcAccess::Success(_) => report("proc_access", CheckStatus::Pass, "can read /proc/1/comm", ""),
        ProcAccess::PermissionDenied => report(
            "proc_access",
            CheckStatus::Warn,
            "permission denied reading /proc/1/comm (hidepid?)",
            "",
        ),
        ProcAccess::Gone => report("proc_access", CheckStatus::Warn, "/proc/1/comm not found", ""),
        ProcAccess::Fatal(e) => {
            let text = error_text(&e);
            report("proc_access", CheckStatus::Warn, "error reading /proc/1/comm: ", text.as_str())
        },
    }
}

/// What was found of the host, one finding for each check.
#[derive(Debug)]
pub struct HostFindings {
    pub os: String,
    pub procfs: Result<bool, String>,
    pub pids: Result<usize, String>,
    pub first_command: ProcAccess<String>,
    pub sockets: Result<usize, String>,
    pub audit_log: AuditLogState,
    pub journalctl: Result<bool, String>,
    pub build_target: String,
    pub git_sha: String,
}

/// Makes the checks of the self-check, in the order in which they are
/// reported: operating system, process-information filesystem, processes,
/// access to a process, socket tables, audit log, journal, build stamps.
pub fn collect_checks(found: HostFindings) -> (checks: Vec<CheckResult>)
    ensures
        checks@.len() == 8,
        checks@[0]@ == os_check(found.os@),
        checks@[1]@ == procfs_check(found.procfs),
        checks@[2]@ == counting_check(
            "pids"@,
            found.pids,
            " processes visible"@,
            "cannot list /proc: "@,
        ),
        is_proc_access_check(found.first_command, checks@[3]@),
        checks@[4]@ == counting_check(
            "proc_net"@,
            found.sockets,
            " sockets parsed"@,
            "cannot read /proc/net/*: "@,
        ),
        checks@[5]@ == audit_log_check(found.audit_log),
        checks@[6]@ == journalctl_check(found.journalctl),
        checks@[7]@ == build_metadata_check(found.build_target@, found.git_sha@),
{
    let HostFindings {
        os,
        procfs,
        pids,
        first_command,
        sockets,
        audit_log,
        journalctl,
        build_target,
        git_sha,
    } = found;
    let mut checks: Vec<CheckResult> = Vec::new();
    checks.push(check_os(os.as_str()));
    checks.push(check_procfs(procfs));
    checks.push(check_list_pids(pids));
    checks.push(check_proc_access_smoke(first_command));
    checks.push(check_proc_net(sockets));
    checks.push(check_audit_log(audit_log));
    checks.push(check_journalctl(journalctl));
    checks.push(check_build_metadata(build_target.as_str(), git_sha.as_str()));
    checks
}

} // verus!
