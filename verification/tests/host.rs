use std::io;
use zenlixem::{
    build_target, check_audit_log, collect_checks, check_build_metadata, check_journalctl, check_list_pids,
    check_os, check_proc_access_smoke, check_proc_net, check_procfs, classify_target_error,
    git_sha, is_bare_command, is_executable, path_entries, select_entry, short_sha, tally,
    AuditLogState, CheckResult, CheckStatus, Failure, HostFindings, ProcAccess, Tally,
};

fn shown(r: &CheckResult) -> (&str, CheckStatus, &str) {
    (r.check, r.status, r.message.as_str())
}

fn check(status: CheckStatus) -> CheckResult {
    CheckResult { check: "x", status, message: String::new() }
}

#[test]
fn build_stamps() {
    assert_eq!(build_target(Some("linux-amd64")), "linux-amd64");
    assert_eq!(build_target(None), "unknown");
    assert_eq!(git_sha(Some("0123456789abcdef")), "0123456789abcdef");
    assert_eq!(git_sha(None), "unknown");
}

#[test]
fn short_revisions() {
    assert_eq!(short_sha("0123456789abcdef"), "0123456");
    assert_eq!(short_sha("0123456"), "0123456");
    assert_eq!(short_sha("012345"), "012345");
    assert_eq!(short_sha("unknown"), "unknown");
    assert_eq!(short_sha(""), "");
    // seven bytes in would cut a character in two: the text stays whole
    assert_eq!(short_sha("abcdef\u{e9}gh"), "abcdef\u{e9}gh");
    assert_eq!(short_sha("abcde\u{e9}gh"), "abcde\u{e9}");
}

#[test]
fn bare_commands() {
    assert!(is_bare_command("gcc"));
    assert!(is_bare_command(""));
    assert!(is_bare_command("a.b-c"));
    assert!(!is_bare_command("/usr/bin/gcc"));
    assert!(!is_bare_command("./gcc"));
    assert!(!is_bare_command("gcc/"));
}

#[test]
fn search_path_entries() {
    assert_eq!(path_entries("/usr/bin:/bin"), vec!["/usr/bin", "/bin"]);
    assert_eq!(path_entries("/usr/bin"), vec!["/usr/bin"]);
    assert_eq!(path_entries(":/usr/bin::/bin:"), vec!["/usr/bin", "/bin"]);
    assert_eq!(path_entries(""), Vec::<String>::new());
    assert_eq!(path_entries(":::"), Vec::<String>::new());
    assert_eq!(path_entries("a:b:c"), vec!["a", "b", "c"]);
    assert_eq!(path_entries("/opt/my tools:."), vec!["/opt/my tools", "."]);
}

#[test]
fn executable_bits() {
    assert!(is_executable(true, 0o755));
    assert!(is_executable(true, 0o100));
    assert!(is_executable(true, 0o010));
    assert!(is_executable(true, 0o001));
    assert!(is_executable(true, 0o100755));
    assert!(!is_executable(true, 0o644));
    assert!(!is_executable(true, 0));
    assert!(!is_executable(false, 0o755));
}

#[test]
fn first_runnable_entry_is_selected() {
    assert_eq!(select_entry(&vec![false, true, true]), Some(1));
    assert_eq!(select_entry(&vec![true]), Some(0));
    assert_eq!(select_entry(&vec![false, false]), None);
    assert_eq!(select_entry(&vec![]), None);
}

#[test]
fn tally_and_exit_code() {
    let t = tally(&vec![
        check(CheckStatus::Pass),
        check(CheckStatus::Warn),
        check(CheckStatus::Pass),
        check(CheckStatus::Fail),
        check(CheckStatus::Warn),
        check(CheckStatus::Pass),
    ]);
    assert_eq!(t, Tally { ok: 3, warn: 2, fail: 1 });
    assert_eq!(t.exit_code(), 2);
    let t = tally(&vec![check(CheckStatus::Pass), check(CheckStatus::Warn)]);
    assert_eq!(t, Tally { ok: 1, warn: 1, fail: 0 });
    assert_eq!(t.exit_code(), 1);
    let t = tally(&vec![check(CheckStatus::Pass)]);
    assert_eq!(t.exit_code(), 0);
    let t = tally(&vec![]);
    assert_eq!(t, Tally { ok: 0, warn: 0, fail: 0 });
    assert_eq!(t.exit_code(), 0);
}

#[test]
fn build_metadata_check() {
    assert_eq!(
        shown(&check_build_metadata("unknown", "unknown")),
        (
            "build_meta",
            CheckStatus::Warn,
            "build target and git sha are unknown (local builds may omit env vars)"
        )
    );
    assert_eq!(
        shown(&check_build_metadata("unknown", "abc")),
        ("build_meta", CheckStatus::Warn, "build target is unknown")
    );
    assert_eq!(
        shown(&check_build_metadata("linux-amd64", "unknown")),
        ("build_meta", CheckStatus::Warn, "git sha is unknown")
    );
    assert_eq!(
        shown(&check_build_metadata("linux-amd64", "0123456789abcdef")),
        ("build_meta", CheckStatus::Pass, "linux-amd64 (0123456)")
    );
}

#[test]
fn host_checks() {
    assert_eq!(shown(&check_os("linux")), ("os", CheckStatus::Pass, "linux"));
    assert_eq!(shown(&check_os("macos")), ("os", CheckStatus::Fail, "unsupported OS: macos"));
    assert_eq!(shown(&check_procfs(Ok(true))), ("procfs", CheckStatus::Pass, "/proc present"));
    assert_eq!(
        shown(&check_procfs(Ok(false))),
        ("procfs", CheckStatus::Fail, "/proc is not a directory")
    );
    assert_eq!(
        shown(&check_procfs(Err("denied".to_string()))),
        ("procfs", CheckStatus::Fail, "/proc not accessible: denied")
    );
    assert_eq!(
        shown(&check_list_pids(Ok(312))),
        ("pids", CheckStatus::Pass, "312 processes visible")
    );
    assert_eq!(
        shown(&check_list_pids(Err("boom".to_string()))),
        ("pids", CheckStatus::Fail, "cannot list /proc: boom")
    );
    assert_eq!(
        shown(&check_proc_net(Ok(0))),
        ("proc_net", CheckStatus::Pass, "0 sockets parsed")
    );
    assert_eq!(
        shown(&check_proc_net(Err("boom".to_string()))),
        ("proc_net", CheckStatus::Fail, "cannot read /proc/net/*: boom")
    );
}

#[test]
fn audit_log_and_journal_checks() {
    assert_eq!(
        shown(&check_audit_log(AuditLogState::Readable)),
        ("audit_log", CheckStatus::Pass, "audit log readable")
    );
    assert_eq!(
        shown(&check_audit_log(AuditLogState::Unreadable("denied".to_string()))),
        ("audit_log", CheckStatus::Warn, "audit log not readable: denied")
    );
    assert_eq!(
        shown(&check_audit_log(AuditLogState::Missing)),
        (
            "audit_log",
            CheckStatus::Warn,
            "audit log not present (lasttouch will use metadata/journal)"
        )
    );
    assert_eq!(
        shown(&check_audit_log(AuditLogState::Unknown("odd".to_string()))),
        ("audit_log", CheckStatus::Warn, "audit log metadata error: odd")
    );
    assert_eq!(
        shown(&check_journalctl(Ok(true))),
        ("journalctl", CheckStatus::Pass, "available")
    );
    assert_eq!(
        shown(&check_journalctl(Ok(false))),
        ("journalctl", CheckStatus::Warn, "present but returned non-zero")
    );
    assert_eq!(
        shown(&check_journalctl(Err("none".to_string()))),
        ("journalctl", CheckStatus::Warn, "not available: none")
    );
}

#[test]
fn proc_access_check() {
    assert_eq!(
        shown(&check_proc_access_smoke(ProcAccess::Success("systemd".to_string()))),
        ("proc_access", CheckStatus::Pass, "can read /proc/1/comm")
    );
    assert_eq!(
        shown(&check_proc_access_smoke(ProcAccess::PermissionDenied)),
        ("proc_access", CheckStatus::Warn, "permission denied reading /proc/1/comm (hidepid?)")
    );
    assert_eq!(
        shown(&check_proc_access_smoke(ProcAccess::Gone)),
        ("proc_access", CheckStatus::Warn, "/proc/1/comm not found")
    );
    let e = io::Error::new(io::ErrorKind::Other, "boom");
    assert_eq!(
        shown(&check_proc_access_smoke(ProcAccess::Fatal(e))),
        ("proc_access", CheckStatus::Warn, "error reading /proc/1/comm: boom")
    );
}

#[test]
fn target_errors() {
    let f = classify_target_error(io::Error::from(io::ErrorKind::NotFound));
    assert!(matches!(f, Failure::InvalidInput(_)));
    assert_eq!(f.exit_code(), 1);
    let f = classify_target_error(io::Error::from(io::ErrorKind::PermissionDenied));
    assert!(matches!(f, Failure::Fatal(_)));
    assert_eq!(f.exit_code(), 2);
    let f = classify_target_error(io::Error::new(io::ErrorKind::Other, "x"));
    assert!(matches!(f, Failure::Fatal(_)));
}

#[test]
fn checks_are_collected_in_order() {
    let checks = collect_checks(HostFindings {
        os: "linux".to_string(),
        procfs: Ok(true),
        pids: Ok(3),
        first_command: ProcAccess::PermissionDenied,
        sockets: Err("boom".to_string()),
        audit_log: AuditLogState::Missing,
        journalctl: Ok(true),
        build_target: "linux-amd64".to_string(),
        git_sha: "0123456789".to_string(),
    });
    let names: Vec<&str> = checks.iter().map(|c| c.check).collect();
    assert_eq!(
        names,
        vec!["os", "procfs", "pids", "proc_access", "proc_net", "audit_log", "journalctl", "build_meta"]
    );
    let states: Vec<CheckStatus> = checks.iter().map(|c| c.status).collect();
    assert_eq!(
        states,
        vec![
            CheckStatus::Pass,
            CheckStatus::Pass,
            CheckStatus::Pass,
            CheckStatus::Warn,
            CheckStatus::Fail,
            CheckStatus::Warn,
            CheckStatus::Pass,
            CheckStatus::Pass,
        ]
    );
    assert_eq!(checks[7].message, "linux-amd64 (0123456)");
    let t = tally(&checks);
    assert_eq!(t, Tally { ok: 5, warn: 2, fail: 1 });
    assert_eq!(t.exit_code(), 2);
}
