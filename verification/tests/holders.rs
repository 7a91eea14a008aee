use std::io;
use zenlixem::{
    holder_finding_for_path, reasons_finding_for_path, whoholds_path, whyopen_path,
    CorrelationPass, FileId, PathProbe, ProcAccess, ProcMapEntry, Finding,
};

const TARGET: FileId = FileId { dev: 0x0801, inode: 4242 };

fn fatal(msg: &str) -> io::Error {
    io::Error::new(io::ErrorKind::Other, msg.to_string())
}

fn other_file() -> Option<FileId> {
    Some(FileId { dev: 0x0801, inode: 1 })
}

fn region(dev_major: u32, dev_minor: u32, inode: u64) -> ProcMapEntry {
    ProcMapEntry { dev_major, dev_minor, inode, pathname: Some("/x".to_string()) }
}

fn probe(
    pid: i32,
    descriptors: ProcAccess<Vec<Option<FileId>>>,
    mappings: ProcAccess<Vec<ProcMapEntry>>,
    command: &str,
) -> PathProbe {
    PathProbe { pid, descriptors, mappings, command: ProcAccess::Success(command.to_string()) }
}

fn opens() -> ProcAccess<Vec<Option<FileId>>> {
    ProcAccess::Success(vec![other_file(), None, Some(TARGET)])
}

fn opens_not() -> ProcAccess<Vec<Option<FileId>>> {
    ProcAccess::Success(vec![other_file(), None])
}

fn maps() -> ProcAccess<Vec<ProcMapEntry>> {
    ProcAccess::Success(vec![region(8, 2, 4242), region(8, 1, 4242)])
}

fn maps_not() -> ProcAccess<Vec<ProcMapEntry>> {
    ProcAccess::Success(vec![region(8, 2, 4242), region(0, 0, 0)])
}

fn reasons_of(v: Finding) -> Vec<String> {
    match v {
        Finding::Holder(r) => r,
        other => panic!("unexpected finding: {other:?}"),
    }
}

#[test]
fn holder_finding_open_descriptor_wins() {
    let all = [true, false];
    for mapped in all {
        let v = holder_finding_for_path(ProcAccess::Success(true), ProcAccess::Success(mapped));
        assert_eq!(reasons_of(v), vec!["open fd"]);
    }
    let v = holder_finding_for_path(ProcAccess::Success(true), ProcAccess::PermissionDenied);
    assert_eq!(reasons_of(v), vec!["open fd"]);
    let v = holder_finding_for_path(ProcAccess::Success(true), ProcAccess::Gone);
    assert_eq!(reasons_of(v), vec!["open fd"]);
    let v = holder_finding_for_path(ProcAccess::Success(true), ProcAccess::Fatal(fatal("m")));
    assert_eq!(reasons_of(v), vec!["open fd"]);
}

#[test]
fn holder_finding_mapping_is_second() {
    let v = holder_finding_for_path(ProcAccess::Success(false), ProcAccess::Success(true));
    assert_eq!(reasons_of(v), vec!["mmap"]);
    let v = holder_finding_for_path(ProcAccess::PermissionDenied, ProcAccess::Success(true));
    assert_eq!(reasons_of(v), vec!["mmap"]);
}

#[test]
fn holder_finding_skips_only_when_both_are_denied() {
    assert!(matches!(
        holder_finding_for_path(ProcAccess::PermissionDenied, ProcAccess::PermissionDenied),
        Finding::Skipped
    ));
    assert!(matches!(
        holder_finding_for_path(ProcAccess::PermissionDenied, ProcAccess::Success(false)),
        Finding::Clear
    ));
    assert!(matches!(
        holder_finding_for_path(ProcAccess::Success(false), ProcAccess::PermissionDenied),
        Finding::Clear
    ));
    assert!(matches!(
        holder_finding_for_path(ProcAccess::Success(false), ProcAccess::Success(false)),
        Finding::Clear
    ));
}

#[test]
fn holder_finding_gone_and_fatal() {
    assert!(matches!(
        holder_finding_for_path(ProcAccess::Gone, ProcAccess::Success(true)),
        Finding::Clear
    ));
    assert!(matches!(
        holder_finding_for_path(ProcAccess::Gone, ProcAccess::Fatal(fatal("m"))),
        Finding::Clear
    ));
    assert!(matches!(
        holder_finding_for_path(ProcAccess::Success(false), ProcAccess::Gone),
        Finding::Clear
    ));
    assert!(matches!(
        holder_finding_for_path(ProcAccess::PermissionDenied, ProcAccess::Gone),
        Finding::Clear
    ));
    match holder_finding_for_path(ProcAccess::Fatal(fatal("d")), ProcAccess::Success(true)) {
        Finding::Fatal(e) => assert_eq!(e.to_string(), "d"),
        other => panic!("unexpected finding: {other:?}"),
    }
    match holder_finding_for_path(ProcAccess::PermissionDenied, ProcAccess::Fatal(fatal("m"))) {
        Finding::Fatal(e) => assert_eq!(e.to_string(), "m"),
        other => panic!("unexpected finding: {other:?}"),
    }
}

#[test]
fn reasons_finding_lists_every_reason_in_order() {
    let v = reasons_finding_for_path(ProcAccess::Success(true), ProcAccess::Success(true));
    assert_eq!(reasons_of(v), vec!["memory mapped", "open fd"]);
    let v = reasons_finding_for_path(ProcAccess::Success(true), ProcAccess::Success(false));
    assert_eq!(reasons_of(v), vec!["open fd"]);
    let v = reasons_finding_for_path(ProcAccess::Success(false), ProcAccess::Success(true));
    assert_eq!(reasons_of(v), vec!["memory mapped"]);
    let v = reasons_finding_for_path(ProcAccess::Success(true), ProcAccess::PermissionDenied);
    assert_eq!(reasons_of(v), vec!["open fd"]);
    let v = reasons_finding_for_path(ProcAccess::PermissionDenied, ProcAccess::Success(true));
    assert_eq!(reasons_of(v), vec!["memory mapped"]);
}

#[test]
fn reasons_finding_skips_only_when_both_are_denied() {
    assert!(matches!(
        reasons_finding_for_path(ProcAccess::PermissionDenied, ProcAccess::PermissionDenied),
        Finding::Skipped
    ));
    assert!(matches!(
        reasons_finding_for_path(ProcAccess::PermissionDenied, ProcAccess::Success(false)),
        Finding::Clear
    ));
    assert!(matches!(
        reasons_finding_for_path(ProcAccess::Success(false), ProcAccess::PermissionDenied),
        Finding::Clear
    ));
    assert!(matches!(
        reasons_finding_for_path(ProcAccess::Success(false), ProcAccess::Success(false)),
        Finding::Clear
    ));
}

#[test]
fn reasons_finding_gone_and_fatal() {
    assert!(matches!(
        reasons_finding_for_path(ProcAccess::Success(true), ProcAccess::Gone),
        Finding::Clear
    ));
    assert!(matches!(
        reasons_finding_for_path(ProcAccess::Gone, ProcAccess::Success(true)),
        Finding::Clear
    ));
    match reasons_finding_for_path(ProcAccess::Success(true), ProcAccess::Fatal(fatal("m"))) {
        Finding::Fatal(e) => assert_eq!(e.to_string(), "m"),
        other => panic!("unexpected finding: {other:?}"),
    }
    match reasons_finding_for_path(ProcAccess::Fatal(fatal("d")), ProcAccess::Fatal(fatal("m"))) {
        Finding::Fatal(e) => assert_eq!(e.to_string(), "d"),
        other => panic!("unexpected finding: {other:?}"),
    }
    assert!(matches!(
        reasons_finding_for_path(ProcAccess::Gone, ProcAccess::Fatal(fatal("m"))),
        Finding::Clear
    ));
}

#[test]
fn whoholds_path_finds_holders_by_pid() {
    let probes = vec![
        probe(30, opens_not(), maps(), "mapper"),
        probe(10, opens(), maps(), "both"),
        probe(20, opens_not(), maps_not(), "neither"),
        probe(40, opens(), maps_not(), "opener"),
    ];
    let r = whoholds_path(TARGET, probes).unwrap();
    let got: Vec<(i32, &str, Vec<String>)> =
        r.holders.values().map(|h| (h.pid, h.command.as_str(), h.reasons.clone())).collect();
    assert_eq!(
        got,
        vec![
            (10, "both", vec!["open fd".to_string()]),
            (30, "mapper", vec!["mmap".to_string()]),
            (40, "opener", vec!["open fd".to_string()]),
        ]
    );
    assert_eq!(r.holders.keys().copied().collect::<Vec<i32>>(), vec![10, 30, 40]);
    assert_eq!(r.skipped_permission_denied, 0);
}

#[test]
fn whyopen_path_gives_all_reasons() {
    let probes = vec![
        probe(10, opens(), maps(), "both"),
        probe(20, opens_not(), maps_not(), "neither"),
        probe(30, opens_not(), maps(), "mapper"),
    ];
    let r = whyopen_path(TARGET, probes).unwrap();
    assert_eq!(r.holders.len(), 2);
    assert_eq!(r.holders[&10].reasons, vec!["memory mapped", "open fd"]);
    assert_eq!(r.holders[&10].command, "both");
    assert_eq!(r.holders[&10].pid, 10);
    assert_eq!(r.holders[&30].reasons, vec!["memory mapped"]);
    assert_eq!(r.skipped_permission_denied, 0);
}

#[test]
fn path_skip_accounting_counts_only_both_denied() {
    let probes = || {
        vec![
            // descriptors denied, mappings readable without a match: not skipped
            probe(1, ProcAccess::PermissionDenied, maps_not(), "a"),
            // mappings denied, descriptors readable without a match: not skipped
            probe(2, opens_not(), ProcAccess::PermissionDenied, "b"),
            // both denied: skipped
            probe(3, ProcAccess::PermissionDenied, ProcAccess::PermissionDenied, "c"),
            probe(4, ProcAccess::PermissionDenied, ProcAccess::PermissionDenied, "d"),
            // descriptors denied, mapping matches: a holder, not skipped
            probe(5, ProcAccess::PermissionDenied, maps(), "e"),
        ]
    };
    let r = whoholds_path(TARGET, probes()).unwrap();
    assert_eq!(r.skipped_permission_denied, 2);
    assert_eq!(r.holders.keys().copied().collect::<Vec<i32>>(), vec![5]);
    let r = whyopen_path(TARGET, probes()).unwrap();
    assert_eq!(r.skipped_permission_denied, 2);
    assert_eq!(r.holders.keys().copied().collect::<Vec<i32>>(), vec![5]);
}

#[test]
fn path_gone_processes_are_left_out_silently() {
    let probes = || {
        vec![
            probe(1, ProcAccess::Gone, maps(), "a"),
            probe(2, opens_not(), ProcAccess::Gone, "b"),
            probe(3, ProcAccess::PermissionDenied, ProcAccess::Gone, "c"),
        ]
    };
    let r = whoholds_path(TARGET, probes()).unwrap();
    assert!(r.holders.is_empty());
    assert_eq!(r.skipped_permission_denied, 0);
    let r = whyopen_path(TARGET, probes()).unwrap();
    assert!(r.holders.is_empty());
    assert_eq!(r.skipped_permission_denied, 0);
}

#[test]
fn whyopen_path_drops_a_process_that_went_away_after_a_match() {
    let r = whyopen_path(TARGET, vec![probe(1, opens(), ProcAccess::Gone, "a")]).unwrap();
    assert!(r.holders.is_empty());
    let r = whoholds_path(TARGET, vec![probe(1, opens(), ProcAccess::Gone, "a")]).unwrap();
    assert_eq!(r.holders.len(), 1);
}

#[test]
fn path_fatal_aborts_with_the_first_error() {
    let probes = || {
        vec![
            probe(1, opens(), maps(), "a"),
            probe(2, ProcAccess::Fatal(fatal("first")), maps(), "b"),
            probe(3, ProcAccess::Fatal(fatal("second")), maps(), "c"),
        ]
    };
    assert_eq!(whoholds_path(TARGET, probes()).unwrap_err().to_string(), "first");
    assert_eq!(whyopen_path(TARGET, probes()).unwrap_err().to_string(), "first");
}

#[test]
fn whoholds_path_does_not_look_at_mappings_after_a_match() {
    let probes = vec![probe(1, opens(), ProcAccess::Fatal(fatal("maps")), "a")];
    let r = whoholds_path(TARGET, probes).unwrap();
    assert_eq!(r.holders[&1].reasons, vec!["open fd"]);
    let probes = vec![probe(1, opens(), ProcAccess::Fatal(fatal("maps")), "a")];
    assert_eq!(whyopen_path(TARGET, probes).unwrap_err().to_string(), "maps");
}

#[test]
fn path_without_processes() {
    let r = whoholds_path(TARGET, Vec::new()).unwrap();
    assert!(r.holders.is_empty());
    assert_eq!(r.skipped_permission_denied, 0);
}

#[test]
fn path_command_falls_back_to_unknown() {
    let mut p = probe(9, opens(), maps_not(), "x");
    p.command = ProcAccess::PermissionDenied;
    let mut q = probe(8, opens(), maps_not(), "x");
    q.command = ProcAccess::Gone;
    let mut s = probe(7, opens(), maps_not(), "x");
    s.command = ProcAccess::Fatal(fatal("comm"));
    let r = whoholds_path(TARGET, vec![s, q, p]).unwrap();
    for pid in [7, 8, 9] {
        assert_eq!(r.holders[&pid].command, "<unknown>");
    }
}

#[test]
fn path_mapping_matches_by_decomposed_device() {
    // dev 0x0801 is major 8, minor 1
    let hit = probe(1, opens_not(), ProcAccess::Success(vec![region(8, 1, 4242)]), "a");
    let miss = probe(2, opens_not(), ProcAccess::Success(vec![region(1, 8, 4242)]), "b");
    let r = whoholds_path(TARGET, vec![hit, miss]).unwrap();
    assert_eq!(r.holders.keys().copied().collect::<Vec<i32>>(), vec![1]);
}

#[test]
fn path_target_with_inode_zero_is_mapped_by_nobody() {
    let target = FileId { dev: 0, inode: 0 };
    let p = probe(1, opens_not(), ProcAccess::Success(vec![region(0, 0, 0)]), "a");
    let r = whoholds_path(target, vec![p]).unwrap();
    assert!(r.holders.is_empty());
}

#[test]
fn path_same_pid_twice_keeps_the_later_record() {
    let probes = vec![probe(1, opens(), maps_not(), "old"), probe(1, opens_not(), maps(), "new")];
    let r = whoholds_path(TARGET, probes).unwrap();
    assert_eq!(r.holders.len(), 1);
    assert_eq!(r.holders[&1].command, "new");
    assert_eq!(r.holders[&1].reasons, vec!["mmap"]);
}

#[test]
fn path_pass_is_repeatable() {
    let probes = || {
        vec![
            probe(30, opens_not(), maps(), "mapper"),
            probe(10, opens(), maps(), "both"),
            probe(3, ProcAccess::PermissionDenied, ProcAccess::PermissionDenied, "c"),
        ]
    };
    assert_eq!(whoholds_path(TARGET, probes()).unwrap(), whoholds_path(TARGET, probes()).unwrap());
    assert_eq!(whyopen_path(TARGET, probes()).unwrap(), whyopen_path(TARGET, probes()).unwrap());
}

#[test]
fn pass_step_by_step() {
    let mut pass = CorrelationPass::new();
    assert!(pass.observe_path(TARGET, probe(5, opens(), maps(), "five"), true).is_ok());
    assert!(pass
        .observe_path(
            TARGET,
            probe(6, ProcAccess::PermissionDenied, ProcAccess::PermissionDenied, "six"),
            true
        )
        .is_ok());
    let e = pass
        .observe_path(TARGET, probe(7, ProcAccess::Fatal(fatal("stop")), maps(), "seven"), true)
        .unwrap_err();
    assert_eq!(e.to_string(), "stop");
    assert!(pass.record(8, "eight".to_string(), Finding::Clear).is_ok());
    assert!(pass.record(9, "nine".to_string(), Finding::Holder(vec!["r".to_string()])).is_ok());
    let r = pass.finish();
    assert_eq!(r.holders.keys().copied().collect::<Vec<i32>>(), vec![5, 9]);
    assert_eq!(r.holders[&9].reasons, vec!["r"]);
    assert_eq!(r.skipped_permission_denied, 1);
}

#[test]
fn a_process_with_the_file_open_is_a_holder() {
    // a process that keeps its log file open, among others that do not
    let log = FileId { dev: 0xfd01, inode: 917_530 };
    let me = 31_337;
    let probes = vec![
        probe(1, ProcAccess::PermissionDenied, ProcAccess::PermissionDenied, "systemd"),
        probe(812, ProcAccess::Success(vec![None, other_file()]), ProcAccess::Success(vec![]), "sshd"),
        probe(
            me,
            ProcAccess::Success(vec![other_file(), other_file(), None, Some(log)]),
            ProcAccess::Success(vec![region(0xfd, 1, 12)]),
            "logger",
        ),
    ];
    let r = whyopen_path(log, probes).unwrap();
    let mine = r.holders.get(&me).expect("the process that has the file open");
    assert_eq!(mine.pid, me);
    assert!(mine.reasons.iter().any(|reason| reason == "open fd"));
    assert!(r.holders.len() >= 1);
}
