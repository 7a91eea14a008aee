use std::collections::BTreeSet;
use std::io;
use zenlixem::{
    parse_socket_inode, read_comm_best_effort, scan_pid_mmap_file, scan_pid_open_fd_file,
    scan_pid_open_fd_socket, target_port, DescriptorEntry, FileId, ProcAccess, ProcMapEntry, Reason,
};

fn region(dev_major: u32, dev_minor: u32, inode: u64) -> ProcMapEntry {
    ProcMapEntry { dev_major, dev_minor, inode, pathname: None }
}

fn link(fd: i32, target: &str) -> DescriptorEntry {
    DescriptorEntry {
        fd,
        raw_path: format!("/proc/1/fd/{}", fd),
        link_target: target.to_string(),
    }
}

fn fatal() -> io::Error {
    io::Error::new(io::ErrorKind::Other, "boom")
}

#[test]
fn reason_texts() {
    assert_eq!(Reason::OpenFd.as_str(), "open fd");
    assert_eq!(Reason::Mmap.as_str(), "mmap");
}

#[test]
fn socket_inode_forms() {
    assert_eq!(parse_socket_inode("socket:[46743]"), Some(46743));
    assert_eq!(parse_socket_inode("socket:[0]"), Some(0));
    assert_eq!(parse_socket_inode("socket:[18446744073709551615]"), Some(u64::MAX));
    assert_eq!(parse_socket_inode("socket:[18446744073709551616]"), None);
    assert_eq!(parse_socket_inode("socket:[]"), None);
    assert_eq!(parse_socket_inode("socket:["), None);
    assert_eq!(parse_socket_inode("socket:[12"), None);
    assert_eq!(parse_socket_inode("socket:[12]]"), None);
    assert_eq!(parse_socket_inode("socket:[1 2]"), None);
    assert_eq!(parse_socket_inode("socket:[+12]"), Some(12));
    assert_eq!(parse_socket_inode("socket:[-12]"), None);
    assert_eq!(parse_socket_inode("Socket:[12]"), None);
    assert_eq!(parse_socket_inode("pipe:[12]"), None);
    assert_eq!(parse_socket_inode("/var/log/syslog"), None);
    assert_eq!(parse_socket_inode("anon_inode:[eventfd]"), None);
    assert_eq!(parse_socket_inode(""), None);
    assert_eq!(parse_socket_inode(" socket:[12]"), None);
}

#[test]
fn command_best_effort() {
    assert_eq!(read_comm_best_effort(ProcAccess::Success("nginx".to_string())), "nginx");
    assert_eq!(read_comm_best_effort(ProcAccess::PermissionDenied), "<unknown>");
    assert_eq!(read_comm_best_effort(ProcAccess::Gone), "<unknown>");
    assert_eq!(read_comm_best_effort(ProcAccess::Fatal(fatal())), "<unknown>");
}

#[test]
fn descriptor_scan_finds_the_target() {
    let target = FileId { dev: 0x0801, inode: 77 };
    let ids = vec![
        None,
        Some(FileId { dev: 0x0801, inode: 76 }),
        Some(FileId { dev: 0x0802, inode: 77 }),
        Some(target),
    ];
    assert!(matches!(
        scan_pid_open_fd_file(ProcAccess::Success(ids), target),
        ProcAccess::Success(true)
    ));
}

#[test]
fn descriptor_scan_without_the_target() {
    let target = FileId { dev: 0x0801, inode: 77 };
    let ids = vec![None, Some(FileId { dev: 0x0801, inode: 76 }), Some(FileId { dev: 0x0802, inode: 77 })];
    assert!(matches!(
        scan_pid_open_fd_file(ProcAccess::Success(ids), target),
        ProcAccess::Success(false)
    ));
    assert!(matches!(
        scan_pid_open_fd_file(ProcAccess::Success(vec![]), target),
        ProcAccess::Success(false)
    ));
}

#[test]
fn descriptor_scan_passes_failures_on() {
    let target = FileId { dev: 1, inode: 1 };
    assert!(matches!(
        scan_pid_open_fd_file(ProcAccess::PermissionDenied, target),
        ProcAccess::PermissionDenied
    ));
    assert!(matches!(scan_pid_open_fd_file(ProcAccess::Gone, target), ProcAccess::Gone));
    match scan_pid_open_fd_file(ProcAccess::Fatal(fatal()), target) {
        ProcAccess::Fatal(e) => assert_eq!(e.to_string(), "boom"),
        other => panic!("unexpected result: {other:?}"),
    }
}

#[test]
fn mapping_scan_matches_device_and_inode() {
    let maps = vec![region(8, 1, 10), region(8, 2, 11), region(0, 0, 0)];
    assert!(matches!(
        scan_pid_mmap_file(ProcAccess::Success(maps.clone()), 8, 2, 11),
        ProcAccess::Success(true)
    ));
    assert!(matches!(
        scan_pid_mmap_file(ProcAccess::Success(maps.clone()), 8, 1, 11),
        ProcAccess::Success(false)
    ));
    assert!(matches!(
        scan_pid_mmap_file(ProcAccess::Success(maps.clone()), 9, 2, 11),
        ProcAccess::Success(false)
    ));
    assert!(matches!(
        scan_pid_mmap_file(ProcAccess::Success(maps), 8, 2, 12),
        ProcAccess::Success(false)
    ));
}

#[test]
fn mapping_scan_never_matches_anonymous_regions() {
    let maps = vec![region(0, 0, 0), region(8, 1, 0)];
    assert!(matches!(
        scan_pid_mmap_file(ProcAccess::Success(maps.clone()), 0, 0, 0),
        ProcAccess::Success(false)
    ));
    assert!(matches!(
        scan_pid_mmap_file(ProcAccess::Success(maps), 8, 1, 0),
        ProcAccess::Success(false)
    ));
}

#[test]
fn mapping_scan_passes_failures_on() {
    assert!(matches!(
        scan_pid_mmap_file(ProcAccess::PermissionDenied, 8, 1, 10),
        ProcAccess::PermissionDenied
    ));
    assert!(matches!(scan_pid_mmap_file(ProcAccess::Gone, 8, 1, 10), ProcAccess::Gone));
    assert!(matches!(
        scan_pid_mmap_file(ProcAccess::Fatal(fatal()), 8, 1, 10),
        ProcAccess::Fatal(_)
    ));
}

#[test]
fn socket_scan() {
    let inodes: BTreeSet<u64> = [100u64, 200].into_iter().collect();
    let links = vec![link(0, "/dev/null"), link(1, "socket:[150]"), link(2, "socket:[200]")];
    assert!(matches!(
        scan_pid_open_fd_socket(ProcAccess::Success(links), &inodes),
        ProcAccess::Success(true)
    ));
    let links = vec![link(0, "/dev/null"), link(1, "socket:[150]"), link(2, "")];
    assert!(matches!(
        scan_pid_open_fd_socket(ProcAccess::Success(links), &inodes),
        ProcAccess::Success(false)
    ));
    assert!(matches!(
        scan_pid_open_fd_socket(ProcAccess::Success(vec![link(3, "socket:[100]")]), &BTreeSet::new()),
        ProcAccess::Success(false)
    ));
    assert!(matches!(
        scan_pid_open_fd_socket(ProcAccess::PermissionDenied, &inodes),
        ProcAccess::PermissionDenied
    ));
    assert!(matches!(scan_pid_open_fd_socket(ProcAccess::Gone, &inodes), ProcAccess::Gone));
    assert!(matches!(
        scan_pid_open_fd_socket(ProcAccess::Fatal(fatal()), &inodes),
        ProcAccess::Fatal(_)
    ));
}

#[test]
fn a_target_that_reads_as_a_port_is_one() {
    for t in ["0", "80", "65535", "+443", "0080", "65536", "-1", "", "80 ", "8o", "/tmp/80", "80/tcp"] {
        assert_eq!(target_port(t), t.parse::<u16>().ok(), "{:?}", t);
    }
}
