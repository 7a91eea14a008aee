use std::io;
use zenlixem::{
    classify_proc_io_error, fd_dir, list_pids, parse_dev_hex, parse_map_line, read_comm,
    read_comm_access, read_fd_links, read_fd_links_access, read_proc_maps,
    read_proc_maps_access, ProcAccess, ProcMapEntry,
};

fn lines(text: &str) -> Vec<String> {
    text.lines().map(|l| l.to_string()).collect()
}

fn not_found() -> io::Error {
    io::Error::from(io::ErrorKind::NotFound)
}

#[test]
fn parse_dev_hex_ok() {
    assert_eq!(parse_dev_hex("08:01"), Some((8, 1)));
}

#[test]
fn parse_dev_hex_bad() {
    assert_eq!(parse_dev_hex("zz:01"), None);
}

#[test]
fn access_gone_on_nonexistent_pid() {
    match read_comm_access(Err(not_found())) {
        ProcAccess::Gone => {}
        other => panic!("unexpected result: {other:?}"),
    }
    match read_fd_links_access(-1, Err(not_found())) {
        ProcAccess::Gone => {}
        other => panic!("unexpected result: {other:?}"),
    }
    match read_proc_maps_access(Err(not_found())) {
        ProcAccess::Gone => {}
        other => panic!("unexpected result: {other:?}"),
    }
}

#[test]
fn access_classification() {
    assert!(matches!(
        classify_proc_io_error::<u8>(io::Error::from(io::ErrorKind::PermissionDenied)),
        ProcAccess::PermissionDenied
    ));
    assert!(matches!(classify_proc_io_error::<u8>(not_found()), ProcAccess::Gone));
    match classify_proc_io_error::<u8>(io::Error::new(io::ErrorKind::InvalidData, "bad")) {
        ProcAccess::Fatal(e) => assert_eq!(e.kind(), io::ErrorKind::InvalidData),
        other => panic!("unexpected result: {other:?}"),
    }
}

#[test]
fn access_success_carries_the_value() {
    match read_comm_access(Ok("bash\n".to_string())) {
        ProcAccess::Success(name) => assert_eq!(name, "bash"),
        other => panic!("unexpected result: {other:?}"),
    }
    match read_proc_maps_access(Ok(lines("a b c 08:01 7 /x\n"))) {
        ProcAccess::Success(v) => assert_eq!(v.len(), 1),
        other => panic!("unexpected result: {other:?}"),
    }
}

#[test]
fn parse_dev_hex_forms() {
    assert_eq!(parse_dev_hex("fd:00"), Some((0xfd, 0)));
    assert_eq!(parse_dev_hex("FD:0a"), Some((0xfd, 10)));
    assert_eq!(parse_dev_hex("ffffffff:ffffffff"), Some((u32::MAX, u32::MAX)));
    assert_eq!(parse_dev_hex("100000000:0"), None);
    assert_eq!(parse_dev_hex("08"), None);
    assert_eq!(parse_dev_hex("08:"), None);
    assert_eq!(parse_dev_hex(":01"), None);
    assert_eq!(parse_dev_hex(""), None);
    assert_eq!(parse_dev_hex("08:01:zz"), Some((8, 1)));
    assert_eq!(parse_dev_hex("+8:+1"), Some((8, 1)));
    assert_eq!(parse_dev_hex("-8:1"), None);
    assert_eq!(parse_dev_hex("8 :1"), None);
    assert_eq!(parse_dev_hex("0x8:1"), None);
}

#[test]
fn fd_dir_of_pid() {
    assert_eq!(fd_dir(1), "/proc/1/fd");
    assert_eq!(fd_dir(4321), "/proc/4321/fd");
    assert_eq!(fd_dir(0), "/proc/0/fd");
    assert_eq!(fd_dir(-1), "/proc/-1/fd");
    assert_eq!(fd_dir(i32::MAX), "/proc/2147483647/fd");
    assert_eq!(fd_dir(i32::MIN), "/proc/-2147483648/fd");
}

#[test]
fn read_comm_strips_line_ends() {
    assert_eq!(read_comm("bash\n"), "bash");
    assert_eq!(read_comm("bash\r\n"), "bash");
    assert_eq!(read_comm("bash\n\n\r"), "bash");
    assert_eq!(read_comm("bash"), "bash");
    assert_eq!(read_comm(""), "");
    assert_eq!(read_comm("\n"), "");
    assert_eq!(read_comm("a\nb\n"), "a\nb");
    assert_eq!(read_comm("tmux: server\n"), "tmux: server");
    assert_eq!(read_comm("caf\u{e9} \n"), "caf\u{e9} ");
}

#[test]
fn map_line_with_path() {
    let e = parse_map_line(
        "7f1c2a000000-7f1c2a021000 r--p 00000000 08:01 1835082   /usr/lib/libc.so.6",
    );
    assert_eq!(
        e,
        Some(ProcMapEntry {
            dev_major: 8,
            dev_minor: 1,
            inode: 1835082,
            pathname: Some("/usr/lib/libc.so.6".to_string()),
        })
    );
}

#[test]
fn map_line_anonymous_has_no_path() {
    let e = parse_map_line("7ffd1c000000-7ffd1c021000 rw-p 00000000 00:00 0");
    assert_eq!(
        e,
        Some(ProcMapEntry { dev_major: 0, dev_minor: 0, inode: 0, pathname: None })
    );
}

#[test]
fn map_line_path_is_the_sixth_field_only() {
    let e = parse_map_line("a-b r-xp 0 fd:02 12 /tmp/with space (deleted)").unwrap();
    assert_eq!(e.pathname.as_deref(), Some("/tmp/with"));
    assert_eq!((e.dev_major, e.dev_minor, e.inode), (0xfd, 2, 12));
}

#[test]
fn map_line_malformed_is_rejected() {
    assert_eq!(parse_map_line(""), None);
    assert_eq!(parse_map_line("a-b r-xp 0 08:01"), None);
    assert_eq!(parse_map_line("a-b r-xp 0 0801 12"), None);
    assert_eq!(parse_map_line("a-b r-xp 0 zz:01 12"), None);
    assert_eq!(parse_map_line("a-b r-xp 0 08:01 1x"), None);
    assert_eq!(parse_map_line("a-b r-xp 0 08:01 -1"), None);
    assert_eq!(parse_map_line("a-b r-xp 0 08:01 18446744073709551616"), None);
}

#[test]
fn maps_skip_malformed_lines_and_go_on() {
    let v = read_proc_maps(&lines(
        "a-b r--p 0 08:01 10 /one\n\
         garbage\n\
         c-d r--p 0 zz:01 11 /bad\n\
         e-f r--p 0 08:02 12 /two\n\
         \n\
         g-h rw-p 0 00:00 0\n",
    ));
    assert_eq!(v.len(), 3);
    assert_eq!(v[0].pathname.as_deref(), Some("/one"));
    assert_eq!((v[1].dev_minor, v[1].inode), (2, 12));
    assert_eq!(v[2].inode, 0);
    assert_eq!(v[2].pathname, None);
}

#[test]
fn maps_of_nothing() {
    assert_eq!(read_proc_maps(&Vec::new()), Vec::new());
}

#[test]
fn pids_are_positive_numbers_in_order() {
    let names: Vec<String> = ["self", "10", "2", "net", "1", "33", "thread-self", "0", "-4", "2x", ""]
        .iter()
        .map(|s| s.to_string())
        .collect();
    assert_eq!(list_pids(&names), vec![1, 2, 10, 33]);
}

#[test]
fn pids_keep_repeats_and_limits() {
    let names: Vec<String> = ["7", "+7", "007", "2147483647", "2147483648"]
        .iter()
        .map(|s| s.to_string())
        .collect();
    assert_eq!(list_pids(&names), vec![7, 7, 7, 2147483647]);
    assert_eq!(list_pids(&Vec::new()), Vec::<i32>::new());
}

#[test]
fn fd_links_sorted_by_number() {
    let listing = vec![
        ("10".to_string(), Some("socket:[77]".to_string())),
        ("2".to_string(), Some("/dev/pts/0".to_string())),
        ("x".to_string(), Some("/ignored".to_string())),
        ("0".to_string(), None),
    ];
    let v = read_fd_links(42, &listing);
    assert_eq!(v.len(), 3);
    assert_eq!((v[0].fd, v[0].raw_path.as_str(), v[0].link_target.as_str()), (0, "/proc/42/fd/0", ""));
    assert_eq!(
        (v[1].fd, v[1].raw_path.as_str(), v[1].link_target.as_str()),
        (2, "/proc/42/fd/2", "/dev/pts/0")
    );
    assert_eq!(
        (v[2].fd, v[2].raw_path.as_str(), v[2].link_target.as_str()),
        (10, "/proc/42/fd/10", "socket:[77]")
    );
}

#[test]
fn fd_links_with_equal_numbers_keep_their_order() {
    let listing = vec![
        ("3".to_string(), Some("b".to_string())),
        ("1".to_string(), Some("z".to_string())),
        ("+3".to_string(), Some("a".to_string())),
    ];
    let v = read_fd_links(1, &listing);
    let got: Vec<(i32, &str)> = v.iter().map(|e| (e.fd, e.link_target.as_str())).collect();
    assert_eq!(got, vec![(1, "z"), (3, "b"), (3, "a")]);
    assert_eq!(v[2].raw_path, "/proc/1/fd/+3");
}
