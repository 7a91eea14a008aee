use std::collections::HashMap;
use zenlixem::{
    audit_event_is_modification, escape_journal_regex, extract_audit_msg_id,
    extract_audit_seconds, extract_kv_hex_u64, extract_kv_string, extract_kv_u32, extract_kv_u64,
    line_is_blank, metadata_touch, open_flags_modify, parse_passwd, parse_passwd_line,
    try_audit_log, try_journalctl, uid_to_user, TouchInfo, TouchTime,
};

const SYSCALL: &str = "type=SYSCALL msg=audit(1700000000.123:456): arch=c000003e syscall=257 success=yes exit=3 a0=ffffff9c a1=55d0c8 a2=241 a3=1b6 items=2 ppid=1 pid=4242 auid=1000 uid=1000 gid=1000 comm=\"vim\" exe=\"/usr/bin/vim\" key=(null)";
const PATH: &str = "type=PATH msg=audit(1700000000.123:456): item=1 name=\"/etc/motd\" inode=77 dev=08:01 mode=0100644 ouid=0 ogid=0 rdev=00:00 nametype=NORMAL";

fn lines(all: &[&str]) -> Vec<String> {
    all.iter().map(|l| l.to_string()).collect()
}

fn users() -> HashMap<u32, String> {
    parse_passwd(&lines(&[
        "root:x:0:0:root:/root:/bin/bash",
        "alice:x:1000:1000:Alice:/home/alice:/bin/zsh",
    ]))
}

fn info(user: &str, process: &str, time: TouchTime, source: &str, metadata_only: bool) -> TouchInfo {
    TouchInfo {
        user: user.to_string(),
        process: process.to_string(),
        time,
        source: source.to_string(),
        metadata_only,
    }
}

#[test]
fn audit_msg_id_forms() {
    assert_eq!(extract_audit_msg_id(SYSCALL), Some("1700000000.123:456".to_string()));
    assert_eq!(extract_audit_msg_id("msg=audit(x)"), Some("x".to_string()));
    assert_eq!(extract_audit_msg_id("msg=audit()"), Some("".to_string()));
    assert_eq!(extract_audit_msg_id("msg=audit(1:2"), None);
    assert_eq!(extract_audit_msg_id("type=SYSCALL msg=audit"), None);
    assert_eq!(extract_audit_msg_id(""), None);
    assert_eq!(extract_audit_msg_id("msg=audit(a) msg=audit(b)"), Some("a".to_string()));
}

#[test]
fn audit_seconds_forms() {
    assert_eq!(extract_audit_seconds(SYSCALL), Some(1700000000));
    assert_eq!(extract_audit_seconds("msg=audit(12:9)"), Some(12));
    assert_eq!(extract_audit_seconds("msg=audit(12.5.7:9)"), Some(12));
    assert_eq!(extract_audit_seconds("msg=audit(.5:9)"), None);
    assert_eq!(extract_audit_seconds("msg=audit(12.5)"), None);
    assert_eq!(extract_audit_seconds("msg=audit(x:9)"), None);
    assert_eq!(extract_audit_seconds("no marker 12:9"), None);
}

#[test]
fn kv_string_forms() {
    assert_eq!(extract_kv_string(SYSCALL, "comm"), Some("vim".to_string()));
    assert_eq!(extract_kv_string(SYSCALL, "exe"), Some("/usr/bin/vim".to_string()));
    assert_eq!(extract_kv_string(SYSCALL, "success"), Some("yes".to_string()));
    assert_eq!(extract_kv_string(SYSCALL, "key"), Some("(null)".to_string()));
    assert_eq!(extract_kv_string(PATH, "name"), Some("/etc/motd".to_string()));
    assert_eq!(extract_kv_string(SYSCALL, "nope"), None);
    assert_eq!(extract_kv_string("a=\"unterminated", "a"), None);
    assert_eq!(extract_kv_string("a=\"\"", "a"), Some("".to_string()));
    assert_eq!(extract_kv_string("a=", "a"), Some("".to_string()));
    assert_eq!(extract_kv_string("a= b", "a"), Some("".to_string()));
    assert_eq!(extract_kv_string("a=1 a=2", "a"), Some("1".to_string()));
    // the first place where the key and `=` stand counts, even inside another key
    assert_eq!(extract_kv_string("auid=7 uid=8", "uid"), Some("7".to_string()));
    assert_eq!(extract_kv_string("x=\"with space\" y", "x"), Some("with space".to_string()));
}

#[test]
fn kv_numbers() {
    assert_eq!(extract_kv_u64(SYSCALL, "syscall"), Some(257));
    assert_eq!(extract_kv_u64(SYSCALL, "comm"), None);
    assert_eq!(extract_kv_u64(SYSCALL, "nope"), None);
    assert_eq!(extract_kv_u32(SYSCALL, "pid"), Some(1));
    assert_eq!(extract_kv_u32(SYSCALL, " pid"), Some(4242));
    assert_eq!(extract_kv_u32("uid=4294967295", "uid"), Some(u32::MAX));
    assert_eq!(extract_kv_u32("uid=4294967296", "uid"), None);
    assert_eq!(extract_kv_hex_u64(SYSCALL, "a2"), Some(0x241));
    assert_eq!(extract_kv_hex_u64(SYSCALL, "a0"), Some(0xffffff9c));
    assert_eq!(extract_kv_hex_u64("a1=zz", "a1"), None);
}

#[test]
fn open_flags() {
    assert!(!open_flags_modify(0));
    assert!(open_flags_modify(0o1));
    assert!(open_flags_modify(0o2));
    assert!(open_flags_modify(0o100));
    assert!(open_flags_modify(0o1000));
    assert!(open_flags_modify(0o101));
    assert!(!open_flags_modify(0o200000));
    assert!(!open_flags_modify(0o2000));
    assert!(open_flags_modify(u64::MAX));
}

#[test]
fn modifying_calls() {
    assert!(audit_event_is_modification(2, Some(0o1), None));
    assert!(!audit_event_is_modification(2, Some(0), Some(0o1)));
    assert!(!audit_event_is_modification(2, None, Some(0o1)));
    assert!(audit_event_is_modification(257, None, Some(0x241)));
    assert!(!audit_event_is_modification(257, Some(0o1), Some(0)));
    assert!(!audit_event_is_modification(257, Some(0o1), None));
    for call in [76u64, 77, 82, 87, 90, 92, 260, 263, 264, 268, 280, 316] {
        assert!(audit_event_is_modification(call, None, None), "{}", call);
    }
    for call in [0u64, 1, 3, 59, 75, 78, 256, 258, 317, u64::MAX] {
        assert!(!audit_event_is_modification(call, Some(u64::MAX), Some(u64::MAX)), "{}", call);
    }
}

#[test]
fn escaping_for_the_journal() {
    assert_eq!(escape_journal_regex("/var/log/syslog"), "/var/log/syslog");
    assert_eq!(escape_journal_regex("/etc/a.b"), "/etc/a\\.b");
    assert_eq!(escape_journal_regex("a-b"), "a\\-b");
    assert_eq!(
        escape_journal_regex(".^$|?*+()[]{}\\-"),
        "\\.\\^\\$\\|\\?\\*\\+\\(\\)\\[\\]\\{\\}\\\\\\-"
    );
    assert_eq!(escape_journal_regex(""), "");
    assert_eq!(escape_journal_regex("caf\u{e9}.txt"), "caf\u{e9}\\.txt");
}

#[test]
fn passwd_lines() {
    assert_eq!(parse_passwd_line("root:x:0:0:root:/root:/bin/bash"), Some((0, "root".to_string())));
    assert_eq!(parse_passwd_line("a:x:12"), Some((12, "a".to_string())));
    assert_eq!(parse_passwd_line("a::12:"), Some((12, "a".to_string())));
    assert_eq!(parse_passwd_line(":x:12:"), None);
    assert_eq!(parse_passwd_line("a:x"), None);
    assert_eq!(parse_passwd_line("a"), None);
    assert_eq!(parse_passwd_line(""), None);
    assert_eq!(parse_passwd_line("a:x::"), None);
    assert_eq!(parse_passwd_line("a:x:-1:"), None);
    assert_eq!(parse_passwd_line("a:x:4294967296:"), None);
    assert_eq!(parse_passwd_line("# comment"), None);
}

#[test]
fn passwd_names_and_fallback() {
    let names = users();
    assert_eq!(names.len(), 2);
    assert_eq!(uid_to_user(0, &names), "root");
    assert_eq!(uid_to_user(1000, &names), "alice");
    assert_eq!(uid_to_user(1001, &names), "1001");
    assert_eq!(uid_to_user(u32::MAX, &names), "4294967295");
    assert_eq!(uid_to_user(0, &HashMap::new()), "0");
}

#[test]
fn passwd_later_line_counts() {
    let names = parse_passwd(&lines(&["a:x:5:", "junk", "b:x:5:"]));
    assert_eq!(uid_to_user(5, &names), "b");
}

#[test]
fn audit_log_names_the_last_modifier() {
    let log = lines(&[SYSCALL, "type=CWD msg=audit(1700000000.123:456): cwd=\"/root\"", PATH]);
    let got = try_audit_log(&log, "/etc/motd", &users());
    assert_eq!(got, Some(info("alice", "vim", TouchTime::Seconds(1700000000), "audit", false)));
}

#[test]
fn audit_log_for_another_file_tells_nothing() {
    let log = lines(&[SYSCALL, PATH]);
    assert_eq!(try_audit_log(&log, "/etc/passwd", &users()), None);
    assert_eq!(try_audit_log(&Vec::new(), "/etc/motd", &users()), None);
    assert_eq!(try_audit_log(&lines(&["garbage", ""]), "/etc/motd", &users()), None);
}

#[test]
fn audit_log_needs_success_and_a_modifying_call() {
    let failed = SYSCALL.replace("success=yes", "success=no");
    assert_eq!(try_audit_log(&lines(&[&failed, PATH]), "/etc/motd", &users()), None);
    let read_only = SYSCALL.replace("a2=241", "a2=0");
    assert_eq!(try_audit_log(&lines(&[&read_only, PATH]), "/etc/motd", &users()), None);
    let other_call = SYSCALL.replace("syscall=257", "syscall=59");
    assert_eq!(try_audit_log(&lines(&[&other_call, PATH]), "/etc/motd", &users()), None);
    // the path line alone does not make an event a modification
    assert_eq!(try_audit_log(&lines(&[PATH]), "/etc/motd", &users()), None);
}

#[test]
fn audit_log_latest_event_wins() {
    let early_call = "type=SYSCALL msg=audit(100.0:1): syscall=82 success=yes uid=0 comm=\"mv\"";
    let early_path = "type=PATH msg=audit(100.0:1): name=\"/etc/motd\"";
    let late_call = "type=SYSCALL msg=audit(200.0:2): syscall=90 success=yes uid=1000 comm=\"chmod\"";
    let late_path = "type=PATH msg=audit(200.0:2): name=\"/etc/motd\"";
    let want = Some(info("alice", "chmod", TouchTime::Seconds(200), "audit", false));
    let log = lines(&[early_call, early_path, late_call, late_path]);
    assert_eq!(try_audit_log(&log, "/etc/motd", &users()), want);
    // lines of the two events interleaved
    let log = lines(&[late_call, early_call, early_path, late_path]);
    assert_eq!(try_audit_log(&log, "/etc/motd", &users()), want);
    // the later event first in the log: the earlier one does not replace it
    let log = lines(&[late_call, late_path, early_call, early_path]);
    assert_eq!(try_audit_log(&log, "/etc/motd", &users()), want);
}

#[test]
fn audit_log_defaults() {
    let call = "type=SYSCALL msg=audit(5.0:1): syscall=87 success=yes";
    let path = "type=PATH msg=audit(5.0:1): name=/tmp/x";
    let got = try_audit_log(&lines(&[path, call]), "/tmp/x", &users());
    assert_eq!(got, Some(info("root", "unknown", TouchTime::Seconds(5), "audit", false)));
    let got = try_audit_log(&lines(&[path, call]), "/tmp/x", &HashMap::new());
    assert_eq!(got, Some(info("0", "unknown", TouchTime::Seconds(5), "audit", false)));
}

#[test]
fn audit_log_event_without_a_time_is_no_match() {
    let call = "type=SYSCALL msg=audit(0.0:1): syscall=87 success=yes";
    let path = "type=PATH msg=audit(0.0:1): name=/tmp/x";
    assert_eq!(try_audit_log(&lines(&[call, path]), "/tmp/x", &users()), None);
}

#[test]
fn blank_lines() {
    assert!(line_is_blank(""));
    assert!(line_is_blank("  \t \r"));
    assert!(line_is_blank("\u{a0}\u{2003}\u{3000}"));
    assert!(!line_is_blank(" x "));
    assert!(!line_is_blank("\u{200b}"));
}

#[test]
fn journal_entry_fields() {
    let out = lines(&[
        "__CURSOR=s=abc;i=1",
        "__REALTIME_TIMESTAMP=1700000000123456",
        "_UID=1000",
        "_COMM=cp",
        "SYSLOG_IDENTIFIER=copyd",
        "MESSAGE=copied /etc/motd",
        "",
        "_COMM=other",
    ]);
    let got = try_journalctl(&out, &users());
    assert_eq!(got, Some(info("alice", "cp", TouchTime::Micros(1700000000123456), "journal", false)));
}

#[test]
fn journal_entry_fallbacks() {
    let out = lines(&["SYSLOG_IDENTIFIER=copyd", "_UID=77", "MESSAGE=a=b"]);
    let got = try_journalctl(&out, &users());
    assert_eq!(got, Some(info("77", "copyd", TouchTime::Now, "journal", false)));
    let out = lines(&["MESSAGE=x", "_UID=abc", "__REALTIME_TIMESTAMP=-5"]);
    let got = try_journalctl(&out, &users());
    assert_eq!(got, Some(info("unknown", "unknown", TouchTime::Now, "journal", false)));
    // the later of two lines with the same key counts
    let out = lines(&["_COMM=a", "_COMM=b"]);
    assert_eq!(try_journalctl(&out, &users()).unwrap().process, "b");
}

#[test]
fn journal_blank_output_tells_nothing() {
    assert_eq!(try_journalctl(&Vec::new(), &users()), None);
    assert_eq!(try_journalctl(&lines(&["", "  ", "\t"]), &users()), None);
}

#[test]
fn journal_output_that_begins_blank() {
    let out = lines(&["", "_COMM=cp"]);
    let got = try_journalctl(&out, &users());
    assert_eq!(got, Some(info("unknown", "unknown", TouchTime::Now, "journal", false)));
}

#[test]
fn metadata_only() {
    assert_eq!(
        metadata_touch(),
        info("unknown", "unknown", TouchTime::Modified, "metadata", true)
    );
}
