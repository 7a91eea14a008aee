//! Who last modified a file, as far as the audit log or the journal tells:
//! the events of the audit log that name the file, and the fields of a
//! journal entry.

use crate::audit::{
    audit_event_is_modification, audit_msg_id, audit_seconds, contains_text, extract_audit_msg_id,
    extract_audit_seconds, extract_kv_hex_u64, extract_kv_string, extract_kv_u32, extract_kv_u64,
    first_occurrence, is_modification, kv_number, kv_text,
};
use crate::number::{parse_unsigned, unsigned_value};
use crate::passwd::{name_views, uid_to_user, user_text};
use crate::text::{
    chars_of, copy_range, find_char, first_index_from, is_space, is_whitespace, line_views,
    same_chars, text_eq,
};
use std::collections::HashMap;
use vstd::prelude::*;
use vstd::string::{StrSliceExecFns, StringExecFns};

verus! {

/// The characters that a pattern of the journal's search gives a meaning to.
pub open spec fn is_pattern_char(c: char) -> bool {
    c == '.' || c == '^' || c == '$' || c == '|' || c == '?' || c == '*' || c == '+' || c == '('
        || c == ')' || c == '[' || c == ']' || c == '{' || c == '}' || c == '\\' || c == '-'
}

/// A text as a pattern that matches the text itself: a backslash goes before
/// each character that a pattern gives a meaning to.
pub open spec fn escaped(s: Seq<char>) -> Seq<char>
    decreases s.len(),
{
    if s.len() == 0 {
        Seq::empty()
    } else if is_pattern_char(s.last()) {
        escaped(s.drop_last()) + seq!['\\', s.last()]
    } else {
        escaped(s.drop_last()).push(s.last())
    }
}

/// Writes a text as a pattern that matches the text itself.
pub fn escape_journal_regex(s: &str) -> (out: String)
    ensures
        out@ == escaped(s@),
{
    let chars = chars_of(s);
    let mut out = String::new();
    let mut i: usize = 0;
    assert(chars@.take(0) =~= Seq::<char>::empty());
    while i < chars.len()
        invariant
            i <= chars.len(),
            chars@ == s@,
            out@ == escaped(chars@.take(i as int)),
        decreases chars.len() - i,
    {
        let c = chars[i];
        let ghost before = out@;
        assert(chars@.take(i + 1).drop_last() =~= chars@.take(i as int));
        assert(chars@.take(i + 1).last() == c);
        assert(s@.subrange(i as int, i + 1) =~= seq![c]);
        if c == '.' || c == '^' || c == '$' || c == '|' || c == '?' || c == '*' || c == '+' || c
            == '(' || c == ')' || c == '[' || c == ']' || c == '{' || c == '}' || c == '\\' || c
            == '-' {
            proof {
                reveal_strlit("\\");
                assert("\\"@ =~= seq!['\\']);
            }
            out.append("\\");
            out.append(s.substring_char(i, i + 1));
            assert(out@ =~= before + seq!['\\', c]);
        } else {
            out.append(s.substring_char(i, i + 1));
            assert(out@ =~= before.push(c));
        }
        i += 1;
    }
    assert(chars@.take(i as int) =~= chars@);
    out
}

/// What the lines of one audit event have told so far.
#[derive(Clone, Debug)]
pub struct AuditEvent {
    pub sec: u64,
    pub uid: Option<u32>,
    pub comm: Option<String>,
    pub syscall: Option<u64>,
    pub a1: Option<u64>,
    pub a2: Option<u64>,
    pub has_target_path: bool,
    pub success: Option<bool>,
}

/// An audit event as a value.
pub struct AuditEventView {
    pub sec: u64,
    pub uid: Option<u32>,
    pub comm: Option<Seq<char>>,
    pub syscall: Option<u64>,
    pub a1: Option<u64>,
    pub a2: Option<u64>,
    pub has_target_path: bool,
    pub success: Option<bool>,
}

impl View for AuditEvent {
    type V = AuditEventView;

    open spec fn view(&self) -> AuditEventView {
        AuditEventView {
            sec: self.sec,
            uid: self.uid,
            comm: match self.comm {
                Some(c) => Some(c@),
                None => None,
            },
            syscall: self.syscall,
            a1: self.a1,
            a2: self.a2,
            has_target_path: self.has_target_path,
            success: self.success,
        }
    }
}

/// An event of which nothing is known yet.
pub open spec fn blank_event() -> AuditEventView {
    AuditEventView {
        sec: 0,
        uid: None,
        comm: None,
        syscall: None,
        a1: None,
        a2: None,
        has_target_path: false,
        success: None,
    }
}

/// A number of a field as an optional machine integer.
pub open spec fn as_u64(n: Option<nat>) -> Option<u64> {
    match n {
        Some(v) => Some(v as u64),
        None => None,
    }
}

/// A number of a field as an optional machine integer.
pub open spec fn as_u32(n: Option<nat>) -> Option<u32> {
    match n {
        Some(v) => Some(v as u32),
        None => None,
    }
}

/// An event after one more of its lines. The time is taken from the first
/// line that gives one other than zero. A line of type `SYSCALL` sets the
/// call, the user, the command, the two arguments and the success, each to
/// what the line says or to nothing. A line of type `PATH` whose name is the
/// target marks the event as one that names the target.
pub open spec fn event_after(ev: AuditEventView, line: Seq<char>, target: Seq<char>) -> AuditEventView {
    let timed = AuditEventView {
        sec: if ev.sec == 0 {
            match audit_seconds(line) {
                Some(s) => s,
                None => 0,
            }
        } else {
            ev.sec
        },
        ..ev
    };
    let called = if first_occurrence(line, "type=SYSCALL"@) is Some {
        AuditEventView {
            syscall: as_u64(kv_number(line, "syscall"@, 10, u64::MAX as nat)),
            uid: as_u32(kv_number(line, "uid"@, 10, u32::MAX as nat)),
            comm: kv_text(line, "comm"@),
            a1: as_u64(kv_number(line, "a1"@, 16, u64::MAX as nat)),
            a2: as_u64(kv_number(line, "a2"@, 16, u64::MAX as nat)),
            success: match kv_text(line, "success"@) {
                Some(s) => Some(s == "yes"@),
                None => None,
            },
            ..timed
        }
    } else {
        timed
    };
    if first_occurrence(line, "type=PATH"@) is Some && kv_text(line, "name"@) == Some(target) {
        AuditEventView { has_target_path: true, ..called }
    } else {
        called
    }
}

/// An event tells of a modification of the target: it names the target, its
/// call succeeded and modifies the file it names, and its time is known.
pub open spec fn tells_modification(ev: AuditEventView) -> bool {
    ev.has_target_path && ev.success == Some(true) && (ev.syscall matches Some(call)
        && is_modification(call, ev.a1, ev.a2)) && ev.sec > 0
}

/// The events read from an audit log, in the order in which their ids first
/// occurred, and the latest event so far that tells of a modification of the
/// target, with its time.
pub struct AuditScanView {
    pub events: Seq<(Seq<char>, AuditEventView)>,
    pub last_match: Option<(u64, Seq<char>)>,
}

/// Where the event with this id stands among the events, if it is there.
pub open spec fn event_index(events: Seq<(Seq<char>, AuditEventView)>, id: Seq<char>) -> Option<int>
    decreases events.len(),
{
    if events.len() == 0 {
        None
    } else if events.last().0 == id {
        Some(events.len() - 1)
    } else {
        event_index(events.drop_last(), id)
    }
}

/// The scan after one more line. A line without an event id changes
/// nothing. Any other line is entered into its event, which is a new one
/// where the id has not occurred; and where the event then tells of a
/// modification, at a time no earlier than the latest so far, it is the
/// latest from now on.
pub open spec fn scan_after(scan: AuditScanView, line: Seq<char>, target: Seq<char>) -> AuditScanView {
    match audit_msg_id(line) {
        None => scan,
        Some(id) => {
            let at = event_index(scan.events, id);
            let ev = event_after(
                match at {
                    Some(i) => scan.events[i].1,
                    None => blank_event(),
                },
                line,
                target,
            );
            AuditScanView {
                events: match at {
                    Some(i) => scan.events.update(i, (id, ev)),
                    None => scan.events.push((id, ev)),
                },
                last_match: if tells_modification(ev) && (match scan.last_match {
                    Some((sec, _)) => ev.sec >= sec,
                    None => true,
                }) {
                    Some((ev.sec, id))
                } else {
                    scan.last_match
                },
            }
        },
    }
}

/// The scan of the lines of an audit log.
pub open spec fn audit_scan(lines: Seq<Seq<char>>, target: Seq<char>) -> AuditScanView
    decreases lines.len(),
{
    if lines.len() == 0 {
        AuditScanView { events: Seq::empty(), last_match: None }
    } else {
        scan_after(audit_scan(lines.drop_last(), target), lines.last(), target)
    }
}

/// How a time is known.
#[derive(Clone, Copy, Debug, PartialEq, Eq, Structural)]
pub enum TouchTime {
    /// Whole seconds since the epoch.
    Seconds(u64),
    /// Microseconds since the epoch.
    Micros(u64),
    /// Not known: the present stands in for it.
    Now,
    /// The time at which the file was last modified, by its own metadata.
    Modified,
}

/// Who last modified a file, and by what this is known.
#[derive(Clone, Debug, PartialEq, Eq)]
pub struct TouchInfo {
    pub user: String,
    pub process: String,
    pub time: TouchTime,
    pub source: String,
    pub metadata_only: bool,
}

/// An attribution as a value.
pub struct TouchView {
    pub user: Seq<char>,
    pub process: Seq<char>,
    pub time: TouchTime,
    pub source: Seq<char>,
    pub metadata_only: bool,
}

impl View for TouchInfo {
    type V = TouchView;

    open spec fn view(&self) -> TouchView {
        TouchView {
            user: self.user@,
            process: self.process@,
            time: self.time,
            source: self.source@,
            metadata_only: self.metadata_only,
        }
    }
}

/// An optional attribution as a value.
pub open spec fn touch_view(t: Option<TouchInfo>) -> Option<TouchView> {
    match t {
        Some(info) => Some(info@),
        None => None,
    }
}

/// What the audit log tells of the last modification of the target: the
/// user and the command of the latest event that tells of one, if there is
/// such an event. An event without a user counts as the user 0, one without
/// a command as `unknown`.
pub open spec fn audit_touch(
    lines: Seq<Seq<char>>,
    target: Seq<char>,
    names: Map<u32, Seq<char>>,
) -> Option<TouchView> {
    let scan = audit_scan(lines, target);
    match scan.last_match {
        None => None,
        Some((sec, id)) => match event_index(scan.events, id) {
            None => None,
            Some(i) => {
                let ev = scan.events[i].1;
                Some(
                    TouchView {
                        user: user_text(
                            match ev.uid {
                                Some(u) => u,
                                None => 0,
                            },
                            names,
                        ),
                        process: match ev.comm {
                            Some(c) => c,
                            None => "unknown"@,
                        },
                        time: TouchTime::Seconds(sec),
                        source: "audit"@,
                        metadata_only: false,
                    },
                )
            },
        },
    }
}

/// The events that a vector holds, as values.
pub open spec fn event_views(events: Seq<(String, AuditEvent)>) -> Seq<(Seq<char>, AuditEventView)> {
    events.map_values(|e: (String, AuditEvent)| (e.0@, e.1@))
}

/// Finds the event with this id.
fn find_event(events: &Vec<(String, AuditEvent)>, id: &str) -> (r: Option<usize>)
    ensures
        match r {
            Some(i) => i < events@.len() && event_index(event_views(events@), id@) == Some(
                i as int,
            ),
            None => event_index(event_views(events@), id@) is None,
        },
{
    let ghost all = event_views(events@);
    let mut n: usize = events.len();
    assert(all.take(n as int) =~= all);
    while n > 0
        invariant
            n <= events.len(),
            all == event_views(events@),
            event_index(all, id@) == event_index(all.take(n as int), id@),
        decreases n,
    {
        assert(all.take(n as int).drop_last() =~= all.take(n - 1));
        assert(all.take(n as int).last() == all[n - 1]);
        if text_eq(events[n - 1].0.as_str(), id) {
            return Some(n - 1);
        }
        n -= 1;
    }
    None
}

/// Enters one more line into an event.
fn apply_line(ev: &AuditEvent, line: &str, target: &str) -> (r: AuditEvent)
    ensures
        r@ == event_after(ev@, line@, target@),
{
    let chars = chars_of(line);
    let mut sec = ev.sec;
    if sec == 0 {
        sec = match extract_audit_seconds(line) {
            Some(s) => s,
            None => 0,
        };
    }
    let mut uid = ev.uid;
    let mut comm = ev.comm.clone();
    let mut syscall = ev.syscall;
    let mut a1 = ev.a1;
    let mut a2 = ev.a2;
    let mut success = ev.success;
    let mut has_target_path = ev.has_target_path;
    assert(match comm {
        Some(c) => Some(c@),
        None => None,
    } == ev@.comm);
    if contains_text(&chars, "type=SYSCALL") {
        syscall = extract_kv_u64(line, "syscall");
        uid = extract_kv_u32(line, "uid");
        comm = extract_kv_string(line, "comm");
        a1 = extract_kv_hex_u64(line, "a1");
        a2 = extract_kv_hex_u64(line, "a2");
        success = match extract_kv_string(line, "success") {
            Some(s) => Some(text_eq(s.as_str(), "yes")),
            None => None,
        };
    }
    if contains_text(&chars, "type=PATH") {
        match extract_kv_string(line, "name") {
            Some(name) => {
                if text_eq(name.as_str(), target) {
                    has_target_path = true;
                }
            },
            None => {},
        }
    }
    AuditEvent { sec, uid, comm, syscall, a1, a2, has_target_path, success }
}

/// Finds in the lines of an audit log who last modified the target.
pub fn try_audit_log(lines: &Vec<String>, target: &str, passwd: &HashMap<u32, String>) -> (r:
    Option<TouchInfo>)
    ensures
        touch_view(r) == audit_touch(line_views(lines@), target@, name_views(passwd@)),
{
    let ghost all = line_views(lines@);
    let mut events: Vec<(String, AuditEvent)> = Vec::new();
    let mut last_match: Option<(u64, String)> = None;
    let mut i: usize = 0;
    assert(all.take(0) =~= Seq::<Seq<char>>::empty());
    assert(event_views(events@) =~= Seq::<(Seq<char>, AuditEventView)>::empty());
    while i < lines.len()
        invariant
            i <= lines.len(),
            all == line_views(lines@),
            event_views(events@) == audit_scan(all.take(i as int), target@).events,
            match last_match {
                Some((sec, id)) => audit_scan(all.take(i as int), target@).last_match == Some(
                    (sec, id@),
                ),
                None => audit_scan(all.take(i as int), target@).last_match is None,
            },
        decreases lines.len() - i,
    {
        assert(all.take(i + 1).drop_last() =~= all.take(i as int));
        assert(all.take(i + 1).last() == lines@[i as int]@);
        let line = lines[i].as_str();
        match extract_audit_msg_id(line) {
            None => {},
            Some(id) => {
                let ghost before = event_views(events@);
                let at = find_event(&events, id.as_str());
                let ev = match at {
                    Some(k) => {
                        assert(before[k as int].1 == events@[k as int].1@);
                        apply_line(&events[k].1, line, target)
                    },
                    None => {
                        let blank = AuditEvent {
                            sec: 0,
                            uid: None,
                            comm: None,
                            syscall: None,
                            a1: None,
                            a2: None,
                            has_target_path: false,
                            success: None,
                        };
                        apply_line(&blank, line, target)
                    },
                };
                let tells = ev.has_target_path && (match ev.success {
                    Some(true) => true,
                    _ => false,
                }) && (match ev.syscall {
                    Some(call) => audit_event_is_modification(call, ev.a1, ev.a2),
                    None => false,
                }) && ev.sec > 0;
                assert(tells == tells_modification(ev@));
                let later = match &last_match {
                    Some((sec, _)) => ev.sec >= *sec,
                    None => true,
                };
                if tells && later {
                    last_match = Some((ev.sec, id.clone()));
                }
                let ghost held = events@;
                match at {
                    Some(k) => {
                        events.set(k, (id, ev));
                        assert(event_views(events@) =~= before.update(k as int, (id@, ev@)));
                    },
                    None => {
                        events.push((id, ev));
                        assert(event_views(events@) =~= before.push((id@, ev@)));
                    },
                }
            },
        }
        i += 1;
    }
    assert(all.take(i as int) =~= all);
    let (sec, id) = match last_match {
        Some(found) => found,
        None => {
            return None;
        },
    };
    let k = match find_event(&events, id.as_str()) {
        Some(k) => k,
        None => {
            return None;
        },
    };
    assert(event_views(events@)[k as int].1 == events@[k as int].1@);
    let ev = &events[k].1;
    let uid = match ev.uid {
        Some(u) => u,
        None => 0,
    };
    let process = match &ev.comm {
        Some(c) => c.clone(),
        None => String::from_str("unknown"),
    };
    Some(
        TouchInfo {
            user: uid_to_user(uid, passwd),
            process,
            time: TouchTime::Seconds(sec),
            source: String::from_str("audit"),
            metadata_only: false,
        },
    )
}

/// What is known of the last modification where only the file's own
/// metadata can be asked: neither the user nor the process.
pub fn metadata_touch() -> (r: TouchInfo)
    ensures
        r@.user == "unknown"@,
        r@.process == "unknown"@,
        r@.time == TouchTime::Modified,
        r@.source == "metadata"@,
        r@.metadata_only,
{
    TouchInfo {
        user: String::from_str("unknown"),
        process: String::from_str("unknown"),
        time: TouchTime::Modified,
        source: String::from_str("metadata"),
        metadata_only: true,
    }
}

/// A line is blank: it holds nothing but white space.
pub open spec fn is_blank(line: Seq<char>) -> bool {
    forall|i: int| 0 <= i < line.len() ==> is_space(#[trigger] line[i])
}

/// Where the first blank line at or after `from` stands; the number of lines
/// if there is none.
pub open spec fn first_blank_from(lines: Seq<Seq<char>>, from: int) -> int
    recommends
        0 <= from,
    decreases lines.len() - from,
{
    if from >= lines.len() {
        lines.len() as int
    } else if is_blank(lines[from]) {
        from
    } else {
        first_blank_from(lines, from + 1)
    }
}

/// The value of a field among the lines of a journal entry: each line reads
/// `key=value`, parted at its first `=`, and of two lines with the same key
/// the later one counts.
pub open spec fn journal_field(lines: Seq<Seq<char>>, key: Seq<char>) -> Option<Seq<char>>
    decreases lines.len(),
{
    if lines.len() == 0 {
        None
    } else {
        let line = lines.last();
        let eq = first_index_from(line, '=', 0);
        if eq < line.len() && line.take(eq) == key {
            Some(line.skip(eq + 1))
        } else {
            journal_field(lines.drop_last(), key)
        }
    }
}

/// What an entry of the journal tells of the last modification. Output that
/// is all blank tells nothing. Else the entry is the lines up to the first
/// blank one: its process is the field `_COMM`, or `SYSLOG_IDENTIFIER`, or
/// `unknown`; its user that of the field `_UID`, or `unknown` where that is
/// no user id; its time the microseconds of `__REALTIME_TIMESTAMP`, or not
/// known.
pub open spec fn journal_touch(lines: Seq<Seq<char>>, names: Map<u32, Seq<char>>) -> Option<
    TouchView,
> {
    let end = first_blank_from(lines, 0);
    if forall|i: int| 0 <= i < lines.len() ==> is_blank(#[trigger] lines[i]) {
        None
    } else {
        let entry = lines.take(end);
        Some(
            TouchView {
                user: match journal_field(entry, "_UID"@) {
                    Some(text) => match unsigned_value(text, 10, u32::MAX as nat) {
                        Some(uid) => user_text(uid as u32, names),
                        None => "unknown"@,
                    },
                    None => "unknown"@,
                },
                process: match journal_field(entry, "_COMM"@) {
                    Some(c) => c,
                    None => match journal_field(entry, "SYSLOG_IDENTIFIER"@) {
                        Some(c) => c,
                        None => "unknown"@,
                    },
                },
                time: match journal_field(entry, "__REALTIME_TIMESTAMP"@) {
                    Some(text) => match unsigned_value(text, 10, u64::MAX as nat) {
                        Some(us) => TouchTime::Micros(us as u64),
                        None => TouchTime::Now,
                    },
                    None => TouchTime::Now,
                },
                source: "journal"@,
                metadata_only: false,
            },
        )
    }
}

/// Whether a line is blank.
pub fn line_is_blank(line: &str) -> (r: bool)
    ensures
        r == is_blank(line@),
{
    let chars = chars_of(line);
    let mut i: usize = 0;
    while i < chars.len()
        invariant
            i <= chars.len(),
            chars@ == line@,
            forall|j: int| 0 <= j < i ==> is_space(#[trigger] chars@[j]),
        decreases chars.len() - i,
    {
        if !is_whitespace(chars[i]) {
            return false;
        }
        i += 1;
    }
    true
}

/// The value of a field among the first `count` lines.
fn journal_value(lines: &Vec<String>, count: usize, key: &str) -> (r: Option<(usize, usize)>)
    requires
        count <= lines.len(),
    ensures
        match r {
            Some((k, from)) => k < count && from <= lines@[k as int]@.len() && journal_field(
                line_views(lines@).take(count as int),
                key@,
            ) == Some(lines@[k as int]@.skip(from as int)),
            None => journal_field(line_views(lines@).take(count as int), key@) is None,
        },
{
    let ghost entry = line_views(lines@).take(count as int);
    let mut n: usize = count;
    assert(entry.take(n as int) =~= entry);
    while n > 0
        invariant
            n <= count <= lines.len(),
            entry == line_views(lines@).take(count as int),
            journal_field(entry, key@) == journal_field(entry.take(n as int), key@),
        decreases n,
    {
        assert(entry.take(n as int).drop_last() =~= entry.take(n - 1));
        assert(entry.take(n as int).last() == lines@[n - 1]@);
        let chars = chars_of(lines[n - 1].as_str());
        let eq = find_char(&chars, '=', 0);
        if eq < chars.len() {
            let name = copy_range(&chars, 0, eq);
            assert(name@ =~= chars@.take(eq as int));
            let wanted = chars_of(key);
            if same_chars(&name, &wanted) {
                return Some((n - 1, eq + 1));
            }
        }
        n -= 1;
    }
    None
}

/// The value of a field among the first `count` lines, as a text.
fn journal_text(lines: &Vec<String>, count: usize, key: &str) -> (r: Option<String>)
    requires
        count <= lines.len(),
    ensures
        match r {
            Some(v) => journal_field(line_views(lines@).take(count as int), key@) == Some(v@),
            None => journal_field(line_views(lines@).take(count as int), key@) is None,
        },
{
    match journal_value(lines, count, key) {
        Some((k, from)) => {
            let line = lines[k].as_str();
            let n = line.unicode_len();
            assert(line@.subrange(from as int, n as int) =~= line@.skip(from as int));
            Some(String::from_str(line.substring_char(from, n)))
        },
        None => None,
    }
}

/// The value of a field among the first `count` lines, as a number.
fn journal_number(lines: &Vec<String>, count: usize, key: &str, max: u64) -> (r: Option<u64>)
    requires
        count <= lines.len(),
    ensures
        match journal_field(line_views(lines@).take(count as int), key@) {
            Some(text) => match r {
                Some(v) => unsigned_value(text, 10, max as nat) == Some(v as nat),
                None => unsigned_value(text, 10, max as nat) is None,
            },
            None => r is None,
        },
{
    match journal_value(lines, count, key) {
        Some((k, from)) => {
            let chars = chars_of(lines[k].as_str());
            let digits = copy_range(&chars, from, chars.len());
            assert(digits@ =~= lines@[k as int]@.skip(from as int));
            parse_unsigned(&digits, 10, max)
        },
        None => None,
    }
}

/// Finds in the lines of an entry of the journal who last modified the file
/// that the entry was searched by.
pub fn try_journalctl(lines: &Vec<String>, passwd: &HashMap<u32, String>) -> (r: Option<TouchInfo>)
    ensures
        touch_view(r) == journal_touch(line_views(lines@), name_views(passwd@)),
{
    let ghost all = line_views(lines@);
    let mut end: usize = 0;
    let mut at_blank = false;
    while end < lines.len() && !at_blank
        invariant
            end <= lines.len(),
            all == line_views(lines@),
            first_blank_from(all, 0) == first_blank_from(all, end as int),
            forall|j: int| 0 <= j < end ==> !is_blank(#[trigger] all[j]),
            at_blank ==> end < lines.len() && is_blank(all[end as int]),
        decreases lines.len() - end + if at_blank { 0int } else { 1int },
    {
        assert(all[end as int] == lines@[end as int]@);
        if line_is_blank(lines[end].as_str()) {
            at_blank = true;
        } else {
            end += 1;
        }
    }
    assert(end == first_blank_from(all, 0));
    let mut k: usize = end;
    let mut at_text = false;
    while k < lines.len() && !at_text
        invariant
            end <= k <= lines.len(),
            all == line_views(lines@),
            forall|j: int| end <= j < k ==> is_blank(#[trigger] all[j]),
            at_text ==> k < lines.len() && !is_blank(all[k as int]),
        decreases lines.len() - k + if at_text { 0int } else { 1int },
    {
        assert(all[k as int] == lines@[k as int]@);
        if !line_is_blank(lines[k].as_str()) {
            at_text = true;
        } else {
            k += 1;
        }
    }
    if end == 0 && k == lines.len() {
        return None;
    }
    proof {
        if end > 0 {
            assert(!is_blank(all[0]));
        } else {
            assert(!is_blank(all[k as int]));
        }
    }
    let user = match journal_number(lines, end, "_UID", 0xffff_ffff) {
        Some(uid) => uid_to_user(uid as u32, passwd),
        None => String::from_str("unknown"),
    };
    let process = match journal_text(lines, end, "_COMM") {
        Some(c) => c,
        None => match journal_text(lines, end, "SYSLOG_IDENTIFIER") {
            Some(c) => c,
            None => String::from_str("unknown"),
        },
    };
    let time = match journal_number(lines, end, "__REALTIME_TIMESTAMP", u64::MAX) {
        Some(us) => TouchTime::Micros(us),
        None => TouchTime::Now,
    };
    Some(TouchInfo { user, process, time, source: String::from_str("journal"), metadata_only: false })
}

} // verus!
