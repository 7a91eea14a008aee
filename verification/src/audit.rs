//! Lines of the audit log: the event a line belongs to, the fields it
//! carries, and whether an audited system call modifies a file.

use crate::number::{parse_unsigned, parse_u64, unsigned_value};
use crate::text::{chars_of, copy_range, find_char, first_index_from};
use vstd::prelude::*;
use vstd::string::{StrSliceExecFns, StringExecFns};

verus! {

/// `needle` stands in `hay` at position `i`.
pub open spec fn occurs_at(hay: Seq<char>, needle: Seq<char>, i: int) -> bool {
    0 <= i && i + needle.len() <= hay.len() && hay.subrange(i, i + needle.len()) == needle
}

/// Where `needle` first stands in `hay` at or after `from`, if it does.
pub open spec fn first_occurrence_from(hay: Seq<char>, needle: Seq<char>, from: int) -> Option<int>
    recommends
        0 <= from,
    decreases hay.len() - from,
{
    if from + needle.len() > hay.len() {
        None
    } else if occurs_at(hay, needle, from) {
        Some(from)
    } else if from >= hay.len() {
        None
    } else {
        first_occurrence_from(hay, needle, from + 1)
    }
}

/// Where `needle` first stands in `hay`, if it does.
pub open spec fn first_occurrence(hay: Seq<char>, needle: Seq<char>) -> Option<int> {
    first_occurrence_from(hay, needle, 0)
}

/// Whether `needle` stands in `hay` at position `at`.
fn matches_at(hay: &Vec<char>, needle: &Vec<char>, at: usize) -> (r: bool)
    requires
        at + needle.len() <= hay.len(),
    ensures
        r == occurs_at(hay@, needle@, at as int),
{
    let mut k: usize = 0;
    while k < needle.len()
        invariant
            k <= needle.len(),
            at + needle.len() <= hay.len(),
            forall|j: int| 0 <= j < k ==> hay@[at + j] == needle@[j],
        decreases needle.len() - k,
    {
        if hay[at + k] != needle[k] {
            assert(hay@.subrange(at as int, at + needle@.len())[k as int] != needle@[k as int]);
            return false;
        }
        k += 1;
    }
    assert(hay@.subrange(at as int, at + needle@.len()) =~= needle@);
    true
}

/// Finds where `needle` first stands in `hay`.
pub fn find_text(hay: &Vec<char>, needle: &Vec<char>) -> (r: Option<usize>)
    ensures
        match r {
            Some(i) => first_occurrence(hay@, needle@) == Some(i as int),
            None => first_occurrence(hay@, needle@) is None,
        },
        r matches Some(i) ==> i + needle@.len() <= hay@.len(),
{
    if needle.len() > hay.len() {
        return None;
    }
    if needle.len() == 0 {
        assert(hay@.subrange(0, 0) =~= needle@);
        return Some(0);
    }
    let last: usize = hay.len() - needle.len();
    let mut i: usize = 0;
    while i <= last
        invariant
            i <= last + 1,
            last == hay.len() - needle.len(),
            0 < needle.len() <= hay.len(),
            first_occurrence(hay@, needle@) == first_occurrence_from(hay@, needle@, i as int),
        decreases last + 1 - i,
    {
        if matches_at(hay, needle, i) {
            return Some(i);
        }
        i += 1;
    }
    None
}

/// Whether `needle` stands somewhere in `hay`.
pub fn contains_text(hay: &Vec<char>, needle: &str) -> (r: bool)
    ensures
        r == first_occurrence(hay@, needle@) is Some,
{
    let n = chars_of(needle);
    find_text(hay, &n).is_some()
}

/// What comes before the id of an audit event in a line of the log.
pub open spec fn audit_marker() -> Seq<char> {
    "msg=audit("@
}

/// What follows the marker of the event id in a line, if the line has one.
pub open spec fn after_audit_marker(line: Seq<char>) -> Option<Seq<char>> {
    match first_occurrence(line, audit_marker()) {
        Some(i) => Some(line.skip(i + audit_marker().len())),
        None => None,
    }
}

/// The id of the event that a line of the audit log belongs to: what stands
/// between `msg=audit(` and the next `)`.
pub open spec fn audit_msg_id(line: Seq<char>) -> Option<Seq<char>> {
    match after_audit_marker(line) {
        Some(rest) => {
            let end = first_index_from(rest, ')', 0);
            if end >= rest.len() {
                None
            } else {
                Some(rest.take(end))
            }
        },
        None => None,
    }
}

/// The time of an event in whole seconds: what stands between `msg=audit(`
/// and the next `:`, up to a `.` if there is one, read in decimal.
pub open spec fn audit_seconds(line: Seq<char>) -> Option<u64> {
    match after_audit_marker(line) {
        Some(rest) => {
            let end = first_index_from(rest, ':', 0);
            if end >= rest.len() {
                None
            } else {
                let stamp = rest.take(end);
                let dot = first_index_from(stamp, '.', 0);
                match unsigned_value(stamp.take(dot), 10, u64::MAX as nat) {
                    Some(v) => Some(v as u64),
                    None => None,
                }
            }
        },
        None => None,
    }
}

/// Where in a line what follows the marker of the event id begins.
fn after_marker(chars: &Vec<char>) -> (r: Option<usize>)
    ensures
        match r {
            Some(at) => at <= chars@.len() && after_audit_marker(chars@) == Some(
                chars@.skip(at as int),
            ),
            None => after_audit_marker(chars@) is None,
        },
{
    let marker = chars_of("msg=audit(");
    let length = chars.len();
    match find_text(chars, &marker) {
        Some(i) => Some(i + marker.len()),
        None => None,
    }
}

/// Reads the id of the event that a line of the audit log belongs to.
pub fn extract_audit_msg_id(line: &str) -> (r: Option<String>)
    ensures
        match r {
            Some(id) => audit_msg_id(line@) == Some(id@),
            None => audit_msg_id(line@) is None,
        },
{
    let chars = chars_of(line);
    let start = match after_marker(&chars) {
        Some(at) => at,
        None => {
            return None;
        },
    };
    let rest = copy_range(&chars, start, chars.len());
    assert(rest@ =~= chars@.skip(start as int));
    let end = find_char(&rest, ')', 0);
    if end >= rest.len() {
        return None;
    }
    assert(rest@.take(end as int) =~= line@.subrange(start as int, start + end));
    Some(String::from_str(line.substring_char(start, start + end)))
}

/// Reads the time of an event in whole seconds.
pub fn extract_audit_seconds(line: &str) -> (r: Option<u64>)
    ensures
        r == audit_seconds(line@),
{
    let chars = chars_of(line);
    let start = match after_marker(&chars) {
        Some(at) => at,
        None => {
            return None;
        },
    };
    let rest = copy_range(&chars, start, chars.len());
    assert(rest@ =~= chars@.skip(start as int));
    let end = find_char(&rest, ':', 0);
    if end >= rest.len() {
        return None;
    }
    let stamp = copy_range(&rest, 0, end);
    assert(stamp@ =~= rest@.take(end as int));
    let dot = find_char(&stamp, '.', 0);
    let whole = copy_range(&stamp, 0, dot);
    assert(whole@ =~= stamp@.take(dot as int));
    parse_u64(&whole)
}

/// The value of a field `key=value` of a line: what follows the first
/// `key=`. A value that begins with a double quote runs to the next double
/// quote, and there is none without one; any other value runs to the next
/// blank or to the end of the line.
pub open spec fn kv_text(line: Seq<char>, key: Seq<char>) -> Option<Seq<char>> {
    match first_occurrence(line, key + seq!['=']) {
        Some(i) => {
            let rest = line.skip(i + key.len() + 1);
            if rest.len() > 0 && rest[0] == '"' {
                let inner = rest.skip(1);
                let end = first_index_from(inner, '"', 0);
                if end >= inner.len() {
                    None
                } else {
                    Some(inner.take(end))
                }
            } else {
                Some(rest.take(first_index_from(rest, ' ', 0)))
            }
        },
        None => None,
    }
}

/// The range of a line that holds the value of a field.
fn kv_range(chars: &Vec<char>, key: &str) -> (r: Option<(usize, usize)>)
    ensures
        match r {
            Some((from, to)) => from <= to <= chars@.len() && kv_text(chars@, key@) == Some(
                chars@.subrange(from as int, to as int),
            ),
            None => kv_text(chars@, key@) is None,
        },
{
    let mut needle = chars_of(key);
    needle.push('=');
    assert(needle@ =~= key@ + seq!['=']);
    let length = chars.len();
    let at = match find_text(chars, &needle) {
        Some(i) => i + needle.len(),
        None => {
            return None;
        },
    };
    let ghost rest = chars@.skip(at as int);
    if at < chars.len() && chars[at] == '"' {
        let end = find_char(chars, '"', at + 1);
        proof {
            lemma_first_index_shift(chars@, '"', at + 1, at + 1);
            assert(chars@.skip(at + 1) =~= rest.skip(1));
        }
        if end >= chars.len() {
            return None;
        }
        assert(rest.skip(1).take(end - at - 1) =~= chars@.subrange(at + 1, end as int));
        Some((at + 1, end))
    } else {
        let end = find_char(chars, ' ', at);
        proof {
            lemma_first_index_shift(chars@, ' ', at as int, at as int);
        }
        assert(rest.take(end - at) =~= chars@.subrange(at as int, end as int));
        Some((at, end))
    }
}

/// Searching a text from a position on finds what searching the rest of the
/// text finds, counted from that position.
pub proof fn lemma_first_index_shift(s: Seq<char>, c: char, start: int, from: int)
    requires
        0 <= start <= from <= s.len(),
    ensures
        first_index_from(s, c, from) == start + first_index_from(s.skip(start), c, from - start),
    decreases s.len() - from,
{
    if from < s.len() {
        assert(s.skip(start)[from - start] == s[from]);
        if s[from] != c {
            lemma_first_index_shift(s, c, start, from + 1);
        }
    }
}

/// Reads the value of a field of a line.
pub fn extract_kv_string(line: &str, key: &str) -> (r: Option<String>)
    ensures
        match r {
            Some(v) => kv_text(line@, key@) == Some(v@),
            None => kv_text(line@, key@) is None,
        },
{
    let chars = chars_of(line);
    match kv_range(&chars, key) {
        Some((from, to)) => Some(String::from_str(line.substring_char(from, to))),
        None => None,
    }
}

/// The value of a field read as a number in a radix, no larger than `max`.
pub open spec fn kv_number(line: Seq<char>, key: Seq<char>, radix: nat, max: nat) -> Option<nat> {
    match kv_text(line, key) {
        Some(v) => unsigned_value(v, radix, max),
        None => None,
    }
}

/// Reads the value of a field as a number.
fn extract_kv_number(line: &str, key: &str, radix: u32, max: u64) -> (r: Option<u64>)
    requires
        2 <= radix <= 36,
    ensures
        match r {
            Some(v) => kv_number(line@, key@, radix as nat, max as nat) == Some(v as nat),
            None => kv_number(line@, key@, radix as nat, max as nat) is None,
        },
{
    let chars = chars_of(line);
    match kv_range(&chars, key) {
        Some((from, to)) => {
            let value = copy_range(&chars, from, to);
            parse_unsigned(&value, radix, max)
        },
        None => None,
    }
}

/// Reads the value of a field as 64 bits in decimal.
pub fn extract_kv_u64(line: &str, key: &str) -> (r: Option<u64>)
    ensures
        match r {
            Some(v) => kv_number(line@, key@, 10, u64::MAX as nat) == Some(v as nat),
            None => kv_number(line@, key@, 10, u64::MAX as nat) is None,
        },
{
    extract_kv_number(line, key, 10, u64::MAX)
}

/// Reads the value of a field as 32 bits in decimal.
pub fn extract_kv_u32(line: &str, key: &str) -> (r: Option<u32>)
    ensures
        match r {
            Some(v) => kv_number(line@, key@, 10, u32::MAX as nat) == Some(v as nat),
            None => kv_number(line@, key@, 10, u32::MAX as nat) is None,
        },
{
    match extract_kv_number(line, key, 10, 0xffff_ffff) {
        Some(v) => Some(v as u32),
        None => None,
    }
}

/// Reads the value of a field as 64 bits in hexadecimal.
pub fn extract_kv_hex_u64(line: &str, key: &str) -> (r: Option<u64>)
    ensures
        match r {
            Some(v) => kv_number(line@, key@, 16, u64::MAX as nat) == Some(v as nat),
            None => kv_number(line@, key@, 16, u64::MAX as nat) is None,
        },
{
    extract_kv_number(line, key, 16, u64::MAX)
}

/// The open flags that make an open modify the file: write only, read and
/// write, truncate, create.
pub const MODIFYING_OPEN_FLAGS: u64 = 0o1103;

/// Whether an open with these flags can modify the file.
pub open spec fn flags_modify(flags: u64) -> bool {
    (flags & MODIFYING_OPEN_FLAGS) != 0
}

/// Whether an open with these flags can modify the file.
pub fn open_flags_modify(flags: u64) -> (r: bool)
    ensures
        r == flags_modify(flags),
{
    (flags & MODIFYING_OPEN_FLAGS) != 0
}

/// Whether an audited system call modifies the file it names. `open` (2)
/// goes by its flags in the second argument, `openat` (257) by its flags in
/// the third, a missing argument counting as no flags; truncate, rename,
/// unlink, chmod and chown and their relatives always do; no other call does.
pub open spec fn is_modification(syscall: u64, a1: Option<u64>, a2: Option<u64>) -> bool {
    if syscall == 2 {
        flags_modify(
            match a1 {
                Some(f) => f,
                None => 0,
            },
        )
    } else if syscall == 257 {
        flags_modify(
            match a2 {
                Some(f) => f,
                None => 0,
            },
        )
    } else {
        syscall == 76 || syscall == 77 || syscall == 82 || syscall == 87 || syscall == 90
            || syscall == 92 || syscall == 260 || syscall == 263 || syscall == 264 || syscall
            == 268 || syscall == 280 || syscall == 316
    }
}

/// Whether an audited system call modifies the file it names.
pub fn audit_event_is_modification(syscall: u64, a1: Option<u64>, a2: Option<u64>) -> (r: bool)
    ensures
        r == is_modification(syscall, a1, a2),
{
    match syscall {
        2 => {
            let flags = match a1 {
                Some(f) => f,
                None => 0,
            };
            open_flags_modify(flags)
        },
        257 => {
            let flags = match a2 {
                Some(f) => f,
                None => 0,
            };
            open_flags_modify(flags)
        },
        76 | 77 | 82 | 87 | 90 | 92 | 260 | 263 | 264 | 268 | 280 | 316 => true,
        _ => false,
    }
}

} // verus!
