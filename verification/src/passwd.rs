//! The user database: the name that goes with a numeric user id.

use crate::number::{decimal_text, parse_unsigned, push_decimal, unsigned_value};
use crate::text::{chars_of, copy_range, find_char, first_index_from, line_views};
use std::collections::HashMap;
use vstd::prelude::*;
use vstd::string::{StrSliceExecFns, StringExecFns};

verus! {

broadcast use vstd::std_specs::hash::group_hash_axioms;

/// The user that a line of the user database names: the line's fields are
/// parted by colons, the first is the name and the third the numeric id, of
/// 32 bits in decimal. A line with an empty name, with fewer than three
/// fields or with an id that cannot be read names none.
pub open spec fn passwd_entry(line: Seq<char>) -> Option<(u32, Seq<char>)> {
    let first = first_index_from(line, ':', 0);
    if first == 0 || first >= line.len() {
        None
    } else {
        let second = first_index_from(line, ':', first + 1);
        if second >= line.len() {
            None
        } else {
            let third = first_index_from(line, ':', second + 1);
            match unsigned_value(line.subrange(second + 1, third), 10, u32::MAX as nat) {
                Some(uid) => Some((uid as u32, line.take(first))),
                None => None,
            }
        }
    }
}

/// The names by user id that the lines of the user database give; of two
/// lines with the same id the later one counts.
pub open spec fn passwd_names(lines: Seq<Seq<char>>) -> Map<u32, Seq<char>>
    decreases lines.len(),
{
    if lines.len() == 0 {
        Map::empty()
    } else {
        let before = passwd_names(lines.drop_last());
        match passwd_entry(lines.last()) {
            Some((uid, name)) => before.insert(uid, name),
            None => before,
        }
    }
}

/// The names that a user database holds, as values.
pub open spec fn name_views(names: Map<u32, String>) -> Map<u32, Seq<char>> {
    names.map_values(|n: String| n@)
}

/// Reads one line of the user database.
pub fn parse_passwd_line(line: &str) -> (r: Option<(u32, String)>)
    ensures
        match r {
            Some((uid, name)) => passwd_entry(line@) == Some((uid, name@)),
            None => passwd_entry(line@) is None,
        },
{
    let chars = chars_of(line);
    let first = find_char(&chars, ':', 0);
    if first == 0 || first >= chars.len() {
        return None;
    }
    let second = find_char(&chars, ':', first + 1);
    if second >= chars.len() {
        return None;
    }
    let third = find_char(&chars, ':', second + 1);
    let uid_text = copy_range(&chars, second + 1, third);
    match parse_unsigned(&uid_text, 10, 0xffff_ffff) {
        Some(uid) => {
            assert(line@.take(first as int) =~= line@.subrange(0, first as int));
            Some((uid as u32, String::from_str(line.substring_char(0, first))))
        },
        None => None,
    }
}

/// Reads the lines of the user database.
pub fn parse_passwd(lines: &Vec<String>) -> (names: HashMap<u32, String>)
    ensures
        name_views(names@) == passwd_names(line_views(lines@)),
{
    let mut names: HashMap<u32, String> = HashMap::new();
    let ghost all = line_views(lines@);
    let mut i: usize = 0;
    assert(all.take(0) =~= Seq::<Seq<char>>::empty());
    assert(name_views(names@) =~= Map::<u32, Seq<char>>::empty());
    while i < lines.len()
        invariant
            i <= lines.len(),
            all == line_views(lines@),
            name_views(names@) == passwd_names(all.take(i as int)),
        decreases lines.len() - i,
    {
        assert(all.take(i + 1).drop_last() =~= all.take(i as int));
        assert(all.take(i + 1).last() == lines@[i as int]@);
        match parse_passwd_line(lines[i].as_str()) {
            Some((uid, name)) => {
                let ghost before = names@;
                names.insert(uid, name);
                assert(name_views(names@) =~= name_views(before).insert(uid, name@));
            },
            None => {},
        }
        i += 1;
    }
    assert(all.take(i as int) =~= all);
    names
}

/// The name shown for a user id: the name that the user database has for
/// it, or the id in decimal where it has none.
pub open spec fn user_text(uid: u32, names: Map<u32, Seq<char>>) -> Seq<char> {
    if names.contains_key(uid) {
        names[uid]
    } else {
        decimal_text(uid as nat)
    }
}

/// The name to show for a user id.
pub fn uid_to_user(uid: u32, passwd: &HashMap<u32, String>) -> (r: String)
    ensures
        r@ == user_text(uid, name_views(passwd@)),
{
    match passwd.get(&uid) {
        Some(name) => name.clone(),
        None => {
            let mut out = String::new();
            push_decimal(&mut out, uid as u64);
            assert(Seq::<char>::empty() + decimal_text(uid as nat) =~= decimal_text(uid as nat));
            out
        },
    }
}

} // verus!
